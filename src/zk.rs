//! The guest side of the zkVM adapter: when simulated natively, the guest
//! reads back, in order, the 32-bit hint words that the host collected.

use vstd::prelude::*;

verus! {

/// Why a read from the hint words failed.
#[derive(Debug, Clone, Copy, PartialEq, Eq, Structural)]
pub enum HintReadError {
    /// Fewer words remain than the read needs.
    UnexpectedEnd,
}

/// Relies on `bytemuck::cast_slice::<u32, u8>`: the same memory seen as
/// bytes, four per word. The byte order is the machine's, so only the length
/// is promised; the cast of `u32` to `u8` cannot fail.
#[verifier::external_body]
fn words_as_bytes(words: &[u32]) -> (r: &[u8])
    ensures
        r@.len() == 4 * words@.len(),
{
    bytemuck::cast_slice(words)
}

/// Hint words and the position of the next one to read.
#[derive(Debug)]
pub struct Hints {
    values: Vec<u32>,
    position: usize,
}

impl Hints {
    /// The words handed in, in order.
    pub closed spec fn values(&self) -> Seq<u32> {
        self.values@
    }

    /// How many words have been read.
    pub closed spec fn position(&self) -> nat {
        self.position as nat
    }

    pub closed spec fn wf(&self) -> bool {
        self.position <= self.values@.len()
    }

    /// No hints.
    pub fn new() -> (r: Hints)
        ensures
            r.wf(),
            r.values() == Seq::<u32>::empty(),
            r.position() == 0,
    {
        Hints { values: Vec::new(), position: 0 }
    }

    /// The given hint words, none read yet.
    pub fn with_hints(hints: Vec<u32>) -> (r: Hints)
        ensures
            r.wf(),
            r.values() == hints@,
            r.position() == 0,
    {
        Hints { values: hints, position: 0 }
    }

    /// How many words are left to read.
    pub fn remaining(&self) -> (r: usize)
        requires
            self.wf(),
        ensures
            r == self.values().len() - self.position(),
    {
        self.values.len() - self.position
    }

    /// Fills `words` with the next words and moves past them; fails, reading
    /// nothing, when fewer remain.
    pub fn read_words(&mut self, words: &mut [u32]) -> (r: Result<(), HintReadError>)
        requires
            old(self).wf(),
        ensures
            final(self).wf(),
            final(self).values() == old(self).values(),
            final(words)@.len() == old(words)@.len(),
            r is Ok <==> old(words)@.len() <= old(self).values().len() - old(self).position(),
            r is Ok ==> final(self).position() == old(self).position() + old(words)@.len()
                && final(words)@ == old(self).values().subrange(
                old(self).position() as int,
                (old(self).position() + old(words)@.len()) as int,
            ),
            r is Err ==> final(self).position() == old(self).position() && final(words)@ == old(
                words,
            )@,
    {
        if self.remaining() < words.len() {
            return Err(HintReadError::UnexpectedEnd);
        }
        let start = self.position;
        let n = words.len();
        let len = self.values.len();
        assert(start + n <= len);
        let mut i: usize = 0;
        while i < n
            invariant
                self.wf(),
                self.position == start,
                self.values@ == old(self).values@,
                start + n <= len,
                len == self.values@.len(),
                n == words@.len(),
                i <= n,
                forall|k: int| 0 <= k < i ==> words@[k] == self.values@[start + k],
            decreases n - i,
        {
            words[i] = self.values[start + i];
            i = i + 1;
        }
        assert(words@ =~= old(self).values().subrange(start as int, start + n));
        self.position = start + n;
        Ok(())
    }

    /// Fills `bytes` from the memory of the remaining words and moves past
    /// `bytes.len() / 4` of them; fails, reading nothing, when the remaining
    /// words hold fewer bytes.
    pub fn read_padded_bytes(&mut self, bytes: &mut [u8]) -> (r: Result<(), HintReadError>)
        requires
            old(self).wf(),
        ensures
            final(self).wf(),
            final(self).values() == old(self).values(),
            final(bytes)@.len() == old(bytes)@.len(),
            r is Ok <==> old(bytes)@.len() <= 4 * (old(self).values().len() - old(self).position()),
            r is Ok ==> final(self).position() == old(self).position() + old(bytes)@.len() / 4,
            r is Err ==> final(self).position() == old(self).position() && final(bytes)@ == old(
                bytes,
            )@,
    {
        let (_, rest) = self.values.as_slice().split_at(self.position);
        let remaining_bytes = words_as_bytes(rest);
        if bytes.len() > remaining_bytes.len() {
            return Err(HintReadError::UnexpectedEnd);
        }
        let n = bytes.len();
        let mut i: usize = 0;
        while i < n
            invariant
                n == bytes@.len(),
                n <= remaining_bytes@.len(),
                i <= n,
            decreases n - i,
        {
            bytes[i] = remaining_bytes[i];
            i = i + 1;
        }
        let pos = self.position;
        let len = self.values.len();
        assert(rest@.len() == len - pos);
        assert(n / 4 <= len - pos) by (nonlinear_arith)
            requires
                n <= 4 * (len - pos),
        ;
        self.position = pos + n / 4;
        Ok(())
    }
}

/// The guest side, simulated natively over the hints the host collected.
#[derive(Debug)]
pub struct Risc0Guest {
    hints: Hints,
}

impl Risc0Guest {
    /// The hints still to be read.
    pub closed spec fn hints(&self) -> &Hints {
        &self.hints
    }

    /// A guest with no hints.
    pub fn new() -> (r: Risc0Guest)
        ensures
            r.hints().wf(),
            r.hints().values() == Seq::<u32>::empty(),
            r.hints().position() == 0,
    {
        Risc0Guest { hints: Hints::new() }
    }

    /// A guest that will read `hints` from the start.
    pub fn with_hints(hints: Vec<u32>) -> (r: Risc0Guest)
        ensures
            r.hints().wf(),
            r.hints().values() == hints@,
            r.hints().position() == 0,
    {
        Risc0Guest { hints: Hints::with_hints(hints) }
    }

    /// The guest's hint reader.
    pub fn hints_mut(&mut self) -> (r: &mut Hints)
        ensures
            *r == *old(self).hints(),
            *final(self).hints() == *final(r),
    {
        &mut self.hints
    }
}

} // verus!
