//! The witness: hints recorded by native execution and replayed, in the
//! same order, by zk execution.

use vstd::prelude::*;
use crate::codec::{
    decode_u64, decode_value, encode_u64, encode_value, lemma_u64_round_trip,
    lemma_value_round_trip, opt_bytes_view, u64_decoding, u64_encoding, value_decoding,
    value_encoding,
};

verus! {

/// Why a hint could not be read.
#[derive(Debug, Clone, Copy, PartialEq, Eq, Structural)]
pub enum WitnessError {
    /// Every recorded hint has already been read.
    Exhausted,
    /// The next hint does not decode as the requested type.
    Undecodable,
}

/// What a witness holds: the encoded hints in recording order, and how many
/// of them have been read.
pub struct WitnessModel {
    pub hints: Seq<Seq<u8>>,
    pub next: nat,
}

impl WitnessModel {
    pub open spec fn wf(self) -> bool {
        self.next <= self.hints.len()
    }

    /// The hints that are still to be read, in order.
    pub open spec fn unread(self) -> Seq<Seq<u8>> {
        self.hints.subrange(self.next as int, self.hints.len() as int)
    }

    /// The state after one more hint is recorded.
    pub open spec fn record(self, hint: Seq<u8>) -> WitnessModel {
        WitnessModel { hints: self.hints.push(hint), next: self.next }
    }

    /// The state after the next hint is read; unchanged when none is left.
    pub open spec fn advance(self) -> WitnessModel {
        if self.next < self.hints.len() {
            WitnessModel { hints: self.hints, next: self.next + 1 }
        } else {
            self
        }
    }

    /// What reading the next hint as a `u64` returns.
    pub open spec fn read_u64(self) -> Result<u64, WitnessError> {
        if self.next < self.hints.len() {
            match u64_decoding(self.hints[self.next as int]) {
                Some(v) => Ok(v),
                None => Err(WitnessError::Undecodable),
            }
        } else {
            Err(WitnessError::Exhausted)
        }
    }

    /// What reading the next hint as an optional storage value returns.
    pub open spec fn read_value(self) -> Result<Option<Seq<u8>>, WitnessError> {
        if self.next < self.hints.len() {
            match value_decoding(self.hints[self.next as int]) {
                Some(v) => Ok(v),
                None => Err(WitnessError::Undecodable),
            }
        } else {
            Err(WitnessError::Exhausted)
        }
    }

    /// The state after `rhs`'s unread hints are appended.
    pub open spec fn merged(self, rhs: WitnessModel) -> WitnessModel {
        WitnessModel { hints: self.hints + rhs.unread(), next: self.next }
    }

    /// What `rhs` keeps once its unread hints have been handed over.
    pub open spec fn drained(self) -> WitnessModel {
        WitnessModel { hints: self.hints.subrange(0, self.next as int), next: self.next }
    }

    /// The state after recording each of `vs` as a `u64` hint, in order.
    pub open spec fn record_all_u64(self, vs: Seq<u64>) -> WitnessModel
        decreases vs.len(),
    {
        if vs.len() == 0 {
            self
        } else {
            self.record(u64_encoding(vs[0])).record_all_u64(vs.drop_first())
        }
    }

    /// The results of `n` successive `u64` reads.
    pub open spec fn read_n_u64(self, n: nat) -> Seq<Result<u64, WitnessError>>
        decreases n,
    {
        if n == 0 {
            seq![]
        } else {
            seq![self.read_u64()] + self.advance().read_n_u64((n - 1) as nat)
        }
    }

    /// The state after `n` successive reads.
    pub open spec fn advance_n(self, n: nat) -> WitnessModel
        decreases n,
    {
        if n == 0 {
            self
        } else {
            self.advance().advance_n((n - 1) as nat)
        }
    }
}

/// A `Vec`-backed witness. Each hint is stored as its own borsh-encoded byte
/// string, so a reader always knows where one hint ends, and a read of the
/// wrong type fails instead of consuming part of the next hint.
#[derive(Debug)]
pub struct ArrayWitness {
    next_idx: usize,
    hints: Vec<Vec<u8>>,
}

impl View for ArrayWitness {
    type V = WitnessModel;

    closed spec fn view(&self) -> WitnessModel {
        WitnessModel {
            hints: self.hints@.map_values(|h: Vec<u8>| h@),
            next: self.next_idx as nat,
        }
    }
}

impl ArrayWitness {
    /// An empty witness.
    pub fn new() -> (r: ArrayWitness)
        ensures
            r@.hints == Seq::<Seq<u8>>::empty(),
            r@.next == 0,
    {
        let r = ArrayWitness { next_idx: 0, hints: Vec::new() };
        assert(r@.hints =~= Seq::<Seq<u8>>::empty());
        r
    }

    /// The number of hints recorded so far.
    pub fn len(&self) -> (r: usize)
        ensures
            r == self@.hints.len(),
    {
        self.hints.len()
    }

    /// The number of hints still to be read.
    pub fn remaining(&self) -> (r: usize)
        requires
            self@.wf(),
        ensures
            r == self@.unread().len(),
    {
        self.hints.len() - self.next_idx
    }

    fn push_hint(&mut self, hint: Vec<u8>)
        ensures
            final(self)@ == old(self)@.record(hint@),
    {
        self.hints.push(hint);
        assert(self@.hints =~= old(self)@.hints.push(hint@));
    }

    /// Takes the next hint's bytes; advances past it when there is one.
    fn next_hint(&mut self) -> (r: Option<&Vec<u8>>)
        requires
            old(self)@.wf(),
        ensures
            final(self)@ == old(self)@.advance(),
            match r {
                Some(h) => old(self)@.next < old(self)@.hints.len() && h@ == old(
                    self,
                )@.hints[old(self)@.next as int],
                None => old(self)@.next >= old(self)@.hints.len(),
            },
    {
        if self.next_idx < self.hints.len() {
            let i = self.next_idx;
            self.next_idx = i + 1;
            Some(&self.hints[i])
        } else {
            None
        }
    }

    /// Records a `u64` hint.
    pub fn add_hint_u64(&mut self, hint: u64)
        ensures
            final(self)@ == old(self)@.record(u64_encoding(hint)),
    {
        let bytes = encode_u64(hint);
        self.push_hint(bytes);
    }

    /// Reads the next hint as a `u64`.
    pub fn get_hint_u64(&mut self) -> (r: Result<u64, WitnessError>)
        requires
            old(self)@.wf(),
        ensures
            r == old(self)@.read_u64(),
            final(self)@ == old(self)@.advance(),
    {
        match self.next_hint() {
            Some(h) => match decode_u64(h.as_slice()) {
                Some(v) => Ok(v),
                None => Err(WitnessError::Undecodable),
            },
            None => Err(WitnessError::Exhausted),
        }
    }

    /// Records an optional storage value as a hint.
    pub fn add_hint_value(&mut self, hint: &Option<Vec<u8>>)
        requires
            hint matches Some(b) ==> b@.len() <= u32::MAX,
        ensures
            final(self)@ == old(self)@.record(value_encoding(opt_bytes_view(*hint))),
    {
        let bytes = encode_value(hint);
        self.push_hint(bytes);
    }

    /// Reads the next hint as an optional storage value.
    pub fn get_hint_value(&mut self) -> (r: Result<Option<Vec<u8>>, WitnessError>)
        requires
            old(self)@.wf(),
        ensures
            final(self)@ == old(self)@.advance(),
            match r {
                Ok(v) => old(self)@.read_value() == Ok::<Option<Seq<u8>>, WitnessError>(
                    opt_bytes_view(v),
                ),
                Err(e) => old(self)@.read_value() == Err::<Option<Seq<u8>>, WitnessError>(e),
            },
    {
        match self.next_hint() {
            Some(h) => match decode_value(h.as_slice()) {
                Some(v) => Ok(v),
                None => Err(WitnessError::Undecodable),
            },
            None => Err(WitnessError::Exhausted),
        }
    }

    /// Moves the unread hints of `rhs` to the end of `self`, in order.
    pub fn merge(&mut self, rhs: &mut ArrayWitness)
        requires
            old(self)@.wf(),
            old(rhs)@.wf(),
        ensures
            final(self)@ == old(self)@.merged(old(rhs)@),
            final(rhs)@ == old(rhs)@.drained(),
    {
        let start = rhs.next_idx;
        let mut moved: Vec<Vec<u8>> = rhs.hints.split_off(start);
        assert(rhs@.hints =~= old(rhs)@.drained().hints);
        assert(moved@.map_values(|h: Vec<u8>| h@) =~= old(rhs)@.unread());
        self.hints.append(&mut moved);
        assert(self@.hints =~= old(self)@.merged(old(rhs)@).hints);
    }
}

impl Default for ArrayWitness {
    fn default() -> (r: ArrayWitness)
        ensures
            r@.hints == Seq::<Seq<u8>>::empty(),
            r@.next == 0,
    {
        ArrayWitness::new()
    }
}

/// A hint log: recorded during native execution, replayed in the same order
/// during zk execution.
pub trait Witness: Sized {
    /// What the witness holds.
    spec fn witness_model(&self) -> WitnessModel;

    /// Records a `u64` hint.
    fn add_hint_u64(&mut self, hint: u64)
        ensures
            final(self).witness_model() == old(self).witness_model().record(u64_encoding(hint)),
    ;

    /// Reads the next hint as a `u64`.
    fn get_hint_u64(&mut self) -> (r: Result<u64, WitnessError>)
        requires
            old(self).witness_model().wf(),
        ensures
            r == old(self).witness_model().read_u64(),
            final(self).witness_model() == old(self).witness_model().advance(),
    ;

    /// Records an optional storage value as a hint.
    fn add_hint_value(&mut self, hint: &Option<Vec<u8>>)
        requires
            hint matches Some(b) ==> b@.len() <= u32::MAX,
        ensures
            final(self).witness_model() == old(self).witness_model().record(
                value_encoding(opt_bytes_view(*hint)),
            ),
    ;

    /// Reads the next hint as an optional storage value.
    fn get_hint_value(&mut self) -> (r: Result<Option<Vec<u8>>, WitnessError>)
        requires
            old(self).witness_model().wf(),
        ensures
            final(self).witness_model() == old(self).witness_model().advance(),
            match r {
                Ok(v) => old(self).witness_model().read_value() == Ok::<
                    Option<Seq<u8>>,
                    WitnessError,
                >(opt_bytes_view(v)),
                Err(e) => old(self).witness_model().read_value() == Err::<
                    Option<Seq<u8>>,
                    WitnessError,
                >(e),
            },
    ;

    /// Moves the unread hints of `rhs` to the end of `self`, in order.
    fn merge(&mut self, rhs: &mut Self)
        requires
            old(self).witness_model().wf(),
            old(rhs).witness_model().wf(),
        ensures
            final(self).witness_model() == old(self).witness_model().merged(
                old(rhs).witness_model(),
            ),
            final(rhs).witness_model() == old(rhs).witness_model().drained(),
    ;
}

impl Witness for ArrayWitness {
    open spec fn witness_model(&self) -> WitnessModel {
        self@
    }

    fn add_hint_u64(&mut self, hint: u64) {
        ArrayWitness::add_hint_u64(self, hint)
    }

    fn get_hint_u64(&mut self) -> (r: Result<u64, WitnessError>) {
        ArrayWitness::get_hint_u64(self)
    }

    fn add_hint_value(&mut self, hint: &Option<Vec<u8>>) {
        ArrayWitness::add_hint_value(self, hint)
    }

    fn get_hint_value(&mut self) -> (r: Result<Option<Vec<u8>>, WitnessError>) {
        ArrayWitness::get_hint_value(self)
    }

    fn merge(&mut self, rhs: &mut ArrayWitness) {
        ArrayWitness::merge(self, rhs)
    }
}

/// Replay returns the recorded values in recording order: once the values
/// `vs` have been recorded as `u64` hints on a witness with nothing left to
/// read, `vs.len()` successive reads return exactly `vs`, and the read after
/// them fails because the witness is exhausted.
pub proof fn lemma_replay_in_order(w: WitnessModel, vs: Seq<u64>)
    requires
        w.wf(),
        w.unread().len() == 0,
    ensures
        w.record_all_u64(vs).read_n_u64(vs.len()) == vs.map_values(
            |v: u64| Ok::<u64, WitnessError>(v),
        ),
        w.record_all_u64(vs).advance_n(vs.len()).read_u64() == Err::<u64, WitnessError>(
            WitnessError::Exhausted,
        ),
{
    lemma_record_all_layout(w, vs);
    let m = w.record_all_u64(vs);
    assert(m.unread() =~= vs.map_values(|v: u64| u64_encoding(v)));
    lemma_read_encoded(m, vs);
}

/// Merging keeps order: after `lhs.merge(rhs)`, what is left to read on
/// `lhs` is its own unread hints followed by the unread hints of `rhs`, and
/// `rhs` has nothing left to read.
pub proof fn lemma_merge_keeps_order(lhs: WitnessModel, rhs: WitnessModel)
    requires
        lhs.wf(),
        rhs.wf(),
    ensures
        lhs.merged(rhs).wf(),
        lhs.merged(rhs).unread() == lhs.unread() + rhs.unread(),
        rhs.drained().wf(),
        rhs.drained().unread().len() == 0,
{
    assert(lhs.merged(rhs).unread() =~= lhs.unread() + rhs.unread());
}

/// Recording `vs` appends their encodings to the hints and leaves the read
/// position where it was.
proof fn lemma_record_all_layout(w: WitnessModel, vs: Seq<u64>)
    ensures
        w.record_all_u64(vs) == (WitnessModel {
            hints: w.hints + vs.map_values(|v: u64| u64_encoding(v)),
            next: w.next,
        }),
    decreases vs.len(),
{
    if vs.len() > 0 {
        let w1 = w.record(u64_encoding(vs[0]));
        lemma_record_all_layout(w1, vs.drop_first());
        assert(w1.hints + vs.drop_first().map_values(|v: u64| u64_encoding(v)) =~= w.hints
            + vs.map_values(|v: u64| u64_encoding(v)));
    } else {
        assert(w.hints + vs.map_values(|v: u64| u64_encoding(v)) =~= w.hints);
    }
}

/// A witness whose unread hints encode `vs` yields `vs` on the next reads,
/// then fails.
proof fn lemma_read_encoded(m: WitnessModel, vs: Seq<u64>)
    requires
        m.wf(),
        m.unread() == vs.map_values(|v: u64| u64_encoding(v)),
    ensures
        m.read_n_u64(vs.len()) == vs.map_values(|v: u64| Ok::<u64, WitnessError>(v)),
        m.advance_n(vs.len()).read_u64() == Err::<u64, WitnessError>(WitnessError::Exhausted),
    decreases vs.len(),
{
    if vs.len() == 0 {
        assert(m.read_n_u64(0) =~= vs.map_values(|v: u64| Ok::<u64, WitnessError>(v)));
        assert(m.unread().len() == 0);
        assert(m.next >= m.hints.len());
        assert(m.advance_n(0) == m);
    } else {
        assert(m.unread().len() == vs.len());
        assert(m.next < m.hints.len());
        assert(m.unread()[0] == m.hints[m.next as int]);
        assert(m.unread()[0] == u64_encoding(vs[0]));
        lemma_u64_round_trip(vs[0]);
        let m1 = m.advance();
        assert forall|i: int| 0 <= i < m1.unread().len() implies m1.unread()[i] == m.unread()[i
            + 1] by {}
        assert(m1.unread() =~= vs.drop_first().map_values(|v: u64| u64_encoding(v)));
        lemma_read_encoded(m1, vs.drop_first());
        assert(m.read_n_u64(vs.len()) =~= vs.map_values(
            |v: u64| Ok::<u64, WitnessError>(v),
        ));
    }
}

} // verus!
