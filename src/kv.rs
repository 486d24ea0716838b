//! A byte-keyed write set: an append-only log of `(key, value)` writes in
//! which the latest write of a key is its value.

use vstd::prelude::*;

verus! {

/// The map that a log of writes stands for: later writes win.
pub open spec fn writes_map(s: Seq<(Seq<u8>, Seq<u8>)>) -> Map<Seq<u8>, Seq<u8>>
    decreases s.len(),
{
    if s.len() == 0 {
        Map::empty()
    } else {
        writes_map(s.drop_last()).insert(s.last().0, s.last().1)
    }
}

/// Whether two byte strings are equal.
pub fn bytes_eq(a: &[u8], b: &[u8]) -> (r: bool)
    ensures
        r == (a@ == b@),
{
    if a.len() != b.len() {
        return false;
    }
    let mut i: usize = 0;
    while i < a.len()
        invariant
            i <= a@.len(),
            a@.len() == b@.len(),
            forall|k: int| 0 <= k < i ==> a@[k] == b@[k],
        decreases a@.len() - i,
    {
        if a[i] != b[i] {
            return false;
        }
        i = i + 1;
    }
    assert(a@ =~= b@);
    true
}

/// Copies a byte string.
pub fn copy_bytes(a: &[u8]) -> (r: Vec<u8>)
    ensures
        r@ == a@,
{
    let mut r: Vec<u8> = Vec::new();
    let mut i: usize = 0;
    while i < a.len()
        invariant
            i <= a@.len(),
            r@ == a@.subrange(0, i as int),
        decreases a@.len() - i,
    {
        r.push(a[i]);
        i = i + 1;
        assert(r@ =~= a@.subrange(0, i as int));
    }
    assert(a@.subrange(0, a@.len() as int) =~= a@);
    r
}

/// A write set over byte keys and byte values.
#[derive(Debug)]
pub struct WriteSet {
    writes: Vec<(Vec<u8>, Vec<u8>)>,
}

pub open spec fn entry_view(e: (Vec<u8>, Vec<u8>)) -> (Seq<u8>, Seq<u8>) {
    (e.0@, e.1@)
}

impl WriteSet {
    /// The writes in the order they were made.
    pub closed spec fn log(&self) -> Seq<(Seq<u8>, Seq<u8>)> {
        self.writes@.map_values(|e: (Vec<u8>, Vec<u8>)| entry_view(e))
    }
}

impl View for WriteSet {
    type V = Map<Seq<u8>, Seq<u8>>;

    open spec fn view(&self) -> Map<Seq<u8>, Seq<u8>> {
        writes_map(self.log())
    }
}

/// A write that is not of `k` leaves the value of `k` as it was.
proof fn lemma_writes_map_last(s: Seq<(Seq<u8>, Seq<u8>)>, k: Seq<u8>)
    requires
        s.len() > 0,
        s.last().0 != k,
    ensures
        writes_map(s).contains_key(k) == writes_map(s.drop_last()).contains_key(k),
        writes_map(s)[k] == writes_map(s.drop_last())[k],
{
}

/// The map of a concatenation is the first map overridden by the second.
pub proof fn lemma_writes_map_append(a: Seq<(Seq<u8>, Seq<u8>)>, b: Seq<(Seq<u8>, Seq<u8>)>)
    ensures
        writes_map(a + b) == writes_map(a).union_prefer_right(writes_map(b)),
    decreases b.len(),
{
    if b.len() == 0 {
        assert(a + b =~= a);
        assert(writes_map(a).union_prefer_right(writes_map(b)) =~= writes_map(a));
    } else {
        lemma_writes_map_append(a, b.drop_last());
        assert((a + b).drop_last() =~= a + b.drop_last());
        assert(writes_map(a + b) =~= writes_map(a).union_prefer_right(writes_map(b)));
    }
}

impl WriteSet {
    /// An empty write set.
    pub fn new() -> (r: WriteSet)
        ensures
            r@ == Map::<Seq<u8>, Seq<u8>>::empty(),
            r.log() == Seq::<(Seq<u8>, Seq<u8>)>::empty(),
    {
        let r = WriteSet { writes: Vec::new() };
        assert(r.log() =~= Seq::<(Seq<u8>, Seq<u8>)>::empty());
        r
    }

    /// The number of writes recorded.
    pub fn len(&self) -> (r: usize)
        ensures
            r == self.log().len(),
    {
        self.writes.len()
    }

    /// Records that `key` now holds `value`.
    pub fn set(&mut self, key: Vec<u8>, value: Vec<u8>)
        ensures
            final(self).log() == old(self).log().push((key@, value@)),
            final(self)@ == old(self)@.insert(key@, value@),
    {
        self.writes.push((key, value));
        assert(self.log() =~= old(self).log().push((key@, value@)));
        assert(self.log().drop_last() =~= old(self).log());
    }

    /// The value that the latest write of `key` gave it.
    pub fn get(&self, key: &[u8]) -> (r: Option<Vec<u8>>)
        ensures
            match r {
                Some(v) => self@.contains_key(key@) && self@[key@] == v@,
                None => !self@.contains_key(key@),
            },
    {
        let ghost s = self.log();
        let mut i: usize = self.writes.len();
        assert(s.subrange(0, i as int) =~= s);
        while i > 0
            invariant
                i <= s.len(),
                s == self.log(),
                s.len() == self.writes@.len(),
                writes_map(s.subrange(0, i as int)).contains_key(key@) == self@.contains_key(
                    key@,
                ),
                writes_map(s.subrange(0, i as int))[key@] == self@[key@],
            decreases i,
        {
            let e = &self.writes[i - 1];
            let ghost pre = s.subrange(0, i as int);
            assert(pre.last() == entry_view(*e));
            if bytes_eq(e.0.as_slice(), key) {
                return Some(copy_bytes(e.1.as_slice()));
            }
            proof {
                lemma_writes_map_last(pre, key@);
                assert(pre.drop_last() =~= s.subrange(0, i - 1));
            }
            i = i - 1;
        }
        assert(s.subrange(0, 0) =~= Seq::<(Seq<u8>, Seq<u8>)>::empty());
        None
    }

    /// Appends every write of `other`, in order, after the writes of `self`.
    pub fn apply(&mut self, other: &WriteSet)
        ensures
            final(self).log() == old(self).log() + other.log(),
            final(self)@ == old(self)@.union_prefer_right(other@),
    {
        let mut i: usize = 0;
        while i < other.writes.len()
            invariant
                i <= other.log().len(),
                other.log().len() == other.writes@.len(),
                self.log() == old(self).log() + other.log().subrange(0, i as int),
            decreases other.writes@.len() - i,
        {
            let e = &other.writes[i];
            let k = copy_bytes(e.0.as_slice());
            let v = copy_bytes(e.1.as_slice());
            self.set(k, v);
            assert(other.log()[i as int] == entry_view(*e));
            assert(other.log().subrange(0, i + 1) =~= other.log().subrange(0, i as int).push(
                other.log()[i as int],
            ));
            i = i + 1;
        }
        assert(other.log().subrange(0, other.log().len() as int) =~= other.log());
        proof {
            lemma_writes_map_append(old(self).log(), other.log());
        }
    }
}

} // verus!
