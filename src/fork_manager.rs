//! The fork manager: the pending blocks that the data-availability layer
//! may still reorganise, their snapshots, reads through ancestor chains, and
//! finalization of one branch.

use vstd::prelude::*;
use crate::codec::opt_bytes_view;
use crate::hash::{BlockHeader, SlotHash};
use crate::snapshot::{Snapshot, SnapshotId, SnapshotModel};
use crate::store::{StateStore, StoreModel};

verus! {

/// Why a fork-manager operation was refused. Each leaves the manager as it
/// was.
#[derive(Debug, Clone, Copy, PartialEq, Eq, Structural)]
pub enum ForkError {
    /// The block hash is already registered.
    AlreadyRegistered,
    /// No registered block has the snapshot's id.
    UnknownSnapshotId,
    /// The block has no snapshot to finalize (never added, or already
    /// finalized or discarded).
    MissingSnapshot,
    /// Every snapshot id has been handed out.
    IdsExhausted,
    /// The store's version counter cannot advance further.
    VersionExhausted,
}

/// A registered pending block.
pub struct BlockModel {
    pub parent: Seq<u8>,
    pub id: SnapshotId,
    /// Attached by `add_snapshot` once the block has been executed.
    pub snapshot: Option<SnapshotModel>,
}

/// What the manager holds: its pending blocks by hash, the last id it
/// handed out, and the persistent store.
pub struct ForkModel {
    pub blocks: Map<Seq<u8>, BlockModel>,
    pub latest_id: SnapshotId,
    pub store: StoreModel,
}

/// The map that an association list stands for: later entries win.
pub open spec fn assoc<K, V>(s: Seq<(K, V)>) -> Map<K, V>
    decreases s.len(),
{
    if s.len() == 0 {
        Map::empty()
    } else {
        assoc(s.drop_last()).insert(s.last().0, s.last().1)
    }
}

pub open spec fn keys_unique<K, V>(s: Seq<(K, V)>) -> bool {
    forall|i: int, j: int| 0 <= i < j < s.len() ==> s[i].0 != s[j].0
}

/// `b` reaches `s` by following `n` parent links through registered blocks
/// other than `c`.
pub open spec fn reaches(m: Map<Seq<u8>, BlockModel>, b: Seq<u8>, s: Seq<u8>, c: Seq<u8>, n: nat) -> bool
    decreases n,
{
    if n == 0 {
        b == s
    } else {
        m.contains_key(b) && b != c && reaches(m, m[b].parent, s, c, (n - 1) as nat)
    }
}

/// Finalizing `c` discards `b`: `b` is a sibling of `c`, or descends from
/// one without passing through `c`.
pub open spec fn discarded_by(m: Map<Seq<u8>, BlockModel>, c: Seq<u8>, b: Seq<u8>) -> bool {
    exists|s: Seq<u8>, n: nat|
        m.contains_key(s) && s != c && m[s].parent == m[c].parent && #[trigger] reaches(
            m,
            b,
            s,
            c,
            n,
        )
}

/// The value of `key` in the nearest snapshot of the chain that starts at
/// `h`, following at most `fuel` blocks; the walk stops at a block that is
/// not registered or has no snapshot yet.
pub open spec fn chain_value(
    m: Map<Seq<u8>, BlockModel>,
    h: Seq<u8>,
    key: Seq<u8>,
    accessory: bool,
    fuel: nat,
) -> Option<Seq<u8>>
    decreases fuel,
{
    if fuel == 0 || !m.contains_key(h) {
        None
    } else {
        match m[h].snapshot {
            None => None,
            Some(s) => {
                let w = if accessory {
                    s.accessory
                } else {
                    s.storage
                };
                if w.contains_key(key) {
                    Some(w[key])
                } else {
                    chain_value(m, m[h].parent, key, accessory, (fuel - 1) as nat)
                }
            },
        }
    }
}

/// The pending blocks with snapshots that a read from `h` walks through, in
/// order, following at most `fuel` blocks.
pub open spec fn chain_hashes(m: Map<Seq<u8>, BlockModel>, h: Seq<u8>, fuel: nat) -> Seq<Seq<u8>>
    decreases fuel,
{
    if fuel == 0 || !m.contains_key(h) || m[h].snapshot is None {
        seq![]
    } else {
        seq![h] + chain_hashes(m, m[h].parent, (fuel - 1) as nat)
    }
}

impl ForkModel {
    pub open spec fn wf(self) -> bool {
        &&& self.blocks.dom().finite()
        &&& forall|h: Seq<u8>| #[trigger]
            self.blocks.contains_key(h) ==> 1 <= self.blocks[h].id <= self.latest_id
        &&& forall|h1: Seq<u8>, h2: Seq<u8>|
            #[trigger] self.blocks.contains_key(h1) && #[trigger] self.blocks.contains_key(h2)
                && self.blocks[h1].id == self.blocks[h2].id ==> h1 == h2
        &&& forall|h: Seq<u8>| #[trigger]
            self.blocks.contains_key(h) ==> (self.blocks[h].snapshot matches Some(s) ==> s.id
                == self.blocks[h].id)
    }

    /// Whether some registered block was given `id`.
    pub open spec fn has_id(self, id: SnapshotId) -> bool {
        exists|h: Seq<u8>| #[trigger] self.blocks.contains_key(h) && self.blocks[h].id == id
    }

    /// The block that was given `id`.
    pub open spec fn hash_of_id(self, id: SnapshotId) -> Seq<u8> {
        choose|h: Seq<u8>| #[trigger] self.blocks.contains_key(h) && self.blocks[h].id == id
    }

    /// The parent recorded for each registered block.
    pub open spec fn blocks_to_parent(self) -> Map<Seq<u8>, Seq<u8>> {
        self.blocks.map_values(|b: BlockModel| b.parent)
    }

    /// The registered children of `parent`.
    pub open spec fn chain_forks(self, parent: Seq<u8>) -> Set<Seq<u8>> {
        Set::new(|c: Seq<u8>| self.blocks.contains_key(c) && self.blocks[c].parent == parent)
    }

    /// The blocks that hold a snapshot.
    pub open spec fn snapshots(self) -> Set<Seq<u8>> {
        Set::new(|h: Seq<u8>| self.blocks.contains_key(h) && self.blocks[h].snapshot is Some)
    }

    /// What a read through the pending chain of `id` finds.
    pub open spec fn query(self, id: SnapshotId, key: Seq<u8>, accessory: bool) -> Option<
        Seq<u8>,
    > {
        if self.has_id(id) {
            chain_value(self.blocks, self.hash_of_id(id), key, accessory, self.blocks.len())
        } else {
            None
        }
    }

    /// The state after `hash` is registered under `parent` with `id`.
    pub open spec fn register(self, hash: Seq<u8>, parent: Seq<u8>, id: SnapshotId) -> ForkModel {
        ForkModel {
            blocks: self.blocks.insert(hash, BlockModel { parent, id, snapshot: None }),
            latest_id: id,
            ..self
        }
    }

    /// The pending blocks left after `c` is finalized.
    pub open spec fn pruned(self, c: Seq<u8>) -> Map<Seq<u8>, BlockModel> {
        self.blocks.restrict(
            Set::new(|b: Seq<u8>| b != c && !discarded_by(self.blocks, c, b)),
        )
    }

    /// The store after the snapshot `s` is committed to it.
    pub open spec fn committed(self, s: SnapshotModel) -> StoreModel {
        StoreModel {
            version: (self.store.version + 1) as u64,
            storage: self.store.storage.union_prefer_right(s.storage),
            accessory: self.store.accessory.union_prefer_right(s.accessory),
        }
    }
}

/// A registered block and, once executed, its snapshot.
#[derive(Debug)]
struct PendingBlock {
    hash: SlotHash,
    parent: SlotHash,
    id: SnapshotId,
    snapshot: Option<Snapshot>,
}

impl PendingBlock {
    spec fn model(&self) -> BlockModel {
        BlockModel {
            parent: self.parent@,
            id: self.id,
            snapshot: match self.snapshot {
                Some(s) => Some(s@),
                None => None,
            },
        }
    }

    spec fn entry(&self) -> (Seq<u8>, BlockModel) {
        (self.hash@, self.model())
    }
}

/// Tracks pending blocks as a forest rooted at the last finalized block.
/// The parent edges (`blocks_to_parent`), the child lists (`chain_forks`)
/// and the id lookup are all read off one arena of registered blocks, so
/// they never disagree.
#[derive(Debug)]
pub struct ForkManager {
    blocks: Vec<PendingBlock>,
    latest_snapshot_id: SnapshotId,
    store: StateStore,
}

proof fn lemma_assoc_contains<K, V>(s: Seq<(K, V)>, k: K)
    ensures
        assoc(s).contains_key(k) <==> exists|i: int| 0 <= i < s.len() && #[trigger] s[i].0 == k,
    decreases s.len(),
{
    if s.len() > 0 {
        lemma_assoc_contains(s.drop_last(), k);
        if assoc(s.drop_last()).contains_key(k) {
            let i = choose|i: int| 0 <= i < s.drop_last().len() && #[trigger] s.drop_last()[i].0 == k;
            assert(s[i].0 == k);
        }
        if exists|i: int| 0 <= i < s.len() && #[trigger] s[i].0 == k {
            let i = choose|i: int| 0 <= i < s.len() && #[trigger] s[i].0 == k;
            if i < s.len() - 1 {
                assert(s.drop_last()[i].0 == k);
            }
        }
    }
}

proof fn lemma_assoc_value<K, V>(s: Seq<(K, V)>, i: int)
    requires
        keys_unique(s),
        0 <= i < s.len(),
    ensures
        assoc(s).contains_key(s[i].0),
        assoc(s)[s[i].0] == s[i].1,
    decreases s.len(),
{
    if i < s.len() - 1 {
        lemma_assoc_value(s.drop_last(), i);
    }
}

proof fn lemma_assoc_finite<K, V>(s: Seq<(K, V)>)
    requires
        keys_unique(s),
    ensures
        assoc(s).dom().finite(),
        assoc(s).dom().len() == s.len(),
    decreases s.len(),
{
    if s.len() > 0 {
        lemma_assoc_finite(s.drop_last());
        lemma_assoc_contains(s.drop_last(), s.last().0);
        assert(!assoc(s.drop_last()).contains_key(s.last().0));
    }
}

proof fn lemma_assoc_remove<K, V>(s: Seq<(K, V)>, i: int)
    requires
        keys_unique(s),
        0 <= i < s.len(),
    ensures
        keys_unique(s.remove(i)),
        assoc(s.remove(i)) == assoc(s).remove(s[i].0),
    decreases s.len(),
{
    let r = s.remove(i);
    assert(keys_unique(r)) by {
        assert forall|a: int, b: int| 0 <= a < b < r.len() implies r[a].0 != r[b].0 by {
            let a1 = if a < i { a } else { a + 1 };
            let b1 = if b < i { b } else { b + 1 };
            assert(r[a] == s[a1] && r[b] == s[b1]);
        }
    }
    if i == s.len() - 1 {
        assert(r =~= s.drop_last());
        lemma_assoc_contains(s.drop_last(), s[i].0);
        assert(assoc(r) =~= assoc(s).remove(s[i].0));
    } else {
        lemma_assoc_remove(s.drop_last(), i);
        assert(r.drop_last() =~= s.drop_last().remove(i));
        assert(r.last() == s.last());
        assert(assoc(r) =~= assoc(s).remove(s[i].0));
    }
}

proof fn lemma_assoc_update<K, V>(s: Seq<(K, V)>, i: int, v: V)
    requires
        keys_unique(s),
        0 <= i < s.len(),
    ensures
        keys_unique(s.update(i, (s[i].0, v))),
        assoc(s.update(i, (s[i].0, v))) == assoc(s).insert(s[i].0, v),
    decreases s.len(),
{
    let u = s.update(i, (s[i].0, v));
    assert(keys_unique(u)) by {
        assert forall|a: int, b: int| 0 <= a < b < u.len() implies u[a].0 != u[b].0 by {
            assert(u[a].0 == s[a].0 && u[b].0 == s[b].0);
        }
    }
    if i == s.len() - 1 {
        assert(u.drop_last() =~= s.drop_last());
        assert(assoc(u) =~= assoc(s).insert(s[i].0, v));
    } else {
        lemma_assoc_update(s.drop_last(), i, v);
        assert(u.drop_last() =~= s.drop_last().update(i, (s[i].0, v)));
        assert(assoc(u) =~= assoc(s).insert(s[i].0, v));
    }
}

/// The keys among the first `n` entries whose parent is `p`, in order.
spec fn children_upto(s: Seq<(Seq<u8>, BlockModel)>, p: Seq<u8>, n: nat) -> Seq<Seq<u8>>
    decreases n,
{
    if n == 0 {
        seq![]
    } else {
        let prev = children_upto(s, p, (n - 1) as nat);
        if s[n - 1].1.parent == p {
            prev.push(s[n - 1].0)
        } else {
            prev
        }
    }
}

proof fn lemma_children_upto(s: Seq<(Seq<u8>, BlockModel)>, p: Seq<u8>, n: nat)
    requires
        keys_unique(s),
        n <= s.len(),
    ensures
        forall|k: int| #![trigger children_upto(s, p, n)[k]]
            0 <= k < children_upto(s, p, n).len() ==> exists|t: int|
                0 <= t < n && s[t].0 == children_upto(s, p, n)[k] && s[t].1.parent == p,
        forall|t: int| #![trigger s[t]]
            0 <= t < n && s[t].1.parent == p ==> exists|k: int|
                0 <= k < children_upto(s, p, n).len() && children_upto(s, p, n)[k] == s[t].0,
        forall|a: int, b: int|
            0 <= a < b < children_upto(s, p, n).len() ==> children_upto(s, p, n)[a]
                != children_upto(s, p, n)[b],
    decreases n,
{
    if n > 0 {
        let m = (n - 1) as nat;
        lemma_children_upto(s, p, m);
        let prev = children_upto(s, p, m);
        let cur = children_upto(s, p, n);
        assert forall|k: int| #![trigger cur[k]] 0 <= k < cur.len() implies exists|t: int|
            0 <= t < n && s[t].0 == cur[k] && s[t].1.parent == p by {
            if k < prev.len() {
                assert(cur[k] == prev[k]);
                let t = choose|t: int| 0 <= t < m && s[t].0 == prev[k] && s[t].1.parent == p;
                assert(0 <= t < n);
            } else {
                assert(s[m as int].0 == cur[k]);
            }
        }
        assert forall|t: int| #![trigger s[t]] 0 <= t < n && s[t].1.parent == p implies exists|k: int|
            0 <= k < cur.len() && cur[k] == s[t].0 by {
            if t < m {
                let k = choose|k: int| 0 <= k < prev.len() && prev[k] == s[t].0;
                assert(cur[k] == prev[k]);
            } else {
                assert(cur[cur.len() - 1] == s[t].0);
            }
        }
        assert forall|a: int, b: int| 0 <= a < b < cur.len() implies cur[a] != cur[b] by {
            if b == prev.len() {
                let t = choose|t: int| 0 <= t < m && s[t].0 == prev[a] && s[t].1.parent == p;
                assert(prev[a] == cur[a]);
                assert(s[t].0 != s[m as int].0);
            } else {
                assert(cur[a] == prev[a] && cur[b] == prev[b]);
            }
        }
    }
}

/// `k` is one of the hashes in `l`.
pub open spec fn listed(l: Seq<SlotHash>, k: Seq<u8>) -> bool {
    exists|i: int| 0 <= i < l.len() && #[trigger] l[i]@ == k
}

/// A block that survives a complete discard does not descend from a
/// discarded sibling.
proof fn lemma_kept_not_discarded(
    m0: Map<Seq<u8>, BlockModel>,
    m: Map<Seq<u8>, BlockModel>,
    c: Seq<u8>,
    k: Seq<u8>,
    s: Seq<u8>,
    n: nat,
)
    requires
        m0.contains_key(c),
        forall|x: Seq<u8>| #[trigger] m.contains_key(x) ==> m0.contains_key(x) && m[x] == m0[x] && x != c,
        forall|x: Seq<u8>| #[trigger] m.contains_key(x) ==> m[x].parent != m0[c].parent,
        forall|x: Seq<u8>| #[trigger] m.contains_key(x) && m0.contains_key(m[x].parent) && m[x].parent != c ==> m.contains_key(m[x].parent),
        m.contains_key(k),
        m0.contains_key(s),
        s != c,
        m0[s].parent == m0[c].parent,
    ensures
        !reaches(m0, k, s, c, n),
    decreases n,
{
    if n > 0 {
        let q = m0[k].parent;
        assert(m[k].parent == q);
        if reaches(m0, k, s, c, n) {
            assert(reaches(m0, q, s, c, (n - 1) as nat));
            if n - 1 > 0 {
                assert(m0.contains_key(q) && q != c);
            } else {
                assert(q == s);
            }
            assert(m.contains_key(q));
            lemma_kept_not_discarded(m0, m, c, q, s, (n - 1) as nat);
        }
    }
}

impl View for ForkManager {
    type V = ForkModel;

    closed spec fn view(&self) -> ForkModel {
        ForkModel { blocks: assoc(self.entries()), latest_id: self.latest_snapshot_id, store: self.store@ }
    }
}

impl ForkManager {
    spec fn entries(&self) -> Seq<(Seq<u8>, BlockModel)> {
        self.blocks@.map_values(|b: PendingBlock| b.entry())
    }

    /// The manager's invariant.
    pub closed spec fn wf(&self) -> bool {
        &&& keys_unique(self.entries())
        &&& self@.wf()
    }

    proof fn lemma_index(&self, i: int)
        requires
            self.wf(),
            0 <= i < self.blocks@.len(),
        ensures
            self@.blocks.contains_key(self.blocks@[i].hash@),
            self@.blocks[self.blocks@[i].hash@] == self.blocks@[i].model(),
    {
        assert(self.entries()[i] == self.blocks@[i].entry());
        lemma_assoc_value(self.entries(), i);
    }

    proof fn lemma_contains(&self, h: Seq<u8>)
        ensures
            self@.blocks.contains_key(h) <==> exists|i: int|
                0 <= i < self.blocks@.len() && #[trigger] self.blocks@[i].hash@ == h,
    {
        lemma_assoc_contains(self.entries(), h);
        if self@.blocks.contains_key(h) {
            let i = choose|i: int| 0 <= i < self.entries().len() && #[trigger] self.entries()[i].0 == h;
            assert(self.blocks@[i].hash@ == h);
        }
        if exists|i: int| 0 <= i < self.blocks@.len() && #[trigger] self.blocks@[i].hash@ == h {
            let i = choose|i: int| 0 <= i < self.blocks@.len() && #[trigger] self.blocks@[i].hash@ == h;
            assert(self.entries()[i].0 == h);
        }
    }

    /// A manager with no pending blocks over an empty store.
    pub fn new() -> (r: ForkManager)
        ensures
            r.wf(),
            r@.blocks == Map::<Seq<u8>, BlockModel>::empty(),
            r@.latest_id == 0,
            r@.store.version == 0,
            r@.store.storage == Map::<Seq<u8>, Seq<u8>>::empty(),
            r@.store.accessory == Map::<Seq<u8>, Seq<u8>>::empty(),
    {
        let r = ForkManager { blocks: Vec::new(), latest_snapshot_id: 0, store: StateStore::new() };
        assert(r.entries() =~= Seq::<(Seq<u8>, BlockModel)>::empty());
        r
    }

    /// Whether no block is pending.
    pub fn is_empty(&self) -> (r: bool)
        requires
            self.wf(),
        ensures
            r == (self@.blocks == Map::<Seq<u8>, BlockModel>::empty()),
    {
        if self.blocks.len() == 0 {
            assert(self.entries() =~= Seq::<(Seq<u8>, BlockModel)>::empty());
            true
        } else {
            proof {
                self.lemma_index(0);
            }
            assert(!Map::<Seq<u8>, BlockModel>::empty().contains_key(self.blocks@[0].hash@));
            false
        }
    }

    /// The persistent store.
    pub fn store(&self) -> (r: &StateStore)
        ensures
            r@ == self@.store,
    {
        &self.store
    }

    fn find_hash(&self, h: &SlotHash) -> (r: Option<usize>)
        requires
            self.wf(),
        ensures
            match r {
                Some(i) => i < self.blocks@.len() && self.blocks@[i as int].hash@ == h@
                    && self@.blocks.contains_key(h@),
                None => !self@.blocks.contains_key(h@),
            },
    {
        let mut i: usize = 0;
        while i < self.blocks.len()
            invariant
                self.wf(),
                i <= self.blocks@.len(),
                forall|k: int| 0 <= k < i ==> self.blocks@[k].hash@ != h@,
            decreases self.blocks@.len() - i,
        {
            if self.blocks[i].hash.same(h) {
                proof {
                    self.lemma_index(i as int);
                }
                return Some(i);
            }
            i = i + 1;
        }
        proof {
            self.lemma_contains(h@);
        }
        None
    }

    fn find_id(&self, id: SnapshotId) -> (r: Option<usize>)
        requires
            self.wf(),
        ensures
            match r {
                Some(i) => i < self.blocks@.len() && self.blocks@[i as int].id == id
                    && self@.has_id(id) && self@.hash_of_id(id) == self.blocks@[i as int].hash@,
                None => !self@.has_id(id),
            },
    {
        let mut i: usize = 0;
        while i < self.blocks.len()
            invariant
                self.wf(),
                i <= self.blocks@.len(),
                forall|k: int| 0 <= k < i ==> self.blocks@[k].id != id,
            decreases self.blocks@.len() - i,
        {
            if self.blocks[i].id == id {
                proof {
                    self.lemma_index(i as int);
                    let h = self.blocks@[i as int].hash@;
                    assert(self@.blocks.contains_key(h) && self@.blocks[h].id == id);
                    let h2 = self@.hash_of_id(id);
                    assert(self@.blocks.contains_key(h2) && self@.blocks[h2].id == id);
                }
                return Some(i);
            }
            i = i + 1;
        }
        proof {
            if self@.has_id(id) {
                let h = choose|h: Seq<u8>| #[trigger] self@.blocks.contains_key(h) && self@.blocks[h].id == id;
                self.lemma_contains(h);
                let k = choose|k: int| 0 <= k < self.blocks@.len() && #[trigger] self.blocks@[k].hash@ == h;
                self.lemma_index(k);
            }
        }
        None
    }

    /// Registers the block of `header` as a child of its parent and hands out
    /// the next snapshot id for it. A hash can be registered only once.
    pub fn get_new_ref(&mut self, header: &BlockHeader) -> (r: Result<SnapshotId, ForkError>)
        requires
            old(self).wf(),
        ensures
            final(self).wf(),
            r is Ok <==> !old(self)@.blocks.contains_key(header.hash@) && old(self)@.latest_id
                < u64::MAX,
            match r {
                Ok(id) => {
                    &&& !old(self)@.blocks.contains_key(header.hash@)
                    &&& old(self)@.latest_id < u64::MAX
                    &&& id == old(self)@.latest_id + 1
                    &&& final(self)@ == old(self)@.register(header.hash@, header.prev_hash@, id)
                },
                Err(e) => {
                    &&& final(self)@ == old(self)@
                    &&& e == ForkError::AlreadyRegistered <==> old(self)@.blocks.contains_key(
                        header.hash@,
                    )
                    &&& e == ForkError::IdsExhausted <==> (!old(self)@.blocks.contains_key(
                        header.hash@,
                    ) && old(self)@.latest_id == u64::MAX)
                },
            },
    {
        let hash = header.hash();
        if self.find_hash(&hash).is_some() {
            return Err(ForkError::AlreadyRegistered);
        }
        if self.latest_snapshot_id == u64::MAX {
            return Err(ForkError::IdsExhausted);
        }
        let id = self.latest_snapshot_id + 1;
        let ghost old_entries = self.entries();
        self.latest_snapshot_id = id;
        self.blocks.push(PendingBlock { hash, parent: header.prev_hash(), id, snapshot: None });
        proof {
            assert(self.entries() =~= old_entries.push((hash@, BlockModel { parent: header.prev_hash@, id, snapshot: None })));
            assert(self.entries().drop_last() =~= old_entries);
            lemma_assoc_contains(old_entries, hash@);
            assert forall|i: int, j: int| 0 <= i < j < self.entries().len() implies self.entries()[i].0 != self.entries()[j].0 by {
                if j == self.entries().len() - 1 {
                    assert(old_entries[i].0 == self.entries()[i].0);
                }
            }
            lemma_assoc_finite(self.entries());
        }
        Ok(id)
    }

    /// Attaches the executed write set to the block that was given its id.
    pub fn add_snapshot(&mut self, snapshot: Snapshot) -> (r: Result<(), ForkError>)
        requires
            old(self).wf(),
        ensures
            final(self).wf(),
            r is Ok <==> old(self)@.has_id(snapshot@.id),
            r is Ok ==> final(self)@ == (ForkModel {
                blocks: old(self)@.blocks.insert(
                    old(self)@.hash_of_id(snapshot@.id),
                    BlockModel {
                        snapshot: Some(snapshot@),
                        ..old(self)@.blocks[old(self)@.hash_of_id(snapshot@.id)]
                    },
                ),
                ..old(self)@
            }),
            r matches Err(e) ==> e == ForkError::UnknownSnapshotId && final(self)@ == old(self)@,
    {
        let i = match self.find_id(snapshot.get_id()) {
            None => return Err(ForkError::UnknownSnapshotId),
            Some(i) => i,
        };
        let ghost old_entries = self.entries();
        let ghost snap = snapshot@;
        proof {
            self.lemma_index(i as int);
        }
        self.blocks[i].snapshot = Some(snapshot);
        proof {
            let b = self.blocks@[i as int];
            assert(self.entries() =~= old_entries.update(i as int, (old_entries[i as int].0, b.model())));
            lemma_assoc_update(old_entries, i as int, b.model());
            lemma_assoc_finite(self.entries());
            let m = self@.blocks;
            assert forall|h1: Seq<u8>, h2: Seq<u8>|
                #[trigger] m.contains_key(h1) && #[trigger] m.contains_key(h2) && m[h1].id == m[h2].id implies h1 == h2 by {
                assert(old(self)@.blocks.contains_key(h1) && old(self)@.blocks.contains_key(h2));
            }
            assert forall|h: Seq<u8>| #[trigger] m.contains_key(h) implies 1 <= m[h].id <= self@.latest_id by {
                assert(old(self)@.blocks.contains_key(h));
            }
            assert forall|h: Seq<u8>| #[trigger] m.contains_key(h) implies (m[h].snapshot matches Some(s) ==> s.id == m[h].id) by {
                assert(old(self)@.blocks.contains_key(h));
            }
            assert(self@.blocks =~= old(self)@.blocks.insert(
                old(self)@.hash_of_id(snap.id),
                BlockModel { snapshot: Some(snap), ..old(self)@.blocks[old(self)@.hash_of_id(snap.id)] },
            ));
        }
        Ok(())
    }

    /// Walks from the block of `id` up its ancestors and returns the value of
    /// `key` in the nearest snapshot that wrote it.
    fn chain_lookup(&self, id: SnapshotId, key: &[u8], accessory: bool) -> (r: Option<Vec<u8>>)
        requires
            self.wf(),
        ensures
            opt_bytes_view(r) == self@.query(id, key@, accessory),
    {
        let start = match self.find_id(id) {
            None => return None,
            Some(i) => i,
        };
        let mut h: SlotHash = self.blocks[start].hash;
        let mut fuel: usize = self.blocks.len();
        proof {
            lemma_assoc_finite(self.entries());
        }
        while fuel > 0
            invariant
                self.wf(),
                chain_value(self@.blocks, h@, key@, accessory, fuel as nat) == self@.query(
                    id,
                    key@,
                    accessory,
                ),
            decreases fuel,
        {
            let i = match self.find_hash(&h) {
                None => return None,
                Some(i) => i,
            };
            proof {
                self.lemma_index(i as int);
            }
            match &self.blocks[i].snapshot {
                None => return None,
                Some(s) => {
                    let v = if accessory {
                        s.get_accessory_value(key)
                    } else {
                        s.get_storage_value(key)
                    };
                    if v.is_some() {
                        return v;
                    }
                },
            }
            h = self.blocks[i].parent;
            fuel = fuel - 1;
        }
        None
    }

    /// The value of `key` in the authenticated state as the pending block of
    /// `snapshot_id` sees it: from its own snapshot or the nearest ancestor
    /// snapshot that wrote it. `None` when no pending snapshot on the chain
    /// wrote it, in which case the persistent store answers.
    pub fn query_storage_value(&self, snapshot_id: &SnapshotId, key: &[u8]) -> (r: Option<Vec<u8>>)
        requires
            self.wf(),
        ensures
            opt_bytes_view(r) == self@.query(*snapshot_id, key@, false),
    {
        self.chain_lookup(*snapshot_id, key, false)
    }

    /// As `query_storage_value`, for the auxiliary state.
    pub fn query_accessory_value(&self, snapshot_id: &SnapshotId, key: &[u8]) -> (r: Option<Vec<u8>>)
        requires
            self.wf(),
        ensures
            opt_bytes_view(r) == self@.query(*snapshot_id, key@, true),
    {
        self.chain_lookup(*snapshot_id, key, true)
    }

    /// The value of `key` in the authenticated state as the pending block of
    /// `snapshot_id` sees it, falling through to the persistent store when no
    /// pending snapshot on its chain wrote it.
    pub fn read_storage_value(&self, snapshot_id: &SnapshotId, key: &[u8]) -> (r: Option<Vec<u8>>)
        requires
            self.wf(),
        ensures
            opt_bytes_view(r) == match self@.query(*snapshot_id, key@, false) {
                Some(v) => Some(v),
                None => if self@.store.storage.contains_key(key@) {
                    Some(self@.store.storage[key@])
                } else {
                    None
                },
            },
    {
        match self.chain_lookup(*snapshot_id, key, false) {
            Some(v) => Some(v),
            None => self.store.get_storage_value(key),
        }
    }

    /// The parent recorded for `hash`, if it is pending.
    pub fn parent_of(&self, hash: &SlotHash) -> (r: Option<SlotHash>)
        requires
            self.wf(),
        ensures
            match r {
                Some(p) => self@.blocks_to_parent().contains_key(hash@)
                    && self@.blocks_to_parent()[hash@] == p@,
                None => !self@.blocks_to_parent().contains_key(hash@),
            },
    {
        match self.find_hash(hash) {
            None => None,
            Some(i) => {
                proof {
                    self.lemma_index(i as int);
                }
                Some(self.blocks[i].parent)
            },
        }
    }

    /// The pending blocks whose snapshots a read from the block of
    /// `snapshot_id` consults, nearest first: the block itself, then its
    /// ancestors, up to the first one that is not pending or has no snapshot.
    pub fn parent_iterator(&self, snapshot_id: &SnapshotId) -> (r: Vec<SlotHash>)
        requires
            self.wf(),
        ensures
            r@.map_values(|x: SlotHash| x@) == if self@.has_id(*snapshot_id) {
                chain_hashes(self@.blocks, self@.hash_of_id(*snapshot_id), self@.blocks.len())
            } else {
                seq![]
            },
    {
        let mut r: Vec<SlotHash> = Vec::new();
        let start = match self.find_id(*snapshot_id) {
            None => {
                assert(r@.map_values(|x: SlotHash| x@) =~= seq![]);
                return r;
            },
            Some(i) => i,
        };
        let mut h: SlotHash = self.blocks[start].hash;
        let mut fuel: usize = self.blocks.len();
        let ghost target = chain_hashes(self@.blocks, self@.hash_of_id(*snapshot_id), self@.blocks.len());
        proof {
            lemma_assoc_finite(self.entries());
            assert(r@.map_values(|x: SlotHash| x@) =~= seq![]);
        }
        while fuel > 0
            invariant
                self.wf(),
                self@.has_id(*snapshot_id),
                target == chain_hashes(self@.blocks, self@.hash_of_id(*snapshot_id), self@.blocks.len()),
                target == r@.map_values(|x: SlotHash| x@) + chain_hashes(self@.blocks, h@, fuel as nat),
            decreases fuel,
        {
            let i = match self.find_hash(&h) {
                None => {
                    assert(target =~= r@.map_values(|x: SlotHash| x@));
                    return r;
                },
                Some(i) => i,
            };
            proof {
                self.lemma_index(i as int);
            }
            if self.blocks[i].snapshot.is_none() {
                assert(target =~= r@.map_values(|x: SlotHash| x@));
                return r;
            }
            let ghost r0 = r@;
            r.push(h);
            proof {
                assert(r@.map_values(|x: SlotHash| x@) =~= r0.map_values(|x: SlotHash| x@).push(h@));
                assert(target =~= r@.map_values(|x: SlotHash| x@) + chain_hashes(self@.blocks, self.blocks@[i as int].parent@, (fuel - 1) as nat));
            }
            h = self.blocks[i].parent;
            fuel = fuel - 1;
        }
        assert(target =~= r@.map_values(|x: SlotHash| x@));
        r
    }

    /// The pending children of `parent`, in the order they were registered.
    pub fn children_of(&self, parent: &SlotHash) -> (r: Vec<SlotHash>)
        requires
            self.wf(),
        ensures
            forall|c: Seq<u8>|
                self@.chain_forks(parent@).contains(c) <==> exists|i: int|
                    0 <= i < r@.len() && #[trigger] r@[i]@ == c,
            forall|i: int, j: int| 0 <= i < j < r@.len() ==> r@[i]@ != r@[j]@,
    {
        let mut r: Vec<SlotHash> = Vec::new();
        let mut i: usize = 0;
        while i < self.blocks.len()
            invariant
                self.wf(),
                i <= self.blocks@.len(),
                r@.map_values(|h: SlotHash| h@) == children_upto(self.entries(), parent@, i as nat),
            decreases self.blocks@.len() - i,
        {
            let ghost r0 = r@;
            assert(self.entries()[i as int] == self.blocks@[i as int].entry());
            if self.blocks[i].parent.same(parent) {
                r.push(self.blocks[i].hash);
                assert(r@.map_values(|h: SlotHash| h@) =~= r0.map_values(|h: SlotHash| h@).push(self.blocks@[i as int].hash@));
            }
            i = i + 1;
        }
        proof {
            let e = self.entries();
            let n = e.len() as nat;
            lemma_children_upto(e, parent@, n);
            let rv = r@.map_values(|h: SlotHash| h@);
            assert forall|c: Seq<u8>|
                self@.chain_forks(parent@).contains(c) <==> exists|i: int|
                    0 <= i < r@.len() && #[trigger] r@[i]@ == c by {
                self.lemma_contains(c);
                if self@.chain_forks(parent@).contains(c) {
                    let t = choose|t: int| 0 <= t < self.blocks@.len() && #[trigger] self.blocks@[t].hash@ == c;
                    self.lemma_index(t);
                    assert(e[t].0 == c && e[t].1.parent == parent@);
                    let k = choose|k: int| 0 <= k < rv.len() && rv[k] == e[t].0;
                    assert(r@[k]@ == c);
                }
                if exists|i: int| 0 <= i < r@.len() && #[trigger] r@[i]@ == c {
                    let k = choose|i: int| 0 <= i < r@.len() && #[trigger] r@[i]@ == c;
                    assert(rv[k] == c);
                    let t = choose|t: int| 0 <= t < n && e[t].0 == rv[k] && e[t].1.parent == parent@;
                    assert(e[t] == self.blocks@[t].entry());
                    self.lemma_index(t);
                }
            }
            assert forall|i: int, j: int| 0 <= i < j < r@.len() implies r@[i]@ != r@[j]@ by {
                assert(rv[i] == r@[i]@ && rv[j] == r@[j]@);
            }
        }
        r
    }

    /// The block that was given `snapshot_id`, if it is pending.
    pub fn block_hash_of(&self, snapshot_id: &SnapshotId) -> (r: Option<SlotHash>)
        requires
            self.wf(),
        ensures
            match r {
                Some(h) => self@.has_id(*snapshot_id) && h@ == self@.hash_of_id(*snapshot_id),
                None => !self@.has_id(*snapshot_id),
            },
    {
        match self.find_id(*snapshot_id) {
            None => None,
            Some(i) => Some(self.blocks[i].hash),
        }
    }

    /// Whether `hash` is pending with a snapshot attached.
    pub fn has_snapshot(&self, hash: &SlotHash) -> (r: bool)
        requires
            self.wf(),
        ensures
            r == self@.snapshots().contains(hash@),
    {
        match self.find_hash(hash) {
            None => false,
            Some(i) => {
                proof {
                    self.lemma_index(i as int);
                }
                self.blocks[i].snapshot.is_some()
            },
        }
    }

    /// Removes the block at index `i` from the arena.
    fn remove_at(&mut self, i: usize) -> (r: PendingBlock)
        requires
            old(self).wf(),
            i < old(self).blocks@.len(),
        ensures
            final(self).wf(),
            r == old(self).blocks@[i as int],
            final(self).blocks@.len() == old(self).blocks@.len() - 1,
            final(self)@ == (ForkModel { blocks: old(self)@.blocks.remove(r.hash@), ..old(self)@ }),
            old(self)@.blocks.contains_key(r.hash@),
            old(self)@.blocks[r.hash@] == r.model(),
    {
        proof {
            self.lemma_index(i as int);
        }
        let ghost e = self.entries();
        let r = self.blocks.remove(i);
        proof {
            assert(self.entries() =~= e.remove(i as int));
            lemma_assoc_remove(e, i as int);
            lemma_assoc_finite(self.entries());
            let m = self@.blocks;
            let m_old = old(self)@.blocks;
            assert forall|h1: Seq<u8>, h2: Seq<u8>|
                #[trigger] m.contains_key(h1) && #[trigger] m.contains_key(h2) && m[h1].id == m[h2].id implies h1 == h2 by {
                assert(m_old.contains_key(h1) && m_old.contains_key(h2));
            }
            assert forall|h: Seq<u8>| #[trigger] m.contains_key(h) implies 1 <= m[h].id <= self@.latest_id by {
                assert(m_old.contains_key(h));
            }
            assert forall|h: Seq<u8>| #[trigger] m.contains_key(h) implies (m[h].snapshot matches Some(s) ==> s.id == m[h].id) by {
                assert(m_old.contains_key(h));
            }
        }
        r
    }

    /// Commits the snapshot of `block_hash` to the store and discards every
    /// other pending block that descends from its parent: the siblings of
    /// `block_hash` and everything below them. The children of `block_hash`
    /// stay pending, now rooted at it.
    pub fn finalize_snapshot(&mut self, block_hash: &SlotHash) -> (r: Result<(), ForkError>)
        requires
            old(self).wf(),
        ensures
            final(self).wf(),
            r is Ok <==> old(self)@.snapshots().contains(block_hash@) && old(self)@.store.version
                < u64::MAX,
            r is Ok ==> final(self)@ == (ForkModel {
                blocks: old(self)@.pruned(block_hash@),
                latest_id: old(self)@.latest_id,
                store: old(self)@.committed(old(self)@.blocks[block_hash@].snapshot->Some_0),
            }),
            r matches Err(e) ==> final(self)@ == old(self)@ && (e == ForkError::MissingSnapshot
                <==> !old(self)@.snapshots().contains(block_hash@)) && (e
                == ForkError::VersionExhausted <==> old(self)@.snapshots().contains(block_hash@)
                && old(self)@.store.version == u64::MAX),
    {
        let i = match self.find_hash(block_hash) {
            None => return Err(ForkError::MissingSnapshot),
            Some(i) => i,
        };
        proof {
            self.lemma_index(i as int);
        }
        if self.blocks[i].snapshot.is_none() {
            return Err(ForkError::MissingSnapshot);
        }
        if self.store.version() == u64::MAX {
            return Err(ForkError::VersionExhausted);
        }
        let ghost m0 = self@.blocks;
        let ghost c = block_hash@;
        let finalized = self.remove_at(i);
        let parent = finalized.parent;
        match finalized.snapshot {
            Some(snapshot) => self.store.commit(snapshot),
            None => {},
        }
        self.discard_forks(parent, Ghost(m0), Ghost(c));
        assert(self@.blocks =~= old(self)@.pruned(c));
        Ok(())
    }

    /// Discards the remaining children of `parent` and all their descendants.
    #[verifier::spinoff_prover]
    #[verifier::rlimit(60)]
    fn discard_forks(&mut self, parent: SlotHash, Ghost(m0): Ghost<Map<Seq<u8>, BlockModel>>, Ghost(c): Ghost<Seq<u8>>)
        requires
            old(self).wf(),
            m0.contains_key(c),
            m0[c].parent == parent@,
            old(self)@.blocks == m0.remove(c),
        ensures
            final(self).wf(),
            final(self)@ == (ForkModel { blocks: m0.restrict(Set::new(|b: Seq<u8>| b != c && !discarded_by(m0, c, b))), ..old(self)@ }),
    {
        let mut worklist = self.children_of(&parent);
        let ghost p = parent@;
        proof {
            assert forall|i: int| 0 <= i < worklist@.len() implies discarded_by(m0, c, #[trigger] worklist@[i]@) by {
                let k = worklist@[i]@;
                assert(self@.chain_forks(p).contains(k));
                assert(reaches(m0, k, k, c, 0));
            }
            assert forall|k: Seq<u8>| #[trigger] self@.blocks.contains_key(k) && self@.blocks[k].parent == p implies listed(worklist@, k) by {
                assert(self@.chain_forks(p).contains(k));
            }
        }
        while worklist.len() > 0
            invariant
                self.wf(),
                self@.latest_id == old(self)@.latest_id,
                self@.store == old(self)@.store,
                m0.contains_key(c),
                m0[c].parent == p,
                forall|k: Seq<u8>| #[trigger] self@.blocks.contains_key(k) ==> m0.contains_key(k) && self@.blocks[k] == m0[k] && k != c,
                forall|k: Seq<u8>| #[trigger] m0.contains_key(k) && k != c && !self@.blocks.contains_key(k) ==> discarded_by(m0, c, k),
                forall|i: int| 0 <= i < worklist@.len() ==> discarded_by(m0, c, #[trigger] worklist@[i]@),
                forall|k: Seq<u8>| #[trigger] self@.blocks.contains_key(k) && self@.blocks[k].parent == p ==> listed(worklist@, k),
                forall|k: Seq<u8>| #[trigger] self@.blocks.contains_key(k) && m0.contains_key(self@.blocks[k].parent) && !self@.blocks.contains_key(self@.blocks[k].parent) && self@.blocks[k].parent != c ==> listed(worklist@, k),
            decreases self.blocks@.len(), worklist@.len(),
        {
            let ghost wl0 = worklist@;
            let ghost mb = self@.blocks;
            let w = worklist.pop().unwrap();
            proof {
                assert(w == wl0.last());
                assert(worklist@ =~= wl0.drop_last());
                assert(discarded_by(m0, c, wl0[wl0.len() - 1]@));
                assert forall|k: Seq<u8>| #[trigger] listed(wl0, k) && k != w@ implies listed(worklist@, k) by {
                    let i = choose|i: int| 0 <= i < wl0.len() && #[trigger] wl0[i]@ == k;
                    assert(worklist@[i] == wl0[i]);
                }
            }
            match self.find_hash(&w) {
                None => {},
                Some(j) => {
                    let _gone = self.remove_at(j);
                    let mut kids = self.children_of(&w);
                    let ghost wl1 = worklist@;
                    let ghost kv = kids@;
                    worklist.append(&mut kids);
                    proof {
                        assert(worklist@ =~= wl1 + kv);
                        let (s0, n0) = choose|s: Seq<u8>, n: nat| m0.contains_key(s) && s != c && m0[s].parent == m0[c].parent && #[trigger] reaches(m0, w@, s, c, n);
                        assert forall|i: int| 0 <= i < worklist@.len() implies discarded_by(m0, c, #[trigger] worklist@[i]@) by {
                            if i < wl1.len() {
                                assert(worklist@[i] == wl1[i] && wl1[i] == wl0[i]);
                            } else {
                                let k = kv[i - wl1.len()]@;
                                assert(worklist@[i]@ == k);
                                assert(listed(kv, k));
                                assert(self@.chain_forks(w@).contains(k));
                                assert(reaches(m0, k, s0, c, n0 + 1));
                            }
                        }
                        assert forall|k: Seq<u8>| listed(wl1, k) implies #[trigger] listed(worklist@, k) by {
                            let i = choose|i: int| 0 <= i < wl1.len() && #[trigger] wl1[i]@ == k;
                            assert(worklist@[i] == wl1[i]);
                        }
                        assert forall|k: Seq<u8>| listed(kv, k) implies #[trigger] listed(worklist@, k) by {
                            let i = choose|i: int| 0 <= i < kv.len() && #[trigger] kv[i]@ == k;
                            assert(worklist@[wl1.len() + i] == kv[i]);
                        }
                        assert forall|k: Seq<u8>| #[trigger] self@.blocks.contains_key(k) && self@.blocks[k].parent == w@ implies listed(kv, k) by {
                            assert(self@.chain_forks(w@).contains(k));
                        }
                    }
                },
            }
            proof {
                let m = self@.blocks;
                assert forall|k: Seq<u8>| #[trigger] m0.contains_key(k) && k != c && !m.contains_key(k) implies discarded_by(m0, c, k) by {
                    if mb.contains_key(k) {
                        assert(k == w@);
                    }
                }
            }
        }
        proof {
            let m = self@.blocks;
            let pruned = m0.restrict(Set::new(|b: Seq<u8>| b != c && !discarded_by(m0, c, b)));
            assert forall|k: Seq<u8>| m.contains_key(k) implies !discarded_by(m0, c, k) by {
                if discarded_by(m0, c, k) {
                    let (s, n) = choose|s: Seq<u8>, n: nat| m0.contains_key(s) && s != c && m0[s].parent == m0[c].parent && #[trigger] reaches(m0, k, s, c, n);
                    lemma_kept_not_discarded(m0, m, c, k, s, n);
                }
            }
            assert(m =~= pruned);
        }
    }
}

/// The `i`-th ancestor of `b`: `b` itself for `i == 0`.
pub open spec fn ancestor(m: Map<Seq<u8>, BlockModel>, b: Seq<u8>, i: nat) -> Seq<u8>
    decreases i,
{
    if i == 0 {
        b
    } else {
        ancestor(m, m[b].parent, (i - 1) as nat)
    }
}

/// `h` is pending with a snapshot that does not write `key`.
pub open spec fn passes_over(m: Map<Seq<u8>, BlockModel>, h: Seq<u8>, key: Seq<u8>, accessory: bool) -> bool {
    &&& m.contains_key(h)
    &&& m[h].snapshot is Some
    &&& !(if accessory {
        m[h].snapshot->Some_0.accessory
    } else {
        m[h].snapshot->Some_0.storage
    }).contains_key(key)
}

/// The value `h`'s snapshot wrote to `key`, if `h` is pending with a snapshot that wrote it.
pub open spec fn written_at(m: Map<Seq<u8>, BlockModel>, h: Seq<u8>, key: Seq<u8>, accessory: bool) -> Option<Seq<u8>> {
    if m.contains_key(h) && m[h].snapshot is Some {
        let w = if accessory {
            m[h].snapshot->Some_0.accessory
        } else {
            m[h].snapshot->Some_0.storage
        };
        if w.contains_key(key) {
            Some(w[key])
        } else {
            None
        }
    } else {
        None
    }
}

/// The child lists and the parent edges are inverse: `child` is listed
/// under `parent` exactly when `parent` is the parent recorded for `child`.
/// Every operation of `ForkManager` keeps its invariant, so this holds after
/// each of them.
pub proof fn lemma_forks_inverse_parents(m: ForkModel, parent: Seq<u8>, child: Seq<u8>)
    ensures
        m.chain_forks(parent).contains(child) <==> (m.blocks_to_parent().contains_key(child)
            && m.blocks_to_parent()[child] == parent),
{
}

/// A hash that has been registered cannot be registered again: after a
/// successful `get_new_ref` for `hash`, the hash is pending, and
/// `get_new_ref` refuses a pending hash with `AlreadyRegistered`.
pub proof fn lemma_register_twice_fails(m: ForkModel, hash: Seq<u8>, parent: Seq<u8>, id: SnapshotId)
    ensures
        m.register(hash, parent, id).blocks.contains_key(hash),
{
}

/// The chain walk from `b` returns the value of the nearest write: when the
/// ancestors of `b` at depths below `d` all hold snapshots that do not write
/// `key`, and the ancestor at depth `d` holds one that does.
proof fn lemma_nearest_write_wins(
    m: Map<Seq<u8>, BlockModel>,
    b: Seq<u8>,
    key: Seq<u8>,
    accessory: bool,
    d: nat,
    fuel: nat,
)
    requires
        d < fuel,
        forall|i: nat| i < d ==> passes_over(m, #[trigger] ancestor(m, b, i), key, accessory),
        written_at(m, ancestor(m, b, d), key, accessory) is Some,
    ensures
        chain_value(m, b, key, accessory, fuel) == written_at(m, ancestor(m, b, d), key, accessory),
    decreases d,
{
    if d > 0 {
        assert(passes_over(m, ancestor(m, b, 0), key, accessory));
        let q = m[b].parent;
        assert forall|i: nat| i < (d - 1) as nat implies passes_over(m, #[trigger] ancestor(m, q, i), key, accessory) by {
            assert(ancestor(m, b, i + 1) == ancestor(m, q, i));
            assert(passes_over(m, ancestor(m, b, i + 1), key, accessory));
        }
        assert(ancestor(m, b, d) == ancestor(m, q, (d - 1) as nat));
        lemma_nearest_write_wins(m, q, key, accessory, (d - 1) as nat, (fuel - 1) as nat);
    }
}

/// The chain walk from `b` finds nothing when the ancestors of `b` below
/// depth `d` hold snapshots that do not write `key` and the ancestor at depth
/// `d` is no longer pending or has no snapshot.
proof fn lemma_unwritten_falls_through(
    m: Map<Seq<u8>, BlockModel>,
    b: Seq<u8>,
    key: Seq<u8>,
    accessory: bool,
    d: nat,
    fuel: nat,
)
    requires
        forall|i: nat| i < d ==> passes_over(m, #[trigger] ancestor(m, b, i), key, accessory),
        !m.contains_key(ancestor(m, b, d)) || m[ancestor(m, b, d)].snapshot is None,
    ensures
        chain_value(m, b, key, accessory, fuel) is None,
    decreases d,
{
    if d > 0 && fuel > 0 {
        assert(passes_over(m, ancestor(m, b, 0), key, accessory));
        let q = m[b].parent;
        assert forall|i: nat| i < (d - 1) as nat implies passes_over(m, #[trigger] ancestor(m, q, i), key, accessory) by {
            assert(ancestor(m, b, i + 1) == ancestor(m, q, i));
            assert(passes_over(m, ancestor(m, b, i + 1), key, accessory));
        }
        assert(ancestor(m, b, d) == ancestor(m, q, (d - 1) as nat));
        lemma_unwritten_falls_through(m, q, key, accessory, (d - 1) as nat, (fuel - 1) as nat);
    }
}

/// Reads resolve to the nearest write on the ancestor chain: a query from
/// the block of `id` returns the value that the ancestor at depth `d` wrote,
/// when the ancestors below it hold snapshots that do not write `key`. The
/// chain is at most as long as there are pending blocks.
pub proof fn lemma_query_nearest_write(m: ForkModel, id: SnapshotId, key: Seq<u8>, accessory: bool, d: nat)
    requires
        m.has_id(id),
        d < m.blocks.len(),
        forall|i: nat| i < d ==> passes_over(m.blocks, #[trigger] ancestor(m.blocks, m.hash_of_id(id), i), key, accessory),
        written_at(m.blocks, ancestor(m.blocks, m.hash_of_id(id), d), key, accessory) is Some,
    ensures
        m.query(id, key, accessory) == written_at(m.blocks, ancestor(m.blocks, m.hash_of_id(id), d), key, accessory),
{
    lemma_nearest_write_wins(m.blocks, m.hash_of_id(id), key, accessory, d, m.blocks.len());
}

/// A key that no pending snapshot on the chain wrote is not found among the
/// pending blocks, so the persistent store answers it: when the ancestors of
/// the block of `id` below depth `d` hold snapshots that do not write `key`
/// and the ancestor at depth `d` is not pending or has no snapshot, the query
/// returns nothing.
pub proof fn lemma_query_falls_through(m: ForkModel, id: SnapshotId, key: Seq<u8>, accessory: bool, d: nat)
    requires
        forall|i: nat| i < d ==> passes_over(m.blocks, #[trigger] ancestor(m.blocks, m.hash_of_id(id), i), key, accessory),
        !m.blocks.contains_key(ancestor(m.blocks, m.hash_of_id(id), d))
            || m.blocks[ancestor(m.blocks, m.hash_of_id(id), d)].snapshot is None,
    ensures
        m.query(id, key, accessory) is None,
{
    lemma_unwritten_falls_through(m.blocks, m.hash_of_id(id), key, accessory, d, m.blocks.len());
}

/// Finalizing `c` removes every sibling subtree: a sibling `s` of `c`, and
/// every block that descends from `s` without passing through `c`, is no
/// longer pending and has no snapshot afterwards.
pub proof fn lemma_finalize_removes_forks(m: ForkModel, c: Seq<u8>, s: Seq<u8>, b: Seq<u8>, n: nat)
    requires
        m.blocks.contains_key(c),
        m.blocks.contains_key(s),
        s != c,
        m.blocks[s].parent == m.blocks[c].parent,
        reaches(m.blocks, b, s, c, n),
    ensures
        !m.pruned(c).contains_key(b),
        !(ForkModel { blocks: m.pruned(c), ..m }).snapshots().contains(b),
        !m.pruned(c).contains_key(c),
{
    assert(discarded_by(m.blocks, c, b));
}

/// The operations through which a slot driver feeds a fork manager: register
/// a block, attach its executed snapshot, finalize a block.
pub trait ForkManagerTrait {
    /// The implementation's invariant.
    spec fn well_formed(&self) -> bool;

    /// What the implementation holds.
    spec fn fork_model(&self) -> ForkModel;

    fn get_new_ref(&mut self, block_header: &BlockHeader) -> (r: Result<SnapshotId, ForkError>)
        requires
            old(self).well_formed(),
        ensures
            final(self).well_formed(),
            r is Ok <==> !old(self).fork_model().blocks.contains_key(block_header.hash@)
                && old(self).fork_model().latest_id < u64::MAX,
            r matches Ok(id) ==> id == old(self).fork_model().latest_id + 1
                && final(self).fork_model() == old(self).fork_model().register(
                block_header.hash@,
                block_header.prev_hash@,
                id,
            ),
            r is Err ==> final(self).fork_model() == old(self).fork_model(),
    ;

    fn add_snapshot(&mut self, snapshot: Snapshot) -> (r: Result<(), ForkError>)
        requires
            old(self).well_formed(),
        ensures
            final(self).well_formed(),
            r is Ok <==> old(self).fork_model().has_id(snapshot@.id),
            r is Ok ==> final(self).fork_model() == (ForkModel {
                blocks: old(self).fork_model().blocks.insert(
                    old(self).fork_model().hash_of_id(snapshot@.id),
                    BlockModel {
                        snapshot: Some(snapshot@),
                        ..old(self).fork_model().blocks[old(self).fork_model().hash_of_id(snapshot@.id)]
                    },
                ),
                ..old(self).fork_model()
            }),
            r is Err ==> final(self).fork_model() == old(self).fork_model(),
    ;

    fn finalize_snapshot(&mut self, block_hash: &SlotHash) -> (r: Result<(), ForkError>)
        requires
            old(self).well_formed(),
        ensures
            final(self).well_formed(),
            r is Ok <==> old(self).fork_model().snapshots().contains(block_hash@)
                && old(self).fork_model().store.version < u64::MAX,
            r is Ok ==> final(self).fork_model() == (ForkModel {
                blocks: old(self).fork_model().pruned(block_hash@),
                latest_id: old(self).fork_model().latest_id,
                store: old(self).fork_model().committed(
                    old(self).fork_model().blocks[block_hash@].snapshot->Some_0,
                ),
            }),
            r is Err ==> final(self).fork_model() == old(self).fork_model(),
    ;
}

impl ForkManagerTrait for ForkManager {
    open spec fn well_formed(&self) -> bool {
        self.wf()
    }

    open spec fn fork_model(&self) -> ForkModel {
        self@
    }

    fn get_new_ref(&mut self, block_header: &BlockHeader) -> (r: Result<SnapshotId, ForkError>) {
        ForkManager::get_new_ref(self, block_header)
    }

    fn add_snapshot(&mut self, snapshot: Snapshot) -> (r: Result<(), ForkError>) {
        ForkManager::add_snapshot(self, snapshot)
    }

    fn finalize_snapshot(&mut self, block_hash: &SlotHash) -> (r: Result<(), ForkError>) {
        ForkManager::finalize_snapshot(self, block_hash)
    }
}

} // verus!
