use sov_fork_manager::fork_manager::{ForkError, ForkManager};
use sov_fork_manager::hash::{BlockHeader, SlotHash};
use sov_fork_manager::snapshot::Snapshot;

fn h(n: u8) -> SlotHash {
    SlotHash([n; 32])
}

fn header(hash: u8, parent: u8) -> BlockHeader {
    BlockHeader::new(h(hash), h(parent))
}

fn snapshot_with(id: u64, key: &[u8], value: &[u8]) -> Snapshot {
    let mut s = Snapshot::new(id);
    s.set_storage_value(key.to_vec(), value.to_vec());
    s
}

fn hashes(v: &[SlotHash]) -> Vec<[u8; 32]> {
    v.iter().map(|x| x.0).collect()
}

#[test]
fn initiate_new() {
    let fork_manager = ForkManager::new();
    assert!(fork_manager.is_empty());
}

#[test]
fn linear_progression_with_2_blocks_delay() {
    // Blocks 1 <- 2 <- 3 <- 4, each finalized two blocks after it was added.
    let mut fm = ForkManager::new();
    let mut ids = Vec::new();
    for n in 1u8..=4 {
        let id = fm.get_new_ref(&header(n, n - 1)).unwrap();
        fm.add_snapshot(snapshot_with(id, &[n], &[n * 10])).unwrap();
        ids.push(id);
        if n >= 3 {
            fm.finalize_snapshot(&h(n - 2)).unwrap();
        }
    }
    assert_eq!(ids, vec![1, 2, 3, 4]);
    assert_eq!(fm.store().version(), 2);
    assert_eq!(fm.store().get_storage_value(&[1]), Some(vec![10]));
    assert_eq!(fm.store().get_storage_value(&[2]), Some(vec![20]));
    assert_eq!(fm.store().get_storage_value(&[3]), None);
    // Block 4 still sees block 3's pending write, and block 2's through the store.
    assert_eq!(fm.query_storage_value(&4, &[3]), Some(vec![30]));
    assert_eq!(fm.query_storage_value(&4, &[2]), None);
    assert_eq!(fm.read_storage_value(&4, &[2]), Some(vec![20]));
    fm.finalize_snapshot(&h(3)).unwrap();
    fm.finalize_snapshot(&h(4)).unwrap();
    assert!(fm.is_empty());
    assert_eq!(fm.store().version(), 4);
}

#[test]
fn fork_added() {
    let mut fm = ForkManager::new();
    let b = fm.get_new_ref(&header(2, 1)).unwrap();
    let c = fm.get_new_ref(&header(3, 1)).unwrap();
    fm.add_snapshot(snapshot_with(b, b"k", b"from-b")).unwrap();
    fm.add_snapshot(snapshot_with(c, b"k", b"from-c")).unwrap();
    assert_eq!(hashes(&fm.children_of(&h(1))), vec![[2; 32], [3; 32]]);
    assert_eq!(fm.parent_of(&h(3)).map(|p| p.0), Some([1; 32]));
    assert_eq!(fm.query_storage_value(&b, b"k"), Some(b"from-b".to_vec()));
    assert_eq!(fm.query_storage_value(&c, b"k"), Some(b"from-c".to_vec()));
}

#[test]
fn adding_alien_snapshot() {
    let mut fm = ForkManager::new();
    fm.get_new_ref(&header(2, 1)).unwrap();
    assert_eq!(fm.add_snapshot(Snapshot::new(7)), Err(ForkError::UnknownSnapshotId));
    assert!(!fm.has_snapshot(&h(2)));
}

#[test]
fn finalizing_alien_block() {
    let mut fm = ForkManager::new();
    assert_eq!(fm.finalize_snapshot(&h(9)), Err(ForkError::MissingSnapshot));
    // Registered but never executed: still nothing to finalize.
    fm.get_new_ref(&header(2, 1)).unwrap();
    assert_eq!(fm.finalize_snapshot(&h(2)), Err(ForkError::MissingSnapshot));
    assert_eq!(fm.store().version(), 0);
}

#[test]
fn finalizing_same_block_hash_twice() {
    let mut fm = ForkManager::new();
    let id = fm.get_new_ref(&header(2, 1)).unwrap();
    fm.add_snapshot(snapshot_with(id, b"a", b"1")).unwrap();
    assert_eq!(fm.finalize_snapshot(&h(2)), Ok(()));
    assert_eq!(fm.finalize_snapshot(&h(2)), Err(ForkError::MissingSnapshot));
    assert_eq!(fm.store().version(), 1);
}

#[test]
fn requesting_ref_from_same_block_twice() {
    let mut fm = ForkManager::new();
    assert_eq!(fm.get_new_ref(&header(2, 1)), Ok(1));
    assert_eq!(fm.get_new_ref(&header(2, 1)), Err(ForkError::AlreadyRegistered));
    assert_eq!(fm.get_new_ref(&header(2, 5)), Err(ForkError::AlreadyRegistered));
    // The refused calls handed out no id.
    assert_eq!(fm.get_new_ref(&header(3, 2)), Ok(2));
}

#[test]
fn sibling_fork_is_discarded_on_finalization() {
    // A (finalized root) -> B -> C, and A -> D.
    let mut fm = ForkManager::new();
    let b = fm.get_new_ref(&header(0xB, 0xA)).unwrap();
    let d = fm.get_new_ref(&header(0xD, 0xA)).unwrap();
    fm.add_snapshot(snapshot_with(b, b"kb", b"vb")).unwrap();
    fm.add_snapshot(snapshot_with(d, b"kd", b"vd")).unwrap();
    let c = fm.get_new_ref(&header(0xC, 0xB)).unwrap();
    fm.add_snapshot(snapshot_with(c, b"kc", b"vc")).unwrap();
    assert_eq!(fm.query_storage_value(&c, b"kb"), Some(b"vb".to_vec()));
    assert_eq!(fm.query_storage_value(&c, b"kd"), None);

    fm.finalize_snapshot(&h(0xB)).unwrap();
    assert!(!fm.has_snapshot(&h(0xD)));
    assert!(fm.parent_of(&h(0xD)).is_none());
    assert!(fm.children_of(&h(0xA)).is_empty());
    assert_eq!(fm.block_hash_of(&d).map(|x| x.0), None);

    fm.finalize_snapshot(&h(0xC)).unwrap();
    assert_eq!(fm.store().get_storage_value(b"kb"), Some(b"vb".to_vec()));
    assert_eq!(fm.store().get_storage_value(b"kc"), Some(b"vc".to_vec()));
    assert_eq!(fm.store().get_storage_value(b"kd"), None);
    assert_eq!(fm.store().version(), 2);
    assert!(fm.is_empty());
}

#[test]
fn sibling_subtrees_are_discarded_with_descendants() {
    // P -> C (finalized), P -> S1 -> S1a -> S1b, P -> S2 -> S2a, C -> K.
    let mut fm = ForkManager::new();
    let edges = [(0xC, 0xF), (0x1, 0xF), (0x2, 0xF), (0x11, 0x1), (0x12, 0x11), (0x21, 0x2), (0xE, 0xC)];
    for (hash, parent) in edges {
        let id = fm.get_new_ref(&header(hash, parent)).unwrap();
        fm.add_snapshot(snapshot_with(id, &[hash], &[hash])).unwrap();
    }
    fm.finalize_snapshot(&h(0xC)).unwrap();
    for gone in [0x1u8, 0x2, 0x11, 0x12, 0x21] {
        assert!(!fm.has_snapshot(&h(gone)));
        assert!(fm.parent_of(&h(gone)).is_none());
    }
    assert!(fm.has_snapshot(&h(0xE)));
    assert_eq!(fm.parent_of(&h(0xE)).map(|p| p.0), Some([0xC; 32]));
    assert_eq!(hashes(&fm.children_of(&h(0xC))), vec![[0xE; 32]]);
    assert!(!fm.is_empty());
    fm.finalize_snapshot(&h(0xE)).unwrap();
    assert!(fm.is_empty());
}

#[test]
fn nearest_ancestor_write_wins() {
    // Chain 1 <- 2 <- 3 <- 4; key written at depth 2 and again at depth 4.
    let mut fm = ForkManager::new();
    let mut ids = Vec::new();
    for n in 1u8..=4 {
        let id = fm.get_new_ref(&header(n, n - 1)).unwrap();
        let mut s = Snapshot::new(id);
        if n == 2 {
            s.set_storage_value(b"k".to_vec(), b"two".to_vec());
        }
        if n == 4 {
            s.set_storage_value(b"k".to_vec(), b"four".to_vec());
        }
        s.set_accessory_value(vec![n], vec![n]);
        fm.add_snapshot(s).unwrap();
        ids.push(id);
    }
    assert_eq!(fm.query_storage_value(&ids[0], b"k"), None);
    assert_eq!(fm.query_storage_value(&ids[1], b"k"), Some(b"two".to_vec()));
    assert_eq!(fm.query_storage_value(&ids[2], b"k"), Some(b"two".to_vec()));
    assert_eq!(fm.query_storage_value(&ids[3], b"k"), Some(b"four".to_vec()));
    assert_eq!(fm.query_accessory_value(&ids[3], &[1]), Some(vec![1]));
    assert_eq!(fm.query_accessory_value(&ids[0], &[3]), None);
    assert_eq!(fm.query_storage_value(&99, b"k"), None);
}

#[test]
fn block_without_snapshot_stops_the_walk() {
    let mut fm = ForkManager::new();
    let a = fm.get_new_ref(&header(1, 0)).unwrap();
    let b = fm.get_new_ref(&header(2, 1)).unwrap();
    fm.add_snapshot(snapshot_with(b, b"x", b"y")).unwrap();
    assert_eq!(fm.query_storage_value(&b, b"x"), Some(b"y".to_vec()));
    assert_eq!(fm.query_storage_value(&a, b"x"), None);
    assert_eq!(fm.block_hash_of(&a).map(|x| x.0), Some([1; 32]));
}

#[test]
fn cyclic_parents_do_not_hang_reads() {
    let mut fm = ForkManager::new();
    let a = fm.get_new_ref(&header(1, 2)).unwrap();
    let b = fm.get_new_ref(&header(2, 1)).unwrap();
    fm.add_snapshot(Snapshot::new(a)).unwrap();
    fm.add_snapshot(Snapshot::new(b)).unwrap();
    assert_eq!(fm.query_storage_value(&a, b"missing"), None);
}

#[test]
fn later_snapshot_overrides_store_value() {
    let mut fm = ForkManager::new();
    let a = fm.get_new_ref(&header(1, 0)).unwrap();
    fm.add_snapshot(snapshot_with(a, b"k", b"old")).unwrap();
    fm.finalize_snapshot(&h(1)).unwrap();
    let b = fm.get_new_ref(&header(2, 1)).unwrap();
    fm.add_snapshot(snapshot_with(b, b"k", b"new")).unwrap();
    assert_eq!(fm.read_storage_value(&b, b"k"), Some(b"new".to_vec()));
    fm.finalize_snapshot(&h(2)).unwrap();
    assert_eq!(fm.store().get_storage_value(b"k"), Some(b"new".to_vec()));
}

#[test]
fn parent_chain_lists_snapshots_nearest_first() {
    let mut fm = ForkManager::new();
    let a = fm.get_new_ref(&header(1, 0)).unwrap();
    let b = fm.get_new_ref(&header(2, 1)).unwrap();
    let c = fm.get_new_ref(&header(3, 2)).unwrap();
    fm.add_snapshot(Snapshot::new(b)).unwrap();
    fm.add_snapshot(Snapshot::new(c)).unwrap();
    assert_eq!(hashes(&fm.parent_iterator(&c)), vec![[3; 32], [2; 32]]);
    fm.add_snapshot(Snapshot::new(a)).unwrap();
    assert_eq!(hashes(&fm.parent_iterator(&c)), vec![[3; 32], [2; 32], [1; 32]]);
    assert!(fm.parent_iterator(&42).is_empty());
}

fn drive<M: sov_fork_manager::fork_manager::ForkManagerTrait>(m: &mut M) -> Result<(), ForkError> {
    let id = m.get_new_ref(&header(5, 4))?;
    m.add_snapshot(snapshot_with(id, b"t", b"u"))?;
    m.finalize_snapshot(&h(5))
}

#[test]
fn trait_drives_the_manager() {
    let mut fm = ForkManager::new();
    assert_eq!(drive(&mut fm), Ok(()));
    assert_eq!(fm.store().get_storage_value(b"t"), Some(b"u".to_vec()));
    assert_eq!(drive(&mut fm), Ok(()));
    assert_eq!(fm.store().version(), 2);
}
