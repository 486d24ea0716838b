use sov_fork_manager::codec::{decode_u64, decode_value, encode_u64, encode_value};
use sov_fork_manager::witness::{ArrayWitness, WitnessError};

#[test]
fn hints_replay_in_recording_order() {
    let mut w = ArrayWitness::new();
    w.add_hint_u64(1);
    w.add_hint_u64(2);
    w.add_hint_u64(3);
    assert_eq!(w.get_hint_u64(), Ok(1));
    assert_eq!(w.get_hint_u64(), Ok(2));
    assert_eq!(w.get_hint_u64(), Ok(3));
    assert_eq!(w.get_hint_u64(), Err(WitnessError::Exhausted));
}

#[test]
fn merge_appends_unread_suffix() {
    let mut lhs = ArrayWitness::new();
    lhs.add_hint_u64(100);
    lhs.add_hint_u64(7);
    assert_eq!(lhs.get_hint_u64(), Ok(100));
    let mut rhs = ArrayWitness::default();
    rhs.add_hint_u64(1);
    rhs.add_hint_u64(8);
    rhs.add_hint_u64(9);
    assert_eq!(rhs.get_hint_u64(), Ok(1));
    lhs.merge(&mut rhs);
    assert_eq!(lhs.remaining(), 3);
    assert_eq!(rhs.remaining(), 0);
    assert_eq!(lhs.get_hint_u64(), Ok(7));
    assert_eq!(lhs.get_hint_u64(), Ok(8));
    assert_eq!(lhs.get_hint_u64(), Ok(9));
    assert_eq!(lhs.get_hint_u64(), Err(WitnessError::Exhausted));
}

#[test]
fn wrong_type_is_undecodable() {
    let mut w = ArrayWitness::new();
    w.add_hint_value(&Some(b"abcd".to_vec()));
    w.add_hint_u64(5);
    assert_eq!(w.get_hint_u64(), Err(WitnessError::Undecodable));
    assert_eq!(w.get_hint_value(), Err(WitnessError::Undecodable));
    assert_eq!(w.len(), 2);
}

#[test]
fn storage_value_hints_round_trip() {
    let mut w = ArrayWitness::new();
    w.add_hint_value(&None);
    w.add_hint_value(&Some(vec![]));
    w.add_hint_value(&Some(vec![1, 2, 3]));
    assert_eq!(w.get_hint_value(), Ok(None));
    assert_eq!(w.get_hint_value(), Ok(Some(vec![])));
    assert_eq!(w.get_hint_value(), Ok(Some(vec![1, 2, 3])));
    assert_eq!(w.get_hint_value(), Err(WitnessError::Exhausted));
}

#[test]
fn hint_encodings_are_borsh() {
    assert_eq!(encode_u64(0x0102030405060708), vec![8, 7, 6, 5, 4, 3, 2, 1]);
    assert_eq!(decode_u64(&[1, 0, 0, 0, 0, 0, 0, 0]), Some(1));
    assert_eq!(decode_u64(&[1, 0, 0]), None);
    assert_eq!(decode_u64(&[1, 0, 0, 0, 0, 0, 0, 0, 0]), None);
    assert_eq!(encode_value(&None), vec![0]);
    assert_eq!(encode_value(&Some(vec![9, 9])), vec![1, 2, 0, 0, 0, 9, 9]);
    assert_eq!(decode_value(&[1, 2, 0, 0, 0, 9, 9]), Some(Some(vec![9, 9])));
    assert_eq!(decode_value(&[1, 3, 0, 0, 0, 9, 9]), None);
    assert_eq!(decode_value(&[2]), None);
    assert_eq!(decode_value(&[0]), Some(None));
}

fn replay<W: sov_fork_manager::witness::Witness>(w: &mut W, n: u64) -> Vec<Result<u64, WitnessError>> {
    (0..n).map(|_| w.get_hint_u64()).collect()
}

#[test]
fn trait_replays_hints() {
    let mut w = ArrayWitness::new();
    sov_fork_manager::witness::Witness::add_hint_u64(&mut w, 10);
    sov_fork_manager::witness::Witness::add_hint_u64(&mut w, 20);
    assert_eq!(replay(&mut w, 3), vec![Ok(10), Ok(20), Err(WitnessError::Exhausted)]);
}
