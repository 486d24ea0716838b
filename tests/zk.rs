use sov_fork_manager::zk::{HintReadError, Hints, Risc0Guest};

#[test]
fn words_are_read_in_order() {
    let mut hints = Hints::with_hints(vec![1, 2, 3, 4, 5]);
    let mut two = [0u32; 2];
    assert_eq!(hints.read_words(&mut two), Ok(()));
    assert_eq!(two, [1, 2]);
    assert_eq!(hints.remaining(), 3);
    let mut four = [0u32; 4];
    assert_eq!(hints.read_words(&mut four), Err(HintReadError::UnexpectedEnd));
    assert_eq!(four, [0; 4]);
    let mut three = [0u32; 3];
    assert_eq!(hints.read_words(&mut three), Ok(()));
    assert_eq!(three, [3, 4, 5]);
    assert_eq!(hints.remaining(), 0);
}

#[test]
fn padded_bytes_advance_by_whole_words() {
    let mut hints = Hints::with_hints(vec![u32::from_ne_bytes([1, 2, 3, 4]), u32::from_ne_bytes([5, 6, 7, 8])]);
    let mut bytes = [0u8; 4];
    assert_eq!(hints.read_padded_bytes(&mut bytes), Ok(()));
    assert_eq!(bytes, [1, 2, 3, 4]);
    assert_eq!(hints.remaining(), 1);
    let mut too_many = [0u8; 5];
    assert_eq!(hints.read_padded_bytes(&mut too_many), Err(HintReadError::UnexpectedEnd));
    assert_eq!(hints.remaining(), 1);
}

#[test]
fn new_hints_are_empty() {
    assert_eq!(Hints::new().remaining(), 0);
    let mut guest = Risc0Guest::new();
    assert_eq!(guest.hints_mut().remaining(), 0);
    let mut guest = Risc0Guest::with_hints(vec![7, 8]);
    let mut one = [0u32; 1];
    guest.hints_mut().read_words(&mut one).unwrap();
    assert_eq!(one, [7]);
    assert_eq!(guest.hints_mut().remaining(), 1);
}
