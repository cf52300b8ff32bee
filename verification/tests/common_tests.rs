use rbtl_steamsockets::common::is_seq_id_past;

#[test]
fn is_seq_id_past_test() {
    assert!(is_seq_id_past(5, u32::MAX));
    assert!(!is_seq_id_past(u32::MAX, 5));
    assert!(is_seq_id_past(10, 5));
    assert!(!is_seq_id_past(5, 10));
}

#[test]
fn seq_id_past_is_reflexive() {
    assert!(is_seq_id_past(0, 0));
    assert!(is_seq_id_past(u32::MAX, u32::MAX));
    assert!(is_seq_id_past(123_456, 123_456));
}

#[test]
fn seq_id_past_boundary_at_half_range() {
    // distance u32::MAX / 2 - 1 is still past, u32::MAX / 2 is not
    assert!(is_seq_id_past(0x7fff_fffe, 0));
    assert!(!is_seq_id_past(0x7fff_ffff, 0));
    assert!(!is_seq_id_past(0, 1));
}

#[test]
fn seq_id_past_is_antisymmetric_and_shift_invariant() {
    let pairs = [(1u32, 2u32), (u32::MAX, 0), (100, 7), (0x8000_0000, 3)];
    for (a, b) in pairs {
        assert!(!(is_seq_id_past(a, b) && is_seq_id_past(b, a)));
        assert_eq!(
            is_seq_id_past(a.wrapping_add(1), b.wrapping_add(1)),
            is_seq_id_past(a, b)
        );
    }
}
