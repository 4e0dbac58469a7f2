use tcp_sentinel::sequence::{Sequence, SequenceRange};

#[test]
fn add_then_sub_recovers_offset() {
    let s = Sequence(100);
    let k: u32 = 50;
    assert_eq!(s.add(k).sub(s), k as i64);
    let s = Sequence(0);
    let k: u32 = 0xFFFF_FFFF;
    assert_eq!(s.add(k).sub(s), k as i64);
}

#[test]
fn add_wraps_at_thirty_two_bits() {
    assert_eq!(Sequence::from_u32(0xFFFF_FFFF).add(1), Sequence(0));
}

#[test]
fn sub_is_signed_and_unreduced() {
    assert_eq!(Sequence(0).sub(Sequence(0xFFFF_FFFF)), -(0xFFFF_FFFFi64));
    assert_eq!(Sequence(7).sub(Sequence(3)), 4);
}

#[test]
fn touching_ranges_are_equal() {
    let a = SequenceRange { from: Sequence(0), to: Sequence(3) };
    let b = SequenceRange { from: Sequence(3), to: Sequence(5) };
    assert_eq!(a, b);
    assert_eq!(b, a);
}

#[test]
fn disjoint_ranges_are_ordered() {
    let a = SequenceRange { from: Sequence(0), to: Sequence(2) };
    let b = SequenceRange { from: Sequence(3), to: Sequence(5) };
    assert!(a < b);
    assert!(b > a);
    assert!(a != b);
}

#[test]
fn nested_ranges_are_equal() {
    let outer = SequenceRange { from: Sequence(0), to: Sequence(9) };
    let inner = SequenceRange { from: Sequence(4), to: Sequence(5) };
    assert_eq!(outer, inner);
}
