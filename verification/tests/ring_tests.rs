use tcp_sentinel::ring::Ring;

fn drain(ring: &Ring<i32>) -> Vec<i32> {
    let mut it = ring.iter();
    let mut got: Vec<i32> = Vec::new();
    while let Some(v) = it.next() {
        got.push(v);
    }
    got
}

#[test]
fn accept_less_than_n_elems_and_gives_them_back() {
    let mut ring = Ring::new(3);
    ring.push(1);
    ring.push(2);

    assert!(drain(&ring) == vec![1, 2]);
}

#[test]
fn accepts_exactly_n_elems_and_gives_them_back() {
    let mut ring = Ring::new(3);
    ring.push(1);
    ring.push(2);
    ring.push(3);

    assert!(drain(&ring) == vec![1, 2, 3]);
}

#[test]
fn accepts_more_than_n_elems_and_gives_back_only_last_n_of_them() {
    let mut ring = Ring::new(3);
    ring.push(1);
    ring.push(2);
    ring.push(3);
    ring.push(4);
    ring.push(5);

    assert!(drain(&ring) == vec![3, 4, 5]);
}

#[test]
fn first_is_the_oldest_kept_element() {
    let mut ring = Ring::new(2);
    assert!(ring.first().is_none());
    ring.push(7);
    assert_eq!(ring.first(), Some(&7));
    ring.push(8);
    ring.push(9);
    assert_eq!(ring.first(), Some(&8));
}

#[test]
fn iterates_from_both_ends() {
    let mut ring = Ring::new(3);
    ring.push(1);
    ring.push(2);
    ring.push(3);
    ring.push(4);

    let mut it = ring.iter();
    assert_eq!(it.len(), 3);
    assert_eq!(it.next_back(), Some(4));
    assert_eq!(it.next(), Some(2));
    assert_eq!(it.next_back(), Some(3));
    assert_eq!(it.len(), 0);
    assert_eq!(it.next(), None);
    assert_eq!(it.next_back(), None);
}
