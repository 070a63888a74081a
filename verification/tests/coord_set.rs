use sudoku_rust::coord_set::{coord_set_size, CoordSet};

#[test]
fn coord_set_empty() {
    let set = CoordSet::empty();

    assert!(set.is_empty());
    assert_eq!(set.size(), 0);
    for i in 0..9 {
        assert!(!set.has(i));
    }
    assert_eq!(set.to_coord_string(), "·········");
}

#[test]
fn coord_set_full() {
    let set = CoordSet::full();

    assert!(!set.is_empty());
    assert_eq!(set.size(), 9);
    for i in 0..9 {
        assert!(set.has(i));
    }
    assert_eq!(set.to_coord_string(), "123456789");
}

#[test]
fn add() {
    let mut set = CoordSet::of(&[2, 4, 6]);

    set.add(2);
    assert!(set.has(2));
    assert_eq!(set.size(), 3);

    set.add(3);
    assert!(set.has(3));
    assert_eq!(set.size(), 4);
}

#[test]
fn remove() {
    let mut set = CoordSet::of(&[2, 4, 6]);

    set.remove(3);
    assert!(set.has(2));
    assert!(!set.has(3));
    assert_eq!(set.size(), 3);

    set.remove(2);
    assert!(!set.has(2));
    assert_eq!(set.size(), 2);
}

#[test]
fn clone() {
    let mut set = CoordSet::of(&[2, 4, 6]);
    let mut other = set.clone();

    set.add(3);
    assert!(set.has(3));
    assert_eq!(set.size(), 4);
    assert!(!other.has(3));
    assert_eq!(other.size(), 3);

    other.remove(4);
    assert!(!other.has(4));
    assert_eq!(other.size(), 2);
    assert!(set.has(4));
    assert_eq!(set.size(), 4);
}

#[test]
fn union_intersect_and_sizes() {
    let a = CoordSet::of(&[0, 2, 4]);
    let b = CoordSet::of(&[2, 3]);
    assert_eq!(a.union(&b).to_string(), "1·345····");
    assert_eq!(a.intersect(&b).to_string(), "··3······");
    assert_eq!(coord_set_size(0b101010101), 5);
    assert_eq!(CoordSet::new(0b11).size(), 2);
}

#[test]
fn difference_masks_with_the_negated_word() {
    // Two's-complement negation keeps the lowest member of the other set's word.
    let a = CoordSet::of(&[0, 1, 2]);
    let b = CoordSet::of(&[0, 1]);
    assert_eq!(a.difference(&b).to_string(), "1·3······");
    let c = CoordSet::of(&[1]);
    assert_eq!(a.difference(&c).to_string(), "·23······");
}
