use sudoku_rust::layout::cells::cell::Cell;
use sudoku_rust::layout::cells::peer_set::PeerSet;

fn cell(label: &str) -> Cell {
    Cell::try_from(label).unwrap()
}

fn count(set: &PeerSet) -> usize {
    let mut iter = set.iter();
    let mut n = 0;
    while iter.next().is_some() {
        n += 1;
    }
    n
}

#[test]
fn empty_is_empty() {
    let set = PeerSet::empty();
    assert!(set.is_empty());
    assert_eq!(0, set.len());
    assert_eq!(0, count(&set));
}

#[test]
fn insert_contains_remove() {
    let mut set = PeerSet::empty();
    let a = cell("A1");
    let b = cell("A2");

    set.add_assign((a, b));
    assert!(set.has(a, b));
    assert!(set.index((b, a)));
    assert_eq!(1, set.len());

    set.sub_assign((a, b));
    assert!(!set.has(a, b));
    assert!(set.is_empty());
}

#[test]
fn insert_is_idempotent() {
    let mut set = PeerSet::empty();
    let a = cell("B3");
    let b = cell("B7");

    set.add_assign((a, b));
    set.add_assign((b, a));
    assert_eq!(1, set.len());
}

#[test]
fn iter_matches_contents() {
    let mut set = PeerSet::empty();
    let pairs = vec![
        (cell("A1"), cell("A2")),
        (cell("A1"), cell("B1")),
        (cell("C3"), cell("A3")),
        (cell("H4"), cell("J4")),
    ];
    for (a, b) in &pairs {
        set.add_assign((*a, *b));
    }

    assert_eq!(pairs.len(), count(&set));
    for (a, b) in pairs {
        assert!(set.has(a, b));
    }
}

#[test]
fn iter_returns_pairs_lower_cell_first_in_slot_order() {
    let mut set = PeerSet::empty();
    set.add(cell("J4"), cell("H4"));
    set.add(cell("A2"), cell("A1"));
    set.add(cell("J8"), cell("J9"));

    let mut iter = set.iter();
    assert_eq!(Some((cell("A1"), cell("A2"))), iter.next());
    assert_eq!(Some((cell("H4"), cell("J4"))), iter.next());
    assert_eq!(Some((cell("J8"), cell("J9"))), iter.next());
    assert_eq!(None, iter.next());
}

#[test]
fn with_and_without_leave_the_set_unchanged() {
    let set = PeerSet::empty().with(cell("E5"), cell("F6"));
    assert!(set.contains(cell("F6"), cell("E5")));
    let none = set.without(cell("E5"), cell("F6"));
    assert!(none.is_empty());
    assert_eq!(1, set.len());
}
