use rand::{thread_rng, Rng};
use sudoku_rust::known_set::{
    add, debug, diff, empty, full, has, intersect, inverted, is_empty, of, remove, size,
    to_string, union, with, without, EMPTY,
};

#[test]
fn known_set_fns_empty_returns_an_empty_set() {
    let set = empty();

    assert!(is_empty(set));
    assert_eq!(size(set), 0);
    for i in 1..=9u8 {
        assert!(!has(set, i));
    }
}

#[test]
fn known_set_fns_full_returns_a_full_set() {
    let set = full();

    assert!(!is_empty(set));
    assert_eq!(size(set), 9);
    for i in 1..=9u8 {
        assert!(has(set, i));
    }
}

#[test]
fn known_set_of_returns_a_set() {
    let mut rng = thread_rng();
    let mut knowns = Vec::with_capacity(9);

    for _ in 0..9 {
        knowns.push(rng.gen_range(1..=9u8));
    }
    let set = of(&knowns);

    assert!(!is_empty(set));
    for i in 0..9 {
        assert!(has(set, knowns[i]));
    }
}

#[test]
fn known_set_inverting() {
    let mut rng = thread_rng();
    let mut set = empty();

    for _ in 0..9 {
        let known = rng.gen_range(1..=9u8);
        add(&mut set, known);
    }

    let inverted = inverted(set);
    for i in 1..=9u8 {
        assert_eq!(has(set, i), !has(inverted, i));
    }
}

#[test]
fn add_knowns() {
    let mut rng = thread_rng();
    let mut set = empty();

    for _ in 0..9 {
        let known = rng.gen_range(1..=9u8);
        let s = size(set);
        let h = has(set, known);

        add(&mut set, known);
        assert!(has(set, known));
        if h {
            assert_eq!(size(set), s);
        } else {
            assert_eq!(size(set), s + 1);
        }
    }
}

#[test]
fn with_knowns() {
    let mut rng = thread_rng();
    let mut set = empty();

    for _ in 0..9 {
        let known = rng.gen_range(1..=9u8);
        let added = with(set, known);

        assert!(has(added, known));
        if has(set, known) {
            assert_eq!(size(added), size(set));
        } else {
            assert_eq!(size(added), size(set) + 1);
        }

        set = added;
    }
}

#[test]
fn remove_knowns() {
    let mut rng = thread_rng();
    let mut set = full();

    for _ in 0..9 {
        let known = rng.gen_range(1..=9u8);
        let s = size(set);
        let h = has(set, known);

        remove(&mut set, known);
        assert!(!has(set, known));
        if h {
            assert_eq!(size(set), s - 1);
        } else {
            assert_eq!(size(set), s);
        }
    }
}

#[test]
fn without_knowns() {
    let mut rng = thread_rng();
    let mut set = full();

    for _ in 0..9 {
        let known = rng.gen_range(1..=9u8);
        let removed = without(set, known);

        assert!(!has(removed, known));
        if has(set, known) {
            assert_eq!(size(removed), size(set) - 1);
        } else {
            assert_eq!(size(removed), size(set));
        }

        set = removed;
    }
}

#[test]
fn known_set_fns_unions() {
    println!("{}", debug(empty()));
    println!("{}", debug(full()));
    println!("{}", debug(union(full(), full())));

    assert_eq!(union(empty(), empty()), empty());
    assert_eq!(union(full(), full()), full());
    assert_eq!(union(full(), empty()), full());
    assert_eq!(union(empty(), full()), full());

    assert_eq!(union(of(&[2, 5]), of(&[3, 8])), of(&[2, 3, 5, 8]));
    assert_eq!(union(of(&[2, 3, 5]), of(&[3, 8])), of(&[2, 3, 5, 8]));
}

#[test]
fn known_set_fns_intersections() {
    assert_eq!(intersect(empty(), empty()), empty());
    assert_eq!(intersect(full(), full()), full());
    assert_eq!(intersect(full(), empty()), empty());
    assert_eq!(intersect(empty(), full()), empty());

    assert_eq!(intersect(of(&[2, 3, 5]), of(&[3, 5, 8])), of(&[3, 5]));
}

#[test]
fn known_set_fns_differences() {
    assert_eq!(diff(empty(), empty()), empty());
    assert_eq!(diff(full(), full()), empty());
    assert_eq!(diff(full(), empty()), full());
    assert_eq!(diff(empty(), full()), empty());

    assert_eq!(diff(of(&[2, 3, 5, 8]), of(&[3, 8])), of(&[2, 5]));
    assert_eq!(diff(of(&[2, 3, 5, 8]), of(&[1, 3, 6, 8])), of(&[2, 5]));
}

#[test]
fn known_set_debug_strings() {
    assert_eq!(debug(empty()), "0:000000000");
    assert_eq!(debug(full()), "9:111111111");
    assert_eq!(debug(of(&[2, 3, 5, 8])), "4:010010110");
}

#[test]
fn to_string_returns_cell_knowns() {
    assert_eq!(to_string(empty()), EMPTY.to_string());
    assert_eq!(to_string(of(&[2, 3, 5, 8])), "(·23·5··8·)");
}

