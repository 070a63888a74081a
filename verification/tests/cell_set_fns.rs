use rand::{thread_rng, Rng};
use sudoku_rust::cell_set::{
    add, cell_from_label, debug, diff, empty, full, has, intersect, inverted, is_empty,
    label_from_cell, of, of_cells, remove, size, to_string, union, with, without, EMPTY,
};

#[test]
fn cell_set_empty_returns_an_empty_set() {
    let set = empty();

    assert!(is_empty(set));
    assert_eq!(size(set), 0);
    for i in 0..81u8 {
        assert!(!has(set, i));
    }
}

#[test]
fn cell_set_full_returns_a_full_set() {
    let set = full();

    assert!(!is_empty(set));
    assert_eq!(size(set), 81);
    for i in 0..81u8 {
        assert!(has(set, i));
    }
}

#[test]
fn of_cells_returns_a_set() {
    let mut rng = thread_rng();
    let mut cells = Vec::with_capacity(81);

    for _ in 0..81 {
        cells.push(rng.gen_range(0..81u8));
    }
    let set = of_cells(&cells);

    assert!(!is_empty(set));
    for i in 0..81 {
        assert!(has(set, cells[i]));
    }
}

#[test]
fn cell_set_of_returns_a_set() {
    let mut rng = thread_rng();
    let mut labels = Vec::with_capacity(81);

    for _ in 0..81 {
        labels.push(label_from_cell(rng.gen_range(0..81)));
    }
    let refs: Vec<&str> = labels.iter().map(|s| s.as_str()).collect();
    let set = of(&refs);

    assert!(!is_empty(set));
    for i in 0..81 {
        assert!(has(set, cell_from_label(&labels[i])));
    }
}

#[test]
fn cell_set_inverting() {
    let mut rng = thread_rng();
    let mut set = empty();

    for _ in 0..81 {
        let cell = rng.gen_range(0..81u8);
        add(&mut set, cell);
    }

    let inverted = inverted(set);
    for i in 0..81u8 {
        assert_eq!(has(set, i), !has(inverted, i));
    }
}

#[test]
fn add_cells() {
    let mut rng = thread_rng();
    let mut set = empty();

    for _ in 0..81 {
        let cell = rng.gen_range(0..81u8);
        let s = size(set);
        let h = has(set, cell);

        add(&mut set, cell);
        assert!(has(set, cell));
        if h {
            assert_eq!(size(set), s);
        } else {
            assert_eq!(size(set), s + 1);
        }
    }
}

#[test]
fn with_cells() {
    let mut rng = thread_rng();
    let mut set = empty();

    for _ in 0..81 {
        let cell = rng.gen_range(0..81u8);
        let added = with(set, cell);

        assert!(has(added, cell));
        if has(set, cell) {
            assert_eq!(size(added), size(set));
        } else {
            assert_eq!(size(added), size(set) + 1);
        }

        set = added;
    }
}

#[test]
fn remove_cells() {
    let mut rng = thread_rng();
    let mut set = full();

    for _ in 0..81 {
        let cell = rng.gen_range(0..81u8);
        let s = size(set);
        let h = has(set, cell);

        remove(&mut set, cell);
        assert!(!has(set, cell));
        if h {
            assert_eq!(size(set), s - 1);
        } else {
            assert_eq!(size(set), s);
        }
    }
}

#[test]
fn without_cells() {
    let mut rng = thread_rng();
    let mut set = full();

    for _ in 0..81 {
        let cell = rng.gen_range(0..81u8);
        let removed = without(set, cell);

        assert!(!has(removed, cell));
        if has(set, cell) {
            assert_eq!(size(removed), size(set) - 1);
        } else {
            assert_eq!(size(removed), size(set));
        }

        set = removed;
    }
}

#[test]
fn cell_set_unions() {
    assert_eq!(union(empty(), empty()), empty());
    assert_eq!(union(full(), full()), full());
    assert_eq!(union(full(), empty()), full());
    assert_eq!(union(empty(), full()), full());

    assert_eq!(
        union(of(&["B2", "F3"]), of(&["C6", "H8"])),
        of(&["B2", "C6", "F3", "H8"])
    );
    assert_eq!(
        union(of(&["B2", "C6", "F3"]), of(&["C6", "H8"])),
        of(&["B2", "C6", "F3", "H8"])
    );
}

#[test]
fn cell_set_intersections() {
    assert_eq!(intersect(empty(), empty()), empty());
    assert_eq!(intersect(full(), full()), full());
    assert_eq!(intersect(full(), empty()), empty());
    assert_eq!(intersect(empty(), full()), empty());

    assert_eq!(
        intersect(of(&["B2", "C6", "F3"]), of(&["C6", "F3", "H8"])),
        of(&["C6", "F3"])
    );
}

#[test]
fn cell_set_differences() {
    assert_eq!(diff(empty(), empty()), empty());
    assert_eq!(diff(full(), full()), empty());
    assert_eq!(diff(full(), empty()), full());
    assert_eq!(diff(empty(), full()), empty());

    assert_eq!(
        diff(of(&["B2", "C6", "F3", "H8"]), of(&["C6", "H8"])),
        of(&["B2", "F3"])
    );
    assert_eq!(
        diff(of(&["B2", "C6", "F3", "H8"]), of(&["A5", "C6", "F9", "H8"])),
        of(&["B2", "F3"])
    );
}

#[test]
fn cell_set_debug_strings() {
    assert_eq!(
        debug(empty()),
        "00:000000000000000000000000000000000000000000000000000000000000000000000000000000000"
    );
    assert_eq!(
        debug(full()),
        "81:111111111111111111111111111111111111111111111111111111111111111111111111111111111"
    );
    assert_eq!(
        debug(of(&["B2", "C6", "F3", "H8"])),
        "04:000000000010000000000000000000000100000000000000000000000100000000000010000000000"
    );
}

#[test]
fn to_string_returns_cell_coords() {
    assert_eq!(to_string(empty()), EMPTY.to_string());
    assert_eq!(to_string(of(&["B2", "C6", "F3", "H8"])), "(B2 C6 F3 H8)");
}

