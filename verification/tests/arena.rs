use lum::arena::Arena;

#[test]
fn arena_allocates_lowest_free_slot_and_doubles() {
    let mut a: Arena<&str> = Arena::new(2);
    assert_eq!(a.total_size(), 2);
    assert_eq!(a.allocate("a"), Some(0));
    assert_eq!(a.allocate("b"), Some(1));
    assert_eq!(a.allocate("c"), Some(2));
    assert_eq!(a.total_size(), 4);
    assert_eq!(a.allocate("d"), Some(3));
    assert_eq!(a.allocate("e"), Some(4));
    assert_eq!(a.total_size(), 8);
    assert_eq!(a.get(2), Some(&"c"));
    assert_eq!(a.get(5), None);
    assert_eq!(a.get(100), None);
}

#[test]
fn arena_empty_grows_to_one() {
    let mut a: Arena<u8> = Arena::default();
    assert_eq!(a.total_size(), 0);
    assert_eq!(a.allocate(7), Some(0));
    assert_eq!(a.total_size(), 1);
    assert_eq!(a.allocate(8), Some(1));
    assert_eq!(a.total_size(), 2);
}

#[test]
fn arena_free_reuses_slot_first() {
    let mut a: Arena<u32> = Arena::new(0);
    for v in 0..5 {
        a.allocate(v * 10);
    }
    a.free(3);
    a.free(1);
    a.free(1);
    a.free(42);
    assert_eq!(a.get(1), None);
    assert_eq!(a.allocate(100), Some(1));
    assert_eq!(a.allocate(200), Some(3));
    assert_eq!(a.allocate(300), Some(5));
    assert_eq!(a.get(3), Some(&200));
}

#[test]
fn arena_take_makes_slot_available_again() {
    let mut a: Arena<String> = Arena::new(3);
    a.allocate(String::from("x"));
    a.allocate(String::from("y"));
    assert_eq!(a.take(0), Some(String::from("x")));
    assert_eq!(a.take(0), None);
    assert_eq!(a.get(0), None);
    assert_eq!(a.allocate(String::from("z")), Some(0));
    assert_eq!(a.allocate(String::from("w")), Some(2));
    assert_eq!(a.total_size(), 3);
}

#[test]
fn arena_taken_single_slot_is_reused_without_growth() {
    let mut a: Arena<char> = Arena::new(1);
    assert_eq!(a.allocate('x'), Some(0));
    assert_eq!(a.take(0), Some('x'));
    assert_eq!(a.allocate('y'), Some(0));
    assert_eq!(a.total_size(), 1);
    assert_eq!(a.get(0), Some(&'y'));
}

#[test]
fn arena_fresh_and_cleared_allocate_in_order() {
    let mut a: Arena<u8> = Arena::new(3);
    assert_eq!(a.allocate(1), Some(0));
    assert_eq!(a.allocate(2), Some(1));
    assert_eq!(a.allocate(3), Some(2));
    assert_eq!(a.total_size(), 3);
    a.clear();
    assert_eq!(a.allocate(4), Some(0));
    assert_eq!(a.allocate(5), Some(1));
    assert_eq!(a.allocate(6), Some(2));
    assert_eq!(a.total_size(), 3);
}

#[test]
fn arena_get_mut_and_clear() {
    let mut a: Arena<i64> = Arena::new(4);
    a.allocate(1);
    a.allocate(2);
    if let Some(v) = a.get_mut(1) {
        *v += 40;
    }
    assert!(a.get_mut(3).is_none());
    assert_eq!(a.get(1), Some(&42));
    a.clear();
    assert_eq!(a.total_size(), 4);
    assert_eq!(a.get(0), None);
    assert_eq!(a.allocate(5), Some(0));
    a.grow(2);
    assert_eq!(a.total_size(), 4);
    a.grow(6);
    assert_eq!(a.total_size(), 6);
}

#[test]
fn arena_iterators_visit_live_slots_in_order() {
    let mut a: Arena<char> = Arena::new(5);
    a.allocate('a');
    a.allocate('b');
    a.allocate('c');
    a.free(1);
    let mut it = a.iter();
    let mut seen = Vec::new();
    while let Some((i, v)) = it.next() {
        seen.push((i, *v));
    }
    assert_eq!(seen, vec![(0, 'a'), (2, 'c')]);
    {
        let mut im = a.iter_mut();
        while let Some((_, v)) = im.next() {
            *v = v.to_ascii_uppercase();
        }
    }
    assert_eq!(a.get(2), Some(&'C'));
    let mut owned = a.into_iter();
    let mut got = Vec::new();
    while let Some(e) = owned.next() {
        got.push(e);
    }
    assert_eq!(got, vec![(0, 'A'), (2, 'C')]);
    assert_eq!(owned.next(), None);
    assert_eq!(owned.next(), None);
}
