use lum::ring::Ring;

#[test]
fn ring_moves_wrap_around() {
    let mut r = Ring::from_vec(vec![10, 20, 30]);
    assert_eq!(*r.current(), 10);
    assert_eq!(*r.previous(), 30);
    assert_eq!(*r.next(), 20);
    r.move_next();
    r.move_next();
    assert_eq!(r.index, 2);
    assert_eq!(*r.current(), 30);
    assert_eq!(*r.next(), 10);
    r.move_next();
    assert_eq!(r.index, 0);
    r.move_previous();
    assert_eq!(r.index, 2);
    r.move_next();
    assert_eq!(r.index, 0);
    assert_eq!(*r.previous_mut(), 30);
    assert_eq!(*r.next_mut(), 20);
    *r.previous_mut() = 33;
    *r.next_mut() += 2;
    assert_eq!(r.data, vec![10, 22, 33]);
    assert_eq!(r.index, 0);
}

#[test]
fn ring_previous_after_move_is_old_current() {
    let mut r = Ring::from_vec(vec![1, 2, 3, 4]);
    r.move_next();
    let c = *r.current();
    let n = *r.next();
    r.move_next();
    assert_eq!(*r.previous(), c);
    assert_eq!(*r.current(), n);
}

#[test]
fn ring_absolute_access_wraps() {
    let mut r = Ring::from_vec_clone(vec![1u8, 2, 3, 4]);
    assert_eq!(*r.get(5), 2);
    assert_eq!(r[7], 4);
    *r.get_mut(6) = 9;
    assert_eq!(r.data, vec![1, 2, 9, 4]);
    *r.current_mut() = 7;
    assert_eq!(*r.first(), 7);
    r.as_mut_slice()[3] = 0;
    assert_eq!(r.as_slice(), &[7, 2, 9, 0]);
    assert_eq!(r.len(), 4);
    assert!(!r.is_empty());
    r.move_next();
    r.reset_index();
    assert_eq!(r.index, 0);
}

#[test]
fn ring_constructors() {
    let d: Ring<u32> = Ring::new(3);
    assert_eq!(d.data, vec![0, 0, 0]);
    assert_eq!(d.index, 0);
    let c = Ring::new_clone(2, String::from("a"));
    assert_eq!(c.data, vec![String::new(), String::new()]);
    let one: Ring<u8> = Ring::new_clone(2, 1);
    assert_eq!(one.data, vec![0, 0]);
    let w = Ring::new_with(4, |i: usize| i * 10 + 1);
    assert_eq!(w.data, vec![0, 0, 0, 0]);
    let e: Ring<u8> = Ring::default();
    assert!(e.is_empty());
    let k = w.clone();
    assert_eq!(k.data, w.data);
    assert_eq!(k.index, w.index);
}

#[test]
fn ring_resize_keeps_prefix_and_clamps_cursor() {
    let mut r = Ring::from_vec(vec![1u32, 2, 3, 4]);
    r.index = 3;
    r.resize(2);
    assert_eq!(r.data, vec![1, 2]);
    assert_eq!(r.index, 1);
    r.resize(4);
    assert_eq!(r.data, vec![1, 2, 0, 0]);
    assert_eq!(r.index, 1);
    r.resize_with(5, |i: usize| i as u32 * 100);
    assert_eq!(r.data, vec![1, 2, 0, 0, 0]);
    r.resize_clone(3, 7);
    assert_eq!(r.data, vec![1, 2, 0]);
    r.resize_clone(5, 7);
    assert_eq!(r.data, vec![1, 2, 0, 0, 0]);
    r.index = 4;
    r.resize_with(1, |i: usize| i as u32);
    assert_eq!(r.data, vec![1]);
    assert_eq!(r.index, 0);
}

#[test]
fn ring_iterates_in_storage_order() {
    let mut r = Ring::from_vec(vec!['a', 'b', 'c']);
    r.move_next();
    let mut it = r.iter();
    let mut seen = Vec::new();
    while let Some(c) = it.next() {
        seen.push(*c);
    }
    assert_eq!(seen, vec!['a', 'b', 'c']);
    assert!(it.next().is_none());
}
