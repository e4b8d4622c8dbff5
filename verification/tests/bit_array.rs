use lum::array3d::RuntimeDims;
use lum::bit_array::BitArray3d;

#[test]
fn bit_array_set_and_get() {
    let dims = RuntimeDims { x: 3, y: 3, z: 3 };
    let mut b = BitArray3d::<usize, RuntimeDims>::new(dims);
    assert_eq!(b.data.len(), 1);
    assert_eq!(b.dimensions(), (3, 3, 3));
    assert!(!b.get(1, 2, 0));
    b.set(1, 2, 0, true);
    assert!(b.get(1, 2, 0));
    assert_eq!(b.linear_index(1, 2, 0), 7);
    assert_eq!(b.data[0], 1 << 7);
    for z in 0..3 {
        for y in 0..3 {
            for x in 0..3 {
                assert_eq!(b.get(x, y, z), (x, y, z) == (1, 2, 0));
            }
        }
    }
    b.set(1, 2, 0, false);
    assert_eq!(b.data[0], 0);
}

#[test]
fn bit_array_fill_and_word_count() {
    let dims = RuntimeDims { x: 10, y: 10, z: 10 };
    let mut b = BitArray3d::<usize, RuntimeDims>::new_filled(dims, true);
    let bits = usize::BITS as usize;
    assert_eq!(b.data.len(), (1000 + bits - 1) / bits);
    assert!(b.get(9, 9, 9));
    b.set(9, 9, 9, false);
    assert!(!b.get(9, 9, 9));
    assert!(b.get(8, 9, 9));
    b.fill(false);
    assert!(b.data.iter().all(|w| *w == 0));
    b.fill(true);
    assert!(b.data.iter().all(|w| *w == usize::MAX));
    let exact = BitArray3d::<usize, RuntimeDims>::new(RuntimeDims { x: bits, y: 2, z: 1 });
    assert_eq!(exact.data.len(), 2);
}

#[test]
fn bit_array_with_byte_words() {
    let mut b = BitArray3d::<u8, RuntimeDims>::new(RuntimeDims { x: 3, y: 3, z: 1 });
    b.set(2, 2, 0, true);
    b.set(0, 0, 0, true);
    b.set(1, 0, 0, true);
    b.set(0, 0, 0, false);
    assert_eq!(b.data.len(), 2);
    assert!(b.get(2, 2, 0));
    assert!(b.get(1, 0, 0));
    assert!(!b.get(0, 0, 0));
    assert!(!b.get(2, 1, 0));
    assert!(!b.get(0, 2, 0));
    let mut f = BitArray3d::<u16, RuntimeDims>::new_filled(RuntimeDims { x: 5, y: 4, z: 1 }, true);
    assert_eq!(f.data.len(), 2);
    assert!(f.get(4, 3, 0));
    assert_eq!(f.data, vec![u16::MAX, u16::MAX]);
    f.fill(false);
    assert!(!f.get(4, 3, 0));
    assert_eq!(f.data, vec![0u16, 0]);
    let w = BitArray3d::<u64, RuntimeDims>::new(RuntimeDims { x: 65, y: 1, z: 1 });
    assert_eq!(w.data.len(), 2);
    let v = BitArray3d::<u32, RuntimeDims>::new(RuntimeDims { x: 32, y: 1, z: 1 });
    assert_eq!(v.data.len(), 1);
}
