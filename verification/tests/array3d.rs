use lum::array3d::{Array3D, ConstDims, Dim3, RuntimeDims};
use lum::types::{Vec2, Vec3};

#[test]
fn test_runtime_and_static() {
    let mut r = Array3D::new_filled(RuntimeDims { x: 2, y: 2, z: 2 }, 1u8);
    r.set(1, 1, 1, 5);
    assert_eq!(*r.get(1, 1, 1), 5);

    let mut s = Array3D::new_filled(ConstDims::<2, 2, 2>, 2u8);
    *s.get_mut(1, 1, 1) = 8;
    assert_eq!(s[(1usize, 1usize, 1usize)], 8);
}

#[test]
fn flat_index_is_x_fastest() {
    let a = Array3D::new_filled(RuntimeDims { x: 3, y: 4, z: 5 }, 0u8);
    assert_eq!(a.index_internal(0, 0, 0), 0);
    assert_eq!(a.index_internal(1, 0, 0), 1);
    assert_eq!(a.index_internal(0, 1, 0), 3);
    assert_eq!(a.index_internal(0, 0, 1), 12);
    assert_eq!(a.index_internal(2, 3, 4), 59);
    assert_eq!(a.dimensions(), (3, 4, 5));
    assert_eq!(a.data.len(), 60);
}

#[test]
fn set_changes_one_cell_only() {
    let mut a = Array3D::new_filled(RuntimeDims { x: 2, y: 3, z: 2 }, 7i32);
    a.set(1, 2, 1, -4);
    for z in 0..2 {
        for y in 0..3 {
            for x in 0..2 {
                let expected = if (x, y, z) == (1, 2, 1) { -4 } else { 7 };
                assert_eq!(*a.get(x, y, z), expected);
            }
        }
    }
    assert_eq!(a.get_cloned(1, 2, 1), -4);
}

#[test]
fn fill_copy_and_defaults() {
    let mut a = Array3D::new_default(ConstDims::<2, 1, 3>);
    assert!(a.data.iter().all(|v: &u16| *v == 0));
    a.fill(9u16);
    assert!(a.data.iter().all(|v| *v == 9));
    let mut b = Array3D::new_filled(ConstDims::<2, 1, 3>, 1u16);
    b.copy_data_from(&a);
    assert_eq!(b.data, a.data);
    let c = Array3D::from_fn(RuntimeDims { x: 1, y: 2, z: 2 }, || 5u8);
    assert_eq!(c.data, vec![5u8; 4]);
    assert_eq!(c.iter().count(), 4);
}

#[test]
fn dims_report_sizes() {
    let d = RuntimeDims { x: 4, y: 5, z: 6 };
    assert_eq!(d.total_len(), 120);
    assert_eq!(d.xy(), Vec2 { x: 4, y: 5 });
    assert_eq!(d.yz(), Vec2 { x: 5, y: 6 });
    assert_eq!(d.xyz(), Vec3 { x: 4, y: 5, z: 6 });
    let c = ConstDims::<48, 48, 16>;
    assert_eq!(c.total_len(), 48 * 48 * 16);
}

#[test]
fn views_convert_elements() {
    let mut a = Array3D::new_filled(RuntimeDims { x: 2, y: 2, z: 1 }, 3u8);
    {
        let mut v = a.as_view_mut::<u8>();
        v.set((1usize, 0usize, 0usize), 6u8);
        assert_eq!(v.get((1i32, 0i32, 0i32)), 6u8);
    }
    let view = a.as_view::<u32>();
    assert_eq!(view.get((1i8, 0i8, 0i8)), 6u32);
    assert_eq!(view.get((0isize, 1isize, 0isize)), 3u32);
}
