use tinysr::{Buffer, Buffer2d, Rect, StrideError};

#[test]
fn buffer_new_empty_has_no_records() {
    let b: Buffer<i32> = Buffer::new_empty(3);
    assert_eq!(b.len(), 0);
    assert_eq!(b.stride(), 3);
    assert!(b.get(0).is_none());
}

#[test]
fn buffer_new_splits_records() {
    let b = Buffer::new(2, &[1, 2, 3, 4, 5, 6]).unwrap();
    assert_eq!(b.len(), 3);
    assert_eq!(b.get(0), Some(&[1, 2][..]));
    assert_eq!(b.get(2), Some(&[5, 6][..]));
    assert!(b.get(3).is_none());
}

#[test]
fn buffer_new_rejects_partial_record() {
    let r = Buffer::new(3, &[1, 2, 3, 4]);
    assert_eq!(r.err(), Some(StrideError { len: 4, stride: 3 }));
}

#[test]
fn buffer_push_appends_records() {
    let mut b = Buffer::new(2, &[1, 2]).unwrap();
    assert_eq!(b.push(&[3, 4, 5, 6]), Ok(()));
    assert_eq!(b.len(), 3);
    assert_eq!(b.get(1), Some(&[3, 4][..]));
    assert_eq!(b.get(2), Some(&[5, 6][..]));
}

#[test]
fn buffer_push_rejects_partial_record() {
    let mut b = Buffer::new(2, &[1, 2]).unwrap();
    assert_eq!(b.push(&[3]), Err(StrideError { len: 1, stride: 2 }));
    assert_eq!(b.len(), 1);
    assert_eq!(b.get(0), Some(&[1, 2][..]));
}

#[test]
fn buffer_insert_places_values() {
    let mut b = Buffer::new(2, &[1, 2, 5, 6]).unwrap();
    assert_eq!(b.insert(2, &[3, 4]), Ok(()));
    assert_eq!(b.len(), 3);
    assert_eq!(b.get(0), Some(&[1, 2][..]));
    assert_eq!(b.get(1), Some(&[3, 4][..]));
    assert_eq!(b.get(2), Some(&[5, 6][..]));
    assert_eq!(b.insert(0, &[9, 9, 9]), Err(StrideError { len: 3, stride: 2 }));
    assert_eq!(b.len(), 3);
}

#[test]
fn buffer_get_mut_writes_record() {
    let mut b = Buffer::new(2, &[1, 2, 3, 4]).unwrap();
    if let Some(rec) = b.get_mut(1) {
        rec[0] = 7;
        rec[1] = 8;
    }
    assert_eq!(b.get(0), Some(&[1, 2][..]));
    assert_eq!(b.get(1), Some(&[7, 8][..]));
    assert!(b.get_mut(2).is_none());
}

#[test]
fn buffer_default_is_single_stride() {
    let b: Buffer<u8> = Buffer::default();
    assert_eq!(b.stride(), 1);
    assert_eq!(b.len(), 0);
}

#[test]
fn grid_new_fills_every_cell() {
    let g = Buffer2d::new([3, 2], 7u8);
    assert_eq!(g.size(), [3, 2]);
    for y in 0..2 {
        for x in 0..3 {
            assert_eq!(g.get(x, y), Some(&7));
        }
    }
}

#[test]
fn grid_out_of_bounds_is_absent() {
    let g = Buffer2d::new([3, 2], 0i32);
    assert!(g.get(3, 0).is_none());
    assert!(g.get(0, 2).is_none());
    assert!(g.get(3, 2).is_none());
    assert!(g.get(usize::MAX, 0).is_none());
}

#[test]
fn grid_get_mut_writes_one_cell() {
    let mut g = Buffer2d::new([3, 2], 0i32);
    *g.get_mut(2, 1).unwrap() = 5;
    assert_eq!(g.get(2, 1), Some(&5));
    assert_eq!(g.get(1, 1), Some(&0));
    assert_eq!(g.get(2, 0), Some(&0));
    assert!(g.get_mut(3, 1).is_none());
    assert!(g.get_mut(0, 2).is_none());
}

#[test]
fn grid_default_is_empty() {
    let g: Buffer2d<i32> = Buffer2d::default();
    assert_eq!(g.size(), [0, 0]);
    assert!(g.get(0, 0).is_none());
}

#[test]
fn rect_new_holds_corner_and_size() {
    let r = Rect::new(-3, 4, 10, 20);
    assert_eq!(r.origin, [-3, 4]);
    assert_eq!(r.size, [10, 20]);
}
