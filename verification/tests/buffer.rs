use strided_image::error::{Error, PositionOutOfRange, WhichAxes};
use strided_image::error::{IndexOutOfRange, IndexOutOfRangeReason, SourceTooSmall};
use strided_image::pixel::Rgb;
use strided_image::Image;

#[test]
fn source_too_small_rejected_with_storage_back() {
    let storage: Vec<u8> = vec![1, 2, 3];
    let err = Image::from_source_with_stride(2, 2, 2, storage).unwrap_err();
    assert_eq!(
        err,
        SourceTooSmall { source: vec![1, 2, 3], width: 2, height: 2, stride: 2 }
    );
}

#[test]
fn source_just_large_enough_accepted() {
    let storage: Vec<u8> = vec![1, 2, 3, 4];
    let img = Image::from_source_with_stride(2, 2, 2, storage).unwrap();
    assert_eq!(img.get(0, 0), 1);
    assert_eq!(img.get(1, 1), 4);
}

#[test]
fn source_too_small_constructor_packs_fields() {
    let e = SourceTooSmall::new(vec![9u8], 4, 5, 6);
    assert_eq!(e.source, vec![9u8]);
    assert_eq!(e.width, 4);
    assert_eq!(e.height, 5);
    assert_eq!(e.stride, 6);
}

#[test]
fn from_source_uses_width_as_stride() {
    let img = Image::from_source(2, 3, vec![0u8, 1, 2, 3, 4, 5]).unwrap();
    assert_eq!(img.stride(), 2);
    assert_eq!(img.get(1, 2), 5);
    assert!(Image::from_source(2, 3, vec![0u8; 5]).is_err());
}

#[test]
fn filled_sets_every_pixel() {
    let img = Image::filled(3, 2, 7u8);
    assert_eq!(img.stride(), 3);
    for y in 0..2 {
        for x in 0..3 {
            assert_eq!(img.get(x, y), 7);
        }
    }
}

#[test]
fn set_and_get_by_position_and_index() {
    let mut img = Image::from_source_with_stride(3, 2, 5, vec![0u8; 10]).unwrap();
    img.set(2, 1, 42);
    assert_eq!(img.get(2, 1), 42);
    assert_eq!(img.get_index(7), 42);
    img.set_index(6, 9);
    assert_eq!(img.get(1, 1), 9);
}

#[test]
fn fill_strided_leaves_padding_untouched() {
    let mut img = Image::from_source_with_stride(2, 2, 3, vec![9u8; 6]).unwrap();
    img.fill(7);
    // The two logical pixels of each row are set...
    let flat = img.into_source();
    assert_eq!(flat, vec![7, 7, 9, 7, 7, 9]);
}

#[test]
fn fill_dense_overwrites_whole_storage() {
    let mut img = Image::from_source(2, 2, vec![9u8; 5]).unwrap();
    img.fill(3);
    // Dense fill sweeps the entire backing storage, trailing excess included.
    assert_eq!(img.into_source(), vec![3, 3, 3, 3, 3]);
}

#[test]
fn reallocated_compacts_stride() {
    let storage: Vec<u8> = (0u8..10).collect();
    let img = Image::from_source_with_stride(3, 2, 5, storage).unwrap();
    let dense = img.reallocated();
    assert_eq!(dense.width(), 3);
    assert_eq!(dense.height(), 2);
    assert_eq!(dense.stride(), 3);
    for y in 0..2 {
        for x in 0..3 {
            assert_eq!(dense.get(x, y), img.get(x, y));
        }
    }
    assert_eq!(dense.into_source(), vec![0, 1, 2, 5, 6, 7]);
}

#[test]
fn map_applies_to_every_pixel() {
    let img = Image::from_source_with_stride(2, 2, 3, vec![1u8, 2, 99, 3, 4, 99]).unwrap();
    let doubled = img.map(|p: &u8| p * 2);
    assert_eq!(doubled.stride(), 2);
    assert_eq!(doubled.get(0, 0), 2);
    assert_eq!(doubled.get(1, 0), 4);
    assert_eq!(doubled.get(0, 1), 6);
    assert_eq!(doubled.get(1, 1), 8);
}

#[test]
fn region_shares_parent_pixels() {
    let storage: Vec<u8> = (0u8..20).collect();
    let img = Image::from_source_with_stride(4, 4, 5, storage).unwrap();
    let reg = img.region((1, 1), (3, 3)).unwrap();
    assert_eq!(reg.width(), 2);
    assert_eq!(reg.height(), 2);
    assert_eq!(reg.stride(), 5);
    for y in 0..2 {
        for x in 0..2 {
            assert_eq!(reg.get(x, y), img.get(x + 1, y + 1));
        }
    }
}

#[test]
fn region_rows_match_parent_reads() {
    let storage: Vec<u8> = (0u8..20).collect();
    let img = Image::from_source_with_stride(4, 4, 5, storage).unwrap();
    let reg = img.region((0, 0), (3, 2)).unwrap();
    for y in 0..2 {
        let row = reg.row(y);
        assert_eq!(row.len(), 3);
        for x in 0..3 {
            assert_eq!(row[x], img.get(x, y));
        }
    }
}

#[test]
fn region_by_linear_indices() {
    let storage: Vec<u8> = (0u8..10).collect();
    let img = Image::from_source_with_stride(3, 2, 5, storage).unwrap();
    let reg = img.region(0usize, 6usize).unwrap();
    assert_eq!(reg.width(), 1);
    assert_eq!(reg.height(), 1);
    assert_eq!(reg.get(0, 0), 0);
}

#[test]
fn region_by_array_endpoints() {
    let storage: Vec<u8> = (0u8..10).collect();
    let img = Image::from_source_with_stride(3, 2, 5, storage).unwrap();
    let reg = img.region([0, 0], [2, 1]).unwrap();
    assert_eq!(reg.width(), 2);
    assert_eq!(reg.height(), 1);
    assert_eq!(reg.get(1, 0), 1);
}

#[test]
fn region_rejects_padding_linear_index() {
    let storage: Vec<u8> = (0u8..10).collect();
    let img = Image::from_source_with_stride(3, 2, 5, storage).unwrap();
    let err = img.region(3usize, 6usize).unwrap_err();
    assert_eq!(
        err,
        Error::IndexOutOfRange(IndexOutOfRange {
            value: 3,
            reason: IndexOutOfRangeReason::OutsideStride
        })
    );
}

#[test]
fn region_rejects_out_of_range_endpoint() {
    let img = Image::filled(16, 16, 0u8);
    let err = img.region((0, 0), (16, 16)).unwrap_err();
    assert_eq!(
        err,
        Error::PositionOutOfRange(PositionOutOfRange {
            pos: [16, 16],
            which_axes: WhichAxes::Both
        })
    );
}

#[test]
fn region_rejects_reversed_endpoints() {
    let img = Image::filled(4, 4, 0u8);
    let err = img.region((2, 0), (1, 2)).unwrap_err();
    assert_eq!(
        err,
        Error::PositionOutOfRange(PositionOutOfRange { pos: [1, 2], which_axes: WhichAxes::X })
    );
}

#[test]
fn region_mut_window_set_get_fill() {
    let mut img = Image::filled(4, 4, 1u8);
    let win = img.region_mut((1, 1), (3, 3)).unwrap();
    win.set(&mut img, 0, 0, 5);
    assert_eq!(img.get(1, 1), 5);
    assert_eq!(win.get(&img, 0, 0), 5);
    win.fill(&mut img, 8);
    for y in 0..4 {
        for x in 0..4 {
            let inside = (1..3).contains(&x) && (1..3).contains(&y);
            assert_eq!(img.get(x, y), if inside { 8 } else { 1 });
        }
    }
}

#[test]
fn sixteen_square_scenario() {
    // A 16x16 buffer filled with [255,0,0]; pixel (1,0) set to [0,0,0];
    // pixel (0,1)'s second channel set to 255. The (0,0)..(2,2) region then
    // reads, row by row: [255,0,0],[0,0,0] and [255,255,0],[255,0,0].
    let mut img = Image::filled(16, 16, Rgb::new(255, 0, 0));
    img.set(1, 0, Rgb::new(0, 0, 0));
    let p = img.get(0, 1);
    img.set(0, 1, Rgb::new(p.r, 255, p.b));
    let reg = img.region((0, 0), (2, 2)).unwrap();
    assert_eq!(reg.get(0, 0), Rgb::new(255, 0, 0));
    assert_eq!(reg.get(1, 0), Rgb::new(0, 0, 0));
    assert_eq!(reg.get(0, 1), Rgb::new(255, 255, 0));
    assert_eq!(reg.get(1, 1), Rgb::new(255, 0, 0));
    let row0 = reg.row(0);
    let row1 = reg.row(1);
    assert_eq!(row0.to_vec(), vec![Rgb::new(255, 0, 0), Rgb::new(0, 0, 0)]);
    assert_eq!(row1.to_vec(), vec![Rgb::new(255, 255, 0), Rgb::new(255, 0, 0)]);
}

#[test]
fn iterators_walk_in_row_major_order() {
    let storage: Vec<u8> = (0u8..10).collect();
    let img = Image::from_source_with_stride(3, 2, 5, storage).unwrap();

    let mut it = img.iter();
    let mut got: Vec<([usize; 2], u8)> = Vec::new();
    while let Some(item) = it.next() {
        got.push(item);
    }
    assert_eq!(
        got,
        vec![
            ([0, 0], 0),
            ([1, 0], 1),
            ([2, 0], 2),
            ([0, 1], 5),
            ([1, 1], 6),
            ([2, 1], 7)
        ]
    );

    let mut rows = img.iter_rows();
    assert_eq!(rows.next().unwrap().to_vec(), vec![0, 1, 2]);
    assert_eq!(rows.next().unwrap().to_vec(), vec![5, 6, 7]);
    assert!(rows.next().is_none());
}

#[test]
fn mutation_iterators_cover_every_cell() {
    let mut img = Image::from_source_with_stride(3, 2, 5, vec![0u8; 10]).unwrap();

    let mut positions = img.iter_mut();
    let mut got: Vec<[usize; 2]> = Vec::new();
    while let Some(p) = positions.next() {
        got.push(p);
    }
    assert_eq!(got, vec![[0, 0], [1, 0], [2, 0], [0, 1], [1, 1], [2, 1]]);
    for p in got {
        img.set(p[0], p[1], 4);
    }
    assert_eq!(img.get(2, 1), 4);

    let mut ranges = img.iter_rows_mut();
    assert_eq!(ranges.next(), Some((0, 3)));
    assert_eq!(ranges.next(), Some((5, 8)));
    assert_eq!(ranges.next(), None);
}

#[test]
fn equality_ignores_stride_and_storage_kind() {
    let a = Image::from_source_with_stride(3, 2, 5, (0u8..10).collect()).unwrap();
    let b = a.reallocated();
    assert!(a.eq_image(&b));
    assert!(b.eq_image(&a));
    let mut c = a.reallocated();
    c.set(1, 1, 99);
    assert!(!a.eq_image(&c));
    let d = Image::filled(3, 3, 0u8);
    assert!(!a.eq_image(&d));
    let empty_wide = Image::from_source(4, 0, Vec::<u8>::new()).unwrap();
    let empty_narrow = Image::from_source(1, 0, Vec::<u8>::new()).unwrap();
    assert!(empty_wide.eq_image(&empty_narrow));
}

#[test]
fn into_source_returns_storage() {
    let img = Image::from_source(2, 1, vec![3u8, 4]).unwrap();
    assert_eq!(img.into_source(), vec![3, 4]);
}
