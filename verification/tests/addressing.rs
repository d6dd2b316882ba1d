use strided_image::error::{IndexOutOfRange, IndexOutOfRangeReason, PositionOutOfRange, WhichAxes};
use strided_image::Image;

fn strided() -> Image<u8> {
    // 3 pixels wide, stride 5, 2 rows: columns 3 and 4 of each row are padding.
    let storage: Vec<u8> = (0u8..10).collect();
    Image::from_source_with_stride(3, 2, 5, storage).unwrap()
}

#[test]
fn pos_to_index_formula() {
    let img = strided();
    assert_eq!(img.pos_to_index(0, 0).unwrap(), 0);
    assert_eq!(img.pos_to_index(2, 0).unwrap(), 2);
    assert_eq!(img.pos_to_index(0, 1).unwrap(), 5);
    assert_eq!(img.pos_to_index(1, 1).unwrap(), 6);
}

#[test]
fn pos_to_index_axis_errors() {
    let img = strided();
    assert_eq!(
        img.pos_to_index(3, 0).unwrap_err(),
        PositionOutOfRange { pos: [3, 0], which_axes: WhichAxes::X }
    );
    assert_eq!(
        img.pos_to_index(0, 2).unwrap_err(),
        PositionOutOfRange { pos: [0, 2], which_axes: WhichAxes::Y }
    );
    assert_eq!(
        img.pos_to_index(7, 9).unwrap_err(),
        PositionOutOfRange { pos: [7, 9], which_axes: WhichAxes::Both }
    );
}

#[test]
fn index_to_pos_formula() {
    let img = strided();
    assert_eq!(img.index_to_pos(0).unwrap(), [0, 0]);
    assert_eq!(img.index_to_pos(2).unwrap(), [2, 0]);
    assert_eq!(img.index_to_pos(5).unwrap(), [0, 1]);
    assert_eq!(img.index_to_pos(7).unwrap(), [2, 1]);
}

#[test]
fn index_to_pos_errors() {
    let img = strided();
    // Columns 3 and 4 land in padding.
    assert_eq!(
        img.index_to_pos(3).unwrap_err(),
        IndexOutOfRange { value: 3, reason: IndexOutOfRangeReason::OutsideStride }
    );
    assert_eq!(
        img.index_to_pos(9).unwrap_err(),
        IndexOutOfRange { value: 9, reason: IndexOutOfRangeReason::OutsideStride }
    );
    // Past the last valid index but not in a padding column.
    assert_eq!(
        img.index_to_pos(10).unwrap_err(),
        IndexOutOfRange { value: 10, reason: IndexOutOfRangeReason::PastEnd }
    );
}

#[test]
fn max_index_is_last_valid() {
    let img = strided();
    assert_eq!(img.max_index(), 7);
    assert!(img.index_to_pos(7).is_ok());
}

#[test]
fn position_index_round_trip() {
    let img = strided();
    for y in 0..2 {
        for x in 0..3 {
            let i = img.pos_to_index(x, y).unwrap();
            assert_eq!(img.index_to_pos(i).unwrap(), [x, y]);
        }
    }
}

#[test]
fn index_position_round_trip() {
    let img = strided();
    for i in 0..=img.max_index() {
        if let Ok(p) = img.index_to_pos(i) {
            assert_eq!(img.pos_to_index(p[0], p[1]).unwrap(), i);
        }
    }
}

#[test]
fn normalize_index_skips_padding() {
    let img = strided();
    assert_eq!(img.normalize_index(0), 0);
    assert_eq!(img.normalize_index(2), 2);
    // 3 and 4 are padding: both advance to the start of the next row.
    assert_eq!(img.normalize_index(3), 5);
    assert_eq!(img.normalize_index(4), 5);
    // Anything past the end clamps to the last valid index.
    assert_eq!(img.normalize_index(7), 7);
    assert_eq!(img.normalize_index(100), 7);
}

#[test]
fn next_index_walks_every_pixel_once() {
    let img = strided();
    let mut seen: Vec<usize> = Vec::new();
    let mut idx = Some(0usize);
    while let Some(i) = idx {
        // Never a padding index.
        assert!(i % img.stride() < img.width());
        seen.push(i);
        idx = img.next_index(i);
    }
    assert_eq!(seen, vec![0, 1, 2, 5, 6, 7]);
    assert_eq!(seen.len(), img.width() * img.height());
}

#[test]
fn next_index_none_only_at_last() {
    let img = strided();
    assert_eq!(img.next_index(7), None);
    assert_eq!(img.next_index(6), Some(7));
    assert_eq!(img.next_index(2), Some(5));
}

#[test]
fn empty_image_has_no_valid_index() {
    // Zero height with positive width: no pixels at all.
    let img = Image::from_source(4, 0, Vec::<u8>::new()).unwrap();
    assert_eq!(
        img.index_to_pos(0).unwrap_err(),
        IndexOutOfRange { value: 0, reason: IndexOutOfRangeReason::PastEnd }
    );
    assert!(img.pos_to_index(0, 0).is_err());
    let mut it = img.iter();
    assert!(it.next().is_none());
}

#[test]
fn zero_width_image_is_empty() {
    let img = Image::from_source_with_stride(0, 3, 2, vec![1u8; 6]).unwrap();
    assert_eq!(
        img.index_to_pos(1).unwrap_err(),
        IndexOutOfRange { value: 1, reason: IndexOutOfRangeReason::PastEnd }
    );
    let mut it = img.iter();
    assert!(it.next().is_none());
    let mut cur = img.into_cursor();
    let mut buf = vec![0u8; 4];
    assert_eq!(cur.read(&mut buf), 0);
}

#[test]
fn getters_report_geometry() {
    let img = strided();
    assert_eq!(img.width(), 3);
    assert_eq!(img.height(), 2);
    assert_eq!(img.stride(), 5);
    assert_eq!(img.source().len(), 10);
}
