use strided_image::cursor::{SeekFrom, SeekOutOfRange};
use strided_image::pixel::Rgb;
use strided_image::Image;

#[test]
fn read_stops_at_row_end_and_skips_padding() {
    // 3 logical bytes per row, stride 5: bytes 3,4 and 8,9 are padding.
    let storage: Vec<u8> = (0u8..10).collect();
    let img = Image::from_source_with_stride(3, 2, 5, storage).unwrap();
    let mut cur = img.into_cursor();

    let mut buf = vec![0u8; 2];
    assert_eq!(cur.read(&mut buf), 2);
    assert_eq!(buf, vec![0, 1]);
    assert_eq!(cur.index(), 2);

    // Only one byte is left in the row: a short read, and the offset jumps
    // over the padding to the start of the next row.
    let mut buf = vec![0u8; 4];
    assert_eq!(cur.read(&mut buf), 1);
    assert_eq!(buf[0], 2);
    assert_eq!(cur.index(), 5);

    let mut buf = vec![0u8; 3];
    assert_eq!(cur.read(&mut buf), 3);
    assert_eq!(buf, vec![5, 6, 7]);
    assert_eq!(cur.index(), 10);

    // Past the end: end of stream.
    assert_eq!(cur.read(&mut buf), 0);
}

#[test]
fn read_into_vec_yields_logical_bytes() {
    let storage: Vec<u8> = (0u8..10).collect();
    let img = Image::from_source_with_stride(3, 2, 5, storage).unwrap();
    let mut cur = img.into_cursor();
    assert_eq!(cur.read_into_vec(), vec![0, 1, 2, 5, 6, 7]);
    assert_eq!(cur.index(), 10);
}

#[test]
fn write_respects_row_boundaries() {
    let mut img = Image::from_source_with_stride(3, 2, 5, vec![9u8; 10]).unwrap();
    img.fill(0);
    let mut cur = img.into_cursor();
    // Writing four bytes from the row start stops after the row's three.
    assert_eq!(cur.write(&vec![1u8, 2, 3, 4]), 3);
    assert_eq!(cur.index(), 5);
    assert_eq!(cur.write(&vec![5u8, 6]), 2);
    let img = cur.into_image();
    assert_eq!(img.get(0, 0), 1);
    assert_eq!(img.get(1, 0), 2);
    assert_eq!(img.get(2, 0), 3);
    assert_eq!(img.get(0, 1), 5);
    assert_eq!(img.get(1, 1), 6);
    // Padding bytes were never touched by fill or the writes.
    assert_eq!(img.source()[3], 9);
    assert_eq!(img.source()[4], 9);
}

#[test]
fn stream_round_trip_reproduces_buffer() {
    // Read a strided buffer's logical stream and write it into a fresh
    // dense zero buffer of the same dimensions: the pixels come back equal.
    let storage: Vec<u8> = (0u8..10).collect();
    let img = Image::from_source_with_stride(3, 2, 5, storage).unwrap();
    let mut cur = img.into_cursor();
    let bytes = cur.read_into_vec();
    let img = cur.into_image();

    let fresh = Image::filled(3, 2, 0u8);
    let mut wcur = fresh.into_cursor();
    wcur.write_from_vec(&bytes);
    let round = wcur.into_image();
    for y in 0..2 {
        for x in 0..3 {
            assert_eq!(round.get(x, y), img.get(x, y));
        }
    }
}

#[test]
fn chunked_round_trip_through_read_and_write() {
    let mut img = Image::filled(4, 3, 0u8);
    let mut v: u8 = 10;
    for y in 0..3 {
        for x in 0..4 {
            img.set(x, y, v);
            v += 1;
        }
    }
    let mut cur = img.into_cursor();
    let mut captured: Vec<u8> = Vec::new();
    loop {
        let mut chunk = vec![0u8; 5];
        let n = cur.read(&mut chunk);
        if n == 0 {
            break;
        }
        captured.extend_from_slice(&chunk[..n]);
    }
    assert_eq!(captured.len(), 12);
    let img = cur.into_image();

    let mut wcur = Image::filled(4, 3, 0u8).into_cursor();
    let mut off = 0;
    while off < captured.len() {
        let end = (off + 3).min(captured.len());
        let n = wcur.write(&captured[off..end].to_vec());
        assert!(n > 0);
        off += n;
    }
    let round = wcur.into_image();
    for y in 0..3 {
        for x in 0..4 {
            assert_eq!(round.get(x, y), img.get(x, y));
        }
    }
}

#[test]
fn seek_to_end_then_read_returns_zero() {
    // A 4x2 single-byte-pixel buffer: seek to the end reports offset 8 and
    // a following read hands back nothing.
    let img = Image::filled(4, 2, 1u8);
    let mut cur = img.into_cursor();
    assert_eq!(cur.seek(SeekFrom::End(0)), Ok(8));
    let mut buf = vec![0u8; 4];
    assert_eq!(cur.read(&mut buf), 0);
}

#[test]
fn seek_variants_move_the_offset() {
    let img = Image::filled(4, 2, 1u8);
    let mut cur = img.into_cursor();
    assert_eq!(cur.seek(SeekFrom::Start(3)), Ok(3));
    assert_eq!(cur.index(), 3);
    assert_eq!(cur.seek(SeekFrom::Current(2)), Ok(5));
    assert_eq!(cur.seek(SeekFrom::Current(-5)), Ok(0));
    assert_eq!(cur.seek(SeekFrom::End(-8)), Ok(0));
}

#[test]
fn seek_below_zero_fails_and_moves_nothing() {
    let img = Image::filled(4, 2, 1u8);
    let mut cur = img.into_cursor();
    assert_eq!(cur.seek(SeekFrom::Current(-1)), Err(SeekOutOfRange { offset: -1 }));
    assert_eq!(cur.index(), 0);
    assert_eq!(cur.seek(SeekFrom::End(-9)), Err(SeekOutOfRange { offset: -1 }));
}

#[test]
fn flush_changes_nothing() {
    let img = Image::filled(2, 2, 1u8);
    let mut cur = img.into_cursor();
    cur.seek(SeekFrom::Start(2)).unwrap();
    cur.flush();
    assert_eq!(cur.index(), 2);
}

#[test]
fn cursor_reports_its_image() {
    let img = Image::filled(2, 2, 7u8);
    let cur = img.into_cursor();
    assert_eq!(cur.index(), 0);
    assert_eq!(cur.image().width(), 2);
    assert_eq!(cur.image().get(1, 1), 7);
}

#[test]
fn multi_byte_pixels_stream_in_order() {
    let mut img = Image::filled(2, 1, Rgb::new(0, 0, 0));
    img.set(0, 0, Rgb::new(1, 2, 3));
    img.set(1, 0, Rgb::new(4, 5, 6));
    let mut cur = img.into_cursor();
    assert_eq!(cur.read_into_vec(), vec![1, 2, 3, 4, 5, 6]);
}

#[test]
fn partial_pixel_read_and_write() {
    let mut img = Image::filled(2, 1, Rgb::new(0, 0, 0));
    img.set(0, 0, Rgb::new(1, 2, 3));
    img.set(1, 0, Rgb::new(4, 5, 6));
    let mut cur = img.into_cursor();
    // Two bytes: half of the first pixel.
    let mut buf = vec![0u8; 2];
    assert_eq!(cur.read(&mut buf), 2);
    assert_eq!(buf, vec![1, 2]);
    assert_eq!(cur.index(), 2);
    // A one-byte write lands mid-pixel.
    assert_eq!(cur.write(&vec![9u8]), 1);
    let img = cur.into_image();
    assert_eq!(img.get(0, 0), Rgb::new(1, 2, 9));
    assert_eq!(img.get(1, 0), Rgb::new(4, 5, 6));
}

#[test]
fn rgb_round_trip_via_stream() {
    let mut img = Image::filled(2, 2, Rgb::new(0, 0, 0));
    let mut v: u8 = 1;
    for y in 0..2 {
        for x in 0..2 {
            img.set(x, y, Rgb::new(v, v + 1, v + 2));
            v += 3;
        }
    }
    let mut cur = img.into_cursor();
    let bytes = cur.read_into_vec();
    let img = cur.into_image();
    let mut wcur = Image::filled(2, 2, Rgb::new(0, 0, 0)).into_cursor();
    wcur.write_from_vec(&bytes);
    let round = wcur.into_image();
    for y in 0..2 {
        for x in 0..2 {
            assert_eq!(round.get(x, y), img.get(x, y));
        }
    }
}

#[test]
fn read_from_padding_offset_skips_to_next_row() {
    let storage: Vec<u8> = (0u8..10).collect();
    let img = Image::from_source_with_stride(3, 2, 5, storage).unwrap();
    let mut cur = img.into_cursor();
    cur.seek(SeekFrom::Start(4)).unwrap();
    let mut buf = vec![0u8; 3];
    // Inside the padding gap: nothing is read, the offset moves to row 1.
    assert_eq!(cur.read(&mut buf), 0);
    assert_eq!(cur.index(), 5);
    assert_eq!(cur.read(&mut buf), 3);
    assert_eq!(buf, vec![5, 6, 7]);
}
