use std::cell::Cell;

use cherenkov::canvas::{buffer_len, check_layout, composite, squared_diagonal, CHANNELS};
use cherenkov::{NovaError, SpokeTable};

fn one_spoke() -> SpokeTable<u8, u8> {
    SpokeTable::generate(1, 0u8, |s: u8| (s, 1, 2)).unwrap()
}

#[test]
fn a_pixel_has_four_bytes() {
    assert_eq!(CHANNELS, 4);
}

#[test]
fn an_image_takes_four_bytes_for_each_pixel() {
    assert_eq!(buffer_len(4, 4), Some(64));
    assert_eq!(buffer_len(3, 2), Some(24));
    assert_eq!(buffer_len(1, 1), Some(4));
    assert_eq!(buffer_len(0, 7), Some(0));
    assert_eq!(buffer_len(7, 0), Some(0));
    assert_eq!(buffer_len(usize::MAX, 0), Some(0));
    assert_eq!(buffer_len(usize::MAX / 4, 1), Some(usize::MAX - 3));
}

#[test]
fn an_image_too_large_for_the_machine_has_no_buffer() {
    assert_eq!(buffer_len(usize::MAX, 1), None);
    assert_eq!(buffer_len(usize::MAX / 4 + 1, 1), None);
    assert_eq!(buffer_len(1, usize::MAX / 4 + 1), None);
    assert_eq!(buffer_len(usize::MAX, usize::MAX), None);
    assert_eq!(buffer_len(usize::MAX / 2, 2), None);
}

#[test]
fn the_diagonal_is_squared_in_whole_pixels() {
    assert_eq!(squared_diagonal(0, 0), Some(0));
    assert_eq!(squared_diagonal(3, 4), Some(25));
    assert_eq!(squared_diagonal(4, 4), Some(32));
    assert_eq!(squared_diagonal(1920, 1080), Some(4852800));
    assert_eq!(squared_diagonal(65536, 65536), Some(8589934592));
    let side = usize::MAX as u128;
    assert_eq!(squared_diagonal(usize::MAX, 0), Some(side * side));
    assert_eq!(squared_diagonal(0, usize::MAX), Some(side * side));
    assert_eq!(squared_diagonal(usize::MAX, 1), Some(side * side + 1));
    if usize::BITS >= 64 {
        assert_eq!(squared_diagonal(usize::MAX, usize::MAX), None);
    } else {
        assert_eq!(squared_diagonal(usize::MAX, usize::MAX), Some(2 * side * side));
    }
}

#[test]
fn a_buffer_that_holds_the_image_exactly_is_accepted() {
    assert_eq!(check_layout(0, 0, 0, 0), Ok(()));
    assert_eq!(check_layout(4, 1, 1, 4), Ok(()));
    assert_eq!(check_layout(64, 4, 4, 16), Ok(()));
    assert_eq!(check_layout(24, 3, 2, 12), Ok(()));
    assert_eq!(check_layout(0, 5, 0, 20), Ok(()));
}

#[test]
fn a_buffer_of_another_length_is_refused() {
    assert_eq!(check_layout(63, 4, 4, 16), Err(NovaError::BufferLength));
    assert_eq!(check_layout(65, 4, 4, 16), Err(NovaError::BufferLength));
    assert_eq!(check_layout(0, 4, 4, 16), Err(NovaError::BufferLength));
    assert_eq!(check_layout(16, 4, 4, 16), Err(NovaError::BufferLength));
    assert_eq!(check_layout(1, 0, 0, 0), Err(NovaError::BufferLength));
}

#[test]
fn an_image_too_large_to_count_is_refused() {
    assert_eq!(
        check_layout(usize::MAX, usize::MAX, 1, usize::MAX),
        Err(NovaError::BufferLength)
    );
    assert_eq!(
        check_layout(0, usize::MAX / 2, usize::MAX / 2, 0),
        Err(NovaError::BufferLength)
    );
    assert_eq!(
        check_layout(0, usize::MAX, 0, usize::MAX),
        Err(NovaError::RowStride)
    );
}

#[test]
fn rows_that_overlap_or_leave_the_buffer_are_refused() {
    assert_eq!(check_layout(64, 4, 4, 15), Err(NovaError::RowStride));
    assert_eq!(check_layout(64, 4, 4, 17), Err(NovaError::RowStride));
    assert_eq!(check_layout(64, 4, 4, 0), Err(NovaError::RowStride));
    assert_eq!(check_layout(16, 4, 1, 12), Err(NovaError::RowStride));
    assert_eq!(check_layout(0, 0, 3, 4), Err(NovaError::RowStride));
}

#[test]
fn a_single_row_may_have_a_wider_stride() {
    assert_eq!(check_layout(16, 4, 1, 16), Ok(()));
    assert_eq!(check_layout(16, 4, 1, 100), Ok(()));
    assert_eq!(check_layout(0, 0, 1, 9), Ok(()));
    assert_eq!(check_layout(0, 3, 0, 12), Ok(()));
    assert_eq!(check_layout(0, 3, 0, 11), Err(NovaError::RowStride));
}

#[test]
fn the_length_is_judged_before_the_stride() {
    assert_eq!(check_layout(60, 4, 4, 3), Err(NovaError::BufferLength));
}

#[test]
fn every_pixel_is_shaded_once_with_its_place_and_its_colour() {
    // 3 by 2 pixels; the shade writes the column, the row and the old red.
    let spokes = one_spoke();
    let mut pixels: Vec<u8> = (0..24).map(|k| 100 + k as u8).collect();
    let calls = Cell::new(0usize);
    let r = composite(
        &spokes,
        &mut pixels,
        12,
        3,
        2,
        |_: &SpokeTable<u8, u8>, x: usize, y: usize, rgb: (u8, u8, u8)| {
            calls.set(calls.get() + 1);
            (x as u8, y as u8, rgb.0)
        },
    );
    assert_eq!(r, Ok(()));
    assert_eq!(calls.get(), 6);
    assert_eq!(
        pixels,
        vec![
            0, 0, 100, 103, 1, 0, 104, 107, 2, 0, 108, 111, //
            0, 1, 112, 115, 1, 1, 116, 119, 2, 1, 120, 123,
        ]
    );
}

#[test]
fn the_shade_sees_the_old_colour_of_its_own_pixel() {
    let spokes = one_spoke();
    let mut pixels: Vec<u8> = vec![1, 2, 3, 4, 5, 6, 7, 8];
    let r = composite(
        &spokes,
        &mut pixels,
        8,
        2,
        1,
        |_: &SpokeTable<u8, u8>, _: usize, _: usize, rgb: (u8, u8, u8)| (rgb.2, rgb.1, rgb.0),
    );
    assert_eq!(r, Ok(()));
    assert_eq!(pixels, vec![3, 2, 1, 4, 7, 6, 5, 8]);
}

#[test]
fn the_shade_is_handed_the_table() {
    let spokes: SpokeTable<u8, u8> =
        SpokeTable::generate(3, 5u8, |s: u8| (s + 1, s, 2 * s)).unwrap();
    let mut pixels: Vec<u8> = vec![0; 16];
    let r = composite(
        &spokes,
        &mut pixels,
        16,
        4,
        1,
        |table: &SpokeTable<u8, u8>, x: usize, _: usize, _: (u8, u8, u8)| {
            let ((b0, c0), (b1, _)) = table.span(x);
            (*b0, *c0, *b1)
        },
    );
    assert_eq!(r, Ok(()));
    assert_eq!(
        pixels,
        vec![5, 10, 6, 0, 6, 12, 7, 0, 7, 14, 5, 0, 5, 10, 6, 0]
    );
}

#[test]
fn alpha_is_never_written() {
    let spokes = one_spoke();
    let mut pixels: Vec<u8> = (0..64).map(|k| (k * 3) as u8).collect();
    let before = pixels.clone();
    let r = composite(
        &spokes,
        &mut pixels,
        16,
        4,
        4,
        |_: &SpokeTable<u8, u8>, _: usize, _: usize, _: (u8, u8, u8)| (255, 254, 253),
    );
    assert_eq!(r, Ok(()));
    for (k, byte) in pixels.iter().enumerate() {
        match k % 4 {
            0 => assert_eq!(*byte, 255),
            1 => assert_eq!(*byte, 254),
            2 => assert_eq!(*byte, 253),
            _ => assert_eq!(*byte, before[k]),
        }
    }
}

#[test]
fn a_refused_buffer_is_left_as_it_was() {
    let spokes = one_spoke();
    for len in [0usize, 1, 63, 65, 128] {
        let mut pixels: Vec<u8> = (0..len).map(|k| k as u8).collect();
        let before = pixels.clone();
        let calls = Cell::new(0usize);
        let r = composite(
            &spokes,
            &mut pixels,
            16,
            4,
            4,
            |_: &SpokeTable<u8, u8>, _: usize, _: usize, _: (u8, u8, u8)| {
                calls.set(calls.get() + 1);
                (9, 9, 9)
            },
        );
        assert_eq!(r, Err(NovaError::BufferLength));
        assert_eq!(pixels, before);
        assert_eq!(calls.get(), 0);
    }
    let mut pixels: Vec<u8> = vec![7; 64];
    let r = composite(
        &spokes,
        &mut pixels,
        20,
        4,
        4,
        |_: &SpokeTable<u8, u8>, _: usize, _: usize, _: (u8, u8, u8)| (9, 9, 9),
    );
    assert_eq!(r, Err(NovaError::RowStride));
    assert_eq!(pixels, vec![7; 64]);
}

#[test]
fn an_image_without_pixels_is_drawn_without_a_call() {
    let spokes = one_spoke();
    let mut pixels: Vec<u8> = Vec::new();
    let calls = Cell::new(0usize);
    for (width, height, stride) in [(0usize, 0usize, 0usize), (0, 1, 0), (5, 0, 20)] {
        let r = composite(
            &spokes,
            &mut pixels,
            stride,
            width,
            height,
            |_: &SpokeTable<u8, u8>, _: usize, _: usize, _: (u8, u8, u8)| {
                calls.set(calls.get() + 1);
                (9, 9, 9)
            },
        );
        assert_eq!(r, Ok(()));
    }
    assert_eq!(calls.get(), 0);
    assert!(pixels.is_empty());
}
