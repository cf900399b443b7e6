use ppmp6::{Pixel, PPMP6};

const RED: Pixel = Pixel { r: 255, g: 0, b: 0 };

fn message(frame: &PPMP6) -> Vec<u8> {
    let mut out = Vec::new();
    frame.write(&mut out);
    out
}

fn header(frame: &PPMP6) -> Vec<u8> {
    let mut out = Vec::new();
    frame.write_headers(&mut out);
    out
}

#[test]
fn write_two_by_two_red_frame_on_layer_five() {
    let frame = PPMP6::new(RED, 5, 2, 2);
    let mut expected = b"P6\n2 2\n#FT 0 0 5\n255\n".to_vec();
    expected.extend_from_slice(&[255, 0, 0, 255, 0, 0, 255, 0, 0, 255, 0, 0]);
    assert_eq!(message(&frame), expected);
}

#[test]
fn write_headers_gives_columns_before_rows() {
    let frame = PPMP6::new(RED, 14, 35, 45);
    assert_eq!(header(&frame), b"P6\n45 35\n#FT 0 0 14\n255\n".to_vec());
}

#[test]
fn write_headers_with_the_largest_layer() {
    let frame = PPMP6::new(RED, 255, 1, 100);
    assert_eq!(header(&frame), b"P6\n100 1\n#FT 0 0 255\n255\n".to_vec());
}

#[test]
fn write_headers_of_an_empty_frame() {
    let frame = PPMP6::new(RED, 0, 0, 0);
    assert_eq!(header(&frame), b"P6\n0 0\n#FT 0 0 0\n255\n".to_vec());
    assert_eq!(message(&frame), b"P6\n0 0\n#FT 0 0 0\n255\n".to_vec());
}

#[test]
fn write_length_is_header_and_three_bytes_a_pixel() {
    for (rows, cols) in [(0usize, 0usize), (1, 1), (2, 2), (3, 7), (35, 45), (10, 0), (0, 10)] {
        let frame = PPMP6::new(RED, 26, rows, cols);
        assert_eq!(message(&frame).len(), header(&frame).len() + rows * cols * 3);
    }
    let frame = PPMP6::new(RED, 26, 35, 45);
    assert_eq!(message(&frame).len(), 24 + 35 * 45 * 3);
}

#[test]
fn write_starts_with_the_header() {
    let frame = PPMP6::new(RED, 3, 4, 6);
    let head = header(&frame);
    assert_eq!(&message(&frame)[..head.len()], &head[..]);
}

#[test]
fn write_sends_rows_from_the_top_and_channels_in_order() {
    let mut frame = PPMP6::new(Pixel::new(9, 8, 7), 0, 2, 2);
    frame.set_col(1, 0.5f32.to_bits(), Pixel::new(10, 20, 30));
    let head = header(&frame);
    assert_eq!(
        &message(&frame)[head.len()..],
        &[9, 8, 7, 1, 1, 1, 9, 8, 7, 10, 20, 30][..]
    );
}

#[test]
fn write_places_each_pixel_by_row_and_column() {
    let (rows, cols) = (5usize, 4usize);
    let mut frame = PPMP6::new(Pixel::new(0, 0, 0), 0, rows, cols);
    let levels = [0.2f32, 0.4, 0.6, 0.8];
    for (col, level) in levels.iter().enumerate() {
        frame.set_col(col, level.to_bits(), Pixel::new(col as u8 + 100, 50, 60));
    }
    let head = header(&frame).len();
    let bytes = message(&frame);
    for row in 0..rows {
        for col in 0..cols {
            let p = frame.get(row, col).unwrap();
            let at = head + 3 * (row * cols + col);
            assert_eq!(&bytes[at..at + 3], &[p.r, p.g, p.b][..]);
        }
    }
}

#[test]
fn write_appends_to_what_the_writer_holds() {
    let frame = PPMP6::new(RED, 5, 1, 1);
    let mut out = b"abc".to_vec();
    frame.write(&mut out);
    assert_eq!(out, b"abcP6\n1 1\n#FT 0 0 5\n255\n\xff\x00\x00".to_vec());
    let mut out = b"abc".to_vec();
    frame.write_headers(&mut out);
    assert_eq!(out, b"abcP6\n1 1\n#FT 0 0 5\n255\n".to_vec());
}

#[test]
fn write_does_not_change_the_frame() {
    let frame = PPMP6::new(RED, 5, 2, 3);
    let first = message(&frame);
    let second = message(&frame);
    assert_eq!(first, second);
    assert_eq!(frame.get(1, 2), Some(RED));
}

#[test]
fn write_sends_bytes_that_look_like_line_feeds_as_they_are() {
    let frame = PPMP6::new(Pixel::new(10, 10, 10), 10, 1, 2);
    assert_eq!(
        message(&frame),
        b"P6\n2 1\n#FT 0 0 10\n255\n\n\n\n\n\n\n".to_vec()
    );
}
