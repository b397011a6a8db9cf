use navetted::frame::{normalize_frame, Frame};

#[test]
fn normalize_frame_pads_odd_dimensions_and_preserves_pixel_rows() {
    let mut pixels = Vec::with_capacity(3 * 3 * 4);
    for value in [0x11, 0x22, 0x33] {
        pixels.extend([value; 3 * 4]);
    }
    let frame = Frame { width: 3, height: 3, pixels };

    let normalized = normalize_frame(frame);

    assert_eq!(normalized.width, 4);
    assert_eq!(normalized.height, 4);
    assert_eq!(normalized.pixels.len(), 4 * 4 * 4);

    assert_eq!(&normalized.pixels[0..12], &[0x11; 12], "row 0 pixels");
    assert_eq!(&normalized.pixels[12..16], &[0; 4], "row 0 padding column");
    assert_eq!(&normalized.pixels[16..28], &[0x22; 12], "row 1 pixels");
    assert_eq!(&normalized.pixels[28..32], &[0; 4], "row 1 padding column");
    assert_eq!(&normalized.pixels[32..44], &[0x33; 12], "row 2 pixels");
    assert_eq!(&normalized.pixels[44..48], &[0; 4], "row 2 padding column");
    assert_eq!(&normalized.pixels[48..64], &[0; 16], "padding row");
}

#[test]
fn normalize_frame_leaves_even_dimensions_unchanged() {
    let frame = || Frame { width: 4, height: 2, pixels: vec![7; 4 * 2 * 4] };
    assert_eq!(normalize_frame(frame()), frame());
}

#[test]
fn normalising_twice_changes_nothing_more() {
    let once = normalize_frame(Frame { width: 1, height: 2, pixels: vec![9; 8] });
    assert_eq!((once.width, once.height), (2, 2));
    let copy = Frame { width: once.width, height: once.height, pixels: once.pixels.clone() };
    assert_eq!(normalize_frame(once), copy);
}

#[test]
fn an_even_frame_comes_back_as_it_is() {
    let short = Frame { width: 4, height: 2, pixels: vec![9] };
    assert_eq!(normalize_frame(short).pixels, [9]);
}
