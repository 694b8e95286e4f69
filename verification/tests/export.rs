use cysprite::export::{export_outcome, ExportError, MAX_PNG_WIDTH};
use cysprite::grid::Grid;

#[test]
fn bytes_follow_the_cells() {
    let mut g = Grid::new(2, 2);
    g.set(0, 0, [1, 2, 3, 255]);
    g.set(1, 0, [4, 5, 6, 255]);
    g.set(1, 1, [7, 8, 9, 255]);
    assert_eq!(
        g.to_rgba_bytes(),
        Some(vec![1, 2, 3, 255, 4, 5, 6, 255, 0, 0, 0, 0, 7, 8, 9, 255])
    );
    assert_eq!(Grid::new(0, 0).to_rgba_bytes(), Some(vec![]));
}

#[test]
fn png_decodes_to_the_same_pixels() {
    let mut g = Grid::new(3, 2);
    g.set(0, 0, [255, 0, 0, 255]);
    g.set(2, 0, [0, 255, 0, 128]);
    g.set(1, 1, [0, 0, 255, 255]);
    let file = match g.to_png() {
        Ok(file) => file,
        Err(_) => panic!("a 3x2 canvas has to encode"),
    };
    assert_eq!(&file[..8], &[137, 80, 78, 71, 13, 10, 26, 10]);
    assert_ne!(Some(file.clone()), g.to_rgba_bytes());

    let decoder = png::Decoder::new(&file[..]);
    let mut reader = decoder.read_info().unwrap();
    let mut pixels = vec![0; reader.output_buffer_size()];
    let info = reader.next_frame(&mut pixels).unwrap();
    assert_eq!((info.width, info.height), (3, 2));
    assert_eq!(info.color_type, png::ColorType::Rgba);
    assert_eq!(info.bit_depth, png::BitDepth::Eight);
    assert!(!reader.info().interlaced);
    assert_eq!(Some(pixels[..info.buffer_size()].to_vec()), g.to_rgba_bytes());
}

#[test]
fn png_is_the_same_for_the_same_canvas() {
    let mut g = Grid::new(4, 4);
    g.set(1, 2, [10, 20, 30, 40]);
    let first = g.to_png().ok();
    let second = g.clone().to_png().ok();
    assert!(first.is_some());
    assert_eq!(first, second);
}

#[test]
fn empty_canvas_is_refused_by_the_encoder() {
    for (w, h) in [(0, 0), (0, 3), (3, 0)] {
        match Grid::new(w, h).to_png() {
            Err(ExportError::Encoder(message)) => assert!(!message.is_empty()),
            _ => panic!("a canvas without pixels has no image"),
        }
    }
}

#[test]
fn encoder_outcome_is_passed_on() {
    match export_outcome(Ok(vec![1, 2, 3])) {
        Ok(bytes) => assert_eq!(bytes, vec![1, 2, 3]),
        Err(_) => panic!("a file was handed in"),
    }
    match export_outcome(Err(png::EncodingError::LimitsExceeded)) {
        Err(ExportError::Encoder(message)) => assert_eq!(message, "Limits are exceeded."),
        _ => panic!("an error was handed in"),
    }
}

#[test]
fn every_canvas_with_pixels_encodes() {
    for (w, h) in [(1, 1), (1, 7), (16, 16), (33, 2)] {
        let mut g = Grid::new(w, h);
        g.set(w - 1, h - 1, [9, 8, 7, 6]);
        match g.to_png() {
            Ok(file) => assert_eq!(&file[..8], &[137, 80, 78, 71, 13, 10, 26, 10]),
            Err(_) => panic!("a canvas with pixels has an image"),
        }
    }
}

#[test]
fn too_wide_a_canvas_never_reaches_the_encoder() {
    let g = Grid::new(MAX_PNG_WIDTH, 0);
    assert!(matches!(g.to_png(), Err(ExportError::TooLarge)));
    let g = Grid::new(usize::MAX, 0);
    assert!(matches!(g.to_png(), Err(ExportError::TooLarge)));
    // one column fewer is the encoder's to refuse, here for want of rows
    let g = Grid::new(MAX_PNG_WIDTH - 1, 0);
    assert!(matches!(g.to_png(), Err(ExportError::Encoder(_))));
}
