use cysprite::zoom::{zoom_step, MAX_ZOOM, MIN_ZOOM};

#[test]
fn zoom_moves_by_the_steps() {
    assert_eq!(zoom_step(32, 1), 33);
    assert_eq!(zoom_step(32, -3), 29);
    assert_eq!(zoom_step(32, 0), 32);
}

#[test]
fn zoom_stays_within_its_range() {
    assert_eq!((MIN_ZOOM, MAX_ZOOM), (4, 64));
    assert_eq!(zoom_step(4, -1), 4);
    assert_eq!(zoom_step(64, 1), 64);
    assert_eq!(zoom_step(60, 4), 64);
    assert_eq!(zoom_step(8, -4), 4);
    assert_eq!(zoom_step(0, 0), 4);
    assert_eq!(zoom_step(127, 0), 64);
}

#[test]
fn zoom_does_not_overflow() {
    assert_eq!(zoom_step(64, 127), 64);
    assert_eq!(zoom_step(127, 127), 64);
    assert_eq!(zoom_step(4, -128), 4);
    assert_eq!(zoom_step(-128, -128), 4);
    assert_eq!(zoom_step(-128, 127), 4);
    assert_eq!(zoom_step(127, -100), 27);
}
