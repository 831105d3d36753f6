use ssd1683::{buffer_size, Config, Rotation};

#[test]
fn new_is_a_single_upright_panel() {
    let config = Config::new(400, 300);
    assert_eq!(config.width(), 400);
    assert_eq!(config.height(), 300);
    assert_eq!(config.rotation(), Rotation::Rotate0);
    assert!(config.cascade().is_none());
}

#[test]
fn default_is_400_by_300() {
    let config = Config::default();
    assert_eq!(config.width(), 400);
    assert_eq!(config.height(), 300);
    assert_eq!(config.rotation(), Rotation::Rotate0);
    assert!(config.cascade().is_none());
}

#[test]
fn rotation_keeps_the_rest() {
    let config = Config::new(400, 272).with_cascade(400).with_rotation(Rotation::Rotate270);
    assert_eq!(config.rotation(), Rotation::Rotate270);
    assert_eq!(config.width(), 800);
    assert_eq!(config.height(), 272);
    assert_eq!(config.cascade().unwrap().chip_width(), 400);
}

#[test]
fn cascade_doubles_the_chip_width() {
    let config = Config::new(8, 272).with_rotation(Rotation::Rotate90).with_cascade(400);
    assert_eq!(config.width(), 800);
    assert_eq!(config.height(), 272);
    assert_eq!(config.rotation(), Rotation::Rotate90);
    assert_eq!(config.cascade().unwrap().chip_width(), 400);
    assert_eq!(Config::new(8, 8).with_cascade(32767).width(), 65534);
}

#[test]
fn buffer_size_is_one_bit_per_pixel() {
    assert_eq!(buffer_size(400, 300), 15_000);
    assert_eq!(buffer_size(800, 272), 27_200);
    assert_eq!(buffer_size(0, 300), 0);
    assert_eq!(buffer_size(65535, 65535), 536_854_528);
}
