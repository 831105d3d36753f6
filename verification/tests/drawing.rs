use ssd1683::color::EpdColor;
use ssd1683::model::{Pixel, Size};
use ssd1683::{Config, Graphics, Rotation};

#[test]
fn black_clears_and_white_sets() {
    let (mut dirty, mut black) = ([0u8; 4], [0xF0u8; 4]);
    let mut g = Graphics::new(Config::new(16, 2), &mut dirty, &mut black);
    g.set_pixel(0, 0, EpdColor::Black);
    g.set_pixel(12, 1, EpdColor::White);
    assert_eq!(dirty, [0x80, 0, 0, 0x08]);
    assert_eq!(black, [0x70, 0xF0, 0xF0, 0xF8]);
}

#[test]
fn three_colors_on_two_planes() {
    let (mut dirty, mut black, mut red) = ([0u8; 1], [0b0000_1111u8; 1], [0b0101_0101u8; 1]);
    let mut g = Graphics::new_with_red(Config::new(8, 1), &mut dirty, &mut black, &mut red);
    g.set_pixel(0, 0, EpdColor::White);
    g.set_pixel(1, 0, EpdColor::White);
    g.set_pixel(2, 0, EpdColor::Red);
    g.set_pixel(3, 0, EpdColor::Black);
    g.set_pixel(4, 0, EpdColor::Red);
    g.set_pixel(5, 0, EpdColor::Black);
    assert_eq!(dirty, [0b1111_1100]);
    assert_eq!(black, [0b1110_1011]);
    assert_eq!(red, [0b0010_1001]);
}

#[test]
fn rotation_moves_the_points() {
    let (mut dirty, mut black) = ([0u8; 6], [0xFFu8; 6]);
    let config = Config::new(16, 3).with_rotation(Rotation::Rotate90);
    let mut g = Graphics::new(config, &mut dirty, &mut black);
    g.set_pixel(0, 0, EpdColor::Black);
    g.set_pixel(2, 15, EpdColor::Black);
    assert_eq!(dirty, [0, 0x01, 0, 0, 0x80, 0]);
    assert_eq!(black, [0xFF, 0xFE, 0xFF, 0xFF, 0x7F, 0xFF]);
}

#[test]
fn last_pixel_wins() {
    let (mut dirty, mut black) = ([0u8; 2], [0u8; 2]);
    let mut g = Graphics::new(Config::new(8, 2), &mut dirty, &mut black);
    g.draw_iter(&[
        Pixel { x: 3, y: 1, color: EpdColor::White },
        Pixel { x: 4, y: 0, color: EpdColor::White },
        Pixel { x: 3, y: 1, color: EpdColor::Black },
        Pixel { x: 5, y: 0, color: EpdColor::Black },
        Pixel { x: 5, y: 0, color: EpdColor::White },
    ]);
    assert_eq!(dirty, [0b0000_1100, 0b0001_0000]);
    assert_eq!(black, [0b0000_1100, 0]);
}

#[test]
fn drawing_nothing_changes_nothing() {
    let (mut dirty, mut black) = ([7u8; 2], [9u8; 2]);
    let mut g = Graphics::new(Config::new(8, 2), &mut dirty, &mut black);
    g.draw_iter(&[]);
    assert_eq!(dirty, [7, 7]);
    assert_eq!(black, [9, 9]);
}

#[test]
fn size_follows_the_rotation() {
    let (mut dirty, mut black) = ([0u8; 1], [0u8; 1]);
    let mut size = |rotation| {
        Graphics::new(Config::new(400, 300).with_rotation(rotation), &mut dirty, &mut black).size()
    };
    assert_eq!(size(Rotation::Rotate0), Size { width: 400, height: 300 });
    assert_eq!(size(Rotation::Rotate90), Size { width: 300, height: 400 });
    assert_eq!(size(Rotation::Rotate180), Size { width: 400, height: 300 });
    assert_eq!(size(Rotation::Rotate270), Size { width: 300, height: 400 });
}

#[test]
fn buffers_hold_the_whole_surface() {
    let (mut dirty, mut black) = ([0u8; 6], [0u8; 6]);
    for rotation in [Rotation::Rotate0, Rotation::Rotate90, Rotation::Rotate180, Rotation::Rotate270] {
        let g = Graphics::new(Config::new(16, 3).with_rotation(rotation), &mut dirty, &mut black);
        let size = g.size();
        for y in 0..size.height {
            for x in 0..size.width {
                assert!(g.holds(x, y));
            }
        }
        assert!(!g.holds(u32::MAX, u32::MAX));
    }
    let g = Graphics::new(Config::new(16, 3), &mut dirty, &mut black);
    assert!(!g.holds(15, 3));
}

#[test]
fn a_short_plane_holds_less() {
    let (mut dirty, mut black, mut red) = ([0u8; 6], [0u8; 6], [0u8; 5]);
    let mut g = Graphics::new_with_red(Config::new(16, 3), &mut dirty, &mut black, &mut red);
    assert!(g.holds(7, 2));
    assert!(!g.holds(8, 2));
    g.set_pixel(7, 2, EpdColor::Red);
    assert_eq!(red, [0, 0, 0, 0, 1]);
}

#[test]
fn points_beyond_the_right_edge_fall_into_the_next_row() {
    let (mut dirty, mut black) = ([0u8; 4], [0u8; 4]);
    let mut g = Graphics::new(Config::new(16, 2), &mut dirty, &mut black);
    assert!(g.holds(16, 0));
    assert!(!g.holds(16, 1));
    g.set_pixel(16, 0, EpdColor::White);
    assert_eq!(black, [0, 0, 0x80, 0]);
}

#[test]
fn red_needs_a_red_plane() {
    let (mut dirty, mut black, mut red) = ([0u8; 1], [0u8; 1], [0u8; 1]);
    let g = Graphics::new(Config::new(8, 1), &mut dirty, &mut black);
    assert!(g.shows(EpdColor::Black));
    assert!(g.shows(EpdColor::White));
    assert!(!g.shows(EpdColor::Red));
    let g = Graphics::new_with_red(Config::new(8, 1), &mut dirty, &mut black, &mut red);
    assert!(g.shows(EpdColor::Red));
}
