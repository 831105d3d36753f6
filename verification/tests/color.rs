use embedded_graphics_core::pixelcolor::{Rgb555, Rgb565, Rgb888, RgbColor};
use ssd1683::color::{from_rgb, BwColor, Channels, EpdColor, Palette};

fn channels(r: u8, g: u8, b: u8) -> Channels {
    Channels { r, g, b, max_r: 255, max_g: 255, max_b: 255 }
}

#[test]
fn black_bit_is_clear_for_black_only() {
    assert_eq!(EpdColor::Black.black_bit(), 0);
    assert_eq!(EpdColor::White.black_bit(), 1);
    assert_eq!(EpdColor::Red.black_bit(), 1);
}

#[test]
fn red_bit_is_set_for_red_only() {
    assert_eq!(EpdColor::Black.red_bit(), 0);
    assert_eq!(EpdColor::White.red_bit(), 0);
    assert_eq!(EpdColor::Red.red_bit(), 1);
}

#[test]
fn bits_with_red() {
    assert_eq!(EpdColor::from(0u8), EpdColor::Black);
    assert_eq!(EpdColor::from(1u8), EpdColor::White);
    assert_eq!(EpdColor::from(2u8), EpdColor::Red);
    assert_eq!(EpdColor::from(3u8), EpdColor::Red);
    assert_eq!(EpdColor::from(4u8), EpdColor::White);
    assert_eq!(EpdColor::from(255u8), EpdColor::White);
}

#[test]
fn bits_without_red() {
    assert_eq!(EpdColor::from_bits(0, Palette::BlackWhite), EpdColor::Black);
    for value in 1..=255u8 {
        assert_eq!(EpdColor::from_bits(value, Palette::BlackWhite), EpdColor::White);
    }
}

#[test]
fn bits_round_trip() {
    for color in [EpdColor::Black, EpdColor::White, EpdColor::Red] {
        assert_eq!(EpdColor::from(2 * color.red_bit() + color.black_bit()), color);
    }
    for color in [EpdColor::Black, EpdColor::White] {
        assert_eq!(EpdColor::from_bits(color.black_bit(), Palette::BlackWhite), color);
    }
}

#[test]
fn gray_splits_at_half_luma() {
    assert_eq!(from_rgb(channels(127, 127, 127), Palette::BlackWhite), EpdColor::Black);
    assert_eq!(from_rgb(channels(128, 128, 128), Palette::BlackWhite), EpdColor::White);
    assert_eq!(from_rgb(channels(127, 127, 127), Palette::BlackWhiteRed), EpdColor::Black);
    assert_eq!(from_rgb(channels(128, 128, 128), Palette::BlackWhiteRed), EpdColor::White);
}

#[test]
fn luma_weighs_the_channels() {
    // 587 * 218 = 127_966 and 587 * 219 = 128_553
    assert_eq!(from_rgb(channels(0, 218, 0), Palette::BlackWhite), EpdColor::Black);
    assert_eq!(from_rgb(channels(0, 219, 0), Palette::BlackWhite), EpdColor::White);
    assert_eq!(from_rgb(channels(255, 0, 255), Palette::BlackWhite), EpdColor::Black);
    assert_eq!(from_rgb(channels(255, 255, 0), Palette::BlackWhite), EpdColor::White);
}

#[test]
fn red_has_to_dominate_both_channels() {
    assert_eq!(from_rgb(channels(200, 199, 199), Palette::BlackWhiteRed), EpdColor::Red);
    assert_eq!(from_rgb(channels(200, 200, 0), Palette::BlackWhiteRed), EpdColor::White);
    assert_eq!(from_rgb(channels(200, 0, 200), Palette::BlackWhiteRed), EpdColor::Black);
    assert_eq!(from_rgb(channels(200, 199, 199), Palette::BlackWhite), EpdColor::White);
    assert_eq!(from_rgb(channels(255, 0, 0), Palette::BlackWhite), EpdColor::Black);
}

#[test]
fn blue_counts_by_its_own_maximum() {
    let color = |b: u8| Channels { r: 16, g: 31, b, max_r: 31, max_g: 63, max_b: 31 };
    // 16*63*299 + 31*31*587 = 865_499, blue adds 63*114 = 7182 a step, and
    // 7658 * 128 = 980_224
    assert_eq!(from_rgb(color(15), Palette::BlackWhite), EpdColor::Black);
    assert_eq!(from_rgb(color(16), Palette::BlackWhite), EpdColor::White);
    // Blue of 8 bits: 131 * 1953 / 255 = 1003 and 132 * 1953 / 255 = 1010
    let color = |b: u8| Channels { r: 16, g: 31, b, max_r: 31, max_g: 63, max_b: 255 };
    assert_eq!(from_rgb(color(131), Palette::BlackWhite), EpdColor::Black);
    assert_eq!(from_rgb(color(132), Palette::BlackWhite), EpdColor::White);
}

#[test]
fn without_a_blue_channel_blue_counts_nothing() {
    let color = |g: u8, b: u8| Channels { r: 16, g, b, max_r: 31, max_g: 63, max_b: 0 };
    // 16*63*299 + 37*31*587 = 974_681, and one step of green more is 992_878
    for b in [0, 255] {
        assert_eq!(from_rgb(color(37, b), Palette::BlackWhite), EpdColor::Black);
        assert_eq!(from_rgb(color(38, b), Palette::BlackWhite), EpdColor::White);
        assert_eq!(from_rgb(color(0, b), Palette::BlackWhiteRed), EpdColor::Black);
    }
}

#[test]
fn full_light_is_white_at_every_depth() {
    for (max_r, max_g, max_b) in [
        (1, 1, 1),
        (1, 255, 3),
        (255, 1, 255),
        (3, 7, 255),
        (255, 255, 1),
        (1, 1, 0),
        (31, 63, 0),
        (255, 255, 0),
    ] {
        for palette in [Palette::BlackWhite, Palette::BlackWhiteRed] {
            let white = Channels { r: max_r, g: max_g, b: max_b, max_r, max_g, max_b };
            let black = Channels { r: 0, g: 0, b: 0, max_r, max_g, max_b };
            assert_eq!(from_rgb(white, palette), EpdColor::White);
            assert_eq!(from_rgb(black, palette), EpdColor::Black);
        }
    }
}

#[test]
fn brighter_never_turns_black() {
    let mut white = false;
    for g in 0..=255u8 {
        let now = from_rgb(channels(60, g, 30), Palette::BlackWhite) == EpdColor::White;
        assert!(now || !white);
        white = now;
    }
    assert!(white);
}

#[test]
fn rgb888_reads_each_channel() {
    assert_eq!(EpdColor::from(Rgb888::BLACK), EpdColor::Black);
    assert_eq!(EpdColor::from(Rgb888::WHITE), EpdColor::White);
    assert_eq!(EpdColor::from(Rgb888::RED), EpdColor::Red);
    assert_eq!(EpdColor::from(Rgb888::GREEN), EpdColor::White);
    assert_eq!(EpdColor::from(Rgb888::BLUE), EpdColor::Black);
    assert_eq!(EpdColor::from(Rgb888::YELLOW), EpdColor::White);
    assert_eq!(EpdColor::from(Rgb888::MAGENTA), EpdColor::Black);
    assert_eq!(EpdColor::from(Rgb888::CYAN), EpdColor::White);
    assert_eq!(EpdColor::from_rgb888(Rgb888::RED, Palette::BlackWhite), EpdColor::Black);
    assert_eq!(EpdColor::from_rgb888(Rgb888::new(0, 219, 0), Palette::BlackWhite), EpdColor::White);
    assert_eq!(EpdColor::from_rgb888(Rgb888::new(0, 218, 0), Palette::BlackWhite), EpdColor::Black);
}

#[test]
fn rgb565_reads_each_channel() {
    assert_eq!(EpdColor::from(Rgb565::BLACK), EpdColor::Black);
    assert_eq!(EpdColor::from(Rgb565::WHITE), EpdColor::White);
    assert_eq!(EpdColor::from(Rgb565::RED), EpdColor::Red);
    assert_eq!(EpdColor::from(Rgb565::GREEN), EpdColor::White);
    assert_eq!(EpdColor::from(Rgb565::BLUE), EpdColor::Black);
    assert_eq!(EpdColor::from_rgb565(Rgb565::RED, Palette::BlackWhite), EpdColor::Black);
    // 587 * 31 = 18_197 for a step of green; 980_224 is reached at step 54
    assert_eq!(EpdColor::from_rgb565(Rgb565::new(0, 53, 0), Palette::BlackWhite), EpdColor::Black);
    assert_eq!(EpdColor::from_rgb565(Rgb565::new(0, 54, 0), Palette::BlackWhite), EpdColor::White);
    // 63 * 299 = 18_837 for a step of red, and 63 * 114 = 7182 for one of blue
    assert_eq!(EpdColor::from_rgb565(Rgb565::new(16, 36, 3), Palette::BlackWhite), EpdColor::Black);
    assert_eq!(EpdColor::from_rgb565(Rgb565::new(16, 36, 4), Palette::BlackWhite), EpdColor::White);
    assert_eq!(EpdColor::from(Rgb565::new(0, 43, 27)), EpdColor::Black);
    assert_eq!(EpdColor::from(Rgb565::new(0, 43, 31)), EpdColor::White);
}

#[test]
fn rgb555_reads_each_channel() {
    assert_eq!(EpdColor::from(Rgb555::BLACK), EpdColor::Black);
    assert_eq!(EpdColor::from(Rgb555::WHITE), EpdColor::White);
    assert_eq!(EpdColor::from(Rgb555::RED), EpdColor::Red);
    assert_eq!(EpdColor::from(Rgb555::GREEN), EpdColor::White);
    assert_eq!(EpdColor::from(Rgb555::BLUE), EpdColor::Black);
    assert_eq!(EpdColor::from_rgb555(Rgb555::RED, Palette::BlackWhite), EpdColor::Black);
    // gray: 31_000 a step, and 3768 * 128 = 482_304
    assert_eq!(EpdColor::from_rgb555(Rgb555::new(15, 15, 15), Palette::BlackWhite), EpdColor::Black);
    assert_eq!(EpdColor::from_rgb555(Rgb555::new(16, 16, 16), Palette::BlackWhite), EpdColor::White);
}

#[test]
fn two_colors_from_bits() {
    assert_eq!(BwColor::from(0u8), BwColor::Black);
    for value in 1..=255u8 {
        assert_eq!(BwColor::from(value), BwColor::White);
    }
    for color in [BwColor::Black, BwColor::White] {
        assert_eq!(BwColor::from(color.black_bit()), color);
        assert_eq!(EpdColor::from(color).black_bit(), color.black_bit());
        assert_eq!(EpdColor::from(color).red_bit(), 0);
    }
    assert_eq!(BwColor::Black.black_bit(), 0);
    assert_eq!(BwColor::White.black_bit(), 1);
    assert_eq!(EpdColor::from(BwColor::Black), EpdColor::Black);
    assert_eq!(EpdColor::from(BwColor::White), EpdColor::White);
}

#[test]
fn two_colors_from_rgb() {
    assert_eq!(BwColor::from(Rgb555::RED), BwColor::Black);
    assert_eq!(BwColor::from(Rgb555::new(15, 15, 15)), BwColor::Black);
    assert_eq!(BwColor::from(Rgb555::new(16, 16, 16)), BwColor::White);
    assert_eq!(BwColor::from(Rgb565::RED), BwColor::Black);
    assert_eq!(BwColor::from(Rgb565::new(0, 43, 27)), BwColor::Black);
    assert_eq!(BwColor::from(Rgb565::new(0, 43, 28)), BwColor::White);
    assert_eq!(BwColor::from(Rgb888::RED), BwColor::Black);
    // Red of which there is enough light
    assert_eq!(BwColor::from(Rgb888::new(200, 199, 199)), BwColor::White);
    assert_eq!(EpdColor::from(Rgb888::new(200, 199, 199)), EpdColor::Red);
    assert_eq!(BwColor::from(Rgb888::new(0, 218, 0)), BwColor::Black);
    assert_eq!(BwColor::from(Rgb888::new(0, 219, 0)), BwColor::White);
}
