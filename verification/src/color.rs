//! Panel colours, and the reduction of RGB colours to them.
use embedded_graphics_core::pixelcolor::{Rgb555, Rgb565, Rgb888, RgbColor};
use vstd::prelude::*;
use vstd::std_specs::convert::FromSpecImpl;

verus! {

/// The pigments of a panel.
#[derive(Debug, Clone, Copy, PartialEq, Eq, Structural)]
pub enum Palette {
    BlackWhite,
    BlackWhiteRed,
}

/// A colour that the panel can show. `Red` needs a panel with red pigment.
#[derive(Debug, Clone, Copy, PartialEq, Eq, Structural)]
pub enum EpdColor {
    Black,
    White,
    Red,
}

impl EpdColor {
    /// The colour's bit in the black and white plane.
    pub open spec fn spec_black_bit(self) -> u8 {
        if self == EpdColor::Black { 0 } else { 1 }
    }

    /// The colour's bit in the red plane.
    pub open spec fn spec_red_bit(self) -> u8 {
        if self == EpdColor::Red { 1 } else { 0 }
    }

    /// The colour's bit in the black and white plane: clear for black alone.
    pub fn black_bit(&self) -> (r: u8)
        ensures
            r == self.spec_black_bit(),
    {
        match self {
            EpdColor::Black => 0b0,
            EpdColor::White => 0b1,
            EpdColor::Red => 0b1,
        }
    }

    /// The colour's bit in the red plane: set for red alone.
    pub fn red_bit(&self) -> (r: u8)
        ensures
            r == self.spec_red_bit(),
    {
        match self {
            EpdColor::Black | EpdColor::White => 0b0,
            EpdColor::Red => 0b1,
        }
    }

    /// The colour that `value` stands for on a panel with the given pigments: bit 0
    /// is the black and white bit, bit 1 the red bit.
    pub fn from_bits(value: u8, palette: Palette) -> (r: EpdColor)
        ensures
            r == color_of_bits(value, palette),
    {
        match value {
            0b00 => EpdColor::Black,
            0b01 => EpdColor::White,
            0b10 | 0b11 => match palette {
                Palette::BlackWhite => EpdColor::White,
                Palette::BlackWhiteRed => EpdColor::Red,
            },
            _ => EpdColor::White,
        }
    }
}

/// 0 is black, 1 is white, 2 and 3 are red where the panel has red, and anything
/// else is white.
pub open spec fn color_of_bits(value: u8, palette: Palette) -> EpdColor {
    if value == 0 {
        EpdColor::Black
    } else if palette == Palette::BlackWhiteRed && (value == 2 || value == 3) {
        EpdColor::Red
    } else {
        EpdColor::White
    }
}

impl From<u8> for EpdColor {
    /// The colour that `value` stands for on a panel with red.
    fn from(value: u8) -> (r: EpdColor) {
        EpdColor::from_bits(value, Palette::BlackWhiteRed)
    }
}

impl FromSpecImpl<u8> for EpdColor {
    open spec fn obeys_from_spec() -> bool {
        true
    }

    open spec fn from_spec(value: u8) -> EpdColor {
        color_of_bits(value, Palette::BlackWhiteRed)
    }
}

/// An RGB colour by its channels, each with the largest value that it can take.
#[derive(Debug, Clone, Copy, PartialEq, Eq, Structural)]
pub struct Channels {
    pub r: u8,
    pub g: u8,
    pub b: u8,
    pub max_r: u8,
    pub max_g: u8,
    pub max_b: u8,
}

impl Channels {
    /// Relative to its maximum, red is larger than green and larger than blue.
    pub open spec fn red_dominant(self) -> bool {
        self.r * self.max_g > self.g * self.max_r && self.r * self.max_b > self.b * self.max_r
    }

    /// No channel is above its maximum.
    pub open spec fn in_range(self) -> bool {
        self.r <= self.max_r && self.g <= self.max_g && self.b <= self.max_b
    }

    /// Blue's share of its maximum, on the scale `max_r * max_g`. A colour without a blue
    /// channel has none.
    pub open spec fn blue_share(self) -> int {
        if self.max_b == 0 {
            0
        } else {
            self.b * (self.max_r * self.max_g) / (self.max_b as int)
        }
    }

    /// Luma by the integer weights of ITU-R BT.601, brought to a scale of 8 bits. Each
    /// channel counts by its share of its own maximum, on the scale `max_r * max_g`.
    pub open spec fn luma(self) -> int {
        (self.r * self.max_g * 299 + self.g * self.max_r * 587 + self.blue_share() * 114) / (self.max_r
            * self.max_g * 1000 / 255)
    }
}

/// Red where the panel has red and red dominates; else black below half luma, and
/// white from there up.
pub open spec fn color_of_rgb(color: Channels, palette: Palette) -> EpdColor {
    if palette == Palette::BlackWhiteRed && color.red_dominant() {
        EpdColor::Red
    } else if color.luma() < 128 {
        EpdColor::Black
    } else {
        EpdColor::White
    }
}

/// The panel colour that stands for an RGB colour.
pub fn from_rgb(color: Channels, palette: Palette) -> (r: EpdColor)
    requires
        color.max_r > 0,
        color.max_g > 0,
    ensures
        r == color_of_rgb(color, palette),
{
    let r: u32 = color.r as u32;
    let g: u32 = color.g as u32;
    let b: u32 = color.b as u32;
    let max_r: u32 = color.max_r as u32;
    let max_g: u32 = color.max_g as u32;
    let max_b: u32 = color.max_b as u32;
    proof {
        lemma_byte_product(color.r, color.max_g);
        lemma_byte_product(color.g, color.max_r);
        lemma_byte_product(color.r, color.max_b);
        lemma_byte_product(color.b, color.max_r);
        lemma_byte_product(color.max_r, color.max_g);
        assert(max_r * max_g >= 1) by (nonlinear_arith)
            requires
                max_r >= 1,
                max_g >= 1,
        ;
        let scale: int = max_r * max_g;
        assert(0 <= b * scale <= 16581375) by (nonlinear_arith)
            requires
                0 <= b <= 255,
                1 <= scale <= 65025,
        ;
        let max_b: int = max_b as int;
        if max_b > 0 {
            assert(0 <= b * scale / max_b <= b * scale) by (nonlinear_arith)
                requires
                    0 <= b * scale,
                    max_b >= 1,
            ;
        }
    }
    match palette {
        Palette::BlackWhiteRed => {
            if r * max_g > g * max_r && r * max_b > b * max_r {
                return EpdColor::Red;
            }
        },
        Palette::BlackWhite => {},
    }
    let scale: u32 = max_r * max_g;
    let blue: u32 = if max_b == 0 { 0 } else { b * scale / max_b };
    let luma: u32 = (r * max_g * 299 + g * max_r * 587 + blue * 114) / (scale * 1000 / 255);
    if luma < 128 {
        EpdColor::Black
    } else {
        EpdColor::White
    }
}

proof fn lemma_byte_product(a: u8, b: u8)
    ensures
        0 <= a * b <= 65025,
{
    assert(0 <= a * b <= 65025) by (nonlinear_arith)
        requires
            0 <= a <= 255,
            0 <= b <= 255,
    ;
}

/// Makes `Rgb555` known as an opaque type.
#[verifier::external_type_specification]
#[verifier::external_body]
pub struct ExRgb555(embedded_graphics_core::pixelcolor::Rgb555);

/// Makes `Rgb565` known as an opaque type.
#[verifier::external_type_specification]
#[verifier::external_body]
pub struct ExRgb565(embedded_graphics_core::pixelcolor::Rgb565);

/// Makes `Rgb888` known as an opaque type.
#[verifier::external_type_specification]
#[verifier::external_body]
pub struct ExRgb888(embedded_graphics_core::pixelcolor::Rgb888);

/// The red channel that an `Rgb555` stores.
pub uninterp spec fn rgb555_r(color: Rgb555) -> u8;

/// The green channel that an `Rgb555` stores.
pub uninterp spec fn rgb555_g(color: Rgb555) -> u8;

/// The blue channel that an `Rgb555` stores.
pub uninterp spec fn rgb555_b(color: Rgb555) -> u8;

/// The red channel that an `Rgb565` stores.
pub uninterp spec fn rgb565_r(color: Rgb565) -> u8;

/// The green channel that an `Rgb565` stores.
pub uninterp spec fn rgb565_g(color: Rgb565) -> u8;

/// The blue channel that an `Rgb565` stores.
pub uninterp spec fn rgb565_b(color: Rgb565) -> u8;

/// The red channel that an `Rgb888` stores.
pub uninterp spec fn rgb888_r(color: Rgb888) -> u8;

/// The green channel that an `Rgb888` stores.
pub uninterp spec fn rgb888_g(color: Rgb888) -> u8;

/// The blue channel that an `Rgb888` stores.
pub uninterp spec fn rgb888_b(color: Rgb888) -> u8;

/// `RgbColor::r` of `Rgb555` reads the stored red channel, 5 bits wide: it is at
/// most 31.
pub assume_specification[ <Rgb555 as RgbColor>::r ](rgb: &Rgb555) -> (r: u8)
    ensures
        r == rgb555_r(*rgb),
        r <= 31,
;

/// `RgbColor::g` of `Rgb555` reads the stored green channel, 5 bits wide: it is at
/// most 31.
pub assume_specification[ <Rgb555 as RgbColor>::g ](rgb: &Rgb555) -> (r: u8)
    ensures
        r == rgb555_g(*rgb),
        r <= 31,
;

/// `RgbColor::b` of `Rgb555` reads the stored blue channel, 5 bits wide: it is at
/// most 31.
pub assume_specification[ <Rgb555 as RgbColor>::b ](rgb: &Rgb555) -> (r: u8)
    ensures
        r == rgb555_b(*rgb),
        r <= 31,
;

/// `RgbColor::r` of `Rgb565` reads the stored red channel, 5 bits wide: it is at
/// most 31.
pub assume_specification[ <Rgb565 as RgbColor>::r ](rgb: &Rgb565) -> (r: u8)
    ensures
        r == rgb565_r(*rgb),
        r <= 31,
;

/// `RgbColor::g` of `Rgb565` reads the stored green channel, 6 bits wide: it is at
/// most 63.
pub assume_specification[ <Rgb565 as RgbColor>::g ](rgb: &Rgb565) -> (r: u8)
    ensures
        r == rgb565_g(*rgb),
        r <= 63,
;

/// `RgbColor::b` of `Rgb565` reads the stored blue channel, 5 bits wide: it is at
/// most 31.
pub assume_specification[ <Rgb565 as RgbColor>::b ](rgb: &Rgb565) -> (r: u8)
    ensures
        r == rgb565_b(*rgb),
        r <= 31,
;

/// `RgbColor::r` of `Rgb888` reads the stored red channel, 8 bits wide.
pub assume_specification[ <Rgb888 as RgbColor>::r ](rgb: &Rgb888) -> (r: u8)
    ensures
        r == rgb888_r(*rgb),
;

/// `RgbColor::g` of `Rgb888` reads the stored green channel, 8 bits wide.
pub assume_specification[ <Rgb888 as RgbColor>::g ](rgb: &Rgb888) -> (r: u8)
    ensures
        r == rgb888_g(*rgb),
;

/// `RgbColor::b` of `Rgb888` reads the stored blue channel, 8 bits wide.
pub assume_specification[ <Rgb888 as RgbColor>::b ](rgb: &Rgb888) -> (r: u8)
    ensures
        r == rgb888_b(*rgb),
;

/// `MAX_R`, `MAX_G` and `MAX_B` of `Rgb555`: all ones in 5, 5 and 5 bits.
#[verifier::external_body]
fn rgb555_maxima() -> (r: (u8, u8, u8))
    ensures
        r == (31u8, 31u8, 31u8),
{
    (Rgb555::MAX_R, Rgb555::MAX_G, Rgb555::MAX_B)
}

/// `MAX_R`, `MAX_G` and `MAX_B` of `Rgb565`: all ones in 5, 6 and 5 bits.
#[verifier::external_body]
fn rgb565_maxima() -> (r: (u8, u8, u8))
    ensures
        r == (31u8, 63u8, 31u8),
{
    (Rgb565::MAX_R, Rgb565::MAX_G, Rgb565::MAX_B)
}

/// `MAX_R`, `MAX_G` and `MAX_B` of `Rgb888`: all ones in 8, 8 and 8 bits.
#[verifier::external_body]
fn rgb888_maxima() -> (r: (u8, u8, u8))
    ensures
        r == (255u8, 255u8, 255u8),
{
    (Rgb888::MAX_R, Rgb888::MAX_G, Rgb888::MAX_B)
}

/// The channels of an `Rgb555`.
pub open spec fn rgb555_channels(color: Rgb555) -> Channels {
    Channels {
        r: rgb555_r(color),
        g: rgb555_g(color),
        b: rgb555_b(color),
        max_r: 31,
        max_g: 31,
        max_b: 31,
    }
}

/// The channels of an `Rgb565`.
pub open spec fn rgb565_channels(color: Rgb565) -> Channels {
    Channels {
        r: rgb565_r(color),
        g: rgb565_g(color),
        b: rgb565_b(color),
        max_r: 31,
        max_g: 63,
        max_b: 31,
    }
}

/// The channels of an `Rgb888`.
pub open spec fn rgb888_channels(color: Rgb888) -> Channels {
    Channels {
        r: rgb888_r(color),
        g: rgb888_g(color),
        b: rgb888_b(color),
        max_r: 255,
        max_g: 255,
        max_b: 255,
    }
}

impl EpdColor {
    /// The colour that stands for an `Rgb555` on a panel with the given pigments.
    pub fn from_rgb555(color: Rgb555, palette: Palette) -> (r: EpdColor)
        ensures
            r == color_of_rgb(rgb555_channels(color), palette),
            rgb555_channels(color).in_range(),
    {
        let (max_r, max_g, max_b) = rgb555_maxima();
        from_rgb(
            Channels { r: color.r(), g: color.g(), b: color.b(), max_r, max_g, max_b },
            palette,
        )
    }

    /// The colour that stands for an `Rgb565` on a panel with the given pigments.
    pub fn from_rgb565(color: Rgb565, palette: Palette) -> (r: EpdColor)
        ensures
            r == color_of_rgb(rgb565_channels(color), palette),
            rgb565_channels(color).in_range(),
    {
        let (max_r, max_g, max_b) = rgb565_maxima();
        from_rgb(
            Channels { r: color.r(), g: color.g(), b: color.b(), max_r, max_g, max_b },
            palette,
        )
    }

    /// The colour that stands for an `Rgb888` on a panel with the given pigments.
    pub fn from_rgb888(color: Rgb888, palette: Palette) -> (r: EpdColor)
        ensures
            r == color_of_rgb(rgb888_channels(color), palette),
            rgb888_channels(color).in_range(),
    {
        let (max_r, max_g, max_b) = rgb888_maxima();
        from_rgb(
            Channels { r: color.r(), g: color.g(), b: color.b(), max_r, max_g, max_b },
            palette,
        )
    }
}

impl From<Rgb555> for EpdColor {
    /// The colour that stands for `color` on a panel with red.
    fn from(color: Rgb555) -> (r: EpdColor) {
        EpdColor::from_rgb555(color, Palette::BlackWhiteRed)
    }
}

impl FromSpecImpl<Rgb555> for EpdColor {
    open spec fn obeys_from_spec() -> bool {
        true
    }

    open spec fn from_spec(color: Rgb555) -> EpdColor {
        color_of_rgb(rgb555_channels(color), Palette::BlackWhiteRed)
    }
}

impl From<Rgb565> for EpdColor {
    /// The colour that stands for `color` on a panel with red.
    fn from(color: Rgb565) -> (r: EpdColor) {
        EpdColor::from_rgb565(color, Palette::BlackWhiteRed)
    }
}

impl FromSpecImpl<Rgb565> for EpdColor {
    open spec fn obeys_from_spec() -> bool {
        true
    }

    open spec fn from_spec(color: Rgb565) -> EpdColor {
        color_of_rgb(rgb565_channels(color), Palette::BlackWhiteRed)
    }
}

impl From<Rgb888> for EpdColor {
    /// The colour that stands for `color` on a panel with red.
    fn from(color: Rgb888) -> (r: EpdColor) {
        EpdColor::from_rgb888(color, Palette::BlackWhiteRed)
    }
}

impl FromSpecImpl<Rgb888> for EpdColor {
    open spec fn obeys_from_spec() -> bool {
        true
    }

    open spec fn from_spec(color: Rgb888) -> EpdColor {
        color_of_rgb(rgb888_channels(color), Palette::BlackWhiteRed)
    }
}

/// A colour that a panel without red can show.
#[derive(Debug, Clone, Copy, PartialEq, Eq, Structural)]
pub enum BwColor {
    Black,
    White,
}

impl BwColor {
    /// The same colour among those of any panel.
    pub open spec fn widened(self) -> EpdColor {
        match self {
            BwColor::Black => EpdColor::Black,
            BwColor::White => EpdColor::White,
        }
    }

    /// The colour's bit in the black and white plane: clear for black alone.
    pub fn black_bit(&self) -> (r: u8)
        ensures
            r == self.widened().spec_black_bit(),
    {
        match self {
            BwColor::Black => 0b0,
            BwColor::White => 0b1,
        }
    }

    fn narrowed(color: EpdColor) -> (r: BwColor)
        requires
            color != EpdColor::Red,
        ensures
            r.widened() == color,
    {
        match color {
            EpdColor::Black => BwColor::Black,
            _ => BwColor::White,
        }
    }
}

impl From<BwColor> for EpdColor {
    fn from(color: BwColor) -> (r: EpdColor) {
        match color {
            BwColor::Black => EpdColor::Black,
            BwColor::White => EpdColor::White,
        }
    }
}

impl FromSpecImpl<BwColor> for EpdColor {
    open spec fn obeys_from_spec() -> bool {
        true
    }

    open spec fn from_spec(color: BwColor) -> EpdColor {
        color.widened()
    }
}

impl From<u8> for BwColor {
    /// The colour that `value` stands for on a panel without red.
    fn from(value: u8) -> (r: BwColor) {
        BwColor::narrowed(EpdColor::from_bits(value, Palette::BlackWhite))
    }
}

impl FromSpecImpl<u8> for BwColor {
    open spec fn obeys_from_spec() -> bool {
        true
    }

    open spec fn from_spec(value: u8) -> BwColor {
        if value == 0 { BwColor::Black } else { BwColor::White }
    }
}

impl From<Rgb555> for BwColor {
    /// The colour that stands for `color` on a panel without red.
    fn from(color: Rgb555) -> (r: BwColor) {
        BwColor::narrowed(EpdColor::from_rgb555(color, Palette::BlackWhite))
    }
}

impl FromSpecImpl<Rgb555> for BwColor {
    open spec fn obeys_from_spec() -> bool {
        true
    }

    open spec fn from_spec(color: Rgb555) -> BwColor {
        if rgb555_channels(color).luma() < 128 { BwColor::Black } else { BwColor::White }
    }
}

impl From<Rgb565> for BwColor {
    /// The colour that stands for `color` on a panel without red.
    fn from(color: Rgb565) -> (r: BwColor) {
        BwColor::narrowed(EpdColor::from_rgb565(color, Palette::BlackWhite))
    }
}

impl FromSpecImpl<Rgb565> for BwColor {
    open spec fn obeys_from_spec() -> bool {
        true
    }

    open spec fn from_spec(color: Rgb565) -> BwColor {
        if rgb565_channels(color).luma() < 128 { BwColor::Black } else { BwColor::White }
    }
}

impl From<Rgb888> for BwColor {
    /// The colour that stands for `color` on a panel without red.
    fn from(color: Rgb888) -> (r: BwColor) {
        BwColor::narrowed(EpdColor::from_rgb888(color, Palette::BlackWhite))
    }
}

impl FromSpecImpl<Rgb888> for BwColor {
    open spec fn obeys_from_spec() -> bool {
        true
    }

    open spec fn from_spec(color: Rgb888) -> BwColor {
        if rgb888_channels(color).luma() < 128 { BwColor::Black } else { BwColor::White }
    }
}

} // verus!
