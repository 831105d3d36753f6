//! What drawing, deciding and reducing colours come to, in numbers: laws over the pixels,
//! bytes and channels alone.
use crate::color;
use crate::color::{BwColor, Channels, EpdColor, Palette};
use crate::config::{ConfigView, Rotation};
use crate::laws;
use crate::model;
use crate::model::{GraphicsView, Pixel, Refresh};
use crate::tools;
use crate::tools::DirtyRect;
use embedded_graphics_core::pixelcolor::{Rgb555, Rgb565, Rgb888};
use vstd::prelude::*;
use vstd::std_specs::convert::FromSpec;

verus! {

/// Whether something was drawn in byte `i` since the last update.
pub open spec fn is_drawn(g: GraphicsView, i: int) -> bool {
    0 <= i < g.dirty.len() && g.dirty[i] != 0
}

/// The byte column of byte `i` of a frame buffer.
pub open spec fn col_of(g: GraphicsView, i: int) -> int {
    i % (g.config.width as int / 8)
}

/// The row of byte `i` of a frame buffer.
pub open spec fn line_of(g: GraphicsView, i: int) -> int {
    i / (g.config.width as int / 8)
}

/// Whether the panel has columns, and what was drawn lies in byte columns 0 to 255 and
/// rows 0 to 65535.
pub open spec fn is_countable(g: GraphicsView) -> bool {
    &&& g.config.width >= 8
    &&& forall|i: int| #[trigger] is_drawn(g, i) ==> col_of(g, i) <= 255 && line_of(g, i) <= 65535
}

/// Whether what was drawn spans more than half of the panel's byte columns: the distance
/// of two of its bytes, eight pixels each, is more than half of the width.
pub open spec fn is_wide(g: GraphicsView) -> bool {
    exists|i: int, j: int| #[trigger]
        is_drawn(g, i) && #[trigger] is_drawn(g, j) && 16 * (col_of(g, i) - col_of(g, j)) > g.config.width
}

/// Whether what was drawn spans more than half of the panel's rows.
pub open spec fn is_high(g: GraphicsView) -> bool {
    exists|i: int, j: int| #[trigger]
        is_drawn(g, i) && #[trigger] is_drawn(g, j) && 2 * (line_of(g, i) - line_of(g, j)) > g.config.height
}

proof fn lemma_area(g: GraphicsView)
    requires
        is_countable(g),
    ensures
        tools::is_dirty_area(
            g.dirty,
            g.config.width as int / 8,
            tools::dirty_area(g.dirty, g.config.width as int / 8),
        ),
        forall|i: int| #[trigger] tools::marked(g.dirty, i) <==> is_drawn(g, i),
{
    let row = g.config.width as int / 8;
    assert forall|i: int| #[trigger] tools::marked(g.dirty, i) implies tools::has_cell(i, row) by {
        assert(is_drawn(g, i));
        assert(i % row >= 0 && i / row >= 0) by (nonlinear_arith)
            requires
                i >= 0,
                row >= 1,
        ;
    }
    tools::lemma_dirty_area_exists(g.dirty, row);
}

/// After the first update, nothing is due while nothing is drawn. What spans more than
/// half of the panel both in width and in height gets a fast refresh, or a full one after
/// a hundred fast ones; anything else that is drawn gets a partial one.
pub proof fn law_span_decides_refresh(g: GraphicsView)
    requires
        g.update_count > 0,
        is_countable(g),
        g.config.width < 4096,
    ensures
        g.due() is None <==> forall|i: int| !#[trigger] is_drawn(g, i),
        is_wide(g) && is_high(g) && g.fast_count < 100 <==> g.due() == Some(Refresh::Fast),
        is_wide(g) && is_high(g) && g.fast_count >= 100 <==> g.due() == Some(Refresh::Normal),
        (exists|i: int| #[trigger] is_drawn(g, i)) && !(is_wide(g) && is_high(g)) <==> (g.due() matches Some(
            Refresh::Part(_),
        )),
{
    lemma_area(g);
    let row = g.config.width as int / 8;
    if let Some(rect) = tools::dirty_area(g.dirty, row) {
        let left = choose|i: int| #[trigger] tools::marked(g.dirty, i) && i % row == rect.min_byte_col;
        let right = choose|i: int| #[trigger] tools::marked(g.dirty, i) && i % row == rect.max_byte_col;
        let top = choose|i: int| #[trigger] tools::marked(g.dirty, i) && i / row == rect.min_y;
        let bottom = choose|i: int| #[trigger] tools::marked(g.dirty, i) && i / row == rect.max_y;
        assert(is_drawn(g, left) && is_drawn(g, right) && is_drawn(g, top) && is_drawn(g, bottom));
        assert(is_wide(g) <==> 16 * (rect.max_byte_col - rect.min_byte_col) > g.config.width) by {
            if is_wide(g) {
                let (i, j) = choose|i: int, j: int| #[trigger]
                    is_drawn(g, i) && #[trigger] is_drawn(g, j) && 16 * (col_of(g, i) - col_of(g, j))
                        > g.config.width;
                assert(tools::marked(g.dirty, i) && tools::marked(g.dirty, j));
            }
        }
        assert(is_high(g) <==> 2 * (rect.max_y - rect.min_y) > g.config.height) by {
            if is_high(g) {
                let (i, j) = choose|i: int, j: int| #[trigger]
                    is_drawn(g, i) && #[trigger] is_drawn(g, j) && 2 * (line_of(g, i) - line_of(g, j))
                        > g.config.height;
                assert(tools::marked(g.dirty, i) && tools::marked(g.dirty, j));
            }
        }
    } else {
        assert forall|i: int| !#[trigger] is_drawn(g, i) by {
            assert(!tools::marked(g.dirty, i));
        }
    }
}

/// Once every byte of a frame of at least three byte columns and three rows was drawn in,
/// the refresh that is due is not a partial one.
pub proof fn law_whole_screen_is_not_refreshed_in_part(g: GraphicsView)
    requires
        g.update_count > 0,
        g.config.width % 8 == 0,
        24 <= g.config.width <= 2048,
        g.config.height >= 3,
        g.dirty.len() == (g.config.width as int / 8) * g.config.height,
        forall|i: int| 0 <= i < g.dirty.len() ==> #[trigger] g.dirty[i] != 0,
    ensures
        g.due() == Some(Refresh::Fast) || g.due() == Some(Refresh::Normal),
{
    let row = g.config.width as int / 8;
    let height = g.config.height as int;
    assert forall|i: int| #[trigger] is_drawn(g, i) implies col_of(g, i) <= 255 && line_of(g, i) <= 65535 by {
        assert(0 <= i % row < row && i / row < height) by (nonlinear_arith)
            requires
                0 <= i < row * height,
                row >= 1,
        ;
    }
    let (first, right, below): (int, int, int) = (0, row - 1, (height - 1) * row);
    assert(0 <= (height - 1) * row < row * height && row - 1 < row * height) by (nonlinear_arith)
        requires
            row >= 1,
            height >= 1,
    ;
    assert(((height - 1) * row) / row == height - 1 && 0int / row == 0) by (nonlinear_arith)
        requires
            row >= 1,
    ;
    assert((row - 1) % row == row - 1 && 0int % row == 0) by (nonlinear_arith)
        requires
            row >= 1,
    ;
    assert(is_drawn(g, first) && is_drawn(g, right) && is_drawn(g, below));
    law_span_decides_refresh(g);
}

/// The rectangle of a partial refresh holds everything that was drawn, and lies in every
/// other rectangle of whole bytes that does.
pub proof fn law_part_is_the_smallest_rectangle(
    g: GraphicsView,
    rect: DirtyRect,
    min_col: int,
    max_col: int,
    min_y: int,
    max_y: int,
)
    requires
        g.update_count > 0,
        is_countable(g),
        g.due() == Some(Refresh::Part(rect)),
    ensures
        forall|i: int| #[trigger]
            is_drawn(g, i) ==> rect.min_byte_col <= col_of(g, i) <= rect.max_byte_col && rect.min_y <= line_of(
                g,
                i,
            ) <= rect.max_y,
        (forall|i: int| #[trigger]
            is_drawn(g, i) ==> min_col <= col_of(g, i) <= max_col && min_y <= line_of(g, i) <= max_y) ==> min_col
            <= rect.min_byte_col && rect.max_byte_col <= max_col && min_y <= rect.min_y && rect.max_y <= max_y,
{
    lemma_area(g);
    let row = g.config.width as int / 8;
    assert forall|i: int| #[trigger] is_drawn(g, i) implies rect.contains(col_of(g, i), line_of(g, i)) by {
        assert(tools::marked(g.dirty, i));
    }
    let left = choose|i: int| #[trigger] tools::marked(g.dirty, i) && i % row == rect.min_byte_col;
    let right = choose|i: int| #[trigger] tools::marked(g.dirty, i) && i % row == rect.max_byte_col;
    let top = choose|i: int| #[trigger] tools::marked(g.dirty, i) && i / row == rect.min_y;
    let bottom = choose|i: int| #[trigger] tools::marked(g.dirty, i) && i / row == rect.max_y;
    assert(is_drawn(g, left) && is_drawn(g, right) && is_drawn(g, top) && is_drawn(g, bottom));
}

/// The area that is worked out for a buffer is the smallest rectangle of whole bytes
/// around its nonzero bytes, and there is none if all are zero.
pub proof fn law_dirty_area_is_the_smallest_rectangle(
    bytes: Seq<u8>,
    row: int,
    area: Option<DirtyRect>,
    min_col: int,
    max_col: int,
    min_y: int,
    max_y: int,
)
    requires
        tools::is_dirty_area(bytes, row, area),
    ensures
        area is None <==> forall|i: int| 0 <= i < bytes.len() ==> #[trigger] bytes[i] == 0,
        area matches Some(rect) ==> {
            &&& forall|i: int|
                0 <= i < bytes.len() && #[trigger] bytes[i] != 0 ==> rect.min_byte_col <= i % row
                    <= rect.max_byte_col && rect.min_y <= i / row <= rect.max_y
            &&& (forall|i: int|
                0 <= i < bytes.len() && #[trigger] bytes[i] != 0 ==> min_col <= i % row <= max_col && min_y <= i
                    / row <= max_y) ==> min_col <= rect.min_byte_col && rect.max_byte_col <= max_col && min_y
                <= rect.min_y && rect.max_y <= max_y
        },
{
    assert forall|i: int| 0 <= i < bytes.len() && #[trigger] bytes[i] != 0 implies tools::marked(bytes, i) by {}
    if let Some(rect) = area {
        let left = choose|i: int| #[trigger] tools::marked(bytes, i) && i % row == rect.min_byte_col;
        let right = choose|i: int| #[trigger] tools::marked(bytes, i) && i % row == rect.max_byte_col;
        let top = choose|i: int| #[trigger] tools::marked(bytes, i) && i / row == rect.min_y;
        let bottom = choose|i: int| #[trigger] tools::marked(bytes, i) && i / row == rect.max_y;
        assert(bytes[left] != 0 && bytes[right] != 0 && bytes[top] != 0 && bytes[bottom] != 0);
    } else {
        assert forall|i: int| 0 <= i < bytes.len() implies #[trigger] bytes[i] == 0 by {
            assert(!tools::marked(bytes, i));
        }
    }
}

/// An update that succeeds counts as one, and a full one that is not the first as the
/// second. It leaves every byte of the dirty buffer zero, counts fast refreshes one by one
/// and forgets them with a full one, and keeps panel and planes. Until it has succeeded,
/// it changes none of that but the count of a full one.
pub proof fn law_update_in_numbers(g: GraphicsView)
    requires
        g.wf(),
        g.can_update(),
        g.due() is Some,
    ensures
        g.updated().update_count == (if g.due() == Some(Refresh::Normal) && g.update_count > 0 {
            2
        } else {
            g.update_count + 1
        }),
        g.updated().fast_count == (match g.due() {
            Some(Refresh::Normal) => 0,
            Some(Refresh::Fast) => g.fast_count + 1,
            _ => g.fast_count as int,
        }),
        g.updated().dirty.len() == g.dirty.len(),
        forall|i: int| 0 <= i < g.dirty.len() ==> #[trigger] g.updated().dirty[i] == 0,
        g.updated().black == g.black,
        g.updated().red == g.red,
        g.updated().config == g.config,
        g.begun().dirty == g.dirty,
        g.begun().black == g.black,
        g.begun().red == g.red,
        g.begun().config == g.config,
        g.begun().fast_count == g.fast_count,
        g.begun().due() == g.due(),
{
}

/// Whether something wide and high enough for more than a partial refresh was drawn.
pub open spec fn is_large_drawing(g: GraphicsView) -> bool {
    is_countable(g) && g.config.width < 4096 && is_wide(g) && is_high(g)
}

/// From a full refresh on, if something large is drawn before every update and all of them
/// succeed, a hundred refreshes are fast, and the next is full. `states` are the states
/// before the updates, each made from the one before by an update and some drawing.
pub proof fn law_hundred_fast_refreshes_and_a_full_one(states: Seq<GraphicsView>)
    requires
        states.len() == 101,
        states[0].fast_count == 0,
        1 <= states[0].update_count <= usize::MAX - 100,
        forall|k: int| 0 <= k < 101 ==> is_large_drawing(#[trigger] states[k]),
        forall|k: int| 0 <= k < 100 ==> #[trigger] laws::is_redrawn_next(states, k),
    ensures
        forall|k: int| 0 <= k < 100 ==> (#[trigger] states[k]).due() == Some(Refresh::Fast),
        states[100].due() == Some(Refresh::Normal),
        states[100].updated().fast_count == 0,
        states[100].updated().update_count >= 1,
{
    assert forall|k: int| 0 <= k < 100 implies (#[trigger] states[k]).due() == Some(Refresh::Fast) by {
        lemma_fast_refreshes_counted(states, k);
        law_span_decides_refresh(states[k]);
    }
    lemma_fast_refreshes_counted(states, 100);
    law_span_decides_refresh(states[100]);
}

proof fn lemma_fast_refreshes_counted(states: Seq<GraphicsView>, k: int)
    requires
        states.len() == 101,
        states[0].fast_count == 0,
        1 <= states[0].update_count <= usize::MAX - 100,
        forall|k: int| 0 <= k < 101 ==> is_large_drawing(#[trigger] states[k]),
        forall|k: int| 0 <= k < 100 ==> #[trigger] laws::is_redrawn_next(states, k),
        0 <= k <= 100,
    ensures
        states[k].fast_count == k,
        states[k].update_count == states[0].update_count + k,
        is_large_drawing(states[k]),
    decreases k,
{
    assert(is_large_drawing(states[k]));
    if k > 0 {
        lemma_fast_refreshes_counted(states, k - 1);
        let before = states[k - 1];
        law_span_decides_refresh(before);
        assert(laws::is_redrawn_next(states, k - 1));
        let pixels = choose|pixels: Seq<Pixel>| #[trigger]
            before.updated().can_draw(pixels) && states[k] == before.updated().with_pixels(pixels);
        model::lemma_drawing_keeps_shape(before.updated(), pixels);
    }
}

/// Number of a point's bit, counted through the rows of the panel from its upper left
/// corner.
pub open spec fn bit_number(x: int, y: int, width: int, height: int, rotation: Rotation) -> int {
    match rotation {
        Rotation::Rotate0 => y * width + x,
        Rotation::Rotate90 => x * width + (width - 1 - y),
        Rotation::Rotate180 => (height - 1 - y) * width + (width - 1 - x),
        Rotation::Rotate270 => (height - 1 - x) * width + y,
    }
}

/// Every point of the drawing surface has the bit of its pixel on the panel, eight to a
/// byte from the most significant on. `k` is the bit's place in its byte.
pub proof fn law_point_has_the_bit_of_its_pixel(g: GraphicsView, x: u32, y: u32) -> (k: int)
    requires
        g.config.width % 8 == 0,
        match g.config.rotation {
            Rotation::Rotate0 | Rotation::Rotate180 => x < g.config.width && y < g.config.height,
            Rotation::Rotate90 | Rotation::Rotate270 => x < g.config.height && y < g.config.width,
        },
    ensures
        0 <= k < 8,
        g.bit_mask(x, y) == 0x80u8 >> (k as u8),
        8 * g.byte_index(x, y) + k == bit_number(
            x as int,
            y as int,
            g.config.width as int,
            g.config.height as int,
            g.config.rotation,
        ),
        g.on_surface(x, y),
{
    let (width, height) = (g.config.width as int, g.config.height as int);
    let (column, row) = tools::panel_position(x as int, y as int, width, height, g.config.rotation);
    assert(8 * (row * (width / 8)) == row * width) by (nonlinear_arith)
        requires
            width % 8 == 0,
    ;
    column % 8
}

/// Points off the drawing surface are not on it, and the surface is as wide and high as
/// the panel, or the other way round where it is turned by a quarter.
pub proof fn law_surface_in_numbers(g: GraphicsView, x: u32, y: u32)
    ensures
        g.on_surface(x, y) <==> match g.config.rotation {
            Rotation::Rotate0 | Rotation::Rotate180 => x < g.config.width && y < g.config.height,
            Rotation::Rotate90 | Rotation::Rotate270 => x < g.config.height && y < g.config.width,
        },
        g.config.rotation == Rotation::Rotate0 || g.config.rotation == Rotation::Rotate180 ==> g.size().width
            == g.config.width && g.size().height == g.config.height,
        g.config.rotation == Rotation::Rotate90 || g.config.rotation == Rotation::Rotate270 ==> g.size().width
            == g.config.height && g.size().height == g.config.width,
{
}

/// Whether `after` is `before` with some of the bits `bit` of byte `i` changed, to set if
/// `set` and to clear if not.
pub open spec fn is_one_bit_apart(before: Seq<u8>, after: Seq<u8>, i: int, bit: u8, set: bool) -> bool {
    &&& after.len() == before.len()
    &&& forall|j: int| 0 <= j < before.len() && j != i ==> #[trigger] after[j] == before[j]
    &&& after[i] & !bit == before[i] & !bit
    &&& after[i] & bit == (if set { bit } else { 0 })
}

/// Drawing a point sets its bit in the dirty buffer. In the black and white plane it clears
/// the bit for black and sets it for white and red, in the red plane it sets it for red and
/// clears it for black and white. No other bit of any buffer changes, nor the panel, nor
/// what is counted.
pub proof fn law_drawing_changes_one_bit(g: GraphicsView, x: u32, y: u32, color: EpdColor)
    requires
        g.holds(x, y),
    ensures
        ({
            let after = g.with_pixel(x, y, color);
            let (i, bit) = (g.byte_index(x, y), g.bit_mask(x, y));
            &&& is_one_bit_apart(g.dirty, after.dirty, i, bit, true)
            &&& is_one_bit_apart(g.black, after.black, i, bit, color != EpdColor::Black)
            &&& after.red is Some <==> g.red is Some
            &&& g.red is Some ==> is_one_bit_apart(g.red->0, after.red->0, i, bit, color == EpdColor::Red)
            &&& after.config == g.config
            &&& after.update_count == g.update_count
            &&& after.fast_count == g.fast_count
        }),
{
    let (i, bit) = (g.byte_index(x, y), g.bit_mask(x, y));
    lemma_bits(g.dirty[i], bit);
    lemma_bits(g.black[i], bit);
    if let Some(red) = g.red {
        lemma_bits(red[i], bit);
    }
}

proof fn lemma_bits(byte: u8, bit: u8)
    ensures
        (byte | bit) & !bit == byte & !bit,
        (byte | bit) & bit == bit,
        (byte & !bit) & !bit == byte & !bit,
        (byte & !bit) & bit == 0,
{
    assert((byte | bit) & !bit == byte & !bit) by (bit_vector);
    assert((byte | bit) & bit == bit) by (bit_vector);
    assert((byte & !bit) & !bit == byte & !bit) by (bit_vector);
    assert((byte & !bit) & bit == 0) by (bit_vector);
}

/// Drawing two lists of pixels one after the other is drawing them as one list. Drawing
/// one pixel is drawing its point, and drawing none changes nothing.
pub proof fn law_lists_of_pixels_add_up(g: GraphicsView, first: Seq<Pixel>, second: Seq<Pixel>, pixel: Pixel)
    ensures
        g.with_pixels(first + second) == g.with_pixels(first).with_pixels(second),
        g.with_pixels(seq![pixel]) == g.with_pixel(pixel.x as u32, pixel.y as u32, pixel.color),
        g.with_pixels(Seq::empty()) == g,
    decreases second.len(),
{
    reveal_with_fuel(GraphicsView::with_pixels, 2);
    assert(seq![pixel].drop_last() =~= Seq::empty());
    if second.len() == 0 {
        assert(first + second =~= first);
    } else {
        law_lists_of_pixels_add_up(g, first, second.drop_last(), pixel);
        assert((first + second).drop_last() =~= first + second.drop_last());
        assert((first + second).last() == second.last());
    }
}

/// Black and white can be shown on every panel, red on panels with red.
pub proof fn law_shown_colors(g: GraphicsView, color: EpdColor)
    ensures
        g.shows(color) <==> color != EpdColor::Red || g.red is Some,
{
}

/// A panel with red makes of a colour red exactly if its share of red is larger than its
/// share of green and larger than its share of blue; a panel without red never does.
pub proof fn law_red_by_shares(rgb: Channels)
    ensures
        color::color_of_rgb(rgb, Palette::BlackWhiteRed) == EpdColor::Red <==> rgb.r * rgb.max_g > rgb.g
            * rgb.max_r && rgb.r * rgb.max_b > rgb.b * rgb.max_r,
        color::color_of_rgb(rgb, Palette::BlackWhite) != EpdColor::Red,
        color::color_of_rgb(rgb, Palette::BlackWhiteRed) == EpdColor::Red || color::color_of_rgb(
            rgb,
            Palette::BlackWhiteRed,
        ) == color::color_of_rgb(rgb, Palette::BlackWhite),
{
}

/// Whatever the depth of the channels, a colour that is not red becomes white if its
/// weighted shares come to 128 of 255 or more, with an allowance for blue being rounded
/// down, and black if they come to less, with an allowance for the divisor being rounded
/// down.
pub proof fn law_light_by_shares(rgb: Channels)
    requires
        rgb.max_r > 0,
        rgb.max_g > 0,
        rgb.max_b > 0,
    ensures
        ({
            let (max_r, max_g, max_b) = (rgb.max_r as int, rgb.max_g as int, rgb.max_b as int);
            let light = 299 * (rgb.r * (max_g * max_b)) + 587 * (rgb.g * (max_r * max_b)) + 114 * (rgb.b * (
            max_r * max_g));
            let result = color::color_of_rgb(rgb, Palette::BlackWhite);
            &&& 255 * light >= 128000 * (max_r * max_g * max_b) + 255 * 114 * max_b ==> result == EpdColor::White
            &&& 255 * light < 128000 * (max_r * max_g * max_b) - 128 * 255 * max_b ==> result == EpdColor::Black
        }),
{
    let (max_r, max_g, max_b) = (rgb.max_r as int, rgb.max_g as int, rgb.max_b as int);
    let scale = max_r * max_g;
    assert(scale >= 1) by (nonlinear_arith)
        requires
            max_r >= 1,
            max_g >= 1,
            scale == max_r * max_g,
    ;
    let blue = rgb.blue_share();
    let divisor = scale * 1000 / 255;
    let (a, c) = (rgb.r * max_g, rgb.g * max_r);
    let sum = a * 299 + c * 587 + blue * 114;
    let light = 299 * (rgb.r * (max_g * max_b)) + 587 * (rgb.g * (max_r * max_b)) + 114 * (rgb.b * scale);
    assert(blue * max_b <= rgb.b * scale < blue * max_b + max_b) by (nonlinear_arith)
        requires
            blue == (rgb.b * scale) / max_b,
            max_b >= 1,
    ;
    assert(rgb.r * (max_g * max_b) == a * max_b && rgb.g * (max_r * max_b) == c * max_b) by (nonlinear_arith)
        requires
            a == rgb.r * max_g,
            c == rgb.g * max_r,
    ;
    assert(sum * max_b == 299 * (a * max_b) + 587 * (c * max_b) + 114 * (blue * max_b)) by (nonlinear_arith)
        requires
            sum == a * 299 + c * 587 + blue * 114,
    ;
    assert(sum * max_b <= light < sum * max_b + 114 * max_b);
    assert(255 * divisor <= 1000 * scale < 255 * divisor + 255);
    assert(sum >= 0) by (nonlinear_arith)
        requires
            sum == a * 299 + c * 587 + blue * 114,
            a == rgb.r * max_g,
            c == rgb.g * max_r,
            max_g >= 1,
            max_r >= 1,
            rgb.r >= 0,
            rgb.g >= 0,
            blue == (rgb.b * scale) / max_b,
            max_b >= 1,
            rgb.b >= 0,
            scale >= 1,
    ;
    if 255 * light >= 128000 * (scale * max_b) + 255 * 114 * max_b {
        assert(sum >= 128 * divisor) by (nonlinear_arith)
            requires
                255 * light >= 128000 * (scale * max_b) + 255 * 114 * max_b,
                light < sum * max_b + 114 * max_b,
                255 * divisor <= 1000 * scale,
                max_b >= 1,
        ;
        assert(sum / divisor >= 128) by (nonlinear_arith)
            requires
                sum >= 128 * divisor,
                divisor >= 1,
        ;
    }
    if 255 * light < 128000 * (scale * max_b) - 128 * 255 * max_b {
        assert(sum < 128 * divisor) by (nonlinear_arith)
            requires
                255 * light < 128000 * (scale * max_b) - 128 * 255 * max_b,
                sum * max_b <= light,
                1000 * scale < 255 * divisor + 255,
                max_b >= 1,
        ;
        assert(sum / divisor < 128) by (nonlinear_arith)
            requires
                0 <= sum < 128 * divisor,
                divisor >= 1,
        ;
    }
}

/// The same of a colour without a blue channel, of which blue is no part.
pub proof fn law_light_without_blue(rgb: Channels)
    requires
        rgb.max_r > 0,
        rgb.max_g > 0,
        rgb.max_b == 0,
    ensures
        ({
            let light = 299 * (rgb.r * rgb.max_g) + 587 * (rgb.g * rgb.max_r);
            let result = color::color_of_rgb(rgb, Palette::BlackWhite);
            &&& 255 * light >= 128000 * (rgb.max_r * rgb.max_g) ==> result == EpdColor::White
            &&& 255 * light < 128000 * (rgb.max_r * rgb.max_g) - 128 * 255 ==> result == EpdColor::Black
        }),
{
    let scale = rgb.max_r * rgb.max_g;
    assert(scale >= 1) by (nonlinear_arith)
        requires
            rgb.max_r >= 1,
            rgb.max_g >= 1,
            scale == rgb.max_r * rgb.max_g,
    ;
    let divisor = scale * 1000 / 255;
    let light = 299 * (rgb.r * rgb.max_g) + 587 * (rgb.g * rgb.max_r);
    assert(light >= 0) by (nonlinear_arith)
        requires
            light == 299 * (rgb.r * rgb.max_g) + 587 * (rgb.g * rgb.max_r),
    ;
    assert(rgb.luma() == light / divisor);
    assert(light >= 128 * divisor ==> light / divisor >= 128) by (nonlinear_arith)
        requires
            divisor >= 1,
    ;
    assert(light < 128 * divisor ==> light / divisor < 128) by (nonlinear_arith)
        requires
            divisor >= 1,
    ;
}

/// What an `Rgb555` becomes, in numbers.
pub proof fn law_rgb555_in_numbers(rgb: Rgb555)
    ensures
        ({
            let (r, g, b) = (color::rgb555_r(rgb), color::rgb555_g(rgb), color::rgb555_b(rgb));
            let dark = 31 * (299 * r + 587 * g + 114 * b) < 482304;
            &&& EpdColor::from_spec(rgb) == (if r > g && r > b {
                EpdColor::Red
            } else if dark {
                EpdColor::Black
            } else {
                EpdColor::White
            })
            &&& BwColor::from_spec(rgb) == (if dark { BwColor::Black } else { BwColor::White })
        }),
{
    let c = color::rgb555_channels(rgb);
    lemma_luma(c, 31, 31, 31, 31, 3768);
}

/// What an `Rgb565` becomes, in numbers.
pub proof fn law_rgb565_in_numbers(rgb: Rgb565)
    ensures
        ({
            let (r, g, b) = (color::rgb565_r(rgb), color::rgb565_g(rgb), color::rgb565_b(rgb));
            let dark = 63 * (299 * r + 114 * b) + 31 * (587 * g) < 980224;
            &&& EpdColor::from_spec(rgb) == (if 63 * r > 31 * g && r > b {
                EpdColor::Red
            } else if dark {
                EpdColor::Black
            } else {
                EpdColor::White
            })
            &&& BwColor::from_spec(rgb) == (if dark { BwColor::Black } else { BwColor::White })
        }),
{
    let c = color::rgb565_channels(rgb);
    lemma_luma(c, 31, 63, 31, 63, 7658);
}

/// What an `Rgb888` becomes, in numbers.
pub proof fn law_rgb888_in_numbers(rgb: Rgb888)
    ensures
        ({
            let (r, g, b) = (color::rgb888_r(rgb), color::rgb888_g(rgb), color::rgb888_b(rgb));
            let dark = 299 * r + 587 * g + 114 * b < 128000;
            &&& EpdColor::from_spec(rgb) == (if r > g && r > b {
                EpdColor::Red
            } else if dark {
                EpdColor::Black
            } else {
                EpdColor::White
            })
            &&& BwColor::from_spec(rgb) == (if dark { BwColor::Black } else { BwColor::White })
        }),
{
    let c = color::rgb888_channels(rgb);
    lemma_luma(c, 255, 255, 255, 255, 255000);
}

/// The comparison of luma with 128 without a division.
proof fn lemma_luma(c: Channels, max_r: int, max_g: int, max_b: int, step: int, divisor: int)
    requires
        c.max_r == max_r,
        c.max_g == max_g,
        c.max_b == max_b,
        max_r >= 1,
        max_g >= 1,
        max_b >= 1,
        max_r * max_g == max_b * step,
        max_r * max_g * 1000 / 255 == divisor,
        divisor >= 1,
        step >= 1,
    ensures
        c.luma() < 128 <==> c.r * max_g * 299 + c.g * max_r * 587 + c.b * step * 114 < 128 * divisor,
        c.r * c.max_g == c.r * max_g,
        c.g * c.max_r == c.g * max_r,
{
    let scale = max_r * max_g;
    assert(c.b * scale / max_b == c.b * step) by (nonlinear_arith)
        requires
            scale == max_b * step,
            max_b >= 1,
    ;
    assert(c.blue_share() == c.b * step);
    let sum = c.r * max_g * 299 + c.g * max_r * 587 + c.b * step * 114;
    assert(c.luma() == sum / divisor);
    assert(sum / divisor < 128 <==> sum < 128 * divisor) by (nonlinear_arith)
        requires
            divisor >= 1,
    ;
}

/// What a number stands for: 0 is black, 2 and 3 are red on a panel with red, and the rest
/// is white.
pub proof fn law_bits_in_numbers(value: u8)
    ensures
        EpdColor::from_spec(value) == EpdColor::Black <==> value == 0,
        EpdColor::from_spec(value) == EpdColor::Red <==> value == 2 || value == 3,
        BwColor::from_spec(value) == BwColor::Black <==> value == 0,
        forall|palette: Palette|
            #[trigger] color::color_of_bits(value, palette) == EpdColor::Black <==> value == 0,
        color::color_of_bits(value, Palette::BlackWhiteRed) == EpdColor::Red <==> value == 2 || value == 3,
        color::color_of_bits(value, Palette::BlackWhite) != EpdColor::Red,
        EpdColor::Black.spec_black_bit() == 0 && EpdColor::White.spec_black_bit() == 1
            && EpdColor::Red.spec_black_bit() == 1,
        EpdColor::Black.spec_red_bit() == 0 && EpdColor::White.spec_red_bit() == 0
            && EpdColor::Red.spec_red_bit() == 1,
        BwColor::Black.widened() == EpdColor::Black && BwColor::White.widened() == EpdColor::White,
{
}

/// What each way of describing a panel sets, and what it leaves.
pub proof fn law_config_in_numbers(config: ConfigView, rotation: Rotation, width: u16, height: u16, chip_width: u16)
    requires
        2 * chip_width <= u16::MAX,
    ensures
        ({
            let single = ConfigView::single(width, height);
            &&& single.width == width && single.height == height
            &&& single.rotation == Rotation::Rotate0 && single.cascade is None
        }),
        ({
            let turned = config.with_rotation(rotation);
            &&& turned.width == config.width && turned.height == config.height
            &&& turned.rotation == rotation && turned.cascade == config.cascade
        }),
        ({
            let wide = config.with_cascade(chip_width);
            &&& wide.width == 2 * chip_width && wide.height == config.height
            &&& wide.rotation == config.rotation && wide.cascade == Some(chip_width)
        }),
{
}

} // verus!
