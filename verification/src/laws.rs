//! What holds of the library as a whole.
use crate::color;
use crate::color::{BwColor, Channels, EpdColor, Palette};
use crate::command::{Chip, Command, DataEntryMode, IncrementAxis};
use crate::config::{ConfigView, Rotation};
use crate::model;
use crate::model::{GraphicsView, Pixel, Refresh, MAX_FAST_UPDATE_TIME};
use crate::script::Effect;
use crate::tools;
use crate::tools::DirtyRect;
use embedded_graphics_core::pixelcolor::{Rgb555, Rgb565, Rgb888};
use vstd::prelude::*;
use vstd::std_specs::convert::FromSpec;

verus! {

/// Every point of the drawing surface has its bit within the first `buffer_size`
/// bytes of a frame buffer.
pub proof fn law_surface_fits_buffer(g: GraphicsView, x: u32, y: u32)
    requires
        g.wf(),
        g.on_surface(x, y),
    ensures
        0 <= g.byte_index(x, y) < g.width() * g.height() / 8,
        tools::has_byte_index(x as int, y as int, g.width(), g.height(), g.config.rotation),
        g.sized() ==> g.holds(x, y),
{
    let (column, row) = tools::panel_position(x as int, y as int, g.width(), g.height(), g.config.rotation);
    let bytes = g.row();
    let height = g.height();
    assert(0 <= column < g.width() && 0 <= row < height);
    assert(0 <= row * bytes <= (height - 1) * bytes && (height - 1) * bytes + bytes == bytes * height && bytes
        * height <= 8191 * 65535) by (nonlinear_arith)
        requires
            0 <= row <= height - 1,
            0 <= bytes <= 8191,
            height <= 65535,
    ;
    assert(g.width() * height == 8 * (bytes * height)) by (nonlinear_arith)
        requires
            g.width() == 8 * bytes,
    ;
}

/// Two points of the drawing surface never share a bit.
pub proof fn law_points_are_separate(g: GraphicsView, x1: u32, y1: u32, x2: u32, y2: u32)
    requires
        g.wf(),
        g.on_surface(x1, y1),
        g.on_surface(x2, y2),
        x1 != x2 || y1 != y2,
    ensures
        g.byte_index(x1, y1) != g.byte_index(x2, y2) || g.bit_mask(x1, y1) & g.bit_mask(x2, y2) == 0,
{
    let (column1, row1) = tools::panel_position(x1 as int, y1 as int, g.width(), g.height(), g.config.rotation);
    let (column2, row2) = tools::panel_position(x2 as int, y2 as int, g.width(), g.height(), g.config.rotation);
    if g.byte_index(x1, y1) == g.byte_index(x2, y2) {
        lemma_cell_unique(g.row(), row1, column1 / 8, row2, column2 / 8);
        lemma_masks_are_separate(column1, column2);
    }
}

/// Every bit of the first `buffer_size` bytes of a frame buffer belongs to a point of
/// the drawing surface.
pub proof fn law_every_bit_is_a_point(g: GraphicsView, i: int, k: int) -> (point: (u32, u32))
    requires
        g.wf(),
        0 <= i < g.width() * g.height() / 8,
        0 <= k < 8,
    ensures
        g.on_surface(point.0, point.1),
        g.byte_index(point.0, point.1) == i,
        g.bit_mask(point.0, point.1) == 0x80u8 >> (k as u8),
{
    let bytes = g.row();
    let (width, height) = (g.width(), g.height());
    assert(width * height == 8 * (bytes * height)) by (nonlinear_arith)
        requires
            width == 8 * bytes,
    ;
    assert(bytes > 0) by (nonlinear_arith)
        requires
            0 <= i < bytes * height,
            bytes >= 0,
    ;
    let row = i / bytes;
    let column = 8 * (i % bytes) + k;
    assert(0 <= row < height && row * bytes + i % bytes == i && 0 <= i % bytes < bytes) by (nonlinear_arith)
        requires
            row == i / bytes,
            bytes > 0,
            0 <= i < bytes * height,
    ;
    assert(column / 8 == i % bytes && column % 8 == k);
    match g.config.rotation {
        Rotation::Rotate0 => (column as u32, row as u32),
        Rotation::Rotate90 => (row as u32, (width - 1 - column) as u32),
        Rotation::Rotate180 => ((width - 1 - column) as u32, (height - 1 - row) as u32),
        Rotation::Rotate270 => ((height - 1 - row) as u32, column as u32),
    }
}

proof fn lemma_cell_unique(n: int, a: int, b: int, c: int, d: int)
    requires
        a * n + b == c * n + d,
        0 <= b < n,
        0 <= d < n,
    ensures
        a == c,
        b == d,
{
    assert(a == c) by (nonlinear_arith)
        requires
            a * n + b == c * n + d,
            0 <= b < n,
            0 <= d < n,
    ;
}

proof fn lemma_masks_are_separate(column1: int, column2: int)
    ensures
        column1 % 8 != column2 % 8 ==> tools::column_mask(column1) & tools::column_mask(column2) == 0,
        tools::column_mask(column1) != 0,
{
    let p: u8 = (column1 % 8) as u8;
    let q: u8 = (column2 % 8) as u8;
    assert(p != q ==> (0x80u8 >> p) & (0x80u8 >> q) == 0) by (bit_vector)
        requires
            p < 8,
            q < 8,
    ;
    assert(0x80u8 >> p != 0) by (bit_vector)
        requires
            p < 8,
    ;
}

/// Whether the planes hold the bits of `color` at the point `(x, y)`.
pub open spec fn has_bits_of(g: GraphicsView, x: u32, y: u32, color: EpdColor) -> bool {
    &&& g.bit_at(g.black, x, y) <==> color.spec_black_bit() == 1
    &&& g.red matches Some(red) ==> (g.bit_at(red, x, y) <==> color.spec_red_bit() == 1)
}

/// Whether the planes and the marks hold the same bits in `a` and `b` at the point
/// `(x, y)`.
pub open spec fn has_same_bits(a: GraphicsView, b: GraphicsView, x: u32, y: u32) -> bool {
    &&& a.is_marked(x, y) == b.is_marked(x, y)
    &&& a.bit_at(a.black, x, y) == b.bit_at(b.black, x, y)
    &&& a.red is Some <==> b.red is Some
    &&& a.red is Some ==> a.bit_at(a.red->0, x, y) == b.bit_at(b.red->0, x, y)
}

/// A point that was drawn has the colour it was drawn in, in every plane, and is marked.
pub proof fn law_drawn_pixel_reads_back(g: GraphicsView, x: u32, y: u32, color: EpdColor)
    requires
        g.holds(x, y),
        g.shows(color),
    ensures
        g.with_pixel(x, y, color).color_at(x, y) == color,
        has_bits_of(g.with_pixel(x, y, color), x, y, color),
        g.with_pixel(x, y, color).is_marked(x, y),
{
    let i = g.byte_index(x, y);
    let bit = g.bit_mask(x, y);
    let column = tools::panel_position(x as int, y as int, g.width(), g.height(), g.config.rotation).0;
    lemma_masks_are_separate(column, column);
    lemma_bit_reads_back(g.dirty[i], bit);
    lemma_bit_reads_back(g.black[i], bit);
    if let Some(red) = g.red {
        lemma_bit_reads_back(red[i], bit);
    }
}

/// Drawing a point leaves every bit of all others as it was, and so their colours.
pub proof fn law_other_pixels_stay(g: GraphicsView, x: u32, y: u32, color: EpdColor, other_x: u32, other_y: u32)
    requires
        g.wf(),
        g.holds(x, y),
        g.holds(other_x, other_y),
        g.on_surface(x, y),
        g.on_surface(other_x, other_y),
        x != other_x || y != other_y,
    ensures
        g.with_pixel(x, y, color).color_at(other_x, other_y) == g.color_at(other_x, other_y),
        has_same_bits(g.with_pixel(x, y, color), g, other_x, other_y),
{
    law_points_are_separate(g, x, y, other_x, other_y);
    let i = g.byte_index(x, y);
    let bit = g.bit_mask(x, y);
    let other = g.bit_mask(other_x, other_y);
    if i == g.byte_index(other_x, other_y) {
        lemma_other_bit_stays(g.dirty[i], bit, other);
        lemma_other_bit_stays(g.black[i], bit, other);
        if let Some(red) = g.red {
            lemma_other_bit_stays(red[i], bit, other);
        }
    }
}

proof fn lemma_bit_reads_back(byte: u8, bit: u8)
    requires
        bit != 0,
    ensures
        (byte | bit) & bit != 0,
        (byte & !bit) & bit == 0,
{
    assert((byte | bit) & bit != 0) by (bit_vector)
        requires
            bit != 0,
    ;
    assert((byte & !bit) & bit == 0) by (bit_vector);
}

proof fn lemma_other_bit_stays(byte: u8, bit: u8, other: u8)
    requires
        bit & other == 0,
    ensures
        (byte | bit) & other == byte & other,
        (byte & !bit) & other == byte & other,
{
    assert((byte | bit) & other == byte & other) by (bit_vector)
        requires
            bit & other == 0,
    ;
    assert((byte & !bit) & other == byte & other) by (bit_vector)
        requires
            bit & other == 0,
    ;
}

/// Whether `pixel` is the point `(x, y)`.
pub open spec fn is_at(pixel: Pixel, x: u32, y: u32) -> bool {
    pixel.x as u32 == x && pixel.y as u32 == y
}

/// After drawing a list of pixels, a point has the colour of the last pixel in the
/// list that is that point, in every plane, and is marked.
pub proof fn law_last_pixel_wins(g: GraphicsView, pixels: Seq<Pixel>, i: int, x: u32, y: u32)
    requires
        g.wf(),
        g.can_draw(pixels),
        forall|j: int|
            0 <= j < pixels.len() ==> g.on_surface((#[trigger] pixels[j]).x as u32, pixels[j].y as u32),
        0 <= i < pixels.len(),
        is_at(pixels[i], x, y),
        forall|j: int| i < j < pixels.len() ==> !is_at(#[trigger] pixels[j], x, y),
    ensures
        g.with_pixels(pixels).color_at(x, y) == pixels[i].color,
        has_bits_of(g.with_pixels(pixels), x, y, pixels[i].color),
        g.with_pixels(pixels).is_marked(x, y),
    decreases pixels.len(),
{
    let rest = pixels.drop_last();
    let last = pixels.last();
    lemma_can_draw_fewer(g, pixels);
    model::lemma_drawing_keeps_shape(g, rest);
    let before = g.with_pixels(rest);
    assert(g.can_draw_pixel(last));
    assert(g.can_draw_pixel(pixels[i]));
    assert(g.on_surface(pixels[i].x as u32, pixels[i].y as u32));
    assert(g.on_surface(last.x as u32, last.y as u32));
    if i == pixels.len() - 1 {
        law_drawn_pixel_reads_back(before, x, y, last.color);
    } else {
        assert(rest[i] == pixels[i]);
        assert forall|j: int| i < j < rest.len() implies !is_at(#[trigger] rest[j], x, y) by {
            assert(!is_at(pixels[j], x, y));
        }
        assert forall|j: int| 0 <= j < rest.len() implies g.on_surface(
            (#[trigger] rest[j]).x as u32,
            rest[j].y as u32,
        ) by {
            assert(rest[j] == pixels[j]);
        }
        law_last_pixel_wins(g, rest, i, x, y);
        assert(!is_at(last, x, y));
        law_other_pixels_stay(before, last.x as u32, last.y as u32, last.color, x, y);
    }
}

/// Drawing a list of pixels leaves every bit of a point that is not in the list as it
/// was, and so its colour.
pub proof fn law_undrawn_pixels_stay(g: GraphicsView, pixels: Seq<Pixel>, x: u32, y: u32)
    requires
        g.wf(),
        g.can_draw(pixels),
        forall|j: int|
            0 <= j < pixels.len() ==> g.on_surface((#[trigger] pixels[j]).x as u32, pixels[j].y as u32),
        g.on_surface(x, y),
        g.holds(x, y),
        forall|j: int| 0 <= j < pixels.len() ==> !is_at(#[trigger] pixels[j], x, y),
    ensures
        g.with_pixels(pixels).color_at(x, y) == g.color_at(x, y),
        has_same_bits(g.with_pixels(pixels), g, x, y),
    decreases pixels.len(),
{
    if pixels.len() > 0 {
        let rest = pixels.drop_last();
        let last = pixels.last();
        lemma_can_draw_fewer(g, pixels);
        model::lemma_drawing_keeps_shape(g, rest);
        let before = g.with_pixels(rest);
        assert(g.can_draw_pixel(last));
        assert(g.on_surface(last.x as u32, last.y as u32));
        assert forall|j: int| 0 <= j < rest.len() implies !is_at(#[trigger] rest[j], x, y) by {
            assert(!is_at(pixels[j], x, y));
        }
        assert forall|j: int| 0 <= j < rest.len() implies g.on_surface(
            (#[trigger] rest[j]).x as u32,
            rest[j].y as u32,
        ) by {
            assert(rest[j] == pixels[j]);
        }
        law_undrawn_pixels_stay(g, rest, x, y);
        assert(!is_at(last, x, y));
        law_other_pixels_stay(before, last.x as u32, last.y as u32, last.color, x, y);
    }
}

proof fn lemma_can_draw_fewer(g: GraphicsView, pixels: Seq<Pixel>)
    requires
        g.can_draw(pixels),
        pixels.len() > 0,
    ensures
        g.can_draw(pixels.drop_last()),
{
    let rest = pixels.drop_last();
    assert forall|j: int| 0 <= j < rest.len() implies g.can_draw_pixel(#[trigger] rest[j]) by {
        assert(g.can_draw_pixel(pixels[j]));
    }
}

/// A point that was drawn makes a refresh due, and the area to refresh holds its byte.
pub proof fn law_drawn_pixel_is_due(g: GraphicsView, x: u32, y: u32, color: EpdColor)
    requires
        g.holds(x, y),
        tools::has_dirty_area(g.with_pixel(x, y, color).dirty, g.row()),
    ensures
        g.with_pixel(x, y, color).due() is Some,
        tools::dirty_area(g.with_pixel(x, y, color).dirty, g.row()) matches Some(rect) && rect.contains(
            g.byte_index(x, y) % g.row(),
            g.byte_index(x, y) / g.row(),
        ),
{
    let i = g.byte_index(x, y);
    let bit = g.bit_mask(x, y);
    let after = g.with_pixel(x, y, color);
    let column = tools::panel_position(x as int, y as int, g.width(), g.height(), g.config.rotation).0;
    lemma_masks_are_separate(column, column);
    let byte = g.dirty[i];
    assert(byte | bit != 0) by (bit_vector)
        requires
            bit != 0,
    ;
    tools::lemma_dirty_area_exists(after.dirty, g.row());
    assert(tools::marked(after.dirty, i));
}

/// The first refresh is a full one, whatever has been drawn.
pub proof fn law_first_refresh_is_full(g: GraphicsView)
    requires
        g.update_count == 0,
    ensures
        g.due() == Some(Refresh::Normal),
        g.begun() == (GraphicsView { pending: Some(Refresh::Normal), ..g }),
{
}

/// What an update that succeeds makes of `g`.
pub open spec fn after_update(g: GraphicsView) -> GraphicsView {
    if g.due() is Some { g.updated() } else { g.begun() }
}

/// After an update that succeeded there can be another, and until something is drawn no
/// refresh is due: it leaves everything as it is.
pub proof fn law_no_refresh_after_update(g: GraphicsView)
    requires
        g.wf(),
        g.can_update(),
    ensures
        after_update(g).wf(),
        after_update(g).can_update(),
        after_update(g).due() is None,
        after_update(g).begun() == after_update(g),
        after_update(after_update(g)) == after_update(g),
{
    model::lemma_update_steps(g);
    model::lemma_update_steps(g.begun());
}

/// An update, failed or not, changes neither the planes nor the panel. One that fails
/// keeps every mark. One that succeeds clears all of them, or had none to clear and keeps
/// the buffer as it is.
pub proof fn law_update_keeps_frame(g: GraphicsView)
    ensures
        g.begun() == (GraphicsView {
            update_count: g.begun().update_count,
            pending: g.begun().pending,
            ..g
        }),
        after_update(g).config == g.config,
        after_update(g).black == g.black,
        after_update(g).red == g.red,
        after_update(g).dirty.len() == g.dirty.len(),
        after_update(g).dirty == g.dirty || forall|i: int| !tools::marked(after_update(g).dirty, i),
        g.due() is Some ==> forall|i: int| !tools::marked(after_update(g).dirty, i),
        g.due() is None ==> after_update(g).dirty == g.dirty,
{
}

/// A refresh that failed is due again, and stays so until something is drawn.
pub proof fn law_failed_refresh_is_due_again(g: GraphicsView, refresh: Refresh)
    requires
        g.due() == Some(refresh),
    ensures
        g.begun().due() == Some(refresh),
        g.begun().pending == Some(refresh),
{
}

/// Every operation keeps a display well formed.
pub proof fn law_operations_keep_wf(g: GraphicsView, pixels: Seq<Pixel>)
    requires
        g.wf(),
    ensures
        g.can_update() ==> g.begun().wf(),
        g.pending is Some ==> g.finished().wf(),
        g.can_draw(pixels) ==> g.with_pixels(pixels).wf(),
{
    model::lemma_update_steps(g);
    if g.can_draw(pixels) {
        model::lemma_drawing_keeps_shape(g, pixels);
    }
}

/// Of the updates that succeed, only fast refreshes add to the number that leads to a
/// full one. A full refresh sets it to zero, and a partial one leaves it.
pub proof fn law_only_fast_refreshes_count(g: GraphicsView)
    requires
        g.wf(),
    ensures
        g.due() == Some(Refresh::Normal) ==> g.updated().fast_count == 0,
        g.due() == Some(Refresh::Fast) ==> g.updated().fast_count == g.fast_count + 1,
        (g.due() matches Some(Refresh::Part(_))) ==> g.updated().fast_count == g.fast_count,
        g.due() is Some ==> g.begun().fast_count == g.fast_count,
{
}

/// Whether a large area is marked.
pub open spec fn is_large_area_marked(g: GraphicsView) -> bool {
    tools::dirty_area(g.dirty, g.row()) matches Some(rect) && g.is_large(rect)
}

/// Whether `later` is what `g` becomes by an update that succeeds and some drawing.
pub open spec fn is_redrawn(g: GraphicsView, later: GraphicsView) -> bool {
    exists|pixels: Seq<Pixel>| #[trigger]
        g.updated().can_draw(pixels) && later == g.updated().with_pixels(pixels)
}

/// Whether the state after `states[k]` is what that one becomes by an update that
/// succeeds and some drawing.
pub open spec fn is_redrawn_next(states: Seq<GraphicsView>, k: int) -> bool {
    is_redrawn(states[k], states[k + 1])
}

/// After the first update there are no fast refreshes yet, and there has been an update.
/// The same holds after every full refresh: a new round begins.
pub proof fn law_full_refresh_begins_a_round(g: GraphicsView)
    requires
        g.due() == Some(Refresh::Normal),
    ensures
        g.updated().fast_count == 0,
        1 <= g.updated().update_count <= 2,
{
}

/// In a round in which large areas are drawn before every update, the first hundred
/// refreshes are fast and the next is full, with which the next round begins.
/// `states` are the states before the updates.
pub proof fn law_full_refresh_after_fast_ones(states: Seq<GraphicsView>)
    requires
        states.len() == MAX_FAST_UPDATE_TIME + 1,
        states[0].fast_count == 0,
        1 <= states[0].update_count <= usize::MAX - MAX_FAST_UPDATE_TIME,
        forall|k: int| 0 <= k < states.len() ==> is_large_area_marked(#[trigger] states[k]),
        forall|k: int| 0 <= k < MAX_FAST_UPDATE_TIME ==> #[trigger] is_redrawn_next(states, k),
    ensures
        forall|k: int|
            0 <= k < MAX_FAST_UPDATE_TIME ==> (#[trigger] states[k]).due() == Some(Refresh::Fast),
        states[MAX_FAST_UPDATE_TIME as int].due() == Some(Refresh::Normal),
        states[MAX_FAST_UPDATE_TIME as int].updated().fast_count == 0,
        1 <= states[MAX_FAST_UPDATE_TIME as int].updated().update_count <= 2,
{
    assert forall|k: int| 0 <= k < MAX_FAST_UPDATE_TIME implies (#[trigger] states[k]).due() == Some(
        Refresh::Fast,
    ) by {
        lemma_fast_refreshes_add_up(states, k);
    }
    lemma_fast_refreshes_add_up(states, MAX_FAST_UPDATE_TIME as int);
}

proof fn lemma_fast_refreshes_add_up(states: Seq<GraphicsView>, k: int)
    requires
        states.len() == MAX_FAST_UPDATE_TIME + 1,
        states[0].fast_count == 0,
        1 <= states[0].update_count <= usize::MAX - MAX_FAST_UPDATE_TIME,
        forall|k: int| 0 <= k < states.len() ==> is_large_area_marked(#[trigger] states[k]),
        forall|k: int| 0 <= k < MAX_FAST_UPDATE_TIME ==> #[trigger] is_redrawn_next(states, k),
        0 <= k <= MAX_FAST_UPDATE_TIME,
    ensures
        states[k].fast_count == k,
        states[k].update_count == states[0].update_count + k,
    decreases k,
{
    if k > 0 {
        lemma_fast_refreshes_add_up(states, k - 1);
        let before = states[k - 1];
        assert(is_large_area_marked(before));
        assert(is_redrawn_next(states, k - 1));
        let pixels = choose|pixels: Seq<Pixel>| #[trigger]
            before.updated().can_draw(pixels) && states[k] == before.updated().with_pixels(pixels);
        model::lemma_drawing_keeps_shape(before.updated(), pixels);
    }
}

/// A display with whole-byte columns that 8 bits can count and with buffers of
/// `buffer_size` bytes can always be updated.
pub proof fn law_sized_display_can_update(g: GraphicsView)
    requires
        g.config.wf(),
        8 <= g.config.width <= 2048,
        g.config.width % 8 == 0,
        g.config.height >= 1,
        g.config.cascade matches Some(chip_width) ==> chip_width % 8 == 0 && chip_width <= 127 * 8,
        g.sized(),
        g.dirty.len() == g.width() * g.height() / 8,
        g.update_count < usize::MAX,
    ensures
        g.can_update(),
{
    let bytes = g.row();
    let height = g.height();
    assert(g.width() * height == 8 * (bytes * height)) by (nonlinear_arith)
        requires
            g.width() == 8 * bytes,
    ;
    assert(bytes * height <= 0x10000 * bytes && (height - 1) * bytes + bytes == bytes * height)
        by (nonlinear_arith)
        requires
            1 <= height <= 65535,
            bytes >= 1,
    ;
    assert forall|i: int| #[trigger] tools::marked(g.dirty, i) implies tools::has_cell(i, bytes) by {
        tools::lemma_column_and_row_fit(i, bytes);
    }
    tools::lemma_dirty_area_exists(g.dirty, bytes);
    if let Some(Refresh::Part(rect)) = g.due() {
        let i = choose|i: int| #[trigger] tools::marked(g.dirty, i) && i / bytes == rect.max_y;
        let j = choose|j: int| #[trigger] tools::marked(g.dirty, j) && j % bytes == rect.max_byte_col;
        assert(tools::marked(g.dirty, i) && tools::marked(g.dirty, j));
        assert(rect.contains(i % bytes, i / bytes));
        assert(0 <= i / bytes < height && 0 <= j % bytes < bytes) by (nonlinear_arith)
            requires
                bytes >= 1,
                0 <= i < bytes * height,
        ;
        assert(rect.max_y * bytes + bytes <= bytes * height) by (nonlinear_arith)
            requires
                rect.max_y <= height - 1,
                bytes >= 1,
        ;
    }
}

/// Every refresh begins with a hardware reset, and ends with an update sequence that
/// is started and waited for.
pub proof fn law_refresh_resets_and_activates(g: GraphicsView, refresh: Refresh)
    ensures
        g.refresh_effects(refresh).len() >= 4,
        g.refresh_effects(refresh)[0] == Effect::Reset,
        exists|control: u8|
            #[trigger] model::activate(control) == g.refresh_effects(refresh).subrange(
                g.refresh_effects(refresh).len() - 3,
                g.refresh_effects(refresh).len() as int,
            ),
{
    let effects = g.refresh_effects(refresh);
    let control: u8 = match (refresh, g.config.cascade) {
        (Refresh::Normal, None) => 0xF7,
        (Refresh::Normal, Some(_)) => 0xC7,
        (Refresh::Fast, _) => 0xC7,
        (Refresh::Part(_), None) => 0xFF,
        (Refresh::Part(_), Some(_)) => 0xDC,
    };
    assert(effects.subrange(effects.len() - 3, effects.len() as int) =~= model::activate(control));
}

/// A full refresh of a single controller without red sends it the same bytes, those of the
/// frame, after the command for either of its RAMs, with no other command between.
pub proof fn law_full_refresh_sends_frame_for_both_rams(g: GraphicsView)
    requires
        g.config.cascade is None,
        g.red is None,
    ensures
        g.normal_effects().subrange(13, 17) == seq![
            Effect::Execute(Command::WriteRamBW),
            Effect::Data(g.black),
            Effect::Execute(Command::WriteRamRed),
            Effect::Data(g.black),
        ],
{
    assert(g.normal_effects().subrange(13, 17) =~= seq![
        Effect::Execute(Command::WriteRamBW),
        Effect::Data(g.black),
        Effect::Execute(Command::WriteRamRed),
        Effect::Data(g.black),
    ]);
}

/// A full refresh of a cascaded panel clears it, and then does what a fast refresh does.
pub proof fn law_cascade_full_refresh_clears_first(g: GraphicsView, chip_width: u16)
    requires
        g.config.cascade == Some(chip_width),
    ensures
        g.refresh_effects(Refresh::Normal) == g.cascade_clear_effects(chip_width) + g.refresh_effects(
            Refresh::Fast,
        ),
{
}

/// A partial refresh of a cascaded panel is the same whatever area was drawn in: the
/// whole frame is written.
pub proof fn law_cascade_part_refresh_ignores_area(g: GraphicsView, a: DirtyRect, b: DirtyRect)
    requires
        g.config.cascade is Some,
    ensures
        g.refresh_effects(Refresh::Part(a)) == g.refresh_effects(Refresh::Part(b)),
{
}

/// Whether `effect` sends `command`, to whichever controller.
pub open spec fn sends(effect: Effect, command: Command) -> bool {
    match effect {
        Effect::Execute(sent) => sent == command,
        Effect::ExecuteOn(_, sent) => sent == command,
        _ => false,
    }
}

/// A fast refresh of a cascaded panel loads the waveform, writes the frame and activates
/// it. It never writes the red RAM and never starts the full update sequence.
pub proof fn law_cascade_fast_refresh_is_plain(g: GraphicsView, chip_width: u16)
    requires
        g.config.cascade == Some(chip_width),
    ensures
        g.refresh_effects(Refresh::Fast) == g.cascade_fast_effects(chip_width),
        forall|i: int|
            0 <= i < g.refresh_effects(Refresh::Fast).len() ==> !sends(
                #[trigger] g.refresh_effects(Refresh::Fast)[i],
                Command::WriteRamRed,
            ) && !sends(g.refresh_effects(Refresh::Fast)[i], Command::DisplayUpdateControl2(0xF7)),
{
    let effects = g.cascade_fast_effects(chip_width);
    assert forall|i: int| 0 <= i < effects.len() implies !sends(#[trigger] effects[i], Command::WriteRamRed)
        && !sends(effects[i], Command::DisplayUpdateControl2(0xF7)) by {}
}

/// Clearing a cascaded panel sends the same whatever the buffers hold.
pub proof fn law_cascade_clear_ignores_buffers(g: GraphicsView, other: GraphicsView, chip_width: u16)
    requires
        g.config == other.config,
    ensures
        g.cascade_clear_effects(chip_width) == other.cascade_clear_effects(chip_width),
{
}

/// The transfers of a rectangle carry its bytes row by row, and as many of them as the
/// rectangle has.
pub proof fn law_region_is_sent_whole(bytes: Seq<u8>, row: int, rect: DirtyRect, k: int, j: int)
    requires
        tools::region_fits(bytes.len(), row, rect),
        row >= 0,
        0 <= k <= rect.max_y - rect.min_y,
        0 <= j <= rect.max_byte_col - rect.min_byte_col,
    ensures
        ({
            let sent = model::payload(tools::region_effects(bytes, row, rect));
            let columns = rect.max_byte_col - rect.min_byte_col + 1;
            &&& sent.len() == columns * (rect.max_y - rect.min_y + 1)
            &&& 0 <= k * columns + j < sent.len()
            &&& sent[k * columns + j] == bytes[(rect.min_y + k) * row + rect.min_byte_col + j]
        }),
{
    let effects = tools::region_effects(bytes, row, rect);
    let columns = rect.max_byte_col - rect.min_byte_col + 1;
    assert forall|r: int| 0 <= r < effects.len() implies (#[trigger] effects[r]) is Data
        && effects[r]->Data_0.len() == columns by {
        lemma_row_in_region(row, rect, r);
    }
    lemma_payload_of_equal_transfers(effects, columns);
    lemma_row_in_region(row, rect, k);
    lemma_index_in_rows(k, j, effects.len() as int, columns);
    assert(effects.len() * columns == columns * (rect.max_y - rect.min_y + 1)) by (nonlinear_arith)
        requires
            effects.len() == rect.max_y - rect.min_y + 1,
    ;
    assert(model::payload(effects)[k * columns + j] == effects[k]->Data_0[j]);
}

proof fn lemma_row_in_region(row: int, rect: DirtyRect, k: int)
    requires
        row >= 0,
        0 <= k <= rect.max_y - rect.min_y,
    ensures
        0 <= (rect.min_y + k) * row <= rect.max_y * row,
{
    assert(0 <= (rect.min_y + k) * row <= rect.max_y * row) by (nonlinear_arith)
        requires
            row >= 0,
            0 <= rect.min_y + k <= rect.max_y,
    ;
}

proof fn lemma_index_in_rows(k: int, j: int, rows: int, columns: int)
    requires
        0 <= k < rows,
        0 <= j < columns,
    ensures
        0 <= k * columns + j < rows * columns,
        k < rows - 1 ==> k * columns + j < (rows - 1) * columns,
{
    assert(0 <= k * columns && k * columns + columns <= rows * columns) by (nonlinear_arith)
        requires
            0 <= k < rows,
            0 <= columns,
    ;
    assert(k < rows - 1 ==> k * columns + columns <= (rows - 1) * columns) by (nonlinear_arith)
        requires
            0 <= k < rows,
            0 <= columns,
    ;
}

proof fn lemma_payload_of_equal_transfers(effects: Seq<Effect>, columns: int)
    requires
        columns >= 0,
        forall|r: int|
            0 <= r < effects.len() ==> (#[trigger] effects[r]) is Data && effects[r]->Data_0.len() == columns,
    ensures
        model::payload(effects).len() == effects.len() * columns,
        forall|k: int, j: int|
            0 <= k < effects.len() && 0 <= j < columns ==> #[trigger] model::payload(effects)[k * columns + j]
                == effects[k]->Data_0[j],
    decreases effects.len(),
{
    if effects.len() == 0 {
        assert(0 * columns == 0);
    } else {
        let rest = effects.drop_last();
        let n = effects.len() as int;
        lemma_payload_of_equal_transfers(rest, columns);
        assert((n - 1) * columns + columns == n * columns) by (nonlinear_arith);
        assert forall|k: int, j: int| 0 <= k < n && 0 <= j < columns implies #[trigger] model::payload(effects)[k
            * columns + j] == effects[k]->Data_0[j] by {
            lemma_index_in_rows(k, j, n, columns);
            if k < n - 1 {
                assert(model::payload(rest)[k * columns + j] == rest[k]->Data_0[j]);
            }
        }
    }
}

/// Filling sends the given number of copies of one byte, and nothing else.
pub proof fn law_fill_is_constant(value: u8, total: int)
    requires
        total >= 0,
    ensures
        model::payload(model::fill_effects(value, total)) == Seq::new(total as nat, |i: int| value),
{
    let effects = model::fill_effects(value, total);
    lemma_fill_prefix(value, total, effects.len() as int);
    assert(effects.take(effects.len() as int) =~= effects);
    assert(model::payload(effects) =~= Seq::new(total as nat, |i: int| value));
}

proof fn lemma_fill_prefix(value: u8, total: int, k: int)
    requires
        total >= 0,
        0 <= k <= model::fill_effects(value, total).len(),
    ensures
        model::payload(model::fill_effects(value, total).take(k)).len() == (if 32 * k < total {
            32 * k
        } else {
            total
        }),
        forall|i: int|
            0 <= i < model::payload(model::fill_effects(value, total).take(k)).len()
                ==> #[trigger] model::payload(model::fill_effects(value, total).take(k))[i] == value,
    decreases k,
{
    let effects = model::fill_effects(value, total);
    if k > 0 {
        lemma_fill_prefix(value, total, k - 1);
        assert(effects.take(k).drop_last() =~= effects.take(k - 1));
        assert(effects.take(k).last() == effects[k - 1]);
    }
}

/// A partial refresh sends every byte in which something was drawn, at its place in the
/// rectangle: that of the black and white plane, and that of the red one where there is
/// one.
pub proof fn law_part_refresh_sends_changes(g: GraphicsView, rect: DirtyRect, i: int)
    requires
        g.due() == Some(Refresh::Part(rect)),
        tools::has_dirty_area(g.dirty, g.row()),
        tools::marked(g.dirty, i),
    ensures
        rect.contains(i % g.row(), i / g.row()),
        tools::region_fits(g.black.len(), g.row(), rect) ==> sends_byte(g.black, g.row(), rect, i),
        g.red matches Some(red) ==> tools::region_fits(red.len(), g.row(), rect) ==> sends_byte(
            red,
            g.row(),
            rect,
            i,
        ),
{
    let row = g.row();
    tools::lemma_dirty_area_exists(g.dirty, row);
    assert(rect.contains(i % row, i / row));
    if tools::region_fits(g.black.len(), row, rect) {
        lemma_region_sends_byte(g.black, row, rect, i);
    }
    if let Some(red) = g.red {
        if tools::region_fits(red.len(), row, rect) {
            lemma_region_sends_byte(red, row, rect, i);
        }
    }
}

/// Whether the transfers of `rect` carry byte `i` of `bytes` at its place in the rectangle.
pub open spec fn sends_byte(bytes: Seq<u8>, row: int, rect: DirtyRect, i: int) -> bool {
    let sent = model::payload(tools::region_effects(bytes, row, rect));
    let columns = rect.max_byte_col - rect.min_byte_col + 1;
    let n = (i / row - rect.min_y) * columns + (i % row - rect.min_byte_col);
    0 <= n < sent.len() && sent[n] == bytes[i]
}

proof fn lemma_region_sends_byte(bytes: Seq<u8>, row: int, rect: DirtyRect, i: int)
    requires
        row >= 1,
        rect.contains(i % row, i / row),
        tools::region_fits(bytes.len(), row, rect),
    ensures
        sends_byte(bytes, row, rect, i),
{
    law_region_is_sent_whole(bytes, row, rect, i / row - rect.min_y, i % row - rect.min_byte_col);
    assert((i / row) * row + i % row == i) by (nonlinear_arith)
        requires
            row >= 1,
    ;
}

/// The window of a controller of a cascaded panel is all of its own byte columns. The
/// master goes through them from the last to the first, the slave from the first to
/// the last.
pub proof fn law_cascade_window_is_local(g: GraphicsView, chip_width: u16, chip: Chip)
    requires
        g.config.cascade == Some(chip_width),
        1 <= model::chip_bytes(chip_width) <= 127,
    ensures
        ({
            let last = (model::chip_bytes(chip_width) - 1) as u8;
            let addressing = g.address_region_effects(chip, g.chip_region(chip, chip_width));
            let (mode, x_start, x_end) = match chip {
                Chip::Master => (DataEntryMode::DecrementXIncrementY, last, 0u8),
                Chip::Slave => (DataEntryMode::IncrementYIncrementX, 0u8, last),
            };
            &&& addressing[0] == Effect::ExecuteOn(chip, Command::DataEntryMode(mode, IncrementAxis::Horizontal))
            &&& addressing[1] == Effect::ExecuteOn(chip, Command::StartEndXPosition(x_start, x_end))
            &&& addressing[2] == Effect::ExecuteOn(chip, Command::StartEndYPosition(0, g.last_row()))
            &&& addressing[3] == Effect::ExecuteOn(chip, Command::XAddress(x_start))
            &&& addressing[4] == Effect::ExecuteOn(chip, Command::YAddress(0))
        }),
{
}

/// What a controller of a cascaded panel is sent, the frame or a constant, has exactly
/// as many bytes as its window.
pub proof fn law_cascade_window_is_filled(g: GraphicsView, chip_width: u16, chip: Chip, value: u8)
    requires
        g.cascade_fits(chip_width),
    ensures
        ({
            let region = g.chip_region(chip, chip_width);
            let cells = model::chip_bytes(chip_width) * (g.last_row() + 1);
            &&& model::payload(tools::region_effects(g.black, g.row(), region)).len() == cells
            &&& model::payload(
                model::fill_effects(
                    value,
                    (region.max_byte_col - region.min_byte_col + 1) * (region.max_y - region.min_y + 1),
                ),
            ) == Seq::new(cells as nat, |i: int| value)
        }),
{
    let right = g.chip_region(Chip::Slave, chip_width);
    lemma_row_in_region(g.row(), right, g.last_row() as int);
    law_region_is_sent_whole(g.black, g.row(), g.chip_region(chip, chip_width), 0, 0);
    let cells = model::chip_bytes(chip_width) * (g.last_row() + 1);
    assert(cells >= 0) by (nonlinear_arith)
        requires
            cells == model::chip_bytes(chip_width) * (g.last_row() + 1),
    ;
    law_fill_is_constant(value, cells);
}

/// Between them the two controllers of a cascaded panel get every row of the frame,
/// the left half and then the right half.
pub proof fn law_cascade_rows_are_split(g: GraphicsView, chip_width: u16, y: int)
    requires
        g.cascade_fits(chip_width),
        0 <= y <= g.last_row(),
    ensures
        ({
            let left = g.chip_region(Chip::Master, chip_width);
            let right = g.chip_region(Chip::Slave, chip_width);
            tools::region_row(g.black, g.row(), left, y) + tools::region_row(g.black, g.row(), right, y)
                == g.black.subrange(y * g.row(), y * g.row() + 2 * model::chip_bytes(chip_width))
        }),
{
    let left = g.chip_region(Chip::Master, chip_width);
    let right = g.chip_region(Chip::Slave, chip_width);
    lemma_row_in_region(g.row(), right, y);
    assert(tools::region_row(g.black, g.row(), left, y) + tools::region_row(g.black, g.row(), right, y)
        =~= g.black.subrange(y * g.row(), y * g.row() + 2 * model::chip_bytes(chip_width)));
}

/// Each byte of the frame is sent to one controller of a cascaded panel, and with that
/// controller's window it is stored in its own row: by the master mirrored, by the slave
/// in order.
pub proof fn law_cascade_stores_frame(g: GraphicsView, chip_width: u16, col: int, y: int)
    requires
        g.config.cascade == Some(chip_width),
        g.cascade_fits(chip_width),
        0 <= col < 2 * model::chip_bytes(chip_width),
        0 <= y <= g.last_row(),
    ensures
        ({
            let columns = model::chip_bytes(chip_width) as int;
            let last = (columns - 1) as u8;
            let (chip, local, cell) = if col < columns {
                (
                    Chip::Master,
                    col,
                    model::ram_cell(
                        DataEntryMode::DecrementXIncrementY,
                        last,
                        0,
                        0,
                        y * columns + col,
                    ),
                )
            } else {
                (
                    Chip::Slave,
                    col - columns,
                    model::ram_cell(
                        DataEntryMode::IncrementYIncrementX,
                        0,
                        last,
                        0,
                        y * columns + (col - columns),
                    ),
                )
            };
            let sent = model::payload(
                tools::region_effects(g.black, g.row(), g.chip_region(chip, chip_width)),
            );
            &&& 0 <= y * columns + local < sent.len()
            &&& sent[y * columns + local] == g.black[y * g.row() + col]
            &&& cell == (if col < columns {
                columns - 1 - col
            } else {
                col - columns
            }, y)
        }),
{
    let columns = model::chip_bytes(chip_width) as int;
    let right = g.chip_region(Chip::Slave, chip_width);
    lemma_row_in_region(g.row(), right, y);
    let (chip, local) = if col < columns {
        (Chip::Master, col)
    } else {
        (Chip::Slave, col - columns)
    };
    law_region_is_sent_whole(g.black, g.row(), g.chip_region(chip, chip_width), y, local);
    let n = y * columns + local;
    assert(n % columns == local && n / columns == y) by (nonlinear_arith)
        requires
            n == y * columns + local,
            0 <= local < columns,
            0 <= y,
    ;
}

/// A colour is what its two bits stand for. Without red, the black and white bit alone
/// stands for it.
pub proof fn law_color_bits_round_trip(color: EpdColor)
    ensures
        color::color_of_bits(
            (2 * color.spec_red_bit() + color.spec_black_bit()) as u8,
            Palette::BlackWhiteRed,
        ) == color,
        color != EpdColor::Red ==> color::color_of_bits(color.spec_black_bit(), Palette::BlackWhite) == color,
{
}

/// On a panel without red nothing turns red.
pub proof fn law_no_red_without_red(value: u8, rgb: Channels)
    ensures
        color::color_of_bits(value, Palette::BlackWhite) != EpdColor::Red,
        color::color_of_rgb(rgb, Palette::BlackWhite) != EpdColor::Red,
{
}

/// Red pigment changes nothing for colours that are not red.
pub proof fn law_palettes_agree_off_red(rgb: Channels)
    ensures
        color::color_of_rgb(rgb, Palette::BlackWhiteRed) == EpdColor::Red <==> rgb.red_dominant(),
        !rgb.red_dominant() ==> color::color_of_rgb(rgb, Palette::BlackWhiteRed) == color::color_of_rgb(
            rgb,
            Palette::BlackWhite,
        ),
{
}

/// With channels of 8 bits, luma is the weighted sum of ITU-R BT.601.
pub proof fn law_luma_is_weighted_sum(rgb: Channels)
    requires
        rgb.max_r == 255,
        rgb.max_g == 255,
        rgb.max_b == 255,
    ensures
        rgb.luma() == (299 * rgb.r + 587 * rgb.g + 114 * rgb.b) / 1000,
{
    let sum: int = 299 * rgb.r + 587 * rgb.g + 114 * rgb.b;
    let scale: int = rgb.max_r * rgb.max_g;
    assert(scale == 65025) by (nonlinear_arith)
        requires
            rgb.max_r == 255,
            rgb.max_g == 255,
            scale == rgb.max_r * rgb.max_g,
    ;
    assert(rgb.b * scale / (rgb.max_b as int) == rgb.b * 255);
    assert(rgb.r * rgb.max_g * 299 + rgb.g * rgb.max_r * 587 + rgb.b * 255 * 114 == 255 * sum) by (
    nonlinear_arith)
        requires
            rgb.max_r == 255,
            rgb.max_g == 255,
            sum == 299 * rgb.r + 587 * rgb.g + 114 * rgb.b,
    ;
    assert(255 * sum / 255000 == sum / 1000);
}

/// Whatever the depth of the channels, no light has no luma and full light has at
/// least 255, or 225 if there is no blue channel: black stays black, and white stays
/// white.
pub proof fn law_black_and_white_stay(black: Channels, white: Channels, palette: Palette)
    requires
        black.r == 0 && black.g == 0 && black.b == 0,
        black.max_r > 0 && black.max_g > 0,
        white.r == white.max_r > 0,
        white.g == white.max_g > 0,
        white.b == white.max_b,
    ensures
        black.luma() == 0,
        white.luma() >= 225,
        white.max_b > 0 ==> white.luma() >= 255,
        color::color_of_rgb(black, palette) == EpdColor::Black,
        color::color_of_rgb(white, palette) == EpdColor::White,
{
    lemma_scale_counts(black);
    lemma_scale_counts(white);
    let (max_r, max_g, max_b) = (white.max_r as int, white.max_g as int, white.max_b as int);
    let scale: int = max_r * max_g;
    let divisor: int = scale * 1000 / 255;
    if black.max_b > 0 {
        assert(0int / (black.max_b as int) == 0) by (nonlinear_arith)
            requires
                black.max_b > 0,
        ;
    }
    assert(0int / (black.max_r * black.max_g * 1000 / 255) == 0) by (nonlinear_arith)
        requires
            black.max_r * black.max_g * 1000 / 255 > 0,
    ;
    if max_b > 0 {
        assert(max_b * scale / max_b == scale) by (nonlinear_arith)
            requires
                max_b > 0,
        ;
    }
    assert(max_g * max_r == scale) by (nonlinear_arith)
        requires
            scale == max_r * max_g,
    ;
    assert(scale * 1000 / divisor >= 255 && scale * 886 / divisor >= 225) by (nonlinear_arith)
        requires
            divisor > 0,
            255 * divisor <= scale * 1000,
    ;
}

/// At the depths of `Rgb555`, `Rgb565` and `Rgb888`, luma fits in 8 bits.
pub proof fn law_luma_fits_eight_bits(rgb: Channels)
    requires
        rgb.in_range(),
        (rgb.max_r, rgb.max_g, rgb.max_b) == (31u8, 31u8, 31u8) || (rgb.max_r, rgb.max_g, rgb.max_b) == (
            31u8,
            63u8,
            31u8,
        ) || (rgb.max_r, rgb.max_g, rgb.max_b) == (255u8, 255u8, 255u8),
    ensures
        0 <= rgb.luma() <= 255,
{
    let (max_r, max_g, max_b) = (rgb.max_r as int, rgb.max_g as int, rgb.max_b as int);
    let scale: int = max_r * max_g;
    lemma_scale_counts(rgb);
    lemma_product_grows(rgb.r as int, max_r, max_g);
    lemma_product_grows(rgb.g as int, max_g, max_r);
    lemma_product_grows(0, rgb.r as int, max_g);
    lemma_product_grows(0, rgb.g as int, max_r);
    lemma_product_grows(rgb.b as int, max_b, scale);
    lemma_product_grows(0, rgb.b as int, scale);
    assert(max_g * max_r == scale) by (nonlinear_arith)
        requires
            scale == max_r * max_g,
    ;
    assert(max_b * scale / max_b == scale) by (nonlinear_arith)
        requires
            max_b > 0,
    ;
    vstd::arithmetic::div_mod::lemma_div_is_ordered(rgb.b * scale, max_b * scale, max_b);
    vstd::arithmetic::div_mod::lemma_div_is_ordered(0, rgb.b * scale, max_b);
    assert(0int / max_b == 0);
    let light: int = rgb.r * max_g * 299 + rgb.g * max_r * 587 + rgb.blue_share() * 114;
    let divisor: int = scale * 1000 / 255;
    assert(light <= scale * 1000);
    assert(scale == 961 || scale == 1953 || scale == 65025) by (nonlinear_arith)
        requires
            scale == max_r * max_g,
            (max_r, max_g) == (31int, 31int) || (max_r, max_g) == (31int, 63int) || (max_r, max_g) == (
                255int,
                255int,
            ),
    ;
    assert(0 <= light / divisor <= 255) by (nonlinear_arith)
        requires
            0 <= light < 256 * divisor,
            divisor > 0,
    ;
}

/// Making a channel brighter never turns white into black.
pub proof fn law_brighter_stays_white(dark: Channels, bright: Channels)
    requires
        dark.max_r == bright.max_r > 0,
        dark.max_g == bright.max_g > 0,
        dark.max_b == bright.max_b,
        dark.r <= bright.r,
        dark.g <= bright.g,
        dark.b <= bright.b,
        color::color_of_rgb(dark, Palette::BlackWhite) == EpdColor::White,
    ensures
        color::color_of_rgb(bright, Palette::BlackWhite) == EpdColor::White,
{
    lemma_scale_counts(dark);
    let (max_r, max_g, max_b) = (dark.max_r as int, dark.max_g as int, dark.max_b as int);
    let scale: int = max_r * max_g;
    lemma_product_grows(dark.r as int, bright.r as int, max_g);
    lemma_product_grows(dark.g as int, bright.g as int, max_r);
    lemma_product_grows(dark.b as int, bright.b as int, scale);
    if max_b > 0 {
        vstd::arithmetic::div_mod::lemma_div_is_ordered(dark.b * scale, bright.b * scale, max_b);
    }
    vstd::arithmetic::div_mod::lemma_div_is_ordered(
        dark.r * max_g * 299 + dark.g * max_r * 587 + dark.blue_share() * 114,
        bright.r * max_g * 299 + bright.g * max_r * 587 + bright.blue_share() * 114,
        scale * 1000 / 255,
    );
}

/// On a panel without red, a colour of two is the colour that the palette without red
/// gives, of whatever it is made.
pub proof fn law_two_colors_are_the_palette_without_red(
    value: u8,
    rgb555: Rgb555,
    rgb565: Rgb565,
    rgb888: Rgb888,
)
    ensures
        BwColor::from_spec(value).widened() == color::color_of_bits(value, Palette::BlackWhite),
        BwColor::from_spec(rgb555).widened() == color::color_of_rgb(
            color::rgb555_channels(rgb555),
            Palette::BlackWhite,
        ),
        BwColor::from_spec(rgb565).widened() == color::color_of_rgb(
            color::rgb565_channels(rgb565),
            Palette::BlackWhite,
        ),
        BwColor::from_spec(rgb888).widened() == color::color_of_rgb(
            color::rgb888_channels(rgb888),
            Palette::BlackWhite,
        ),
{
}

proof fn lemma_scale_counts(rgb: Channels)
    requires
        rgb.max_r > 0,
        rgb.max_g > 0,
    ensures
        rgb.max_r * rgb.max_g >= 1,
{
    assert(rgb.max_r * rgb.max_g >= 1) by (nonlinear_arith)
        requires
            rgb.max_r >= 1,
            rgb.max_g >= 1,
    ;
}

proof fn lemma_product_grows(a: int, b: int, n: int)
    requires
        a <= b,
        n >= 0,
    ensures
        a * n <= b * n,
{
    assert(a * n <= b * n) by (nonlinear_arith)
        requires
            a <= b,
            n >= 0,
    ;
}

/// It makes no difference whether a panel is first turned or first cascaded. Turning
/// replaces an earlier turn, and cascading an earlier width.
pub proof fn law_builders_commute(config: ConfigView, rotation: Rotation, earlier: Rotation, chip_width: u16, width: u16)
    ensures
        config.with_rotation(rotation).with_cascade(chip_width) == config.with_cascade(chip_width).with_rotation(
            rotation,
        ),
        config.with_rotation(earlier).with_rotation(rotation) == config.with_rotation(rotation),
        ConfigView::single(width, config.height).with_cascade(chip_width) == ConfigView::single(
            config.width,
            config.height,
        ).with_cascade(chip_width),
{
}

} // verus!
