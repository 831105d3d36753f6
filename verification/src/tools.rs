//! Where a pixel lives in a frame buffer, and which part of a buffer changed.
//!
//! A frame buffer holds one bit per pixel, row by row from the top, eight pixels
//! to a byte with the leftmost in the most significant bit.
use crate::config::Rotation;
use crate::script::{Effect, Script, Step};
use vstd::prelude::*;

verus! {

/// Panel column and row of the point `(x, y)` of a drawing surface that is turned
/// by `rotation` on a panel of `width` by `height` pixels.
pub open spec fn panel_position(x: int, y: int, width: int, height: int, rotation: Rotation) -> (int, int) {
    match rotation {
        Rotation::Rotate0 => (x, y),
        Rotation::Rotate90 => (width - 1 - y, x),
        Rotation::Rotate180 => (width - 1 - x, height - 1 - y),
        Rotation::Rotate270 => (y, height - 1 - x),
    }
}

/// Index of the buffer byte that holds the point `(x, y)`.
pub open spec fn byte_index(x: int, y: int, width: int, height: int, rotation: Rotation) -> int {
    let (column, row) = panel_position(x, y, width, height, rotation);
    row * (width / 8) + column / 8
}

/// The bit of a byte that holds panel column `column`.
pub open spec fn column_mask(column: int) -> u8 {
    0x80u8 >> ((column % 8) as u8)
}

/// The bit of its buffer byte that holds the point `(x, y)`.
pub open spec fn bit_mask(x: int, y: int, width: int, height: int, rotation: Rotation) -> u8 {
    column_mask(panel_position(x, y, width, height, rotation).0)
}

/// Whether the position of `(x, y)` can be worked out in unsigned numbers. It can
/// for every point of the drawing surface, and for some beyond its edges.
pub open spec fn has_byte_index(x: int, y: int, width: int, height: int, rotation: Rotation) -> bool {
    &&& 0 <= byte_index(x, y, width, height, rotation) <= u32::MAX
    &&& match rotation {
        Rotation::Rotate0 | Rotation::Rotate180 => true,
        Rotation::Rotate90 => y < width,
        Rotation::Rotate270 => x < height,
    }
}

/// Buffer byte and bit of the point `(x, y)` of the drawing surface.
pub fn rotation(x: u32, y: u32, width: u32, height: u32, turn: Rotation) -> (r: (u32, u8))
    requires
        width % 8 == 0,
        width <= u16::MAX,
        height <= u16::MAX,
        has_byte_index(x as int, y as int, width as int, height as int, turn),
    ensures
        r.0 == byte_index(x as int, y as int, width as int, height as int, turn),
        r.1 == bit_mask(x as int, y as int, width as int, height as int, turn),
{
    match turn {
        Rotation::Rotate0 => {
            proof {
                lemma_u32_product(width / 8, y);
            }
            (x / 8 + (width / 8) * y, 0x80u8 >> (x % 8))
        },
        Rotation::Rotate90 => {
            proof {
                lemma_u32_product(width / 8, x);
                lemma_low_bit_is_mirrored(width, y);
            }
            ((width - 1 - y) / 8 + (width / 8) * x, 0x01u8 << (y % 8))
        },
        Rotation::Rotate180 => {
            let row: u32 = width / 8;
            proof {
                let index = byte_index(x as int, y as int, width as int, height as int, turn);
                assert(row * height <= 8191 * 65535) by (nonlinear_arith)
                    requires
                        0 <= row <= 8191,
                        0 <= height <= 65535,
                ;
                assert((height - 1 - y) * row == row * height - row - row * y) by (nonlinear_arith);
                assert((width - 1 - x) / 8 == row - 1 - x as int / 8);
                assert(index == row * height - 1 - (x / 8 + row * y));
                assert(row * y >= 0) by (nonlinear_arith)
                    requires
                        row >= 0,
                        y >= 0,
                ;
                lemma_low_bit_is_mirrored(width, x);
            }
            ((row * height - 1) - (x / 8 + row * y), 0x01u8 << (x % 8))
        },
        Rotation::Rotate270 => {
            proof {
                lemma_u32_product(width / 8, (height - 1 - x) as u32);
            }
            (y / 8 + (height - 1 - x) * (width / 8), 0x80u8 >> (y % 8))
        },
    }
}

proof fn lemma_u32_product(a: u32, b: u32)
    ensures
        a * b == b * a,
        0 <= a * b,
{
    assert(a * b == b * a && 0 <= a * b) by (nonlinear_arith);
}

/// Counted from the right edge of a panel whose width is a multiple of 8, a
/// column's bit is counted from the least significant end.
proof fn lemma_low_bit_is_mirrored(width: u32, distance: u32)
    requires
        width % 8 == 0,
    ensures
        column_mask(width - 1 - distance) == 0x01u8 << (distance % 8),
{
    let k: u32 = distance % 8;
    assert((width - 1 - distance) % 8 == 7 - k);
    let m: u8 = (7 - k) as u8;
    assert(0x80u8 >> m == 0x01u8 << k) by (bit_vector)
        requires
            k < 8,
            m == 7 - k,
    ;
}

/// A rectangle of whole bytes of a frame buffer. All four edges belong to it.
#[derive(Debug, Clone, Copy, PartialEq, Eq, Structural)]
pub struct DirtyRect {
    pub min_byte_col: u8,
    pub max_byte_col: u8,
    pub min_y: u16,
    pub max_y: u16,
}

impl DirtyRect {
    /// Whether byte column `col` of row `y` lies in the rectangle.
    pub open spec fn contains(self, col: int, y: int) -> bool {
        self.min_byte_col <= col <= self.max_byte_col && self.min_y <= y <= self.max_y
    }
}

/// Byte `i` is one of `bytes`, and is not zero.
pub open spec fn marked(bytes: Seq<u8>, i: int) -> bool {
    0 <= i < bytes.len() && bytes[i] != 0
}

/// `area` is the smallest rectangle around the nonzero bytes of a buffer with `row`
/// bytes in a row, and `None` if there is no such byte: every nonzero byte lies in
/// it, and each of its edges touches one.
pub open spec fn is_dirty_area(bytes: Seq<u8>, row: int, area: Option<DirtyRect>) -> bool {
    match area {
        None => forall|i: int| !#[trigger] marked(bytes, i),
        Some(rect) => {
            &&& forall|i: int| #[trigger] marked(bytes, i) ==> rect.contains(i % row, i / row)
            &&& exists|i: int| #[trigger] marked(bytes, i) && i % row == rect.min_byte_col
            &&& exists|i: int| #[trigger] marked(bytes, i) && i % row == rect.max_byte_col
            &&& exists|i: int| #[trigger] marked(bytes, i) && i / row == rect.min_y
            &&& exists|i: int| #[trigger] marked(bytes, i) && i / row == rect.max_y
        },
    }
}

/// The smallest rectangle around the nonzero bytes of a buffer.
pub open spec fn dirty_area(bytes: Seq<u8>, row: int) -> Option<DirtyRect> {
    choose|area: Option<DirtyRect>| is_dirty_area(bytes, row, area)
}

/// Whether byte `i` of a buffer with `row` bytes in a row has a byte column of 8 bits and
/// a row of 16.
pub open spec fn has_cell(i: int, row: int) -> bool {
    0 <= i % row <= 0xff && 0 <= i / row <= 0xffff
}

/// Whether a buffer has rows, and its nonzero bytes have columns of 8 bits and rows of 16.
pub open spec fn has_dirty_area(bytes: Seq<u8>, row: int) -> bool {
    &&& row >= 1
    &&& forall|i: int| #[trigger] marked(bytes, i) ==> has_cell(i, row)
}

/// `area` stretched to take in byte column `col` of row `y`.
pub open spec fn stretched(area: Option<DirtyRect>, col: u8, y: u16) -> DirtyRect {
    match area {
        None => DirtyRect { min_byte_col: col, max_byte_col: col, min_y: y, max_y: y },
        Some(rect) => DirtyRect {
            min_byte_col: if col < rect.min_byte_col { col } else { rect.min_byte_col },
            max_byte_col: if col > rect.max_byte_col { col } else { rect.max_byte_col },
            min_y: if y < rect.min_y { y } else { rect.min_y },
            max_y: if y > rect.max_y { y } else { rect.max_y },
        },
    }
}

/// The smallest rectangle of whole bytes that holds every nonzero byte of `buffer`,
/// a buffer for rows of `width` pixels.
pub fn calculate_dirty_area(buffer: &[u8], width: u32) -> (r: Option<DirtyRect>)
    requires
        has_dirty_area(buffer@, (width / 8) as int),
    ensures
        is_dirty_area(buffer@, (width / 8) as int, r),
        r == dirty_area(buffer@, (width / 8) as int),
{
    let row: usize = (width / 8) as usize;
    let mut area: Option<DirtyRect> = None;
    let mut i: usize = 0;
    while i < buffer.len()
        invariant
            row == width / 8,
            has_dirty_area(buffer@, row as int),
            i <= buffer@.len(),
            is_dirty_area(buffer@.take(i as int), row as int, area),
        decreases buffer@.len() - i,
    {
        proof {
            assert(buffer@[i as int] != 0 ==> marked(buffer@, i as int));
            lemma_dirty_area_step(buffer@, row as int, i as int, area);
        }
        if buffer[i] != 0 {
            let col: u8 = (i % row) as u8;
            let y: u16 = (i / row) as u16;
            area = match area {
                None => Some(DirtyRect { min_byte_col: col, max_byte_col: col, min_y: y, max_y: y }),
                Some(rect) => Some(
                    DirtyRect {
                        min_byte_col: if col < rect.min_byte_col { col } else { rect.min_byte_col },
                        max_byte_col: if col > rect.max_byte_col { col } else { rect.max_byte_col },
                        min_y: if y < rect.min_y { y } else { rect.min_y },
                        max_y: if y > rect.max_y { y } else { rect.max_y },
                    },
                ),
            };
        }
        i += 1;
    }
    assert(buffer@.take(i as int) =~= buffer@);
    proof {
        lemma_dirty_area_unique(buffer@, row as int, area, dirty_area(buffer@, row as int));
    }
    area
}

/// Whether the dirty area of `buffer`, a buffer for rows of `width` pixels, can be worked
/// out.
pub fn can_calculate_dirty_area(buffer: &[u8], width: u32) -> (r: bool)
    ensures
        r == has_dirty_area(buffer@, (width / 8) as int),
{
    let row: usize = (width / 8) as usize;
    if row == 0 {
        return false;
    }
    let mut i: usize = 0;
    while i < buffer.len()
        invariant
            row == width / 8,
            row >= 1,
            i <= buffer@.len(),
            forall|j: int| #[trigger] marked(buffer@, j) && j < i ==> has_cell(j, row as int),
        decreases buffer@.len() - i,
    {
        if buffer[i] != 0 && (i % row > 0xff || i / row > 0xffff) {
            assert(marked(buffer@, i as int));
            return false;
        }
        i += 1;
    }
    true
}

/// Every byte of a buffer with at most 256 bytes in a row and 65536 rows has a column of
/// 8 bits and a row of 16.
pub proof fn lemma_column_and_row_fit(i: int, row: int)
    requires
        1 <= row <= 0x100,
        0 <= i < 0x10000 * row,
    ensures
        has_cell(i, row),
{
    assert(0 <= i % row < row && 0 <= i / row < 0x10000) by (nonlinear_arith)
        requires
            1 <= row,
            0 <= i < 0x10000 * row,
    ;
}

/// One more byte stretches the area if it is nonzero, and leaves it if not.
proof fn lemma_dirty_area_step(bytes: Seq<u8>, row: int, n: int, area: Option<DirtyRect>)
    requires
        0 <= n < bytes.len(),
        bytes[n] != 0 ==> has_cell(n, row),
        is_dirty_area(bytes.take(n), row, area),
    ensures
        is_dirty_area(
            bytes.take(n + 1),
            row,
            if bytes[n] != 0 {
                Some(stretched(area, (n % row) as u8, (n / row) as u16))
            } else {
                area
            },
        ),
{
    let before = bytes.take(n);
    let after = bytes.take(n + 1);
    assert forall|i: int| marked(before, i) implies #[trigger] marked(after, i) by {}
    assert forall|i: int| #[trigger] marked(after, i) implies marked(before, i) || i == n by {}
    if bytes[n] != 0 {
        assert(marked(after, n));
        if let Some(rect) = area {
            let left = choose|i: int| #[trigger] marked(before, i) && i % row == rect.min_byte_col;
            let right = choose|i: int| #[trigger] marked(before, i) && i % row == rect.max_byte_col;
            let top = choose|i: int| #[trigger] marked(before, i) && i / row == rect.min_y;
            let bottom = choose|i: int| #[trigger] marked(before, i) && i / row == rect.max_y;
            assert(marked(after, left) && marked(after, right) && marked(after, top) && marked(after, bottom));
        }
    } else if let Some(rect) = area {
        let left = choose|i: int| #[trigger] marked(before, i) && i % row == rect.min_byte_col;
        let right = choose|i: int| #[trigger] marked(before, i) && i % row == rect.max_byte_col;
        let top = choose|i: int| #[trigger] marked(before, i) && i / row == rect.min_y;
        let bottom = choose|i: int| #[trigger] marked(before, i) && i / row == rect.max_y;
        assert(marked(after, left) && marked(after, right) && marked(after, top) && marked(after, bottom));
    }
}

/// A buffer has one dirty area only.
pub proof fn lemma_dirty_area_unique(bytes: Seq<u8>, row: int, a: Option<DirtyRect>, b: Option<DirtyRect>)
    requires
        is_dirty_area(bytes, row, a),
        is_dirty_area(bytes, row, b),
    ensures
        a == b,
{
}

/// Every buffer whose nonzero bytes have a column and a row has a dirty area.
pub proof fn lemma_dirty_area_exists(bytes: Seq<u8>, row: int)
    requires
        has_dirty_area(bytes, row),
    ensures
        is_dirty_area(bytes, row, dirty_area(bytes, row)),
{
    let n = bytes.len() as int;
    let area = lemma_dirty_area_of_prefix(bytes, row, n);
    assert(bytes.take(n) =~= bytes);
}

/// A buffer of zeros has nothing to refresh.
pub proof fn lemma_clean_has_no_dirty_area(bytes: Seq<u8>, row: int)
    requires
        forall|i: int| !#[trigger] marked(bytes, i),
    ensures
        row >= 1 ==> has_dirty_area(bytes, row),
        dirty_area(bytes, row) is None,
{
    assert(is_dirty_area(bytes, row, None));
    lemma_dirty_area_unique(bytes, row, None, dirty_area(bytes, row));
}

proof fn lemma_dirty_area_of_prefix(bytes: Seq<u8>, row: int, n: int) -> (area: Option<DirtyRect>)
    requires
        has_dirty_area(bytes, row),
        0 <= n <= bytes.len(),
    ensures
        is_dirty_area(bytes.take(n), row, area),
    decreases n,
{
    if n == 0 {
        None
    } else {
        let area = lemma_dirty_area_of_prefix(bytes, row, n - 1);
        assert(bytes[n - 1] != 0 ==> marked(bytes, n - 1));
        lemma_dirty_area_step(bytes, row, n - 1, area);
        if bytes[n - 1] != 0 {
            Some(stretched(area, ((n - 1) % row) as u8, ((n - 1) / row) as u16))
        } else {
            area
        }
    }
}

/// Whether `rect` is not turned inside out and its last byte lies in a buffer of
/// `len` bytes with `row` bytes in a row.
pub open spec fn region_fits(len: nat, row: int, rect: DirtyRect) -> bool {
    &&& rect.min_byte_col <= rect.max_byte_col
    &&& rect.min_y <= rect.max_y
    &&& rect.max_y * row + rect.max_byte_col < len
}

/// The bytes of `rect` in its `k`-th row.
pub open spec fn region_row(bytes: Seq<u8>, row: int, rect: DirtyRect, k: int) -> Seq<u8> {
    bytes.subrange(
        (rect.min_y + k) * row + rect.min_byte_col,
        (rect.min_y + k) * row + rect.max_byte_col + 1,
    )
}

/// One data transfer for each row of `rect`, from the top.
pub open spec fn region_effects(bytes: Seq<u8>, row: int, rect: DirtyRect) -> Seq<Effect> {
    Seq::new(
        (rect.max_y - rect.min_y + 1) as nat,
        |k: int| Effect::Data(region_row(bytes, row, rect, k)),
    )
}

/// Copies `buffer[start..end]`.
fn copy_range(buffer: &[u8], start: usize, end: usize) -> (r: Vec<u8>)
    requires
        start <= end <= buffer@.len(),
    ensures
        r@ == buffer@.subrange(start as int, end as int),
{
    let mut r: Vec<u8> = Vec::new();
    let mut i: usize = start;
    while i < end
        invariant
            start <= i <= end <= buffer@.len(),
            r@ == buffer@.subrange(start as int, i as int),
        decreases end - i,
    {
        r.push(buffer[i]);
        i += 1;
    }
    r
}

/// Copies all of `buffer`.
pub fn copy_all(buffer: &[u8]) -> (r: Vec<u8>)
    ensures
        r@ == buffer@,
{
    let r: Vec<u8> = copy_range(buffer, 0, buffer.len());
    assert(r@ =~= buffer@);
    r
}

/// Adds to `script` one data transfer for each row that `rect` covers of `buffer`, a
/// buffer for rows of `width` pixels.
pub fn send_region(script: &mut Script, buffer: &[u8], width: usize, rect: &DirtyRect)
    requires
        width <= u16::MAX,
        region_fits(buffer@.len(), width as int / 8, *rect),
    ensures
        final(script)@ == old(script)@ + region_effects(buffer@, width as int / 8, *rect),
{
    let row: usize = width / 8;
    let ghost sent = region_effects(buffer@, row as int, *rect);
    let mut y: usize = rect.min_y as usize;
    assert(script@ =~= old(script)@ + sent.take(0));
    while y <= rect.max_y as usize
        invariant
            row == width as int / 8,
            width <= u16::MAX,
            region_fits(buffer@.len(), row as int, *rect),
            rect.min_y <= y <= rect.max_y + 1,
            sent == region_effects(buffer@, row as int, *rect),
            script@ == old(script)@ + sent.take(y - rect.min_y),
        decreases rect.max_y + 1 - y,
    {
        proof {
            assert(0 <= y * row <= rect.max_y * row <= 65535 * 8191) by (nonlinear_arith)
                requires
                    0 <= y <= rect.max_y <= 65535,
                    0 <= row <= 8191,
            ;
        }
        let start: usize = y * row + rect.min_byte_col as usize;
        let end: usize = y * row + rect.max_byte_col as usize + 1;
        let bytes: Vec<u8> = copy_range(buffer, start, end);
        let ghost before = script@;
        script.push(Step::Data(bytes));
        proof {
            let k = y - rect.min_y;
            assert(sent[k] == Effect::Data(bytes@));
            assert(sent.take(k + 1) =~= sent.take(k).push(sent[k]));
            assert(script@ =~= old(script)@ + sent.take(k + 1));
        }
        y += 1;
    }
    assert(sent.take(y - rect.min_y) =~= sent);
}

} // verus!
