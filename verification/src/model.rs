//! What a display is, and what its operations do, as mathematics.
use crate::color::EpdColor;
use crate::command::{Chip, Command, DataEntryMode, DeepSleepMode, IncrementAxis};
use crate::config::{ConfigView, Rotation};
use crate::script::Effect;
use crate::tools;
use crate::tools::DirtyRect;
use vstd::prelude::*;

verus! {

/// After this many fast refreshes, the next refresh of a large area is a full one.
pub const MAX_FAST_UPDATE_TIME: usize = 100;

/// Extent of the drawing surface in pixels.
#[derive(Debug, Clone, Copy, PartialEq, Eq, Structural)]
pub struct Size {
    pub width: u32,
    pub height: u32,
}

/// A point of the drawing surface and the colour it is to have.
#[derive(Debug, Clone, Copy, PartialEq, Eq, Structural)]
pub struct Pixel {
    pub x: i32,
    pub y: i32,
    pub color: EpdColor,
}

/// The kinds of refresh.
#[derive(Debug, Clone, Copy, PartialEq, Eq, Structural)]
pub enum Refresh {
    /// Every pixel, with the slow waveform that leaves no ghost image.
    Normal,
    /// Every pixel, with the fast waveform.
    Fast,
    /// The bytes of a rectangle only.
    Part(DirtyRect),
}

/// What a [`crate::Graphics`] holds: the panel, the number of updates, the number of fast
/// refreshes since the last full one, the refresh that was begun and neither finished nor
/// drawn over, a bit for each pixel drawn since the last update, and the planes.
pub struct GraphicsView {
    pub config: ConfigView,
    pub update_count: usize,
    pub fast_count: usize,
    pub pending: Option<Refresh>,
    pub dirty: Seq<u8>,
    pub black: Seq<u8>,
    pub red: Option<Seq<u8>>,
}

/// A command sent without naming a controller.
pub open spec fn execute(command: Command) -> Effect {
    Effect::Execute(command)
}

/// Starts the update sequence `control` and waits for its end.
pub open spec fn activate(control: u8) -> Seq<Effect> {
    seq![
        execute(Command::DisplayUpdateControl2(control)),
        execute(Command::MasterActivation),
        Effect::BusyWait,
    ]
}

/// Puts the controller to sleep and gives it a tenth of a second.
pub open spec fn deep_sleep_effects(mode: DeepSleepMode) -> Seq<Effect> {
    seq![execute(Command::DeepSleepMode(mode)), Effect::DelayMs(100)]
}

/// `total` copies of `value`, in data transfers of 32 bytes of which only the last
/// may be shorter.
pub open spec fn fill_effects(value: u8, total: int) -> Seq<Effect> {
    Seq::new(
        ((total + 31) / 32) as nat,
        |k: int|
            Effect::Data(
                Seq::new((if total - 32 * k < 32 { total - 32 * k } else { 32 }) as nat, |i: int| value),
            ),
    )
}

/// All data bytes of `effects`, in the order in which they are sent.
pub open spec fn payload(effects: Seq<Effect>) -> Seq<u8>
    decreases effects.len(),
{
    if effects.len() == 0 {
        Seq::empty()
    } else {
        payload(effects.drop_last()) + (match effects.last() {
            Effect::Data(bytes) => bytes,
            _ => Seq::empty(),
        })
    }
}

/// Where the controller stores the `n`-th byte that is written to a window: byte
/// column and row. It goes through the columns from `x_start` to `x_end`, then takes
/// the next row.
pub open spec fn ram_cell(mode: DataEntryMode, x_start: u8, x_end: u8, y_start: u16, n: int) -> (int, int) {
    match mode {
        DataEntryMode::IncrementYIncrementX => {
            let columns = x_end - x_start + 1;
            (x_start + n % columns, y_start + n / columns)
        },
        DataEntryMode::DecrementXIncrementY => {
            let columns = x_start - x_end + 1;
            (x_start - n % columns, y_start + n / columns)
        },
    }
}

/// The number of RAM byte columns of a controller of a cascaded panel.
pub open spec fn chip_bytes(chip_width: u16) -> u8 {
    (chip_width / 8) as u8
}

/// Hardware and software reset of a cascaded panel, then the loading of the waveform
/// for a fixed temperature.
pub open spec fn cascade_fast_mode1_effects() -> Seq<Effect> {
    seq![Effect::Reset, Effect::BusyWait, execute(Command::SoftReset), Effect::BusyWait]
        + seq![execute(Command::ReadTemperatureSensor(0x80))] + activate(0xB1)
        + seq![execute(Command::WriteTemperatureRegister(0x64, 0x00))] + activate(0x91)
        + seq![execute(Command::BorderWaveform(0x03)), Effect::BusyWait]
}

/// What `saturating_sub` gives.
pub open spec fn minus(a: int, b: int) -> int {
    if a < b { 0 } else { a - b }
}

impl GraphicsView {
    pub open spec fn width(self) -> int {
        self.config.width as int
    }

    pub open spec fn height(self) -> int {
        self.config.height as int
    }

    /// Bytes in a row of the frame buffer.
    pub open spec fn row(self) -> int {
        self.width() / 8
    }

    /// The panel is as wide as its controllers, a row of the frame buffer is made of whole
    /// bytes, no more fast refreshes follow on each other than may, and a refresh that was
    /// begun is still the one that is due, could be laid out, and can be counted.
    pub open spec fn wf(self) -> bool {
        &&& self.config.wf()
        &&& self.config.width % 8 == 0
        &&& self.fast_count <= MAX_FAST_UPDATE_TIME
        &&& self.pending is Some ==> self.begun() == self && self.can_update()
    }

    /// Index of the buffer byte that holds the point `(x, y)`.
    pub open spec fn byte_index(self, x: u32, y: u32) -> int {
        tools::byte_index(x as int, y as int, self.width(), self.height(), self.config.rotation)
    }

    /// The bit of its buffer byte that holds the point `(x, y)`.
    pub open spec fn bit_mask(self, x: u32, y: u32) -> u8 {
        tools::bit_mask(x as int, y as int, self.width(), self.height(), self.config.rotation)
    }

    /// Whether the buffers hold the point `(x, y)`.
    pub open spec fn holds(self, x: u32, y: u32) -> bool {
        &&& tools::has_byte_index(x as int, y as int, self.width(), self.height(), self.config.rotation)
        &&& self.byte_index(x, y) < self.dirty.len()
        &&& self.byte_index(x, y) < self.black.len()
        &&& self.red matches Some(red) ==> self.byte_index(x, y) < red.len()
    }

    /// Whether the panel can show `color`.
    pub open spec fn shows(self, color: EpdColor) -> bool {
        color == EpdColor::Red ==> self.red is Some
    }

    /// Whether the panel can show `pixel`, and the buffers hold it.
    pub open spec fn can_draw_pixel(self, pixel: Pixel) -> bool {
        self.holds(pixel.x as u32, pixel.y as u32) && self.shows(pixel.color)
    }

    /// Whether every one of `pixels` can be drawn.
    pub open spec fn can_draw(self, pixels: Seq<Pixel>) -> bool {
        forall|i: int| 0 <= i < pixels.len() ==> self.can_draw_pixel(#[trigger] pixels[i])
    }

    /// The point `(x, y)` drawn in `color`: its bit is set in the dirty buffer, and set
    /// or cleared in each plane as the colour says. No other bit changes. A refresh that
    /// was begun no longer covers everything that is marked.
    pub open spec fn with_pixel(self, x: u32, y: u32, color: EpdColor) -> GraphicsView {
        let i = self.byte_index(x, y);
        let bit = self.bit_mask(x, y);
        GraphicsView {
            dirty: self.dirty.update(i, self.dirty[i] | bit),
            black: with_bit(self.black, i, bit, color.spec_black_bit() == 1),
            red: match self.red {
                Some(red) => Some(with_bit(red, i, bit, color.spec_red_bit() == 1)),
                None => None,
            },
            pending: None,
            ..self
        }
    }

    /// Pixels drawn one after the other.
    pub open spec fn with_pixels(self, pixels: Seq<Pixel>) -> GraphicsView
        decreases pixels.len(),
    {
        if pixels.len() == 0 {
            self
        } else {
            let last = pixels.last();
            self.with_pixels(pixels.drop_last()).with_pixel(last.x as u32, last.y as u32, last.color)
        }
    }

    /// Extent of the drawing surface: that of the panel, with the sides swapped where
    /// it is turned by a quarter.
    pub open spec fn size(self) -> Size {
        let (width, height) = (self.config.width as u32, self.config.height as u32);
        match self.config.rotation {
            Rotation::Rotate0 | Rotation::Rotate180 => Size { width, height },
            Rotation::Rotate90 | Rotation::Rotate270 => Size { width: height, height: width },
        }
    }

    /// Whether `(x, y)` is a point of the drawing surface.
    pub open spec fn on_surface(self, x: u32, y: u32) -> bool {
        x < self.size().width && y < self.size().height
    }

    /// Whether every buffer has a bit for each pixel of the panel.
    pub open spec fn sized(self) -> bool {
        let len = self.width() * self.height() / 8;
        &&& len <= self.dirty.len()
        &&& len <= self.black.len()
        &&& self.red matches Some(red) ==> len <= red.len()
    }

    /// The colour that the planes give the point `(x, y)`.
    pub open spec fn color_at(self, x: u32, y: u32) -> EpdColor {
        let i = self.byte_index(x, y);
        let bit = self.bit_mask(x, y);
        if self.red is Some && self.red->0[i] & bit != 0 {
            EpdColor::Red
        } else if self.black[i] & bit != 0 {
            EpdColor::White
        } else {
            EpdColor::Black
        }
    }

    /// Whether the bit of the point `(x, y)` is set in `plane`.
    pub open spec fn bit_at(self, plane: Seq<u8>, x: u32, y: u32) -> bool {
        plane[self.byte_index(x, y)] & self.bit_mask(x, y) != 0
    }

    /// Whether the point `(x, y)` is marked as drawn.
    pub open spec fn is_marked(self, x: u32, y: u32) -> bool {
        self.bit_at(self.dirty, x, y)
    }

    /// The last RAM row that holds a row of the panel.
    pub open spec fn last_row(self) -> u16 {
        minus(self.height(), 1) as u16
    }

    /// The frame buffer's byte column that is the first of `chip`'s own RAM.
    pub open spec fn chip_col_offset(self, chip: Chip) -> u8 {
        match (chip, self.config.cascade) {
            (Chip::Slave, Some(chip_width)) => chip_bytes(chip_width),
            _ => 0,
        }
    }

    /// Sets the RAM window of `chip` to byte columns `col_start` to `col_end` of the
    /// frame buffer and rows `y_start` to `y_end`, and its address to the corner where
    /// writing starts. Columns are counted from the controller's own first column. The
    /// master is the one that is mounted mirror-wise: it counts its columns down.
    pub open spec fn address_effects(
        self,
        chip: Chip,
        col_start: u8,
        col_end: u8,
        y_start: u16,
        y_end: u16,
    ) -> Seq<Effect> {
        let offset = self.chip_col_offset(chip);
        let first = minus(col_start as int, offset as int) as u8;
        let last = minus(col_end as int, offset as int) as u8;
        let (mode, x_start, x_end) = match chip {
            Chip::Master => (DataEntryMode::DecrementXIncrementY, last, first),
            Chip::Slave => (DataEntryMode::IncrementYIncrementX, first, last),
        };
        seq![
            Effect::ExecuteOn(chip, Command::DataEntryMode(mode, IncrementAxis::Horizontal)),
            Effect::ExecuteOn(chip, Command::StartEndXPosition(x_start, x_end)),
            Effect::ExecuteOn(chip, Command::StartEndYPosition(y_start, y_end)),
            Effect::ExecuteOn(chip, Command::XAddress(x_start)),
            Effect::ExecuteOn(chip, Command::YAddress(y_start)),
            Effect::BusyWait,
        ]
    }

    /// Addresses the part `region` of the frame on `chip`.
    pub open spec fn address_region_effects(self, chip: Chip, region: DirtyRect) -> Seq<Effect> {
        self.address_effects(chip, region.min_byte_col, region.max_byte_col, region.min_y, region.max_y)
    }

    /// Writes the part `region` of the frame to the black and white RAM of `chip`.
    pub open spec fn chip_ram_effects(self, chip: Chip, region: DirtyRect) -> Seq<Effect> {
        self.address_region_effects(chip, region) + seq![Effect::ExecuteOn(chip, Command::WriteRamBW)]
            + tools::region_effects(self.black, self.row(), region)
    }

    /// Writes `value` to all of `region` in the RAM of `chip` that `plane` selects.
    pub open spec fn chip_fill_effects(
        self,
        chip: Chip,
        region: DirtyRect,
        plane: Command,
        value: u8,
    ) -> Seq<Effect> {
        self.address_region_effects(chip, region) + seq![Effect::ExecuteOn(chip, plane)] + fill_effects(
            value,
            (region.max_byte_col - region.min_byte_col + 1) * (region.max_y - region.min_y + 1),
        )
    }

    /// The part of the frame that `chip` is responsible for: the left half of every row
    /// for the master, the right half for the slave.
    pub open spec fn chip_region(self, chip: Chip, chip_width: u16) -> DirtyRect {
        let columns = chip_bytes(chip_width);
        match chip {
            Chip::Master => DirtyRect {
                min_byte_col: 0,
                max_byte_col: (columns - 1) as u8,
                min_y: 0,
                max_y: self.last_row(),
            },
            Chip::Slave => DirtyRect {
                min_byte_col: columns,
                max_byte_col: (2 * columns - 1) as u8,
                min_y: 0,
                max_y: self.last_row(),
            },
        }
    }

    /// Writes the whole frame to the black and white RAM of both controllers.
    pub open spec fn cascade_frame_effects(self, chip_width: u16) -> Seq<Effect> {
        self.chip_ram_effects(Chip::Master, self.chip_region(Chip::Master, chip_width))
            + self.chip_ram_effects(Chip::Slave, self.chip_region(Chip::Slave, chip_width))
    }

    /// White in the black and white RAM of `chip`, zero in its red RAM.
    pub open spec fn blank_effects(self, chip: Chip, chip_width: u16) -> Seq<Effect> {
        self.chip_fill_effects(chip, self.chip_region(chip, chip_width), Command::WriteRamBW, 0xFF)
            + self.chip_fill_effects(chip, self.chip_region(chip, chip_width), Command::WriteRamRed, 0x00)
    }

    /// The red RAM of `chip` as the reference image of a white screen.
    pub open spec fn reference_effects(self, chip: Chip, chip_width: u16) -> Seq<Effect> {
        self.chip_fill_effects(chip, self.chip_region(chip, chip_width), Command::WriteRamRed, 0xFF)
    }

    /// A full refresh of a cascaded panel to white. The red RAM, which later partial
    /// refreshes compare with, is then set to white as well.
    pub open spec fn cascade_clear_effects(self, chip_width: u16) -> Seq<Effect> {
        cascade_fast_mode1_effects() + self.blank_effects(Chip::Master, chip_width) + self.blank_effects(
            Chip::Slave,
            chip_width,
        ) + activate(0xF7) + self.reference_effects(Chip::Master, chip_width) + self.reference_effects(
            Chip::Slave,
            chip_width,
        )
    }

    /// A fast refresh of a cascaded panel to the frame.
    pub open spec fn cascade_fast_effects(self, chip_width: u16) -> Seq<Effect> {
        cascade_fast_mode1_effects() + self.cascade_frame_effects(chip_width) + activate(0xC7)
    }

    /// The last RAM byte column of a single controller.
    pub open spec fn last_col(self) -> u8 {
        (self.config.width / 8 - 1) as u8
    }

    /// Addresses byte columns 0 to the last and rows 0 to `height` of a single controller.
    pub open spec fn window_effects(self) -> Seq<Effect> {
        seq![
            execute(Command::DataEntryMode(DataEntryMode::IncrementYIncrementX, IncrementAxis::Horizontal)),
            execute(Command::StartEndXPosition(0x00, self.last_col())),
            execute(Command::StartEndYPosition(0x00, self.config.height)),
            execute(Command::XAddress(0x00)),
            execute(Command::YAddress(0x00)),
            Effect::BusyWait,
        ]
    }

    /// A full refresh. A single controller is sent the frame for its black and white RAM,
    /// and for its red RAM the red plane or, where the panel has none, the frame again.
    /// A cascaded panel is cleared, and then gets the frame by a fast refresh.
    pub open spec fn normal_effects(self) -> Seq<Effect> {
        match self.config.cascade {
            Some(chip_width) => self.cascade_clear_effects(chip_width) + self.cascade_fast_effects(chip_width),
            None => seq![
                Effect::Reset,
                Effect::BusyWait,
                execute(Command::SoftReset),
                Effect::BusyWait,
                execute(Command::DriverOutputControl(self.config.height, 0x00)),
                execute(Command::DisplayUpdateControl1(0x4000)),
                execute(Command::BorderWaveform(0x05)),
            ] + self.window_effects() + seq![
                execute(Command::WriteRamBW),
                Effect::Data(self.black),
                execute(Command::WriteRamRed),
                Effect::Data(
                    match self.red {
                        Some(red) => red,
                        None => self.black,
                    },
                ),
            ] + activate(0xF7),
        }
    }

    /// A fast refresh of every pixel. The red RAM is written only on panels with red.
    pub open spec fn fast_effects(self) -> Seq<Effect> {
        match self.config.cascade {
            Some(chip_width) => self.cascade_fast_effects(chip_width),
            None => seq![
                Effect::Reset,
                execute(Command::SoftReset),
                Effect::BusyWait,
                execute(Command::DisplayUpdateControl1(0x4000)),
                execute(Command::BorderWaveform(0x05)),
                execute(Command::WriteTemperatureSensor(0x6E)),
                execute(Command::DisplayUpdateControl2(0x91)),
                execute(Command::MasterActivation),
            ] + self.window_effects() + seq![execute(Command::WriteRamBW), Effect::Data(self.black)] + (
            match self.red {
                Some(red) => seq![execute(Command::WriteRamRed), Effect::Data(red)],
                None => seq![],
            }) + activate(0xC7),
        }
    }

    /// A partial refresh. A single controller gets the bytes of `rect` only; a cascaded
    /// panel gets the whole frame and finds the difference itself.
    pub open spec fn part_effects(self, rect: DirtyRect) -> Seq<Effect> {
        match self.config.cascade {
            Some(chip_width) => seq![Effect::Reset] + self.cascade_frame_effects(chip_width) + activate(0xDC),
            None => seq![
                Effect::Reset,
                execute(Command::DisplayUpdateControl1(0x0000)),
                execute(Command::BorderWaveform(0x80)),
                execute(Command::StartEndXPosition(rect.min_byte_col, rect.max_byte_col)),
                execute(Command::StartEndYPosition(rect.min_y, rect.max_y)),
                execute(Command::XAddress(rect.min_byte_col)),
                execute(Command::YAddress(rect.min_y)),
                execute(Command::WriteRamBW),
            ] + tools::region_effects(self.black, self.row(), rect) + (match self.red {
                Some(red) => seq![execute(Command::WriteRamRed)] + tools::region_effects(red, self.row(), rect),
                None => seq![],
            }) + activate(0xFF),
        }
    }

    /// What each kind of refresh does.
    pub open spec fn refresh_effects(self, refresh: Refresh) -> Seq<Effect> {
        match refresh {
            Refresh::Normal => self.normal_effects(),
            Refresh::Fast => self.fast_effects(),
            Refresh::Part(rect) => self.part_effects(rect),
        }
    }

    /// Whether `rect` is more than half as wide and more than half as high as the panel.
    pub open spec fn is_large(self, rect: DirtyRect) -> bool {
        &&& rect.max_byte_col - rect.min_byte_col > (self.config.width / 16) as u8
        &&& rect.max_y - rect.min_y > self.config.height / 2
    }

    /// The refresh that is due. The first is a full one. After that there is none while
    /// nothing was drawn; a large area gets a fast refresh, or a full one once there
    /// have been enough fast ones; a smaller area gets a partial refresh.
    pub open spec fn due(self) -> Option<Refresh> {
        if self.update_count == 0 {
            Some(Refresh::Normal)
        } else {
            match tools::dirty_area(self.dirty, self.row()) {
                None => None,
                Some(rect) => if !self.is_large(rect) {
                    Some(Refresh::Part(rect))
                } else if self.fast_count >= MAX_FAST_UPDATE_TIME {
                    Some(Refresh::Normal)
                } else {
                    Some(Refresh::Fast)
                },
            }
        }
    }

    /// Once the refresh that is due has begun. A full one that is not the first starts the
    /// number of updates over.
    pub open spec fn begun(self) -> GraphicsView {
        GraphicsView {
            update_count: if self.due() == Some(Refresh::Normal) && self.update_count > 0 {
                1
            } else {
                self.update_count
            },
            pending: self.due(),
            ..self
        }
    }

    /// Once the refresh that was begun has succeeded: nothing is left to refresh, and the
    /// update counts. A fast refresh adds to the number of fast ones, a full one sets it
    /// to zero, and a partial one leaves it.
    pub open spec fn finished(self) -> GraphicsView {
        GraphicsView {
            dirty: Seq::new(self.dirty.len(), |i: int| 0u8),
            update_count: (self.update_count + 1) as usize,
            fast_count: match self.pending {
                Some(Refresh::Normal) => 0,
                Some(Refresh::Fast) => (self.fast_count + 1) as usize,
                _ => self.fast_count,
            },
            pending: None,
            ..self
        }
    }

    /// Once an update has succeeded.
    pub open spec fn updated(self) -> GraphicsView {
        self.begun().finished()
    }

    /// Whether the columns of each controller of a cascaded panel can be told apart in
    /// 8 bits, and the black and white plane holds a whole frame.
    pub open spec fn cascade_fits(self, chip_width: u16) -> bool {
        &&& 1 <= chip_bytes(chip_width) <= 127
        &&& tools::region_fits(self.black.len(), self.row(), self.chip_region(Chip::Slave, chip_width))
    }

    /// Whether `refresh` can be laid out: the panel has a column, and the planes hold
    /// what is to be sent.
    pub open spec fn can_refresh(self, refresh: Refresh) -> bool {
        match self.config.cascade {
            Some(chip_width) => self.cascade_fits(chip_width),
            None => match refresh {
                Refresh::Normal | Refresh::Fast => self.config.width >= 8,
                Refresh::Part(rect) => {
                    &&& tools::region_fits(self.black.len(), self.row(), rect)
                    &&& self.red matches Some(red) ==> tools::region_fits(red.len(), self.row(), rect)
                },
            },
        }
    }

    /// Whether the display can be updated: the changed area can be worked out, the
    /// refresh that is due can be laid out, and it can be counted.
    pub open spec fn can_update(self) -> bool {
        &&& self.update_count > 0 ==> tools::has_dirty_area(self.dirty, self.row())
        &&& self.due() matches Some(refresh) ==> {
            &&& self.can_refresh(refresh)
            &&& self.begun().update_count < usize::MAX
        }
    }
}

/// `bytes` with the bits `bit` of byte `i` set or cleared.
pub open spec fn with_bit(bytes: Seq<u8>, i: int, bit: u8, set: bool) -> Seq<u8> {
    bytes.update(
        i,
        if set {
            bytes[i] | bit
        } else {
            bytes[i] & !bit
        },
    )
}

/// Once a refresh has begun, beginning again changes nothing. Once it has succeeded, the
/// display can be updated, and has nothing to refresh.
pub proof fn lemma_update_steps(g: GraphicsView)
    ensures
        g.begun().begun() == g.begun(),
        g.can_update() ==> g.begun().can_update(),
        g.wf() && g.pending is Some ==> g.finished().can_update() && g.finished().due() is None,
{
    if g.wf() && g.pending is Some {
        tools::lemma_clean_has_no_dirty_area(g.finished().dirty, g.row());
    }
}

/// Drawing changes neither the panel, nor what is counted, nor the size of a buffer.
pub proof fn lemma_drawing_keeps_shape(g: GraphicsView, pixels: Seq<Pixel>)
    requires
        g.can_draw(pixels),
    ensures
        g.with_pixels(pixels).config == g.config,
        g.with_pixels(pixels).update_count == g.update_count,
        g.with_pixels(pixels).fast_count == g.fast_count,
        g.wf() ==> g.with_pixels(pixels).wf(),
        g.with_pixels(pixels).dirty.len() == g.dirty.len(),
        g.with_pixels(pixels).black.len() == g.black.len(),
        g.with_pixels(pixels).red is Some <==> g.red is Some,
        g.red is Some ==> g.with_pixels(pixels).red->0.len() == g.red->0.len(),
    decreases pixels.len(),
{
    if pixels.len() > 0 {
        let rest = pixels.drop_last();
        assert forall|i: int| 0 <= i < rest.len() implies g.can_draw_pixel(#[trigger] rest[i]) by {
            assert(g.can_draw_pixel(pixels[i]));
        }
        assert(g.can_draw_pixel(pixels.last()));
        lemma_drawing_keeps_shape(g, rest);
    }
}

} // verus!
