//! The display: frame buffers, drawing and the planning of refreshes.
use crate::color::EpdColor;
use crate::command::{Chip, Command, DataEntryMode, DeepSleepMode, IncrementAxis};
use crate::config::{CascadeConfig, Config, Rotation};
use crate::model;
use crate::model::{GraphicsView, Pixel, Refresh, Size, MAX_FAST_UPDATE_TIME};
use crate::script::{Effect, Script, Step};
use crate::tools;
use crate::tools::{calculate_dirty_area, can_calculate_dirty_area, copy_all, rotation, send_region, DirtyRect};
use vstd::prelude::*;

verus! {

/// Bytes of a frame buffer with one bit for each of `width` by `height` pixels.
/// `width` has to be a multiple of 8.
pub fn buffer_size(width: u16, height: u16) -> (r: usize)
    ensures
        r == width * height / 8,
{
    assert(0 <= width * height <= 65535 * 65535) by (nonlinear_arith)
        requires
            0 <= width <= 65535,
            0 <= height <= 65535,
    ;
    (width as usize) * (height as usize) / 8
}

/// A display with its frame buffers. The buffer for red is there on panels with red
/// pigment only.
pub struct Graphics<'buf> {
    config: Config,
    update_count: usize,
    fast_count: usize,
    pending: Option<Refresh>,
    dirty_buffer: &'buf mut [u8],
    black_buffer: &'buf mut [u8],
    red_buffer: Option<&'buf mut [u8]>,
}

impl<'buf> View for Graphics<'buf> {
    type V = GraphicsView;

    closed spec fn view(&self) -> GraphicsView {
        GraphicsView {
            config: self.config@,
            update_count: self.update_count,
            fast_count: self.fast_count,
            pending: self.pending,
            dirty: self.dirty_buffer@,
            black: self.black_buffer@,
            red: match self.red_buffer {
                Some(red) => Some(red@),
                None => None,
            },
        }
    }
}

impl<'buf> Graphics<'buf> {
    /// The borrow of the dirty buffer.
    pub closed spec fn dirty_borrow(&self) -> &'buf mut [u8] {
        self.dirty_buffer
    }

    /// The borrow of the black and white plane.
    pub closed spec fn black_borrow(&self) -> &'buf mut [u8] {
        self.black_buffer
    }

    /// The borrow of the red plane.
    pub closed spec fn red_borrow(&self) -> Option<&'buf mut [u8]> {
        self.red_buffer
    }

    /// A display for a panel without red. The buffers are taken as they are.
    pub fn new(config: Config, dirty_buffer: &'buf mut [u8], black_buffer: &'buf mut [u8]) -> (r: Self)
        requires
            config@.width % 8 == 0,
        ensures
            r@ == (GraphicsView {
                config: config@,
                update_count: 0,
                fast_count: 0,
                pending: None,
                dirty: old(dirty_buffer)@,
                black: old(black_buffer)@,
                red: None,
            }),
            r@.wf(),
            final(r.dirty_borrow())@ == final(dirty_buffer)@,
            final(r.black_borrow())@ == final(black_buffer)@,
            r.red_borrow() is None,
    {
        proof {
            use_type_invariant(&config);
        }
        Graphics {
            config,
            update_count: 0,
            fast_count: 0,
            pending: None,
            dirty_buffer,
            black_buffer,
            red_buffer: None,
        }
    }

    /// A display for a panel with red. The buffers are taken as they are.
    pub fn new_with_red(
        config: Config,
        dirty_buffer: &'buf mut [u8],
        black_buffer: &'buf mut [u8],
        red_buffer: &'buf mut [u8],
    ) -> (r: Self)
        requires
            config@.width % 8 == 0,
        ensures
            r@ == (GraphicsView {
                config: config@,
                update_count: 0,
                fast_count: 0,
                pending: None,
                dirty: old(dirty_buffer)@,
                black: old(black_buffer)@,
                red: Some(old(red_buffer)@),
            }),
            r@.wf(),
            final(r.dirty_borrow())@ == final(dirty_buffer)@,
            final(r.black_borrow())@ == final(black_buffer)@,
            r.red_borrow() matches Some(red) && final(red)@ == final(red_buffer)@,
    {
        proof {
            use_type_invariant(&config);
        }
        Graphics {
            config,
            update_count: 0,
            fast_count: 0,
            pending: None,
            dirty_buffer,
            black_buffer,
            red_buffer: Some(red_buffer),
        }
    }

    /// The frame buffer's byte column that is the first of `chip`'s own RAM.
    fn chip_col_offset(&self, chip: Chip) -> (r: u8)
        ensures
            r == self@.chip_col_offset(chip),
    {
        match (chip, self.config.cascade()) {
            (Chip::Slave, Some(cascade)) => (cascade.chip_width() / 8) as u8,
            _ => 0,
        }
    }

    /// Addresses byte columns `col_start` to `col_end` of the frame buffer, and rows
    /// `y_start` to `y_end`, on one controller of a cascaded panel.
    fn address_cascade_chip_ram(
        &self,
        script: &mut Script,
        chip: Chip,
        col_start: u8,
        col_end: u8,
        y_start: u16,
        y_end: u16,
    )
        ensures
            final(script)@ == old(script)@ + self@.address_effects(chip, col_start, col_end, y_start, y_end),
    {
        let offset: u8 = self.chip_col_offset(chip);
        let local_start: u8 = col_start.saturating_sub(offset);
        let local_end: u8 = col_end.saturating_sub(offset);
        let (mode, x_start, x_end, x_addr) = match chip {
            Chip::Master => (DataEntryMode::DecrementXIncrementY, local_end, local_start, local_end),
            Chip::Slave => (DataEntryMode::IncrementYIncrementX, local_start, local_end, local_start),
        };
        script.push(Step::ExecuteOn(chip, Command::DataEntryMode(mode, IncrementAxis::Horizontal)));
        script.push(Step::ExecuteOn(chip, Command::StartEndXPosition(x_start, x_end)));
        script.push(Step::ExecuteOn(chip, Command::StartEndYPosition(y_start, y_end)));
        script.push(Step::ExecuteOn(chip, Command::XAddress(x_addr)));
        script.push(Step::ExecuteOn(chip, Command::YAddress(y_start)));
        script.push(Step::BusyWait);
        assert(script@ =~= old(script)@ + self@.address_effects(chip, col_start, col_end, y_start, y_end));
    }

    /// Writes byte columns `col_start` to `col_end` of the frame buffer, in rows
    /// `y_start` to `y_end`, to the black and white RAM of one controller.
    fn write_cascade_chip_ram(
        &self,
        script: &mut Script,
        chip: Chip,
        col_start: u8,
        col_end: u8,
        y_start: u16,
        y_end: u16,
    )
        requires
            tools::region_fits(
                self@.black.len(),
                self@.row(),
                (DirtyRect { min_byte_col: col_start, max_byte_col: col_end, min_y: y_start, max_y: y_end }),
            ),
        ensures
            final(script)@ == old(script)@ + self@.chip_ram_effects(
                chip,
                (DirtyRect { min_byte_col: col_start, max_byte_col: col_end, min_y: y_start, max_y: y_end }),
            ),
    {
        self.address_cascade_chip_ram(script, chip, col_start, col_end, y_start, y_end);
        let region: DirtyRect = DirtyRect {
            min_byte_col: col_start,
            max_byte_col: col_end,
            min_y: y_start,
            max_y: y_end,
        };
        script.push(Step::ExecuteOn(chip, Command::WriteRamBW));
        send_region(script, &*self.black_buffer, self.config.width() as usize, &region);
        assert(script@ =~= old(script)@ + self@.chip_ram_effects(chip, region));
    }

    /// Writes the whole frame to the black and white RAM of both controllers of a
    /// cascaded panel.
    fn write_cascade_frame(&self, script: &mut Script, cascade: CascadeConfig)
        requires
            self@.cascade_fits(cascade@),
        ensures
            final(script)@ == old(script)@ + self@.cascade_frame_effects(cascade@),
    {
        let chip_width_bytes: u8 = (cascade.chip_width() / 8) as u8;
        let y_end: u16 = self.config.height().saturating_sub(1);
        self.write_cascade_chip_ram(script, Chip::Master, 0, chip_width_bytes - 1, 0, y_end);
        self.write_cascade_chip_ram(
            script,
            Chip::Slave,
            chip_width_bytes,
            chip_width_bytes * 2 - 1,
            0,
            y_end,
        );
        assert(script@ =~= old(script)@ + self@.cascade_frame_effects(cascade@));
    }

    /// Fills a part of one RAM of one controller with a constant.
    fn fill_cascade_chip_plane(
        &self,
        script: &mut Script,
        chip: Chip,
        region: &DirtyRect,
        write_cmd: Command,
        value: u8,
    )
        requires
            0 <= region.max_byte_col - region.min_byte_col < u8::MAX,
            0 <= region.max_y - region.min_y < u16::MAX,
        ensures
            final(script)@ == old(script)@ + self@.chip_fill_effects(chip, *region, write_cmd, value),
    {
        self.address_cascade_chip_ram(
            script,
            chip,
            region.min_byte_col,
            region.max_byte_col,
            region.min_y,
            region.max_y,
        );
        let columns: usize = (region.max_byte_col - region.min_byte_col + 1) as usize;
        let rows: usize = (region.max_y - region.min_y + 1) as usize;
        assert(0 <= columns * rows <= 255 * 65535) by (nonlinear_arith)
            requires
                0 <= columns <= 255,
                0 <= rows <= 65535,
        ;
        let total_bytes: usize = columns * rows;
        script.push(Step::ExecuteOn(chip, write_cmd));
        let ghost before = script@;
        let ghost filled = model::fill_effects(value, total_bytes as int);
        let ghost mut k: int = 0;
        let mut remaining: usize = total_bytes;
        assert(script@ =~= before + filled.take(0));
        while remaining > 0
            invariant
                total_bytes <= 255 * 65535,
                remaining <= total_bytes,
                0 <= k <= filled.len(),
                remaining > 0 ==> total_bytes - remaining == 32 * k,
                remaining == 0 ==> k == filled.len(),
                filled == model::fill_effects(value, total_bytes as int),
                script@ == before + filled.take(k),
            decreases remaining,
        {
            let n: usize = if remaining < 32 { remaining } else { 32 };
            let chunk: Vec<u8> = repeated(value, n);
            script.push(Step::Data(chunk));
            proof {
                assert(k < filled.len());
                assert(filled[k] =~= Effect::Data(chunk@)) by {
                    assert(filled[k]->Data_0 =~= chunk@);
                }
                assert(filled.take(k + 1) =~= filled.take(k).push(filled[k]));
                assert(script@ =~= before + filled.take(k + 1));
                k = k + 1;
            }
            remaining -= n;
        }
        assert(filled.take(k) =~= filled);
        assert(script@ =~= old(script)@ + self@.chip_fill_effects(chip, *region, write_cmd, value));
    }

    /// Starts the update sequence `control` and waits for its end.
    fn activate(script: &mut Script, control: u8)
        ensures
            final(script)@ == old(script)@ + model::activate(control),
    {
        script.push(Step::Execute(Command::DisplayUpdateControl2(control)));
        script.push(Step::Execute(Command::MasterActivation));
        script.push(Step::BusyWait);
        assert(script@ =~= old(script)@ + model::activate(control));
    }

    /// Resets a cascaded panel and loads the waveform of the fast refresh.
    fn cascade_fast_mode1_init(script: &mut Script)
        ensures
            final(script)@ == old(script)@ + model::cascade_fast_mode1_effects(),
    {
        script.push(Step::Reset);
        script.push(Step::BusyWait);
        script.push(Step::Execute(Command::SoftReset));
        script.push(Step::BusyWait);

        script.push(Step::Execute(Command::ReadTemperatureSensor(0x80)));
        Self::activate(script, 0xB1);

        script.push(Step::Execute(Command::WriteTemperatureRegister(0x64, 0x00)));
        Self::activate(script, 0x91);

        script.push(Step::Execute(Command::BorderWaveform(0x03)));
        script.push(Step::BusyWait);
        assert(script@ =~= old(script)@ + model::cascade_fast_mode1_effects());
    }

    /// Lays out a full refresh of a cascaded panel to white.
    pub fn cascade_display_clear(&self, script: &mut Script, cascade: CascadeConfig)
        requires
            1 <= model::chip_bytes(cascade@) <= 127,
        ensures
            final(script)@ == old(script)@ + self@.cascade_clear_effects(cascade@),
    {
        Self::cascade_fast_mode1_init(script);

        let chip_width_bytes: u8 = (cascade.chip_width() / 8) as u8;
        let y_end: u16 = self.config.height().saturating_sub(1);
        let left: DirtyRect = DirtyRect {
            min_byte_col: 0,
            max_byte_col: chip_width_bytes - 1,
            min_y: 0,
            max_y: y_end,
        };
        let right: DirtyRect = DirtyRect {
            min_byte_col: chip_width_bytes,
            max_byte_col: chip_width_bytes * 2 - 1,
            min_y: 0,
            max_y: y_end,
        };
        self.fill_cascade_chip_plane(script, Chip::Master, &left, Command::WriteRamBW, 0xFF);
        self.fill_cascade_chip_plane(script, Chip::Master, &left, Command::WriteRamRed, 0x00);
        self.fill_cascade_chip_plane(script, Chip::Slave, &right, Command::WriteRamBW, 0xFF);
        self.fill_cascade_chip_plane(script, Chip::Slave, &right, Command::WriteRamRed, 0x00);
        Self::activate(script, 0xF7);

        // A partial refresh takes the red RAM as the old image. The screen is white now,
        // so the red RAM has to be white too.
        self.fill_cascade_chip_plane(script, Chip::Master, &left, Command::WriteRamRed, 0xFF);
        self.fill_cascade_chip_plane(script, Chip::Slave, &right, Command::WriteRamRed, 0xFF);
        assert(script@ =~= old(script)@ + self@.cascade_clear_effects(cascade@));
    }

    /// Lays out a fast refresh of a cascaded panel to the frame.
    pub fn cascade_fast_activate(&self, script: &mut Script, cascade: CascadeConfig)
        requires
            self@.cascade_fits(cascade@),
        ensures
            final(script)@ == old(script)@ + self@.cascade_fast_effects(cascade@),
    {
        Self::cascade_fast_mode1_init(script);
        self.write_cascade_frame(script, cascade);
        Self::activate(script, 0xC7);
        assert(script@ =~= old(script)@ + self@.cascade_fast_effects(cascade@));
    }

    /// Addresses byte columns 0 to the last and rows 0 to `height` of a single controller.
    fn address_window(&self, script: &mut Script)
        requires
            self@.config.width >= 8,
        ensures
            final(script)@ == old(script)@ + self@.window_effects(),
    {
        script.push(
            Step::Execute(
                Command::DataEntryMode(DataEntryMode::IncrementYIncrementX, IncrementAxis::Horizontal),
            ),
        );
        script.push(
            Step::Execute(Command::StartEndXPosition(0x00, (self.config.width() / 8 - 1) as u8)),
        );
        script.push(Step::Execute(Command::StartEndYPosition(0x00, self.config.height())));
        script.push(Step::Execute(Command::XAddress(0x00)));
        script.push(Step::Execute(Command::YAddress(0x00)));
        script.push(Step::BusyWait);
        assert(script@ =~= old(script)@ + self@.window_effects());
    }

    /// Lays out a full refresh.
    pub fn update_normal(&self, script: &mut Script)
        requires
            self@.can_refresh(Refresh::Normal),
        ensures
            final(script)@ == old(script)@ + self@.normal_effects(),
    {
        if let Some(cascade) = self.config.cascade() {
            // These panels show an image well only if it is not written by the full refresh
            // itself: that one clears the screen, and a fast refresh follows with the image.
            self.cascade_display_clear(script, cascade);
            self.cascade_fast_activate(script, cascade);
            assert(script@ =~= old(script)@ + self@.normal_effects());
            return;
        }
        // init
        script.push(Step::Reset);
        script.push(Step::BusyWait);
        script.push(Step::Execute(Command::SoftReset));
        script.push(Step::BusyWait);

        script.push(Step::Execute(Command::DriverOutputControl(self.config.height(), 0x00)));
        script.push(Step::Execute(Command::DisplayUpdateControl1(0x4000)));
        script.push(Step::Execute(Command::BorderWaveform(0x05)));
        self.address_window(script);

        // write data
        script.push(Step::Execute(Command::WriteRamBW));
        script.push(Step::Data(copy_all(&*self.black_buffer)));
        script.push(Step::Execute(Command::WriteRamRed));
        match &self.red_buffer {
            Some(red_buffer) => {
                script.push(Step::Data(copy_all(&**red_buffer)));
            },
            None => {
                // The image that partial refreshes compare with.
                script.push(Step::Data(copy_all(&*self.black_buffer)));
            },
        }

        // refresh
        Self::activate(script, 0xF7);
        assert(script@ =~= old(script)@ + self@.normal_effects());
    }

    /// Lays out a fast refresh of every pixel.
    pub fn update_fast(&self, script: &mut Script)
        requires
            self@.can_refresh(Refresh::Fast),
        ensures
            final(script)@ == old(script)@ + self@.fast_effects(),
    {
        if let Some(cascade) = self.config.cascade() {
            self.cascade_fast_activate(script, cascade);
            return;
        }
        // init
        script.push(Step::Reset);
        script.push(Step::Execute(Command::SoftReset));
        script.push(Step::BusyWait);

        script.push(Step::Execute(Command::DisplayUpdateControl1(0x4000)));
        script.push(Step::Execute(Command::BorderWaveform(0x05)));
        script.push(Step::Execute(Command::WriteTemperatureSensor(0x6E)));
        script.push(Step::Execute(Command::DisplayUpdateControl2(0x91)));
        script.push(Step::Execute(Command::MasterActivation));
        self.address_window(script);

        // write data
        script.push(Step::Execute(Command::WriteRamBW));
        script.push(Step::Data(copy_all(&*self.black_buffer)));
        if let Some(red_buffer) = &self.red_buffer {
            script.push(Step::Execute(Command::WriteRamRed));
            script.push(Step::Data(copy_all(&**red_buffer)));
        }

        // refresh
        Self::activate(script, 0xC7);
        assert(script@ =~= old(script)@ + self@.fast_effects());
    }

    /// Lays out a partial refresh, of the bytes of `dirty_rect`.
    pub fn update_part(&self, script: &mut Script, dirty_rect: DirtyRect)
        requires
            self@.can_refresh(Refresh::Part(dirty_rect)),
        ensures
            final(script)@ == old(script)@ + self@.part_effects(dirty_rect),
    {
        // init
        script.push(Step::Reset);

        if let Some(cascade) = self.config.cascade() {
            // The border waveform of the fast refresh stays in force. The controllers get
            // the whole frame and compare it with their red RAM themselves.
            self.write_cascade_frame(script, cascade);
            Self::activate(script, 0xDC);
            assert(script@ =~= old(script)@ + self@.part_effects(dirty_rect));
            return;
        }
        script.push(Step::Execute(Command::DisplayUpdateControl1(0x0000)));
        script.push(Step::Execute(Command::BorderWaveform(0x80)));

        script.push(
            Step::Execute(Command::StartEndXPosition(dirty_rect.min_byte_col, dirty_rect.max_byte_col)),
        );
        script.push(Step::Execute(Command::StartEndYPosition(dirty_rect.min_y, dirty_rect.max_y)));
        script.push(Step::Execute(Command::XAddress(dirty_rect.min_byte_col)));
        script.push(Step::Execute(Command::YAddress(dirty_rect.min_y)));

        // write data
        let width: usize = self.config.width() as usize;
        script.push(Step::Execute(Command::WriteRamBW));
        send_region(script, &*self.black_buffer, width, &dirty_rect);
        if let Some(red_buffer) = &self.red_buffer {
            script.push(Step::Execute(Command::WriteRamRed));
            send_region(script, &**red_buffer, width, &dirty_rect);
        }

        // refresh
        Self::activate(script, 0xFF);
        assert(script@ =~= old(script)@ + self@.part_effects(dirty_rect));
    }

    /// The refresh that the next update is going to make.
    pub fn due(&self) -> (r: Option<Refresh>)
        requires
            self@.update_count > 0 ==> tools::has_dirty_area(self@.dirty, self@.row()),
        ensures
            r == self@.due(),
            r matches Some(Refresh::Part(rect)) ==> tools::is_dirty_area(self@.dirty, self@.row(), Some(rect)),
    {
        if self.update_count == 0 {
            return Some(Refresh::Normal);
        }
        let width: u16 = self.config.width();
        let dirty_rect: DirtyRect = match calculate_dirty_area(&*self.dirty_buffer, width as u32) {
            None => {
                return None;
            },
            Some(dirty_rect) => dirty_rect,
        };
        if dirty_rect.max_byte_col - dirty_rect.min_byte_col > (width / 16) as u8 && dirty_rect.max_y
            - dirty_rect.min_y > self.config.height() / 2 {
            if self.fast_count >= MAX_FAST_UPDATE_TIME {
                Some(Refresh::Normal)
            } else {
                Some(Refresh::Fast)
            }
        } else {
            Some(Refresh::Part(dirty_rect))
        }
    }

    /// Whether [`Graphics::update`] can be called.
    pub fn can_update(&self) -> (r: bool)
        ensures
            r == self@.can_update(),
    {
        if self.update_count > 0 && !can_calculate_dirty_area(
            &*self.dirty_buffer,
            self.config.width() as u32,
        ) {
            return false;
        }
        match self.due() {
            None => true,
            Some(refresh) => {
                let count: usize = match refresh {
                    Refresh::Normal if self.update_count > 0 => 1,
                    _ => self.update_count,
                };
                count < usize::MAX && self.can_refresh(refresh)
            },
        }
    }

    /// Whether `refresh` can be laid out.
    pub fn can_refresh(&self, refresh: Refresh) -> (r: bool)
        ensures
            r == self@.can_refresh(refresh),
    {
        let row: usize = (self.config.width() / 8) as usize;
        match self.config.cascade() {
            Some(cascade) => {
                let columns: u8 = (cascade.chip_width() / 8) as u8;
                if columns < 1 || columns > 127 {
                    return false;
                }
                let region: DirtyRect = DirtyRect {
                    min_byte_col: columns,
                    max_byte_col: columns * 2 - 1,
                    min_y: 0,
                    max_y: self.config.height().saturating_sub(1),
                };
                region_fits(self.black_buffer.len(), row, &region)
            },
            None => match refresh {
                Refresh::Normal | Refresh::Fast => self.config.width() >= 8,
                Refresh::Part(rect) => {
                    region_fits(self.black_buffer.len(), row, &rect) && match &self.red_buffer {
                        Some(red_buffer) => region_fits(red_buffer.len(), row, &rect),
                        None => true,
                    }
                },
            },
        }
    }

    /// Begins an update: decides which refresh is due and lays it out. With `None` the
    /// update is over. Otherwise the script is to be performed, and if all of it
    /// succeeds [`Graphics::finish_update`] is to be called. If it fails, the update is
    /// over too: what was drawn stays marked and goes into the next update.
    pub fn update(&mut self) -> (r: Option<Script>)
        requires
            old(self)@.can_update(),
        ensures
            match old(self)@.due() {
                None => r is None,
                Some(refresh) => r matches Some(script) && script@ == old(self)@.refresh_effects(refresh),
            },
            final(self)@ == old(self)@.begun(),
            final(self)@.can_update(),
            old(self)@.wf() ==> final(self)@.wf(),
            final(final(self).dirty_borrow())@ == final(old(self).dirty_borrow())@,
            final(final(self).black_borrow())@ == final(old(self).black_borrow())@,
            final(self).red_borrow() is Some <==> old(self).red_borrow() is Some,
            old(self).red_borrow() matches Some(red) ==> final(final(self).red_borrow()->0)@ == final(red)@,
    {
        proof {
            model::lemma_update_steps(self@);
        }
        let refresh: Refresh = match self.due() {
            None => {
                self.pending = None;
                return None;
            },
            Some(refresh) => refresh,
        };
        self.pending = Some(refresh);
        let mut script: Script = Script::new();
        match refresh {
            Refresh::Normal => {
                if self.update_count > 0 {
                    self.update_count = 1;
                }
                self.update_normal(&mut script);
            },
            Refresh::Fast => {
                self.update_fast(&mut script);
            },
            Refresh::Part(dirty_rect) => {
                self.update_part(&mut script, dirty_rect);
            },
        }
        assert(script@ =~= old(self)@.refresh_effects(refresh));
        Some(script)
    }

    /// Ends an update whose script was performed, with nothing drawn since it was begun:
    /// nothing is marked any more, the update counts, and the controller is to be put to
    /// sleep with its RAM preserved.
    pub fn finish_update(&mut self) -> (r: Script)
        requires
            old(self)@.wf(),
            old(self)@.pending is Some,
        ensures
            final(self)@ == old(self)@.finished(),
            final(self)@.wf(),
            final(self)@.can_update(),
            final(self)@.due() is None,
            final(final(self).dirty_borrow())@ == final(old(self).dirty_borrow())@,
            final(final(self).black_borrow())@ == final(old(self).black_borrow())@,
            final(self).red_borrow() is Some <==> old(self).red_borrow() is Some,
            old(self).red_borrow() matches Some(red) ==> final(final(self).red_borrow()->0)@ == final(red)@,
            r@ == model::deep_sleep_effects(DeepSleepMode::PreserveRAM),
    {
        proof {
            model::lemma_update_steps(self@);
        }
        let mut i: usize = 0;
        while i < self.dirty_buffer.len()
            invariant
                i <= self@.dirty.len(),
                self@ == (GraphicsView { dirty: self@.dirty, ..old(self)@ }),
                self@.dirty.len() == old(self)@.dirty.len(),
                forall|j: int| 0 <= j < i ==> self@.dirty[j] == 0,
                final(self.dirty_borrow())@ == final(old(self).dirty_borrow())@,
                final(self.black_borrow())@ == final(old(self).black_borrow())@,
                self.red_borrow() is Some <==> old(self).red_borrow() is Some,
                old(self).red_borrow() matches Some(red) ==> final(self.red_borrow()->0)@ == final(red)@,
            decreases self@.dirty.len() - i,
        {
            self.dirty_buffer[i] = 0;
            i += 1;
        }
        match self.pending {
            Some(Refresh::Normal) => {
                self.fast_count = 0;
            },
            Some(Refresh::Fast) => {
                self.fast_count += 1;
            },
            _ => {},
        }
        self.pending = None;
        self.update_count += 1;
        assert(self@.dirty =~= old(self)@.finished().dirty);
        self.deep_sleep(DeepSleepMode::PreserveRAM)
    }

    /// Puts the controller to sleep.
    pub fn deep_sleep(&self, deep_sleep_mode: DeepSleepMode) -> (r: Script)
        ensures
            r@ == model::deep_sleep_effects(deep_sleep_mode),
    {
        let mut script: Script = Script::new();
        script.push(Step::Execute(Command::DeepSleepMode(deep_sleep_mode)));
        script.push(Step::DelayMs(100));
        assert(script@ =~= model::deep_sleep_effects(deep_sleep_mode));
        script
    }

    /// Whether the buffers hold the point `(x, y)` of the drawing surface. They hold all
    /// of them if each has [`buffer_size`] bytes.
    pub fn holds(&self, x: u32, y: u32) -> (r: bool)
        requires
            self@.wf(),
        ensures
            r == self@.holds(x, y),
    {
        let width: u64 = self.config.width() as u64;
        let height: u64 = self.config.height() as u64;
        let row: u64 = width / 8;
        let (x, y) = (x as u64, y as u64);
        let ghost g = self@;
        proof {
            lemma_product_bound(row, x);
            lemma_product_bound(row, y);
            lemma_product_bound(row, height);
        }
        let index: u64 = match self.config.rotation() {
            Rotation::Rotate0 => x / 8 + y * row,
            Rotation::Rotate90 => {
                if y >= width {
                    return false;
                }
                (width - 1 - y) / 8 + x * row
            },
            Rotation::Rotate180 => {
                proof {
                    assert((height - 1 - y) * row == height * row - row - y * row) by (nonlinear_arith);
                    assert((width - 1 - x) / 8 == row - 1 - x as int / 8);
                }
                if x / 8 + y * row + 1 > height * row {
                    return false;
                }
                height * row - 1 - (x / 8 + y * row)
            },
            Rotation::Rotate270 => {
                if x >= height {
                    return false;
                }
                proof {
                    lemma_product_bound(row, (height - 1 - x) as u64);
                }
                y / 8 + (height - 1 - x) * row
            },
        };
        assert(index == g.byte_index(x as u32, y as u32));
        index <= u32::MAX as u64 && (index as usize) < self.dirty_buffer.len() && (index as usize)
            < self.black_buffer.len() && match &self.red_buffer {
            Some(red_buffer) => (index as usize) < red_buffer.len(),
            None => true,
        }
    }

    /// Whether the panel has the pigment for `color`.
    pub fn shows(&self, color: EpdColor) -> (r: bool)
        ensures
            r == self@.shows(color),
    {
        color != EpdColor::Red || self.red_buffer.is_some()
    }

    /// Draws one point.
    pub fn set_pixel(&mut self, x: u32, y: u32, color: EpdColor)
        requires
            old(self)@.wf(),
            old(self)@.holds(x, y),
            old(self)@.shows(color),
        ensures
            final(self)@ == old(self)@.with_pixel(x, y, color),
            final(self)@.wf(),
            final(final(self).dirty_borrow())@ == final(old(self).dirty_borrow())@,
            final(final(self).black_borrow())@ == final(old(self).black_borrow())@,
            final(self).red_borrow() is Some <==> old(self).red_borrow() is Some,
            old(self).red_borrow() matches Some(red) ==> final(final(self).red_borrow()->0)@ == final(red)@,
    {
        let (index, bit) = rotation(
            x,
            y,
            self.config.width() as u32,
            self.config.height() as u32,
            self.config.rotation(),
        );
        let index: usize = index as usize;
        self.pending = None;
        self.dirty_buffer[index] = self.dirty_buffer[index] | bit;
        match color {
            EpdColor::Black => {
                self.black_buffer[index] = self.black_buffer[index] & !bit;
                if let Some(red_buffer) = &mut self.red_buffer {
                    red_buffer[index] = red_buffer[index] & !bit;
                }
            },
            EpdColor::White => {
                self.black_buffer[index] = self.black_buffer[index] | bit;
                if let Some(red_buffer) = &mut self.red_buffer {
                    red_buffer[index] = red_buffer[index] & !bit;
                }
            },
            EpdColor::Red => {
                self.black_buffer[index] = self.black_buffer[index] | bit;
                if let Some(red_buffer) = &mut self.red_buffer {
                    red_buffer[index] = red_buffer[index] | bit;
                }
            },
        }
    }

    /// Draws points in the order in which they come.
    pub fn draw_iter(&mut self, pixels: &[Pixel])
        requires
            old(self)@.wf(),
            old(self)@.can_draw(pixels@),
        ensures
            final(self)@ == old(self)@.with_pixels(pixels@),
            final(self)@.wf(),
            final(final(self).dirty_borrow())@ == final(old(self).dirty_borrow())@,
            final(final(self).black_borrow())@ == final(old(self).black_borrow())@,
            final(self).red_borrow() is Some <==> old(self).red_borrow() is Some,
            old(self).red_borrow() matches Some(red) ==> final(final(self).red_borrow()->0)@ == final(red)@,
    {
        let mut i: usize = 0;
        assert(pixels@.take(0) =~= Seq::<Pixel>::empty());
        while i < pixels.len()
            invariant
                i <= pixels@.len(),
                old(self)@.wf(),
                old(self)@.can_draw(pixels@),
                self@ == old(self)@.with_pixels(pixels@.take(i as int)),
                self@.wf(),
                final(self.dirty_borrow())@ == final(old(self).dirty_borrow())@,
                final(self.black_borrow())@ == final(old(self).black_borrow())@,
                self.red_borrow() is Some <==> old(self).red_borrow() is Some,
                old(self).red_borrow() matches Some(red) ==> final(self.red_borrow()->0)@ == final(red)@,
            decreases pixels@.len() - i,
        {
            let pixel: Pixel = pixels[i];
            proof {
                let drawn = pixels@.take(i as int);
                assert forall|j: int| 0 <= j < drawn.len() implies old(self)@.can_draw_pixel(#[trigger] drawn[j]) by {
                    assert(old(self)@.can_draw_pixel(pixels@[j]));
                }
                model::lemma_drawing_keeps_shape(old(self)@, drawn);
                assert(old(self)@.can_draw_pixel(pixels@[i as int]));
                assert(pixels@.take(i + 1).drop_last() =~= pixels@.take(i as int));
            }
            self.set_pixel(pixel.x as u32, pixel.y as u32, pixel.color);
            i += 1;
        }
        assert(pixels@.take(i as int) =~= pixels@);
    }

    /// Extent of the drawing surface.
    pub fn size(&self) -> (r: Size)
        ensures
            r == self@.size(),
    {
        let width: u32 = self.config.width() as u32;
        let height: u32 = self.config.height() as u32;
        match self.config.rotation() {
            Rotation::Rotate0 | Rotation::Rotate180 => Size { width, height },
            Rotation::Rotate90 | Rotation::Rotate270 => Size { width: height, height: width },
        }
    }
}

proof fn lemma_product_bound(row: u64, n: u64)
    requires
        row <= 8191,
        n <= u32::MAX,
    ensures
        n * row == row * n,
        0 <= n * row <= 8191 * 0xffff_ffff,
{
    assert(n * row == row * n && 0 <= n * row <= 8191 * 0xffff_ffff) by (nonlinear_arith)
        requires
            0 <= row <= 8191,
            0 <= n <= 0xffff_ffff,
    ;
}

/// A buffer that was lent to a display holds, once the display is gone, what the
/// display held last.
pub proof fn law_lent_buffers_keep_contents(g: Graphics)
    requires
        has_resolved(g),
    ensures
        final(g.dirty_borrow())@ == g@.dirty,
        final(g.black_borrow())@ == g@.black,
        g@.red is Some <==> g.red_borrow() is Some,
        g.red_borrow() is Some ==> final(g.red_borrow()->0)@ == g@.red->0,
{
}

/// Whether a buffer of `len` bytes with `row` bytes in a row holds all of `rect`.
fn region_fits(len: usize, row: usize, rect: &DirtyRect) -> (r: bool)
    requires
        row <= 8191,
    ensures
        r == tools::region_fits(len as nat, row as int, *rect),
{
    assert(0 <= rect.max_y * row <= 65535 * 8191) by (nonlinear_arith)
        requires
            0 <= rect.max_y <= 65535,
            0 <= row <= 8191,
    ;
    rect.min_byte_col <= rect.max_byte_col && rect.min_y <= rect.max_y && (rect.max_y as usize) * row + (
    rect.max_byte_col as usize) < len
}

/// `n` copies of `value`.
fn repeated(value: u8, n: usize) -> (r: Vec<u8>)
    ensures
        r@ == Seq::new(n as nat, |i: int| value),
{
    let mut r: Vec<u8> = Vec::new();
    let mut i: usize = 0;
    while i < n
        invariant
            i <= n,
            r@ == Seq::new(i as nat, |i: int| value),
        decreases n - i,
    {
        r.push(value);
        i += 1;
    }
    r
}

} // verus!
