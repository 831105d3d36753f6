//! What the controllers are told by a refresh, read off its effects alone: which data
//! follow a command, and which window was set when they are sent.
use crate::command::{Chip, Command, DataEntryMode, DeepSleepMode, IncrementAxis};
use crate::laws;
use crate::model;
use crate::model::{GraphicsView, Refresh};
use crate::script::Effect;
use crate::tools;
use crate::tools::DirtyRect;
use vstd::prelude::*;

verus! {

/// The data bytes from `effects[i]` on, up to the first effect that is no data transfer.
pub open spec fn data_from(effects: Seq<Effect>, i: int) -> Seq<u8>
    decreases effects.len() - i,
{
    if 0 <= i < effects.len() {
        match effects[i] {
            Effect::Data(bytes) => bytes + data_from(effects, i + 1),
            _ => Seq::empty(),
        }
    } else {
        Seq::empty()
    }
}

/// The command that `effect` sends to `chip`, or without naming a controller.
pub open spec fn command_to(effect: Effect, chip: Option<Chip>) -> Option<Command> {
    match effect {
        Effect::Execute(command) => if chip is None { Some(command) } else { None },
        Effect::ExecuteOn(other, command) => if chip == Some(other) { Some(command) } else { None },
        _ => None,
    }
}

/// The RAM window of a controller and its address counter, as far as they were set.
pub struct Window {
    pub mode: Option<DataEntryMode>,
    pub x: Option<(u8, u8)>,
    pub y: Option<(u16, u16)>,
    pub col: Option<u8>,
    pub line: Option<u16>,
}

/// What the first `n` of `effects` set the window of `chip` to.
pub open spec fn window_after(effects: Seq<Effect>, n: int, chip: Option<Chip>) -> Window
    decreases n,
{
    if n <= 0 {
        Window { mode: None, x: None, y: None, col: None, line: None }
    } else {
        let before = window_after(effects, n - 1, chip);
        match command_to(effects[n - 1], chip) {
            Some(Command::DataEntryMode(mode, _)) => Window { mode: Some(mode), ..before },
            Some(Command::StartEndXPosition(first, last)) => Window { x: Some((first, last)), ..before },
            Some(Command::StartEndYPosition(first, last)) => Window { y: Some((first, last)), ..before },
            Some(Command::XAddress(col)) => Window { col: Some(col), ..before },
            Some(Command::YAddress(line)) => Window { line: Some(line), ..before },
            _ => before,
        }
    }
}

/// Whether `sent` is, row by row, the part of `plane` in byte columns `min_col` to
/// `max_col` and rows `min_y` to `max_y`, where a row has `row` bytes.
pub open spec fn is_part_of(
    sent: Seq<u8>,
    plane: Seq<u8>,
    row: int,
    min_col: int,
    max_col: int,
    min_y: int,
    max_y: int,
) -> bool {
    let columns = max_col - min_col + 1;
    &&& sent.len() == columns * (max_y - min_y + 1)
    &&& forall|n: int|
        0 <= n < sent.len() ==> #[trigger] sent[n] == plane[(min_y + n / columns) * row + min_col + n
            % columns]
}

/// Effect `i` sends `command` to `chip`.
pub open spec fn is_sent(effects: Seq<Effect>, i: int, chip: Option<Chip>, command: Command) -> bool {
    0 <= i < effects.len() && command_to(effects[i], chip) == Some(command)
}

/// What follows each RAM command of a full or fast refresh of a single controller is that
/// RAM's plane, whole: the black and white plane, and the red plane where the panel has
/// one. Without red, a full refresh sends the black and white plane for the red RAM too,
/// and a fast one nothing.
pub proof fn law_whole_planes_are_sent(g: GraphicsView, refresh: Refresh)
    requires
        g.config.cascade is None,
        refresh == Refresh::Normal || refresh == Refresh::Fast,
    ensures
        ({
            let effects = g.refresh_effects(refresh);
            &&& forall|i: int| #[trigger]
                is_sent(effects, i, None, Command::WriteRamBW) ==> data_from(effects, i + 1) == g.black
            &&& forall|i: int| #[trigger]
                is_sent(effects, i, None, Command::WriteRamRed) ==> data_from(effects, i + 1) == (match g.red {
                    Some(red) => red,
                    None => g.black,
                })
            &&& exists|i: int| #[trigger] is_sent(effects, i, None, Command::WriteRamBW)
            &&& (exists|i: int| #[trigger] is_sent(effects, i, None, Command::WriteRamRed)) <==> (refresh
                == Refresh::Normal || g.red is Some)
        }),
{
    let effects = g.refresh_effects(refresh);
    let at: int = if refresh == Refresh::Normal { 13 } else { 14 };
    assert(is_sent(effects, at, None, Command::WriteRamBW));
    assert forall|i: int| #[trigger] is_sent(effects, i, None, Command::WriteRamBW) implies data_from(
        effects,
        i + 1,
    ) == g.black by {
        assert(i == at);
        lemma_one_transfer(effects, i + 1);
    }
    assert forall|i: int| #[trigger] is_sent(effects, i, None, Command::WriteRamRed) implies data_from(
        effects,
        i + 1,
    ) == (match g.red {
        Some(red) => red,
        None => g.black,
    }) && (refresh == Refresh::Normal || g.red is Some) by {
        assert(i == at + 2);
        lemma_one_transfer(effects, i + 1);
    }
    if refresh == Refresh::Normal || g.red is Some {
        assert(is_sent(effects, at + 2, None, Command::WriteRamRed));
    }
}

proof fn lemma_one_transfer(effects: Seq<Effect>, i: int)
    requires
        0 <= i < effects.len() - 1,
        effects[i] is Data,
        effects[i + 1] !is Data,
    ensures
        data_from(effects, i) == effects[i]->Data_0,
{
    reveal_with_fuel(data_from, 2);
    assert(data_from(effects, i + 1) =~= Seq::empty());
    assert(data_from(effects, i) =~= effects[i]->Data_0);
}

/// What follows each RAM command of a partial refresh of a single controller is, row by
/// row, that RAM's plane in the rectangle: the black and white plane, and the red plane
/// where the panel has one.
pub proof fn law_parts_of_planes_are_sent(g: GraphicsView, rect: DirtyRect)
    requires
        g.config.cascade is None,
        rect.min_byte_col <= rect.max_byte_col,
        rect.min_y <= rect.max_y,
        rect.max_y * (g.config.width as int / 8) + rect.max_byte_col < g.black.len(),
        g.red matches Some(red) ==> rect.max_y * (g.config.width as int / 8) + rect.max_byte_col < red.len(),
    ensures
        ({
            let effects = g.refresh_effects(Refresh::Part(rect));
            &&& forall|i: int| #[trigger]
                is_sent(effects, i, None, Command::WriteRamBW) ==> is_rect_of(
                    data_from(effects, i + 1),
                    g.black,
                    g.config.width,
                    rect,
                )
            &&& forall|i: int| #[trigger]
                is_sent(effects, i, None, Command::WriteRamRed) ==> g.red is Some && is_rect_of(
                    data_from(effects, i + 1),
                    g.red->0,
                    g.config.width,
                    rect,
                )
            &&& exists|i: int| #[trigger] is_sent(effects, i, None, Command::WriteRamBW)
            &&& (exists|i: int| #[trigger] is_sent(effects, i, None, Command::WriteRamRed)) <==> g.red is Some
        }),
{
    let effects = g.refresh_effects(Refresh::Part(rect));
    let row = g.config.width as int / 8;
    let rows = rect.max_y - rect.min_y + 1;
    let black = tools::region_effects(g.black, row, rect);
    assert(is_sent(effects, 7, None, Command::WriteRamBW));
    assert forall|i: int| #[trigger] is_sent(effects, i, None, Command::WriteRamBW) implies is_rect_of(
        data_from(effects, i + 1),
        g.black,
        g.config.width,
        rect,
    ) by {
        assert(i == 7);
        lemma_data_run(effects, 8, black);
        lemma_region_is_rect(g.black, g.config.width, rect);
    }
    assert forall|i: int| #[trigger] is_sent(effects, i, None, Command::WriteRamRed) implies g.red is Some
        && is_rect_of(data_from(effects, i + 1), g.red->0, g.config.width, rect) by {
        assert(i == 8 + rows);
        let red = tools::region_effects(g.red->0, row, rect);
        lemma_data_run(effects, i + 1, red);
        lemma_region_is_rect(g.red->0, g.config.width, rect);
    }
    if g.red is Some {
        assert(is_sent(effects, 8 + rows, None, Command::WriteRamRed));
    }
}

/// Whether `sent` is, row by row, the part of `plane` in `rect`, where a row has `width`
/// pixels.
pub open spec fn is_rect_of(sent: Seq<u8>, plane: Seq<u8>, width: u16, rect: DirtyRect) -> bool {
    is_part_of(
        sent,
        plane,
        width as int / 8,
        rect.min_byte_col as int,
        rect.max_byte_col as int,
        rect.min_y as int,
        rect.max_y as int,
    )
}

proof fn lemma_region_is_rect(plane: Seq<u8>, width: u16, rect: DirtyRect)
    requires
        rect.min_byte_col <= rect.max_byte_col,
        rect.min_y <= rect.max_y,
        rect.max_y * (width as int / 8) + rect.max_byte_col < plane.len(),
    ensures
        is_rect_of(
            model::payload(tools::region_effects(plane, width as int / 8, rect)),
            plane,
            width,
            rect,
        ),
{
    let row = width as int / 8;
    let columns = rect.max_byte_col - rect.min_byte_col + 1;
    let rows = rect.max_y - rect.min_y + 1;
    let sent = model::payload(tools::region_effects(plane, row, rect));
    laws::law_region_is_sent_whole(plane, row, rect, 0, 0);
    assert forall|n: int| 0 <= n < sent.len() implies #[trigger] sent[n] == plane[(rect.min_y + n / columns)
        * row + rect.min_byte_col + n % columns] by {
        assert(0 <= n / columns < rows && 0 <= n % columns < columns && (n / columns) * columns + n % columns
            == n) by (nonlinear_arith)
            requires
                0 <= n < columns * rows,
                columns >= 1,
        ;
        laws::law_region_is_sent_whole(plane, row, rect, n / columns, n % columns);
    }
}

/// Transfers that stand together are read as one.
proof fn lemma_data_run(effects: Seq<Effect>, i: int, run: Seq<Effect>)
    requires
        0 <= i,
        i + run.len() <= effects.len(),
        forall|m: int| 0 <= m < run.len() ==> (#[trigger] run[m]) is Data && effects[i + m] == run[m],
        i + run.len() < effects.len() ==> effects[i + run.len()] !is Data,
    ensures
        data_from(effects, i) == model::payload(run),
    decreases run.len(),
{
    if run.len() == 0 {
        assert(data_from(effects, i) =~= Seq::empty());
    } else {
        let rest = run.drop_first();
        assert forall|m: int| 0 <= m < rest.len() implies (#[trigger] rest[m]) is Data && effects[i + 1 + m]
            == rest[m] by {
            assert(run[m + 1] is Data && effects[i + (m + 1)] == run[m + 1]);
        }
        lemma_data_run(effects, i + 1, rest);
        lemma_payload_first(run);
        assert(run[0] is Data && effects[i + 0] == run[0]);
        assert(data_from(effects, i) =~= model::payload(run));
    }
}

proof fn lemma_payload_first(run: Seq<Effect>)
    requires
        run.len() > 0,
        run[0] is Data,
    ensures
        model::payload(run) == run[0]->Data_0 + model::payload(run.drop_first()),
    decreases run.len(),
{
    reveal_with_fuel(model::payload, 2);
    if run.len() == 1 {
        assert(run.drop_last() =~= Seq::empty());
        assert(run.drop_first() =~= Seq::empty());
        assert(model::payload(run) =~= run[0]->Data_0 + model::payload(run.drop_first()));
    } else {
        let rest = run.drop_last();
        lemma_payload_first(rest);
        assert(rest.drop_first() =~= run.drop_first().drop_last());
        assert(run.drop_first().last() == run.last());
        assert(model::payload(run) =~= run[0]->Data_0 + model::payload(run.drop_first()));
    }
}

/// When a single controller is sent a plane of a full or fast refresh, its window starts
/// at column and row 0, ends at the last byte column of the panel, and holds every row of
/// it; what comes first is stored at column and row 0, and counting goes up.
pub proof fn law_window_holds_the_panel(g: GraphicsView, refresh: Refresh, i: int, plane: Command)
    requires
        g.config.cascade is None,
        refresh == Refresh::Normal || refresh == Refresh::Fast,
        8 <= g.config.width <= 2048,
        plane == Command::WriteRamBW || plane == Command::WriteRamRed,
        is_sent(g.refresh_effects(refresh), i, None, plane),
    ensures
        ({
            let window = window_after(g.refresh_effects(refresh), i, None);
            &&& window.mode == Some(DataEntryMode::IncrementYIncrementX)
            &&& window.x == Some((0u8, (g.config.width / 8 - 1) as u8))
            &&& window.y matches Some((first, last)) && first == 0 && last >= g.config.height - 1
            &&& window.col == Some(0u8)
            &&& window.line == Some(0u16)
        }),
{
    let effects = g.refresh_effects(refresh);
    let start: int = if refresh == Refresh::Normal { 7 } else { 8 };
    assert(i == start + 6 || i == start + 8);
    lemma_window_of_settings(effects, start, None);
    if i == start + 8 {
        lemma_window_kept(effects, start + 6, i);
    }
}

/// The last five settings before `start + 6` are all that counts, if they are of the five
/// different kinds.
proof fn lemma_window_of_settings(effects: Seq<Effect>, start: int, chip: Option<Chip>)
    requires
        0 <= start,
        start + 6 <= effects.len(),
        command_to(effects[start], chip) matches Some(Command::DataEntryMode(_, _)),
        command_to(effects[start + 1], chip) matches Some(Command::StartEndXPosition(_, _)),
        command_to(effects[start + 2], chip) matches Some(Command::StartEndYPosition(_, _)),
        command_to(effects[start + 3], chip) matches Some(Command::XAddress(_)),
        command_to(effects[start + 4], chip) matches Some(Command::YAddress(_)),
        command_to(effects[start + 5], chip) is None,
    ensures
        ({
            let window = window_after(effects, start + 6, chip);
            &&& command_to(effects[start], chip) matches Some(Command::DataEntryMode(mode, _)) && window.mode
                == Some(mode)
            &&& command_to(effects[start + 1], chip) matches Some(Command::StartEndXPosition(a, b)) && window.x
                == Some((a, b))
            &&& command_to(effects[start + 2], chip) matches Some(Command::StartEndYPosition(a, b)) && window.y
                == Some((a, b))
            &&& command_to(effects[start + 3], chip) matches Some(Command::XAddress(col)) && window.col == Some(
                col,
            )
            &&& command_to(effects[start + 4], chip) matches Some(Command::YAddress(line)) && window.line
                == Some(line)
        }),
{
    reveal_with_fuel(window_after, 7);
}

/// With the window of a full or fast refresh, a single controller stores byte `n` of the
/// frame in the byte column and the row that it has in the frame. The window holds that
/// cell.
pub proof fn law_frame_is_stored_in_place(g: GraphicsView, refresh: Refresh, i: int, n: int)
    requires
        g.config.cascade is None,
        refresh == Refresh::Normal || refresh == Refresh::Fast,
        8 <= g.config.width <= 2048,
        is_sent(g.refresh_effects(refresh), i, None, Command::WriteRamBW),
        0 <= n < g.black.len(),
        n / (g.config.width as int / 8) < g.config.height,
    ensures
        ({
            let effects = g.refresh_effects(refresh);
            let window = window_after(effects, i, None);
            let row = g.config.width as int / 8;
            let (first_col, last_col) = window.x->0;
            let (first_line, last_line) = window.y->0;
            let cell = model::ram_cell(window.mode->0, first_col, last_col, first_line, n);
            &&& data_from(effects, i + 1)[n] == g.black[n]
            &&& cell == (n % row, n / row)
            &&& first_col <= cell.0 <= last_col
            &&& first_line <= cell.1 <= last_line
        }),
{
    law_whole_planes_are_sent(g, refresh);
    law_window_holds_the_panel(g, refresh, i, Command::WriteRamBW);
    let row = g.config.width as int / 8;
    assert(0 <= n % row < row && 0 <= n / row) by (nonlinear_arith)
        requires
            row >= 1,
            n >= 0,
    ;
}

/// When a single controller is sent a plane of a partial refresh, its window is the
/// rectangle, and what comes first is stored at its first column and row.
pub proof fn law_part_window_is_the_rectangle(g: GraphicsView, rect: DirtyRect, i: int, plane: Command)
    requires
        g.config.cascade is None,
        plane == Command::WriteRamBW || plane == Command::WriteRamRed,
        is_sent(g.refresh_effects(Refresh::Part(rect)), i, None, plane),
    ensures
        ({
            let window = window_after(g.refresh_effects(Refresh::Part(rect)), i, None);
            &&& window.x == Some((rect.min_byte_col, rect.max_byte_col))
            &&& window.y == Some((rect.min_y, rect.max_y))
            &&& window.col == Some(rect.min_byte_col)
            &&& window.line == Some(rect.min_y)
        }),
{
    let effects = g.refresh_effects(Refresh::Part(rect));
    lemma_window_of_part(effects);
    if i != 7 {
        assert forall|m: int| 7 <= m < i implies window_keeps(#[trigger] effects[m]) by {}
        lemma_window_kept(effects, 7, i);
    }
}

proof fn lemma_window_of_part(effects: Seq<Effect>)
    requires
        effects.len() >= 7,
        command_to(effects[3], None) matches Some(Command::StartEndXPosition(_, _)),
        command_to(effects[4], None) matches Some(Command::StartEndYPosition(_, _)),
        command_to(effects[5], None) matches Some(Command::XAddress(_)),
        command_to(effects[6], None) matches Some(Command::YAddress(_)),
    ensures
        ({
            let window = window_after(effects, 7, None);
            &&& command_to(effects[3], None) matches Some(Command::StartEndXPosition(a, b)) && window.x == Some(
                (a, b),
            )
            &&& command_to(effects[4], None) matches Some(Command::StartEndYPosition(a, b)) && window.y == Some(
                (a, b),
            )
            &&& command_to(effects[5], None) matches Some(Command::XAddress(col)) && window.col == Some(col)
            &&& command_to(effects[6], None) matches Some(Command::YAddress(line)) && window.line == Some(line)
        }),
{
    reveal_with_fuel(window_after, 5);
}

/// Whether `effect` sets nothing of a single controller's window.
spec fn window_keeps(effect: Effect) -> bool {
    effect is Data || effect == Effect::Execute(Command::WriteRamBW)
}

proof fn lemma_window_kept(effects: Seq<Effect>, start: int, end: int)
    requires
        0 <= start <= end <= effects.len(),
        forall|m: int| start <= m < end ==> window_keeps(#[trigger] effects[m]),
    ensures
        window_after(effects, end, None) == window_after(effects, start, None),
    decreases end - start,
{
    if start < end {
        lemma_window_kept(effects, start, end - 1);
        assert(window_keeps(effects[end - 1]));
    }
}

/// A refresh of a single controller in numbers, apart from its data: what it sets before
/// the first plane is sent, how many effects it has, and the update sequence that it ends
/// with.
pub proof fn law_single_refresh_in_numbers(g: GraphicsView, rect: DirtyRect)
    requires
        g.config.cascade is None,
        8 <= g.config.width <= 2048,
        rect.min_y <= rect.max_y,
    ensures
        ({
            let effects = g.refresh_effects(Refresh::Normal);
            &&& effects.len() == 20
            &&& effects.take(13) == seq![
                Effect::Reset,
                Effect::BusyWait,
                Effect::Execute(Command::SoftReset),
                Effect::BusyWait,
                Effect::Execute(Command::DriverOutputControl(g.config.height, 0)),
                Effect::Execute(Command::DisplayUpdateControl1(0x4000)),
                Effect::Execute(Command::BorderWaveform(0x05)),
            ] + whole_window(g.config.width, g.config.height)
            &&& effects.skip(17) == started(0xF7)
        }),
        ({
            let effects = g.refresh_effects(Refresh::Fast);
            &&& effects.len() == (if g.red is Some { 21int } else { 19 })
            &&& effects.take(14) == seq![
                Effect::Reset,
                Effect::Execute(Command::SoftReset),
                Effect::BusyWait,
                Effect::Execute(Command::DisplayUpdateControl1(0x4000)),
                Effect::Execute(Command::BorderWaveform(0x05)),
                Effect::Execute(Command::WriteTemperatureSensor(0x6E)),
                Effect::Execute(Command::DisplayUpdateControl2(0x91)),
                Effect::Execute(Command::MasterActivation),
            ] + whole_window(g.config.width, g.config.height)
            &&& effects.skip(effects.len() - 3) == started(0xC7)
        }),
        ({
            let effects = g.refresh_effects(Refresh::Part(rect));
            let rows = rect.max_y - rect.min_y + 1;
            &&& effects.len() == (if g.red is Some { 12 + 2 * rows } else { 11 + rows })
            &&& effects.take(3) == seq![
                Effect::Reset,
                Effect::Execute(Command::DisplayUpdateControl1(0)),
                Effect::Execute(Command::BorderWaveform(0x80)),
            ]
            &&& effects.skip(effects.len() - 3) == started(0xFF)
        }),
{
    let normal = g.refresh_effects(Refresh::Normal);
    let fast = g.refresh_effects(Refresh::Fast);
    let part = g.refresh_effects(Refresh::Part(rect));
    assert(normal.skip(17) =~= started(0xF7));
    assert(fast.skip(fast.len() - 3) =~= started(0xC7));
    assert(part.skip(part.len() - 3) =~= started(0xFF));
}

/// An update sequence that is started and waited for.
pub open spec fn started(control: u8) -> Seq<Effect> {
    seq![
        Effect::Execute(Command::DisplayUpdateControl2(control)),
        Effect::Execute(Command::MasterActivation),
        Effect::BusyWait,
    ]
}

/// The settings for a frame of `width` by `height` pixels on a single controller.
pub open spec fn whole_window(width: u16, height: u16) -> Seq<Effect> {
    seq![
        Effect::Execute(Command::DataEntryMode(DataEntryMode::IncrementYIncrementX, IncrementAxis::Horizontal)),
        Effect::Execute(Command::StartEndXPosition(0, (width / 8 - 1) as u8)),
        Effect::Execute(Command::StartEndYPosition(0, height)),
        Effect::Execute(Command::XAddress(0)),
        Effect::Execute(Command::YAddress(0)),
        Effect::BusyWait,
    ]
}

/// Whether `window` is that of `chip` on a panel of two controllers with `columns` byte
/// columns each and `height` rows: all of the controller's own columns, from 0 on, and
/// all rows. The master counts its columns down, the slave up.
pub open spec fn is_chip_window(window: Window, chip: Chip, columns: int, height: u16) -> bool {
    let last = (columns - 1) as u8;
    &&& window.y == Some((0u16, (height - 1) as u16))
    &&& window.line == Some(0u16)
    &&& match chip {
        Chip::Master => {
            &&& window.mode == Some(DataEntryMode::DecrementXIncrementY)
            &&& window.x == Some((last, 0u8))
            &&& window.col == Some(last)
        },
        Chip::Slave => {
            &&& window.mode == Some(DataEntryMode::IncrementYIncrementX)
            &&& window.x == Some((0u8, last))
            &&& window.col == Some(0u8)
        },
    }
}

/// Whether a panel of two controllers of `chip_width` pixels has columns and rows that
/// can be addressed, and a plane that holds its frame.
pub open spec fn is_cascade(g: GraphicsView, chip_width: u16) -> bool {
    &&& g.config.cascade == Some(chip_width)
    &&& 8 <= chip_width <= 1016
    &&& g.config.height >= 1
    &&& (g.config.height - 1) * (g.config.width as int / 8) + 2 * (chip_width as int / 8) <= g.black.len()
}

/// A fast or partial refresh of a cascaded panel sends each controller its half of every
/// row of the frame, the left half to the master and the right half to the slave, while
/// its window holds just that. Neither is sent anything for its red RAM.
pub proof fn law_cascade_halves_are_sent(g: GraphicsView, chip_width: u16, refresh: Refresh, chip: Chip)
    requires
        is_cascade(g, chip_width),
        refresh != Refresh::Normal,
    ensures
        ({
            let effects = g.refresh_effects(refresh);
            let columns = chip_width as int / 8;
            let first: int = if chip == Chip::Master { 0 } else { columns };
            &&& forall|i: int| #[trigger]
                is_sent(effects, i, Some(chip), Command::WriteRamBW) ==> is_chip_window(
                    window_after(effects, i, Some(chip)),
                    chip,
                    columns,
                    g.config.height,
                ) && is_part_of(
                    data_from(effects, i + 1),
                    g.black,
                    g.config.width as int / 8,
                    first,
                    first + columns - 1,
                    0,
                    g.config.height - 1,
                )
            &&& exists|i: int| #[trigger] is_sent(effects, i, Some(chip), Command::WriteRamBW)
            &&& forall|i: int| !#[trigger] is_sent(effects, i, Some(chip), Command::WriteRamRed)
            &&& forall|i: int| !#[trigger] is_sent(effects, i, None, Command::WriteRamRed)
            &&& forall|i: int| !#[trigger] is_sent(effects, i, None, Command::WriteRamBW)
        }),
{
    let effects = g.refresh_effects(refresh);
    let (columns, height) = (chip_width as int / 8, g.config.height);
    let row = g.config.width as int / 8;
    let left_region = g.chip_region(Chip::Master, chip_width);
    let right_region = g.chip_region(Chip::Slave, chip_width);
    let left = tools::region_effects(g.black, row, left_region);
    let right = tools::region_effects(g.black, row, right_region);
    let head = if refresh == Refresh::Fast {
        model::cascade_fast_mode1_effects()
    } else {
        seq![Effect::Reset]
    };
    let tail = model::activate(if refresh == Refresh::Fast { 0xC7 } else { 0xDC });
    let master = block(Chip::Master, columns, height, Command::WriteRamBW, left);
    let slave = block(Chip::Slave, columns, height, Command::WriteRamBW, right);
    lemma_frame_is_block(g, chip_width, Chip::Master);
    lemma_frame_is_block(g, chip_width, Chip::Slave);
    assert(effects == head + (master + slave) + tail);
    assert(is_quiet(head) && is_quiet(tail) && tail[0] !is Data);
    lemma_two_blocks(head, left, right, tail, columns, height, Command::WriteRamBW, effects);
    lemma_region_is_rect(g.black, g.config.width, left_region);
    lemma_region_is_rect(g.black, g.config.width, right_region);
    if chip == Chip::Master {
        assert(is_sent(effects, head.len() as int + 6, Some(chip), Command::WriteRamBW));
    } else {
        assert(is_sent(effects, head.len() as int + master.len() + 6, Some(chip), Command::WriteRamBW));
    }
}

/// The command selects a RAM.
spec fn is_ram(command: Command) -> bool {
    command == Command::WriteRamBW || command == Command::WriteRamRed
}

/// No RAM is selected.
spec fn is_quiet(effects: Seq<Effect>) -> bool {
    forall|i: int, chip: Option<Chip>, plane: Command| #[trigger]
        is_sent(effects, i, chip, plane) ==> !is_ram(plane)
}

spec fn is_data(run: Seq<Effect>) -> bool {
    forall|m: int| 0 <= m < run.len() ==> (#[trigger] run[m]) is Data
}

/// The window of a controller is set, one of its RAMs is selected, and `run` is sent.
#[verifier::opaque]
spec fn block(chip: Chip, columns: int, height: u16, plane: Command, run: Seq<Effect>) -> Seq<Effect> {
    let last = (columns - 1) as u8;
    let (mode, x_start, x_end) = match chip {
        Chip::Master => (DataEntryMode::DecrementXIncrementY, last, 0u8),
        Chip::Slave => (DataEntryMode::IncrementYIncrementX, 0u8, last),
    };
    seq![
        Effect::ExecuteOn(chip, Command::DataEntryMode(mode, IncrementAxis::Horizontal)),
        Effect::ExecuteOn(chip, Command::StartEndXPosition(x_start, x_end)),
        Effect::ExecuteOn(chip, Command::StartEndYPosition(0, (height - 1) as u16)),
        Effect::ExecuteOn(chip, Command::XAddress(x_start)),
        Effect::ExecuteOn(chip, Command::YAddress(0)),
        Effect::BusyWait,
        Effect::ExecuteOn(chip, plane),
    ] + run
}

proof fn lemma_block(chip: Chip, columns: int, height: u16, plane: Command, run: Seq<Effect>)
    requires
        is_ram(plane),
        is_data(run),
    ensures
        ({
            let effects = block(chip, columns, height, plane, run);
            &&& effects.len() == 7 + run.len()
            &&& effects[0] !is Data
            &&& is_sent(effects, 6, Some(chip), plane)
            &&& forall|i: int, to: Option<Chip>, command: Command| #[trigger]
                is_sent(effects, i, to, command) && is_ram(command) ==> i == 6 && to == Some(chip) && command
                    == plane
            &&& forall|i: int, command: Command| !#[trigger] is_sent(effects, i, None, command)
        }),
{
    reveal(block);
}

/// A block means the same wherever it stands, if no data follow it.
proof fn lemma_block_in(
    before: Seq<Effect>,
    chip: Chip,
    columns: int,
    height: u16,
    plane: Command,
    run: Seq<Effect>,
    after: Seq<Effect>,
    effects: Seq<Effect>,
)
    requires
        effects == before + block(chip, columns, height, plane, run) + after,
        is_data(run),
        after.len() > 0 ==> after[0] !is Data,
    ensures
        is_chip_window(window_after(effects, before.len() as int + 6, Some(chip)), chip, columns, height),
        data_from(effects, before.len() as int + 7) == model::payload(run),
{
    reveal(block);
    let start = before.len() as int;
    lemma_window_of_settings(effects, start, Some(chip));
    lemma_data_run(effects, start + 7, run);
}

proof fn lemma_joined(a: Seq<Effect>, b: Seq<Effect>)
    ensures
        forall|i: int, chip: Option<Chip>, command: Command| #[trigger]
            is_sent(a + b, i, chip, command) <==> is_sent(a, i, chip, command) || is_sent(
                b,
                i - a.len(),
                chip,
                command,
            ),
{
    assert forall|i: int, chip: Option<Chip>, command: Command| #[trigger]
        is_sent(a + b, i, chip, command) <==> is_sent(a, i, chip, command) || is_sent(
            b,
            i - a.len(),
            chip,
            command,
        ) by {}
}

proof fn lemma_two_blocks(
    head: Seq<Effect>,
    left: Seq<Effect>,
    right: Seq<Effect>,
    tail: Seq<Effect>,
    columns: int,
    height: u16,
    plane: Command,
    effects: Seq<Effect>,
)
    requires
        is_ram(plane),
        is_data(left),
        is_data(right),
        is_quiet(head),
        is_quiet(tail),
        tail.len() > 0 ==> tail[0] !is Data,
        effects == head + (block(Chip::Master, columns, height, plane, left) + block(
            Chip::Slave,
            columns,
            height,
            plane,
            right,
        )) + tail,
    ensures
        is_sent(effects, head.len() as int + 6, Some(Chip::Master), plane),
        is_sent(effects, head.len() as int + 13 + left.len(), Some(Chip::Slave), plane),
        forall|i: int, to: Option<Chip>, command: Command| #[trigger]
            is_sent(effects, i, to, command) && is_ram(command) ==> command == plane && (i == head.len() + 6
                && to == Some(Chip::Master) || i == head.len() + 13 + left.len() && to == Some(Chip::Slave)),
        is_chip_window(
            window_after(effects, head.len() as int + 6, Some(Chip::Master)),
            Chip::Master,
            columns,
            height,
        ),
        is_chip_window(
            window_after(effects, head.len() as int + 13 + left.len(), Some(Chip::Slave)),
            Chip::Slave,
            columns,
            height,
        ),
        data_from(effects, head.len() as int + 7) == model::payload(left),
        data_from(effects, head.len() as int + 14 + left.len()) == model::payload(right),
{
    let master = block(Chip::Master, columns, height, plane, left);
    let slave = block(Chip::Slave, columns, height, plane, right);
    lemma_block(Chip::Master, columns, height, plane, left);
    lemma_block(Chip::Slave, columns, height, plane, right);
    lemma_joined(master, slave);
    lemma_joined(head, master + slave);
    lemma_joined(head + (master + slave), tail);
    assert(is_sent(master + slave, 6, Some(Chip::Master), plane));
    assert(is_sent(slave, 13 + left.len() - master.len(), Some(Chip::Slave), plane));
    assert(is_sent(master + slave, 13 + left.len() as int, Some(Chip::Slave), plane));
    assert(is_sent(head + (master + slave), head.len() as int + 6, Some(Chip::Master), plane));
    assert(is_sent(head + (master + slave), head.len() as int + 13 + left.len(), Some(Chip::Slave), plane));
    assert(effects =~= head + master + (slave + tail));
    lemma_block_in(head, Chip::Master, columns, height, plane, left, slave + tail, effects);
    assert(effects =~= (head + master) + slave + tail);
    lemma_block_in(head + master, Chip::Slave, columns, height, plane, right, tail, effects);
}

proof fn lemma_frame_is_block(g: GraphicsView, chip_width: u16, chip: Chip)
    requires
        is_cascade(g, chip_width),
    ensures
        ({
            let region = g.chip_region(chip, chip_width);
            let run = tools::region_effects(g.black, g.config.width as int / 8, region);
            &&& is_data(run)
            &&& run.len() == g.config.height
            &&& g.chip_ram_effects(chip, region) == block(
                chip,
                chip_width as int / 8,
                g.config.height,
                Command::WriteRamBW,
                run,
            )
        }),
{
    reveal(block);
    let region = g.chip_region(chip, chip_width);
    let run = tools::region_effects(g.black, g.config.width as int / 8, region);
    assert(g.chip_ram_effects(chip, region) =~= block(
        chip,
        chip_width as int / 8,
        g.config.height,
        Command::WriteRamBW,
        run,
    ));
}

/// With the window of a fast or partial refresh, a controller of a cascaded panel stores
/// its half of the frame in its own columns and in the frame's rows, the master from right
/// to left and the slave from left to right.
#[verifier::rlimit(30)]
pub proof fn law_cascade_half_is_stored_in_place(
    g: GraphicsView,
    chip_width: u16,
    refresh: Refresh,
    chip: Chip,
    i: int,
    col: int,
    y: int,
)
    requires
        is_cascade(g, chip_width),
        refresh != Refresh::Normal,
        is_sent(g.refresh_effects(refresh), i, Some(chip), Command::WriteRamBW),
        0 <= col < chip_width as int / 8,
        0 <= y < g.config.height,
    ensures
        ({
            let effects = g.refresh_effects(refresh);
            let columns = chip_width as int / 8;
            let window = window_after(effects, i, Some(chip));
            let (x_start, x_end) = window.x->0;
            let (first_line, last_line) = window.y->0;
            let sent = data_from(effects, i + 1);
            let n = y * columns + col;
            let left = y * (g.config.width as int / 8);
            &&& 0 <= n < sent.len()
            &&& sent[n] == g.black[left + (if chip == Chip::Master {
                col
            } else {
                columns + col
            })]
            &&& model::ram_cell(window.mode->0, x_start, x_end, first_line, n) == (if chip == Chip::Master {
                columns - 1 - col
            } else {
                col
            }, y)
            &&& y <= last_line
        }),
{
    law_cascade_halves_are_sent(g, chip_width, refresh, chip);
    let columns = chip_width as int / 8;
    let height = g.config.height as int;
    let n = y * columns + col;
    assert(n % columns == col && n / columns == y && 0 <= n < columns * height) by (nonlinear_arith)
        requires
            n == y * columns + col,
            0 <= col < columns,
            0 <= y < height,
    ;
    let effects = g.refresh_effects(refresh);
    let sent = data_from(effects, i + 1);
    assert(sent[n] == sent[n]);
}

/// Clearing a cascaded panel sends each controller white for its black and white RAM and
/// zeros for its red RAM, starts the full update sequence, and then sends each controller
/// white for its red RAM. Each of these fills the controller's window exactly, and the
/// window is all of its columns and rows. `f` is where the update sequence is started.
#[verifier::rlimit(30)]
pub proof fn law_cascade_clear_fills_both_controllers(g: GraphicsView, chip_width: u16, chip: Chip) -> (f: int)
    requires
        g.config.cascade == Some(chip_width),
        8 <= chip_width <= 1016,
        g.config.height >= 1,
    ensures
        ({
            let effects = g.cascade_clear_effects(chip_width);
            let columns = chip_width as int / 8;
            let cells = (columns * g.config.height) as nat;
            &&& forall|i: int|
                #[trigger] is_sent(effects, i, None, Command::DisplayUpdateControl2(0xF7)) <==> i == f
            &&& forall|i: int| #[trigger]
                is_sent(effects, i, Some(chip), Command::WriteRamBW) ==> i < f && is_chip_window(
                    window_after(effects, i, Some(chip)),
                    chip,
                    columns,
                    g.config.height,
                ) && data_from(effects, i + 1) == Seq::new(cells, |n: int| 0xFFu8)
            &&& forall|i: int| #[trigger]
                is_sent(effects, i, Some(chip), Command::WriteRamRed) ==> is_chip_window(
                    window_after(effects, i, Some(chip)),
                    chip,
                    columns,
                    g.config.height,
                ) && data_from(effects, i + 1) == Seq::new(cells, |n: int| if i < f { 0x00u8 } else { 0xFFu8 })
            &&& exists|i: int| #[trigger] is_sent(effects, i, Some(chip), Command::WriteRamBW)
            &&& exists|i: int| i < f && #[trigger] is_sent(effects, i, Some(chip), Command::WriteRamRed)
            &&& exists|i: int| i > f && #[trigger] is_sent(effects, i, Some(chip), Command::WriteRamRed)
            &&& effects.subrange(f, f + 3) == started(0xF7)
            &&& effects.len() == 17 + 6 * (7 + (columns * g.config.height + 31) / 32)
        }),
{
    let effects = g.cascade_clear_effects(chip_width);
    let columns = chip_width as int / 8;
    let height = g.config.height as int;
    let cells = columns * height;
    assert(cells >= 1) by (nonlinear_arith)
        requires
            cells == columns * height,
            columns >= 1,
            height >= 1,
    ;
    let white = model::fill_effects(0xFF, cells);
    let zero = model::fill_effects(0x00, cells);
    let head = model::cascade_fast_mode1_effects();
    let middle = model::activate(0xF7);
    let length = 7 + white.len() as int;
    let f = 14 + 4 * length;
    lemma_fill_is_block(g, chip_width, Chip::Master);
    lemma_fill_is_block(g, chip_width, Chip::Slave);
    assert(is_quiet(head) && is_quiet(middle));
    assert(effects == clearing(head, white, zero, middle, columns, g.config.height));
    lemma_clearing_places(head, white, zero, middle, columns, g.config.height);
    lemma_clearing_white(head, white, zero, middle, columns, g.config.height, chip);
    lemma_clearing_zero(head, white, zero, middle, columns, g.config.height, chip);
    lemma_clearing_reference(head, white, zero, middle, columns, g.config.height, chip);
    lemma_clearing_middle(head, white, zero, middle, columns, g.config.height);
    laws::law_fill_is_constant(0xFF, cells);
    laws::law_fill_is_constant(0x00, cells);
    let skip: int = if chip == Chip::Master { 0 } else { 2 * length };
    assert(is_sent(effects, 20 + skip, Some(chip), Command::WriteRamBW));
    assert(is_sent(effects, 20 + length + skip, Some(chip), Command::WriteRamRed));
    let skip: int = if chip == Chip::Master { 0 } else { length };
    assert(is_sent(effects, f + 9 + skip, Some(chip), Command::WriteRamRed));
    assert forall|i: int| #[trigger] is_sent(effects, i, Some(chip), Command::WriteRamRed) implies data_from(
        effects,
        i + 1,
    ) == Seq::new(cells as nat, |n: int| if i < f { 0x00u8 } else { 0xFFu8 }) by {
        assert(Seq::new(cells as nat, |n: int| if i < f { 0x00u8 } else { 0xFFu8 }) =~= (if i < f {
            Seq::new(cells as nat, |n: int| 0x00u8)
        } else {
            Seq::new(cells as nat, |n: int| 0xFFu8)
        }));
    }
    f
}

spec fn clearing(
    head: Seq<Effect>,
    white: Seq<Effect>,
    zero: Seq<Effect>,
    middle: Seq<Effect>,
    columns: int,
    height: u16,
) -> Seq<Effect> {
    head + (block(Chip::Master, columns, height, Command::WriteRamBW, white) + block(
        Chip::Master,
        columns,
        height,
        Command::WriteRamRed,
        zero,
    )) + (block(Chip::Slave, columns, height, Command::WriteRamBW, white) + block(
        Chip::Slave,
        columns,
        height,
        Command::WriteRamRed,
        zero,
    )) + middle + block(Chip::Master, columns, height, Command::WriteRamRed, white) + block(
        Chip::Slave,
        columns,
        height,
        Command::WriteRamRed,
        white,
    )
}

/// Where a cleared panel's controllers are told what.
proof fn lemma_clearing_places(
    head: Seq<Effect>,
    white: Seq<Effect>,
    zero: Seq<Effect>,
    middle: Seq<Effect>,
    columns: int,
    height: u16,
)
    requires
        head.len() == 14,
        middle.len() == 3,
        is_quiet(head),
        is_quiet(middle),
        forall|i: int| !#[trigger] is_sent(head, i, None, Command::DisplayUpdateControl2(0xF7)),
        forall|i: int|
            #[trigger] is_sent(middle, i, None, Command::DisplayUpdateControl2(0xF7)) <==> i == 0,
        is_data(white),
        is_data(zero),
        white.len() == zero.len(),
    ensures
        ({
            let effects = clearing(head, white, zero, middle, columns, height);
            let n = 7 + white.len() as int;
            let f = 14 + 4 * n;
            &&& forall|i: int|
                #[trigger] is_sent(effects, i, None, Command::DisplayUpdateControl2(0xF7)) <==> i == f
            &&& forall|i: int, chip: Chip|
                #[trigger] is_sent(effects, i, Some(chip), Command::WriteRamBW) <==> i == (if chip
                    == Chip::Master {
                    20
                } else {
                    20 + 2 * n
                })
            &&& forall|i: int, chip: Chip|
                #[trigger] is_sent(effects, i, Some(chip), Command::WriteRamRed) <==> (if chip == Chip::Master {
                    i == 20 + n || i == f + 9
                } else {
                    i == 20 + 3 * n || i == f + 9 + n
                })
        }),
{
    let mb = block(Chip::Master, columns, height, Command::WriteRamBW, white);
    let mr = block(Chip::Master, columns, height, Command::WriteRamRed, zero);
    let sb = block(Chip::Slave, columns, height, Command::WriteRamBW, white);
    let sr = block(Chip::Slave, columns, height, Command::WriteRamRed, zero);
    let mf = block(Chip::Master, columns, height, Command::WriteRamRed, white);
    let sf = block(Chip::Slave, columns, height, Command::WriteRamRed, white);
    lemma_block(Chip::Master, columns, height, Command::WriteRamBW, white);
    lemma_block(Chip::Master, columns, height, Command::WriteRamRed, zero);
    lemma_block(Chip::Slave, columns, height, Command::WriteRamBW, white);
    lemma_block(Chip::Slave, columns, height, Command::WriteRamRed, zero);
    lemma_block(Chip::Master, columns, height, Command::WriteRamRed, white);
    lemma_block(Chip::Slave, columns, height, Command::WriteRamRed, white);
    let e1 = head + (mb + mr);
    let e2 = e1 + (sb + sr);
    let e3 = e2 + middle;
    let e4 = e3 + mf;
    let effects = e4 + sf;
    lemma_joined(mb, mr);
    lemma_joined(head, mb + mr);
    lemma_joined(sb, sr);
    lemma_joined(e1, sb + sr);
    lemma_joined(e2, middle);
    lemma_joined(e3, mf);
    lemma_joined(e4, sf);
}

proof fn lemma_block_starts(chip: Chip, columns: int, height: u16, plane: Command, run: Seq<Effect>)
    ensures
        block(chip, columns, height, plane, run).len() == 7 + run.len(),
        block(chip, columns, height, plane, run)[0] !is Data,
{
    reveal(block);
}

/// The black and white RAM is cleared to white.
proof fn lemma_clearing_white(
    head: Seq<Effect>,
    white: Seq<Effect>,
    zero: Seq<Effect>,
    middle: Seq<Effect>,
    columns: int,
    height: u16,
    chip: Chip,
)
    requires
        head.len() == 14,
        middle.len() == 3,
        middle[0] !is Data,
        is_data(white),
        is_data(zero),
        white.len() == zero.len(),
    ensures
        ({
            let effects = clearing(head, white, zero, middle, columns, height);
            let n = 7 + white.len() as int;
            let i = if chip == Chip::Master { 20int } else { 20 + 2 * n };
            &&& is_chip_window(window_after(effects, i, Some(chip)), chip, columns, height)
            &&& data_from(effects, i + 1) == model::payload(white)
        }),
{
    let effects = clearing(head, white, zero, middle, columns, height);
    let mb = block(Chip::Master, columns, height, Command::WriteRamBW, white);
    let mr = block(Chip::Master, columns, height, Command::WriteRamRed, zero);
    let sb = block(Chip::Slave, columns, height, Command::WriteRamBW, white);
    let sr = block(Chip::Slave, columns, height, Command::WriteRamRed, zero);
    let mf = block(Chip::Master, columns, height, Command::WriteRamRed, white);
    let sf = block(Chip::Slave, columns, height, Command::WriteRamRed, white);
    lemma_block_starts(Chip::Master, columns, height, Command::WriteRamBW, white);
    lemma_block_starts(Chip::Master, columns, height, Command::WriteRamRed, zero);
    lemma_block_starts(Chip::Slave, columns, height, Command::WriteRamBW, white);
    lemma_block_starts(Chip::Slave, columns, height, Command::WriteRamRed, zero);
    lemma_block_starts(Chip::Master, columns, height, Command::WriteRamRed, white);
    lemma_block_starts(Chip::Slave, columns, height, Command::WriteRamRed, white);
    if chip == Chip::Master {
        let before = head;
        let after = mr + (sb + sr) + middle + mf + sf;
        assert(effects =~= before + mb + after);
        lemma_block_in(before, chip, columns, height, Command::WriteRamBW, white, after, effects);
    } else {
        let before = head + (mb + mr);
        let after = sr + middle + mf + sf;
        assert(effects =~= before + sb + after);
        lemma_block_in(before, chip, columns, height, Command::WriteRamBW, white, after, effects);
    }
}

/// The red RAM is first set to zeros.
proof fn lemma_clearing_zero(
    head: Seq<Effect>,
    white: Seq<Effect>,
    zero: Seq<Effect>,
    middle: Seq<Effect>,
    columns: int,
    height: u16,
    chip: Chip,
)
    requires
        head.len() == 14,
        middle.len() == 3,
        middle[0] !is Data,
        is_data(white),
        is_data(zero),
        white.len() == zero.len(),
    ensures
        ({
            let effects = clearing(head, white, zero, middle, columns, height);
            let n = 7 + white.len() as int;
            let i = if chip == Chip::Master { 20 + n } else { 20 + 3 * n };
            &&& is_chip_window(window_after(effects, i, Some(chip)), chip, columns, height)
            &&& data_from(effects, i + 1) == model::payload(zero)
        }),
{
    let effects = clearing(head, white, zero, middle, columns, height);
    let mb = block(Chip::Master, columns, height, Command::WriteRamBW, white);
    let mr = block(Chip::Master, columns, height, Command::WriteRamRed, zero);
    let sb = block(Chip::Slave, columns, height, Command::WriteRamBW, white);
    let sr = block(Chip::Slave, columns, height, Command::WriteRamRed, zero);
    let mf = block(Chip::Master, columns, height, Command::WriteRamRed, white);
    let sf = block(Chip::Slave, columns, height, Command::WriteRamRed, white);
    lemma_block_starts(Chip::Master, columns, height, Command::WriteRamBW, white);
    lemma_block_starts(Chip::Master, columns, height, Command::WriteRamRed, zero);
    lemma_block_starts(Chip::Slave, columns, height, Command::WriteRamBW, white);
    lemma_block_starts(Chip::Slave, columns, height, Command::WriteRamRed, zero);
    lemma_block_starts(Chip::Master, columns, height, Command::WriteRamRed, white);
    lemma_block_starts(Chip::Slave, columns, height, Command::WriteRamRed, white);
    if chip == Chip::Master {
        let before = head + mb;
        let after = (sb + sr) + middle + mf + sf;
        assert(effects =~= before + mr + after);
        lemma_block_in(before, chip, columns, height, Command::WriteRamRed, zero, after, effects);
    } else {
        let before = head + (mb + mr) + sb;
        let after = middle + mf + sf;
        assert(effects =~= before + sr + after);
        lemma_block_in(before, chip, columns, height, Command::WriteRamRed, zero, after, effects);
    }
}

/// The red RAM is then set to white.
proof fn lemma_clearing_reference(
    head: Seq<Effect>,
    white: Seq<Effect>,
    zero: Seq<Effect>,
    middle: Seq<Effect>,
    columns: int,
    height: u16,
    chip: Chip,
)
    requires
        head.len() == 14,
        middle.len() == 3,
        middle[0] !is Data,
        is_data(white),
        is_data(zero),
        white.len() == zero.len(),
    ensures
        ({
            let effects = clearing(head, white, zero, middle, columns, height);
            let n = 7 + white.len() as int;
            let i = if chip == Chip::Master { 23 + 4 * n } else { 23 + 5 * n };
            &&& is_chip_window(window_after(effects, i, Some(chip)), chip, columns, height)
            &&& data_from(effects, i + 1) == model::payload(white)
        }),
{
    let effects = clearing(head, white, zero, middle, columns, height);
    let mb = block(Chip::Master, columns, height, Command::WriteRamBW, white);
    let mr = block(Chip::Master, columns, height, Command::WriteRamRed, zero);
    let sb = block(Chip::Slave, columns, height, Command::WriteRamBW, white);
    let sr = block(Chip::Slave, columns, height, Command::WriteRamRed, zero);
    let mf = block(Chip::Master, columns, height, Command::WriteRamRed, white);
    let sf = block(Chip::Slave, columns, height, Command::WriteRamRed, white);
    lemma_block_starts(Chip::Master, columns, height, Command::WriteRamBW, white);
    lemma_block_starts(Chip::Master, columns, height, Command::WriteRamRed, zero);
    lemma_block_starts(Chip::Slave, columns, height, Command::WriteRamBW, white);
    lemma_block_starts(Chip::Slave, columns, height, Command::WriteRamRed, zero);
    lemma_block_starts(Chip::Master, columns, height, Command::WriteRamRed, white);
    lemma_block_starts(Chip::Slave, columns, height, Command::WriteRamRed, white);
    if chip == Chip::Master {
        let before = head + (mb + mr) + (sb + sr) + middle;
        let after = sf;
        assert(effects =~= before + mf + after);
        lemma_block_in(before, chip, columns, height, Command::WriteRamRed, white, after, effects);
    } else {
        let before = head + (mb + mr) + (sb + sr) + middle + mf;
        let after = Seq::<Effect>::empty();
        assert(effects =~= before + sf + after);
        lemma_block_in(before, chip, columns, height, Command::WriteRamRed, white, after, effects);
    }
}

proof fn lemma_clearing_middle(
    head: Seq<Effect>,
    white: Seq<Effect>,
    zero: Seq<Effect>,
    middle: Seq<Effect>,
    columns: int,
    height: u16,
)
    requires
        head.len() == 14,
        middle.len() == 3,
        white.len() == zero.len(),
    ensures
        ({
            let effects = clearing(head, white, zero, middle, columns, height);
            let f = 14 + 4 * (7 + white.len() as int);
            effects.len() == f + 3 + 2 * (7 + white.len()) && effects.subrange(f, f + 3) == middle
        }),
{
    lemma_block_starts(Chip::Master, columns, height, Command::WriteRamBW, white);
    lemma_block_starts(Chip::Master, columns, height, Command::WriteRamRed, zero);
    lemma_block_starts(Chip::Slave, columns, height, Command::WriteRamBW, white);
    lemma_block_starts(Chip::Slave, columns, height, Command::WriteRamRed, zero);
    lemma_block_starts(Chip::Master, columns, height, Command::WriteRamRed, white);
    lemma_block_starts(Chip::Slave, columns, height, Command::WriteRamRed, white);
    let f = 14 + 4 * (7 + white.len() as int);
    assert(clearing(head, white, zero, middle, columns, height).subrange(f, f + 3) =~= middle);
}

/// Filling goes in transfers of 32 bytes, of which the last takes what is left.
pub proof fn law_fill_goes_in_pieces(value: u8, total: int, k: int)
    requires
        0 <= k,
        32 * k < total,
    ensures
        ({
            let effects = model::fill_effects(value, total);
            &&& effects.len() == (total + 31) / 32
            &&& k < effects.len()
            &&& effects[k] matches Effect::Data(bytes) && bytes.len() == (if total - 32 * k < 32 {
                total - 32 * k
            } else {
                32
            })
        }),
{
}

proof fn lemma_fill_is_block(g: GraphicsView, chip_width: u16, chip: Chip)
    requires
        g.config.cascade == Some(chip_width),
        8 <= chip_width <= 1016,
        g.config.height >= 1,
    ensures
        forall|plane: Command, value: u8|
            ({
                let columns = chip_width as int / 8;
                let run = model::fill_effects(value, columns * g.config.height);
                is_data(run) && #[trigger] g.chip_fill_effects(
                    chip,
                    g.chip_region(chip, chip_width),
                    plane,
                    value,
                ) == block(chip, columns, g.config.height, plane, run)
            }),
{
    reveal(block);
    let columns = chip_width as int / 8;
    assert forall|plane: Command, value: u8|
        ({
            let run = model::fill_effects(value, columns * g.config.height);
            is_data(run) && #[trigger] g.chip_fill_effects(
                chip,
                g.chip_region(chip, chip_width),
                plane,
                value,
            ) == block(chip, columns, g.config.height, plane, run)
        }) by {
        let run = model::fill_effects(value, columns * g.config.height);
        assert(g.chip_fill_effects(chip, g.chip_region(chip, chip_width), plane, value) =~= block(
            chip,
            columns,
            g.config.height,
            plane,
            run,
        ));
    }
}

/// A refresh of a cascaded panel in numbers, apart from its windows and data: how it
/// begins, how many effects it has, and the update sequence that it ends with. A full one
/// is a clearing and then a fast one.
#[verifier::rlimit(30)]
pub proof fn law_cascade_refresh_in_numbers(g: GraphicsView, chip_width: u16, rect: DirtyRect)
    requires
        is_cascade(g, chip_width),
    ensures
        ({
            let effects = g.refresh_effects(Refresh::Fast);
            &&& effects.len() == 31 + 2 * g.config.height
            &&& effects.take(14) == waveform_loaded()
            &&& effects.skip(effects.len() - 3) == started(0xC7)
        }),
        ({
            let effects = g.refresh_effects(Refresh::Part(rect));
            &&& effects.len() == 18 + 2 * g.config.height
            &&& effects[0] == Effect::Reset
            &&& effects.skip(effects.len() - 3) == started(0xDC)
        }),
        g.cascade_clear_effects(chip_width).take(14) == waveform_loaded(),
        g.refresh_effects(Refresh::Normal) == g.cascade_clear_effects(chip_width) + g.refresh_effects(
            Refresh::Fast,
        ),
{
    let head = model::cascade_fast_mode1_effects();
    assert(head =~= waveform_loaded());
    assert(model::activate(0xC7) =~= started(0xC7));
    assert(model::activate(0xDC) =~= started(0xDC));
    let frame = g.cascade_frame_effects(chip_width);
    assert(frame.len() == 14 + 2 * g.config.height) by {
        lemma_frame_length(g, chip_width);
    }
    lemma_ends(head, frame, model::activate(0xC7));
    lemma_ends(seq![Effect::Reset], frame, model::activate(0xDC));
    let reset = seq![Effect::Reset];
    assert(reset.len() == 1 && reset[0] == Effect::Reset);
    assert(g.refresh_effects(Refresh::Part(rect)) == reset + frame + model::activate(0xDC));
    assert((reset + frame + model::activate(0xDC)).take(1)[0] == Effect::Reset);
    let blanks = g.blank_effects(Chip::Master, chip_width);
    let more = g.blank_effects(Chip::Slave, chip_width);
    let middle = model::activate(0xF7);
    let (left, right) = (
        g.reference_effects(Chip::Master, chip_width),
        g.reference_effects(Chip::Slave, chip_width),
    );
    lemma_starts(head, blanks, more, middle, left, right);
}

proof fn lemma_frame_length(g: GraphicsView, chip_width: u16)
    requires
        is_cascade(g, chip_width),
    ensures
        g.cascade_frame_effects(chip_width).len() == 14 + 2 * g.config.height,
{
    let row = g.config.width as int / 8;
    let left = tools::region_effects(g.black, row, g.chip_region(Chip::Master, chip_width));
    let right = tools::region_effects(g.black, row, g.chip_region(Chip::Slave, chip_width));
    let columns = chip_width as int / 8;
    lemma_frame_is_block(g, chip_width, Chip::Master);
    lemma_frame_is_block(g, chip_width, Chip::Slave);
    lemma_block_starts(Chip::Master, columns, g.config.height, Command::WriteRamBW, left);
    lemma_block_starts(Chip::Slave, columns, g.config.height, Command::WriteRamBW, right);
}

proof fn lemma_ends(head: Seq<Effect>, frame: Seq<Effect>, tail: Seq<Effect>)
    ensures
        (head + frame + tail).len() == head.len() + frame.len() + tail.len(),
        (head + frame + tail).take(head.len() as int) == head,
        (head + frame + tail).skip((head + frame + tail).len() - tail.len()) == tail,
{
    let effects = head + frame + tail;
    assert(effects.take(head.len() as int) =~= head);
    assert(effects.skip(effects.len() - tail.len()) =~= tail);
}

proof fn lemma_starts(
    head: Seq<Effect>,
    a: Seq<Effect>,
    b: Seq<Effect>,
    c: Seq<Effect>,
    d: Seq<Effect>,
    e: Seq<Effect>,
)
    ensures
        (head + a + b + c + d + e).take(head.len() as int) == head,
{
    assert((head + a + b + c + d + e).take(head.len() as int) =~= head);
}

/// A cascaded panel after its reset, with the waveform of the fast refresh loaded.
pub open spec fn waveform_loaded() -> Seq<Effect> {
    seq![
        Effect::Reset,
        Effect::BusyWait,
        Effect::Execute(Command::SoftReset),
        Effect::BusyWait,
        Effect::Execute(Command::ReadTemperatureSensor(0x80)),
        Effect::Execute(Command::DisplayUpdateControl2(0xB1)),
        Effect::Execute(Command::MasterActivation),
        Effect::BusyWait,
        Effect::Execute(Command::WriteTemperatureRegister(0x64, 0x00)),
        Effect::Execute(Command::DisplayUpdateControl2(0x91)),
        Effect::Execute(Command::MasterActivation),
        Effect::BusyWait,
        Effect::Execute(Command::BorderWaveform(0x03)),
        Effect::BusyWait,
    ]
}

/// Going to sleep is one command, with the given mode, and a tenth of a second.
pub proof fn law_sleep_in_numbers(mode: DeepSleepMode)
    ensures
        model::deep_sleep_effects(mode) == seq![
            Effect::Execute(Command::DeepSleepMode(mode)),
            Effect::DelayMs(100),
        ],
{
}

} // verus!
