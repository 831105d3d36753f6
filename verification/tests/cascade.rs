use ssd1683::color::EpdColor;
use ssd1683::command::{Chip, Command, DataEntryMode, IncrementAxis};
use ssd1683::model::Refresh;
use ssd1683::tools::DirtyRect;
use ssd1683::{buffer_size, Config, Graphics, Script, Step};

fn ex(command: Command) -> Step {
    Step::Execute(command)
}

fn activate(control: u8) -> Vec<Step> {
    vec![ex(Command::DisplayUpdateControl2(control)), ex(Command::MasterActivation), Step::BusyWait]
}

fn init() -> Vec<Step> {
    let mut steps = vec![
        Step::Reset,
        Step::BusyWait,
        ex(Command::SoftReset),
        Step::BusyWait,
        ex(Command::ReadTemperatureSensor(0x80)),
    ];
    steps.extend(activate(0xB1));
    steps.push(ex(Command::WriteTemperatureRegister(0x64, 0x00)));
    steps.extend(activate(0x91));
    steps.push(ex(Command::BorderWaveform(0x03)));
    steps.push(Step::BusyWait);
    steps
}

/// Addresses all of a controller with `columns` byte columns and `rows` rows.
fn address(chip: Chip, columns: u8, rows: u16) -> Vec<Step> {
    let on = |command| Step::ExecuteOn(chip, command);
    let (mode, first, last) = match chip {
        Chip::Master => (DataEntryMode::DecrementXIncrementY, columns - 1, 0),
        Chip::Slave => (DataEntryMode::IncrementYIncrementX, 0, columns - 1),
    };
    vec![
        on(Command::DataEntryMode(mode, IncrementAxis::Horizontal)),
        on(Command::StartEndXPosition(first, last)),
        on(Command::StartEndYPosition(0, rows - 1)),
        on(Command::XAddress(first)),
        on(Command::YAddress(0)),
        Step::BusyWait,
    ]
}

fn fill(chip: Chip, columns: u8, rows: u16, plane: Command, value: u8) -> Vec<Step> {
    let mut steps = address(chip, columns, rows);
    steps.push(Step::ExecuteOn(chip, plane));
    let mut left = columns as usize * rows as usize;
    while left > 0 {
        let n = left.min(32);
        steps.push(Step::Data(vec![value; n]));
        left -= n;
    }
    steps
}

fn frame(black: &[u8], columns: u8, rows: u16) -> Vec<Step> {
    let half = columns as usize;
    let mut steps = address(Chip::Master, columns, rows);
    steps.push(Step::ExecuteOn(Chip::Master, Command::WriteRamBW));
    for y in 0..rows as usize {
        steps.push(Step::Data(black[y * 2 * half..y * 2 * half + half].to_vec()));
    }
    steps.extend(address(Chip::Slave, columns, rows));
    steps.push(Step::ExecuteOn(Chip::Slave, Command::WriteRamBW));
    for y in 0..rows as usize {
        steps.push(Step::Data(black[y * 2 * half + half..(y + 1) * 2 * half].to_vec()));
    }
    steps
}

fn clear(columns: u8, rows: u16) -> Vec<Step> {
    let mut steps = init();
    for chip in [Chip::Master, Chip::Slave] {
        steps.extend(fill(chip, columns, rows, Command::WriteRamBW, 0xFF));
        steps.extend(fill(chip, columns, rows, Command::WriteRamRed, 0x00));
    }
    steps.extend(activate(0xF7));
    for chip in [Chip::Master, Chip::Slave] {
        steps.extend(fill(chip, columns, rows, Command::WriteRamRed, 0xFF));
    }
    steps
}

fn fast(black: &[u8], columns: u8, rows: u16) -> Vec<Step> {
    let mut steps = init();
    steps.extend(frame(black, columns, rows));
    steps.extend(activate(0xC7));
    steps
}

#[test]
fn full_refresh_clears_and_then_shows() {
    let mut dirty = [0u8; 12];
    let mut black = [1u8, 2, 3, 4, 5, 6, 7, 8, 9, 10, 11, 12];
    let frame = black;
    let mut g = Graphics::new(Config::new(16, 3).with_cascade(16), &mut dirty, &mut black);
    assert!(g.can_update());
    let mut expected = clear(2, 3);
    expected.extend(fast(&frame, 2, 3));
    assert_eq!(g.update().unwrap().steps, expected);
}

#[test]
fn fill_goes_in_pieces_of_32() {
    let mut dirty = vec![0u8; buffer_size(80, 20)];
    let mut black = vec![0xA5u8; buffer_size(80, 20)];
    let frame = black.clone();
    let mut g = Graphics::new(Config::new(8, 20).with_cascade(40), &mut dirty, &mut black);
    let steps = g.update().unwrap().steps;
    let mut expected = clear(5, 20);
    expected.extend(fast(&frame, 5, 20));
    assert_eq!(steps, expected);
    // 100 bytes: three pieces of 32 and one of 4.
    let start = init().len() + 7;
    assert_eq!(steps[start + 2], Step::Data(vec![0xFF; 32]));
    assert_eq!(steps[start + 3], Step::Data(vec![0xFF; 4]));
}

#[test]
fn large_area_of_a_cascade_is_refreshed_fast() {
    let mut dirty = [0u8; 16];
    let mut black = [0xFFu8; 16];
    let mut g = Graphics::new(Config::new(8, 4).with_cascade(16), &mut dirty, &mut black);
    g.update();
    g.finish_update();
    g.set_pixel(0, 0, EpdColor::Black);
    g.set_pixel(31, 3, EpdColor::Black);
    assert_eq!(g.due(), Some(Refresh::Fast));
    let mut frame = [0xFFu8; 16];
    frame[0] = 0x7F;
    frame[15] = 0xFE;
    assert_eq!(g.update().unwrap().steps, fast(&frame, 2, 4));
}

#[test]
fn partial_refresh_sends_the_whole_frame() {
    let mut dirty = [0u8; 16];
    let mut black = [0xFFu8; 16];
    let mut g = Graphics::new(Config::new(8, 4).with_cascade(16), &mut dirty, &mut black);
    g.update();
    g.finish_update();
    g.set_pixel(17, 1, EpdColor::Black);
    assert!(matches!(g.due(), Some(Refresh::Part(_))));
    let mut now = [0xFFu8; 16];
    now[6] = 0xBF;
    let mut expected = vec![Step::Reset];
    expected.extend(frame(&now, 2, 4));
    expected.extend(activate(0xDC));
    assert_eq!(g.update().unwrap().steps, expected);
}

#[test]
fn red_plane_is_not_sent() {
    let (mut dirty, mut black, mut red) = ([0u8; 2], [3u8, 4], [5u8, 6]);
    let config = Config::new(8, 1).with_cascade(8);
    let mut g = Graphics::new_with_red(config, &mut dirty, &mut black, &mut red);
    let mut expected = clear(1, 1);
    expected.extend(fast(&[3, 4], 1, 1));
    assert_eq!(g.update().unwrap().steps, expected);
}

#[test]
fn panel_of_two_times_400_by_272() {
    let mut dirty = vec![0u8; buffer_size(800, 272)];
    let mut black = vec![0xFFu8; buffer_size(800, 272)];
    let mut g = Graphics::new(Config::new(400, 272).with_cascade(400), &mut dirty, &mut black);
    assert!(g.can_update());
    let steps = g.update().unwrap().steps;
    assert!(steps.contains(&Step::ExecuteOn(Chip::Master, Command::StartEndXPosition(49, 0))));
    assert!(steps.contains(&Step::ExecuteOn(Chip::Slave, Command::StartEndXPosition(0, 49))));
    let sent: usize = steps
        .iter()
        .map(|step| match step {
            Step::Data(bytes) => bytes.len(),
            _ => 0,
        })
        .sum();
    // Three planes are filled on either controller, and then the frame is sent.
    assert_eq!(sent, 4 * 27_200);
}

#[test]
fn columns_and_planes_have_to_fit() {
    let mut dirty = [0u8; 16];
    let mut black = [0u8; 16];
    assert!(Graphics::new(Config::new(8, 4).with_cascade(16), &mut dirty, &mut black).can_update());
    // One row too many for the plane.
    assert!(!Graphics::new(Config::new(8, 5).with_cascade(16), &mut dirty, &mut black).can_update());
    // No column at all.
    assert!(!Graphics::new(Config::new(8, 4).with_cascade(4), &mut dirty, &mut black).can_update());
    let mut big = vec![0u8; 256];
    assert!(Graphics::new(Config::new(8, 1).with_cascade(1016), &mut dirty, &mut big).can_update());
    // The columns of the slave would no longer fit in 8 bits.
    assert!(!Graphics::new(Config::new(8, 1).with_cascade(1024), &mut dirty, &mut big).can_update());
}

#[test]
fn partial_refreshes_differ_in_the_frame_only() {
    let config = Config::new(8, 4).with_cascade(16);
    let part = |points: &[(u32, u32)]| {
        let mut dirty = [0u8; 16];
        let mut black = [0xFFu8; 16];
        let mut g = Graphics::new(config, &mut dirty, &mut black);
        g.update();
        g.finish_update();
        for (x, y) in points {
            g.set_pixel(*x, *y, EpdColor::White);
        }
        assert!(matches!(g.due(), Some(Refresh::Part(_))));
        g.update().unwrap().steps
    };
    assert_eq!(part(&[(0, 0)]), part(&[(31, 3)]));
    assert_eq!(part(&[(0, 0)]), part(&[(9, 1), (17, 2)]));
}

#[test]
fn fast_refresh_of_a_cascade_never_sends_red() {
    let (mut dirty, mut black, mut red) = ([0u8; 16], [0xFFu8; 16], [0xFFu8; 16]);
    let config = Config::new(8, 4).with_cascade(16);
    let mut g = Graphics::new_with_red(config, &mut dirty, &mut black, &mut red);
    g.update();
    g.finish_update();
    g.set_pixel(0, 0, EpdColor::Red);
    g.set_pixel(31, 3, EpdColor::Red);
    assert_eq!(g.due(), Some(Refresh::Fast));
    for step in g.update().unwrap().steps {
        match step {
            Step::Execute(command) | Step::ExecuteOn(_, command) => {
                assert_ne!(command, Command::WriteRamRed);
                assert_ne!(command, Command::DisplayUpdateControl2(0xF7));
            }
            _ => {}
        }
    }
}

#[test]
fn clearing_does_not_depend_on_the_frame() {
    let config = Config::new(16, 3).with_cascade(16);
    let start = |fill: u8| {
        let (mut dirty, mut black) = ([0u8; 12], [fill; 12]);
        let mut g = Graphics::new(config, &mut dirty, &mut black);
        let mut steps = g.update().unwrap().steps;
        steps.truncate(clear(2, 3).len());
        steps
    };
    assert_eq!(start(0), clear(2, 3));
    assert_eq!(start(0xA5), clear(2, 3));
}

#[test]
fn cascade_refreshes_can_be_laid_out_alone() {
    let config = Config::new(16, 3).with_cascade(16);
    let (mut dirty, mut black) = ([0u8; 12], [7u8; 12]);
    let g = Graphics::new(config, &mut dirty, &mut black);
    let cascade = config.cascade().unwrap();
    let mut script = Script::new();
    g.cascade_display_clear(&mut script, cascade);
    assert_eq!(script.steps, clear(2, 3));
    let mut script = Script::new();
    g.cascade_fast_activate(&mut script, cascade);
    assert_eq!(script.steps, fast(&[7; 12], 2, 3));
    let mut script = Script::new();
    g.update_fast(&mut script);
    assert_eq!(script.steps, fast(&[7; 12], 2, 3));
    let part = |rect: DirtyRect| {
        let mut script = Script::new();
        g.update_part(&mut script, rect);
        script.steps
    };
    let small = DirtyRect { min_byte_col: 0, max_byte_col: 0, min_y: 0, max_y: 0 };
    let odd = DirtyRect { min_byte_col: 9, max_byte_col: 3, min_y: 7, max_y: 900 };
    assert_eq!(part(small), part(odd));
}
