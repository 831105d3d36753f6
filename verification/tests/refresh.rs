use ssd1683::color::EpdColor;
use ssd1683::command::{Command, DataEntryMode, DeepSleepMode, IncrementAxis};
use ssd1683::model::{Refresh, MAX_FAST_UPDATE_TIME};
use ssd1683::tools::DirtyRect;
use ssd1683::{Config, Graphics, Script, Step};

fn ex(command: Command) -> Step {
    Step::Execute(command)
}

fn window(last_col: u8, height: u16) -> Vec<Step> {
    vec![
        ex(Command::DataEntryMode(DataEntryMode::IncrementYIncrementX, IncrementAxis::Horizontal)),
        ex(Command::StartEndXPosition(0, last_col)),
        ex(Command::StartEndYPosition(0, height)),
        ex(Command::XAddress(0)),
        ex(Command::YAddress(0)),
        Step::BusyWait,
    ]
}

fn activate(control: u8) -> Vec<Step> {
    vec![ex(Command::DisplayUpdateControl2(control)), ex(Command::MasterActivation), Step::BusyWait]
}

fn normal(black: Vec<u8>, red: Vec<u8>, last_col: u8, height: u16) -> Vec<Step> {
    let mut steps = vec![
        Step::Reset,
        Step::BusyWait,
        ex(Command::SoftReset),
        Step::BusyWait,
        ex(Command::DriverOutputControl(height, 0)),
        ex(Command::DisplayUpdateControl1(0x4000)),
        ex(Command::BorderWaveform(0x05)),
    ];
    steps.extend(window(last_col, height));
    steps.push(ex(Command::WriteRamBW));
    steps.push(Step::Data(black));
    steps.push(ex(Command::WriteRamRed));
    steps.push(Step::Data(red));
    steps.extend(activate(0xF7));
    steps
}

fn fast_start(last_col: u8, height: u16) -> Vec<Step> {
    let mut steps = vec![
        Step::Reset,
        ex(Command::SoftReset),
        Step::BusyWait,
        ex(Command::DisplayUpdateControl1(0x4000)),
        ex(Command::BorderWaveform(0x05)),
        ex(Command::WriteTemperatureSensor(0x6E)),
        ex(Command::DisplayUpdateControl2(0x91)),
        ex(Command::MasterActivation),
    ];
    steps.extend(window(last_col, height));
    steps.push(ex(Command::WriteRamBW));
    steps
}

fn part_start(rect: DirtyRect) -> Vec<Step> {
    vec![
        Step::Reset,
        ex(Command::DisplayUpdateControl1(0)),
        ex(Command::BorderWaveform(0x80)),
        ex(Command::StartEndXPosition(rect.min_byte_col, rect.max_byte_col)),
        ex(Command::StartEndYPosition(rect.min_y, rect.max_y)),
        ex(Command::XAddress(rect.min_byte_col)),
        ex(Command::YAddress(rect.min_y)),
        ex(Command::WriteRamBW),
    ]
}

/// Performs an update that succeeds, and gives what was sent before the sleep.
fn updated(g: &mut Graphics) -> Option<Vec<Step>> {
    assert!(g.can_update());
    let script = g.update()?;
    let sleep = g.finish_update();
    assert_eq!(
        sleep.steps,
        vec![ex(Command::DeepSleepMode(DeepSleepMode::PreserveRAM)), Step::DelayMs(100)]
    );
    Some(script.steps)
}

fn draw_all(g: &mut Graphics) {
    let size = g.size();
    for y in 0..size.height {
        for x in 0..size.width {
            g.set_pixel(x, y, EpdColor::Black);
        }
    }
}

#[test]
fn first_update_is_full_and_sets_the_reference() {
    let (mut dirty, mut black) = ([0u8; 4], [1u8, 2, 3, 4]);
    let mut g = Graphics::new(Config::new(16, 2), &mut dirty, &mut black);
    assert_eq!(g.due(), Some(Refresh::Normal));
    assert_eq!(updated(&mut g), Some(normal(vec![1, 2, 3, 4], vec![1, 2, 3, 4], 1, 2)));
}

#[test]
fn first_update_with_red_sends_the_red_plane() {
    let (mut dirty, mut black, mut red) = ([0u8; 4], [1u8, 2, 3, 4], [5u8, 6, 7, 8]);
    let mut g = Graphics::new_with_red(Config::new(16, 2), &mut dirty, &mut black, &mut red);
    assert_eq!(updated(&mut g), Some(normal(vec![1, 2, 3, 4], vec![5, 6, 7, 8], 1, 2)));
}

#[test]
fn nothing_is_due_until_something_is_drawn() {
    let (mut dirty, mut black) = ([0u8; 4], [0u8; 4]);
    let mut g = Graphics::new(Config::new(16, 2), &mut dirty, &mut black);
    g.set_pixel(3, 1, EpdColor::White);
    assert!(updated(&mut g).is_some());
    assert_eq!(g.due(), None);
    assert_eq!(updated(&mut g), None);
    g.set_pixel(3, 1, EpdColor::White);
    assert!(updated(&mut g).is_some());
    assert_eq!(updated(&mut g), None);
    assert_eq!(dirty, [0; 4]);
}

#[test]
fn small_area_is_refreshed_in_part() {
    let (mut dirty, mut black) = ([0u8; 16], [0xFFu8; 16]);
    let mut g = Graphics::new(Config::new(32, 4), &mut dirty, &mut black);
    updated(&mut g);
    g.set_pixel(8, 1, EpdColor::Black);
    g.set_pixel(23, 2, EpdColor::Black);
    let rect = DirtyRect { min_byte_col: 1, max_byte_col: 2, min_y: 1, max_y: 2 };
    assert_eq!(g.due(), Some(Refresh::Part(rect)));
    let mut expected = part_start(rect);
    expected.push(Step::Data(vec![0x7F, 0xFF]));
    expected.push(Step::Data(vec![0xFF, 0xFE]));
    expected.extend(activate(0xFF));
    assert_eq!(updated(&mut g), Some(expected));
}

#[test]
fn part_with_red_sends_both_planes() {
    let (mut dirty, mut black, mut red) = ([0u8; 4], [0u8; 4], [0u8; 4]);
    let mut g = Graphics::new_with_red(Config::new(16, 2), &mut dirty, &mut black, &mut red);
    updated(&mut g);
    g.set_pixel(15, 1, EpdColor::Red);
    let rect = DirtyRect { min_byte_col: 1, max_byte_col: 1, min_y: 1, max_y: 1 };
    let mut expected = part_start(rect);
    expected.push(Step::Data(vec![1]));
    expected.push(ex(Command::WriteRamRed));
    expected.push(Step::Data(vec![1]));
    expected.extend(activate(0xFF));
    assert_eq!(updated(&mut g), Some(expected));
}

#[test]
fn large_area_is_refreshed_fast() {
    let (mut dirty, mut black) = ([0u8; 16], [0xFFu8; 16]);
    let mut g = Graphics::new(Config::new(32, 4), &mut dirty, &mut black);
    updated(&mut g);
    draw_all(&mut g);
    assert_eq!(g.due(), Some(Refresh::Fast));
    let mut expected = fast_start(3, 4);
    expected.push(Step::Data(vec![0; 16]));
    expected.extend(activate(0xC7));
    assert_eq!(updated(&mut g), Some(expected));
}

#[test]
fn fast_with_red_sends_both_planes() {
    let (mut dirty, mut black, mut red) = ([0u8; 16], [0xFFu8; 16], [0xFFu8; 16]);
    let mut g = Graphics::new_with_red(Config::new(32, 4), &mut dirty, &mut black, &mut red);
    updated(&mut g);
    draw_all(&mut g);
    let mut expected = fast_start(3, 4);
    expected.push(Step::Data(vec![0; 16]));
    expected.push(ex(Command::WriteRamRed));
    expected.push(Step::Data(vec![0; 16]));
    expected.extend(activate(0xC7));
    assert_eq!(updated(&mut g), Some(expected));
}

#[test]
fn large_means_more_than_half_in_both_directions() {
    let (mut dirty, mut black) = ([0u8; 16], [0xFFu8; 16]);
    let mut g = Graphics::new(Config::new(32, 4), &mut dirty, &mut black);
    updated(&mut g);
    // As wide as can be, but from the first row to the third only.
    g.set_pixel(0, 0, EpdColor::Black);
    g.set_pixel(31, 2, EpdColor::Black);
    assert_eq!(
        g.due(),
        Some(Refresh::Part(DirtyRect { min_byte_col: 0, max_byte_col: 3, min_y: 0, max_y: 2 }))
    );
    g.set_pixel(0, 3, EpdColor::Black);
    assert_eq!(g.due(), Some(Refresh::Fast));
    updated(&mut g);
    // As high as can be, but three columns wide only.
    g.set_pixel(0, 0, EpdColor::Black);
    g.set_pixel(23, 3, EpdColor::Black);
    assert_eq!(
        g.due(),
        Some(Refresh::Part(DirtyRect { min_byte_col: 0, max_byte_col: 2, min_y: 0, max_y: 3 }))
    );
}

#[test]
fn full_refresh_returns_after_many_fast_ones() {
    let (mut dirty, mut black) = ([0u8; 16], [0xFFu8; 16]);
    let mut g = Graphics::new(Config::new(32, 4), &mut dirty, &mut black);
    assert_eq!(MAX_FAST_UPDATE_TIME, 100);
    updated(&mut g);
    for _ in 0..3 {
        for _ in 0..100 {
            draw_all(&mut g);
            assert_eq!(g.due(), Some(Refresh::Fast));
            updated(&mut g);
        }
        draw_all(&mut g);
        assert_eq!(g.due(), Some(Refresh::Normal));
        assert_eq!(updated(&mut g), Some(normal(vec![0; 16], vec![0; 16], 3, 4)));
    }
}

#[test]
fn partial_refreshes_do_not_count() {
    let (mut dirty, mut black) = ([0u8; 16], [0xFFu8; 16]);
    let mut g = Graphics::new(Config::new(32, 4), &mut dirty, &mut black);
    updated(&mut g);
    for _ in 0..100 {
        for _ in 0..3 {
            g.set_pixel(0, 0, EpdColor::Black);
            assert!(matches!(g.due(), Some(Refresh::Part(_))));
            updated(&mut g);
        }
        draw_all(&mut g);
        assert_eq!(g.due(), Some(Refresh::Fast));
        updated(&mut g);
    }
    g.set_pixel(0, 0, EpdColor::Black);
    assert!(matches!(g.due(), Some(Refresh::Part(_))));
    updated(&mut g);
    draw_all(&mut g);
    assert_eq!(g.due(), Some(Refresh::Normal));
}

#[test]
fn failed_fast_refreshes_do_not_count() {
    let (mut dirty, mut black) = ([0u8; 16], [0xFFu8; 16]);
    let mut g = Graphics::new(Config::new(32, 4), &mut dirty, &mut black);
    updated(&mut g);
    for _ in 0..100 {
        draw_all(&mut g);
        assert!(g.update().is_some());
        assert!(g.update().is_some());
        assert_eq!(g.due(), Some(Refresh::Fast));
        updated(&mut g);
    }
    draw_all(&mut g);
    assert_eq!(g.due(), Some(Refresh::Normal));
}

#[test]
fn failed_update_keeps_what_was_drawn() {
    let (mut dirty, mut black) = ([0u8; 16], [0xFFu8; 16]);
    let mut g = Graphics::new(Config::new(32, 4), &mut dirty, &mut black);
    assert!(g.update().is_some());
    assert_eq!(g.due(), Some(Refresh::Normal));
    updated(&mut g);
    g.set_pixel(9, 1, EpdColor::Black);
    let first = g.update();
    let second = g.update();
    assert!(first.is_some());
    assert_eq!(first, second);
    assert_eq!(dirty, [0, 0, 0, 0, 0, 0x40, 0, 0, 0, 0, 0, 0, 0, 0, 0, 0]);
}

#[test]
fn failed_full_refresh_comes_back_as_a_full_one() {
    let (mut dirty, mut black) = ([0u8; 16], [0xFFu8; 16]);
    let mut g = Graphics::new(Config::new(32, 4), &mut dirty, &mut black);
    updated(&mut g);
    for _ in 0..100 {
        draw_all(&mut g);
        updated(&mut g);
    }
    draw_all(&mut g);
    assert!(g.update().is_some());
    assert_eq!(g.due(), Some(Refresh::Normal));
    draw_all(&mut g);
    assert_eq!(updated(&mut g), Some(normal(vec![0; 16], vec![0; 16], 3, 4)));
    draw_all(&mut g);
    assert_eq!(g.due(), Some(Refresh::Fast));
}

#[test]
fn deep_sleep_waits() {
    let (mut dirty, mut black) = ([0u8; 1], [0u8; 1]);
    let g = Graphics::new(Config::new(8, 1), &mut dirty, &mut black);
    assert_eq!(
        g.deep_sleep(DeepSleepMode::DiscardRAM).steps,
        vec![ex(Command::DeepSleepMode(DeepSleepMode::DiscardRAM)), Step::DelayMs(100)]
    );
}

#[test]
fn update_needs_columns_and_planes() {
    let (mut dirty, mut black) = ([0u8; 4], [0u8; 4]);
    assert!(!Graphics::new(Config::new(0, 2), &mut dirty, &mut black).can_update());
    assert!(Graphics::new(Config::new(2048, 2), &mut dirty, &mut black).can_update());
    let mut short = [0u8; 3];
    let mut g = Graphics::new(Config::new(16, 2), &mut dirty, &mut short);
    assert!(updated(&mut g).is_some());
    assert!(g.can_update());
    let mut long = [0u8; 6];
    long[5] = 1;
    let mut g = Graphics::new(Config::new(16, 2), &mut long, &mut black);
    assert!(g.can_update());
    assert!(g.update().is_some());
    g.finish_update();
    assert!(g.can_update());
}

#[test]
fn the_widest_column_wraps() {
    let (mut dirty, mut black) = ([0u8; 1], [7u8; 1]);
    let mut g = Graphics::new(Config::new(4096, 1), &mut dirty, &mut black);
    assert_eq!(updated(&mut g), Some(normal(vec![7], vec![7], 255, 1)));
    let mut g = Graphics::new(Config::new(2056, 1), &mut dirty, &mut black);
    assert_eq!(updated(&mut g), Some(normal(vec![7], vec![7], 0, 1)));
}

#[test]
fn drawn_columns_have_to_fit() {
    let (mut dirty, mut black) = ([0u8; 512], [0u8; 512]);
    let mut g = Graphics::new(Config::new(4096, 1), &mut dirty, &mut black);
    updated(&mut g);
    assert_eq!(updated(&mut g), None);
    g.set_pixel(2047, 0, EpdColor::White);
    let rect = DirtyRect { min_byte_col: 255, max_byte_col: 255, min_y: 0, max_y: 0 };
    assert!(g.can_update());
    assert_eq!(g.due(), Some(Refresh::Part(rect)));
    updated(&mut g);
    g.set_pixel(2048, 0, EpdColor::White);
    assert!(!g.can_update());
}

#[test]
fn second_update_leaves_everything() {
    let (mut dirty, mut black, mut red) = ([3u8; 4], [1u8, 2, 3, 4], [5u8, 6, 7, 8]);
    let mut g = Graphics::new_with_red(Config::new(16, 2), &mut dirty, &mut black, &mut red);
    assert!(updated(&mut g).is_some());
    for _ in 0..3 {
        assert_eq!(updated(&mut g), None);
    }
    assert_eq!(dirty, [0; 4]);
    assert_eq!(black, [1, 2, 3, 4]);
    assert_eq!(red, [5, 6, 7, 8]);
}

#[test]
fn refreshes_can_be_laid_out_alone() {
    let (mut dirty, mut black) = ([0u8; 4], [1u8, 2, 3, 4]);
    let g = Graphics::new(Config::new(16, 2), &mut dirty, &mut black);
    assert!(g.can_refresh(Refresh::Normal));
    let mut script = Script::new();
    g.update_normal(&mut script);
    assert_eq!(script.steps, normal(vec![1, 2, 3, 4], vec![1, 2, 3, 4], 1, 2));
    assert!(g.can_refresh(Refresh::Fast));
    let mut script = Script::new();
    g.update_fast(&mut script);
    let mut expected = fast_start(1, 2);
    expected.push(Step::Data(vec![1, 2, 3, 4]));
    expected.extend(activate(0xC7));
    assert_eq!(script.steps, expected);
    let rect = DirtyRect { min_byte_col: 1, max_byte_col: 1, min_y: 0, max_y: 1 };
    assert!(g.can_refresh(Refresh::Part(rect)));
    let mut script = Script::new();
    g.update_part(&mut script, rect);
    let mut expected = part_start(rect);
    expected.push(Step::Data(vec![2]));
    expected.push(Step::Data(vec![4]));
    expected.extend(activate(0xFF));
    assert_eq!(script.steps, expected);
    let rect = DirtyRect { min_byte_col: 1, max_byte_col: 1, min_y: 0, max_y: 2 };
    assert!(!g.can_refresh(Refresh::Part(rect)));
}
