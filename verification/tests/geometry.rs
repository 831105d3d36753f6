use ssd1683::tools::{calculate_dirty_area, rotation, send_region, DirtyRect};
use ssd1683::{Rotation, Script, Step};

const TURNS: [Rotation; 4] =
    [Rotation::Rotate0, Rotation::Rotate90, Rotation::Rotate180, Rotation::Rotate270];

#[test]
fn corners_of_the_surface() {
    // A panel of 16 by 3 pixels: two bytes in a row, six in all.
    assert_eq!(rotation(0, 0, 16, 3, Rotation::Rotate0), (0, 0x80));
    assert_eq!(rotation(15, 2, 16, 3, Rotation::Rotate0), (5, 0x01));
    assert_eq!(rotation(0, 0, 16, 3, Rotation::Rotate90), (1, 0x01));
    assert_eq!(rotation(2, 15, 16, 3, Rotation::Rotate90), (4, 0x80));
    assert_eq!(rotation(0, 0, 16, 3, Rotation::Rotate180), (5, 0x01));
    assert_eq!(rotation(15, 2, 16, 3, Rotation::Rotate180), (0, 0x80));
    assert_eq!(rotation(0, 0, 16, 3, Rotation::Rotate270), (4, 0x80));
    assert_eq!(rotation(2, 15, 16, 3, Rotation::Rotate270), (1, 0x01));
}

#[test]
fn inner_points() {
    assert_eq!(rotation(9, 1, 16, 3, Rotation::Rotate0), (3, 0x40));
    assert_eq!(rotation(1, 9, 16, 3, Rotation::Rotate90), (2, 0x02));
    assert_eq!(rotation(9, 1, 16, 3, Rotation::Rotate180), (2, 0x02));
    assert_eq!(rotation(1, 9, 16, 3, Rotation::Rotate270), (3, 0x40));
}

#[test]
fn points_and_bits_are_one_to_one() {
    let (width, height) = (24u32, 5u32);
    for turn in TURNS {
        let (w, h) = match turn {
            Rotation::Rotate0 | Rotation::Rotate180 => (width, height),
            Rotation::Rotate90 | Rotation::Rotate270 => (height, width),
        };
        let mut seen = [0u8; 15];
        for y in 0..h {
            for x in 0..w {
                let (index, bit) = rotation(x, y, width, height, turn);
                assert_eq!(bit.count_ones(), 1);
                assert_eq!(seen[index as usize] & bit, 0);
                seen[index as usize] |= bit;
            }
        }
        assert_eq!(seen, [0xFF; 15]);
    }
}

#[test]
fn clean_buffer_has_no_area() {
    assert_eq!(calculate_dirty_area(&[0; 12], 32), None);
    assert_eq!(calculate_dirty_area(&[], 32), None);
}

#[test]
fn area_of_one_byte() {
    let mut buffer = [0u8; 12];
    buffer[6] = 0x10;
    assert_eq!(
        calculate_dirty_area(&buffer, 32),
        Some(DirtyRect { min_byte_col: 2, max_byte_col: 2, min_y: 1, max_y: 1 })
    );
}

#[test]
fn area_is_the_smallest_rectangle() {
    let mut buffer = [0u8; 20];
    buffer[6] = 0x01;
    buffer[9] = 0x80;
    buffer[15] = 0xFF;
    assert_eq!(
        calculate_dirty_area(&buffer, 32),
        Some(DirtyRect { min_byte_col: 1, max_byte_col: 3, min_y: 1, max_y: 3 })
    );
}

#[test]
fn area_of_everything() {
    assert_eq!(
        calculate_dirty_area(&[1; 12], 32),
        Some(DirtyRect { min_byte_col: 0, max_byte_col: 3, min_y: 0, max_y: 2 })
    );
}

#[test]
fn area_with_the_most_columns() {
    let mut buffer = [0u8; 512];
    buffer[511] = 1;
    assert_eq!(
        calculate_dirty_area(&buffer, 2048),
        Some(DirtyRect { min_byte_col: 255, max_byte_col: 255, min_y: 1, max_y: 1 })
    );
}

#[test]
fn region_is_sent_row_by_row() {
    let mut buffer = [0u8; 12];
    for i in 0..12 {
        buffer[i] = i as u8;
    }
    let mut script = Script::new();
    script.push(Step::Reset);
    let rect = DirtyRect { min_byte_col: 1, max_byte_col: 2, min_y: 1, max_y: 2 };
    send_region(&mut script, &buffer, 32, &rect);
    assert_eq!(script.steps, vec![Step::Reset, Step::Data(vec![5, 6]), Step::Data(vec![9, 10])]);
}
