use backend::frame::{Frame, Glyph, GridPosition, FRAME_BYTES, GRID_CELLS};

fn glyph(index: u16, x: u32, y: u32) -> Glyph {
    Glyph { index, grid_position: GridPosition { x, y } }
}

fn encoded(time: u32, cells: &[(usize, u16)]) -> Vec<u8> {
    let mut bytes = time.to_le_bytes().to_vec();
    let mut grid = vec![0u16; GRID_CELLS];
    for &(k, v) in cells {
        grid[k] = v;
    }
    for v in grid {
        bytes.extend_from_slice(&v.to_le_bytes());
    }
    bytes
}

#[test]
fn as_bytes_layout() {
    let frame = Frame {
        time_millis: 0x0102_0304,
        glyphs: vec![glyph(0x1234, 0, 0), glyph(0x00ab, 52, 19), glyph(7, 1, 1)],
    };
    let bytes = frame.as_bytes();
    assert_eq!(bytes.len(), FRAME_BYTES);
    assert_eq!(&bytes[0..4], &[0x04, 0x03, 0x02, 0x01]);
    assert_eq!(&bytes[4..6], &[0x34, 0x12]);
    // cell (1, 1) is 53 + 1 = 54
    assert_eq!(&bytes[4 + 2 * 54..4 + 2 * 54 + 2], &[7, 0]);
    // last cell (52, 19)
    assert_eq!(&bytes[FRAME_BYTES - 2..], &[0xab, 0x00]);
    assert_eq!(bytes, encoded(0x0102_0304, &[(0, 0x1234), (54, 7), (1059, 0xab)]));
}

#[test]
fn as_bytes_later_glyph_wins_and_past_last_cell_dropped() {
    // x = 53 on row 0 lands in cell 53, the first cell of row 1;
    // (0, 20) is cell 1060, past the grid, and is dropped.
    let frame = Frame {
        time_millis: 5,
        glyphs: vec![glyph(1, 3, 2), glyph(2, 3, 2), glyph(9, 53, 0), glyph(9, 0, 20)],
    };
    assert_eq!(frame.as_bytes(), encoded(5, &[(2 * 53 + 3, 2), (53, 9)]));
}

#[test]
fn from_bytes_skips_blank_cells() {
    let bytes = encoded(1000, &[(0, 0x20), (1, 0x41), (53, 0x142), (1059, 3)]);
    let frame = Frame::from_bytes(&bytes);
    assert_eq!(frame.time_millis, 1000);
    assert_eq!(frame.glyphs, vec![glyph(0x41, 1, 0), glyph(0x142, 0, 1), glyph(3, 52, 19)]);
}

#[test]
fn from_bytes_of_short_record() {
    // a timestamp and two cells only
    let frame = Frame::from_bytes(&[1, 0, 0, 0, 0x41, 0, 0, 0]);
    assert_eq!(frame.time_millis, 1);
    assert_eq!(frame.glyphs, vec![glyph(0x41, 0, 0)]);
    let empty = Frame::from_bytes(&[0xff, 0xff, 0xff, 0xff]);
    assert_eq!(empty.time_millis, u32::MAX);
    assert!(empty.glyphs.is_empty());
}

#[test]
fn decode_of_encode_gives_grid_glyphs() {
    let frame = Frame {
        time_millis: 42,
        glyphs: vec![glyph(5, 10, 3), glyph(6, 2, 0), glyph(0x20, 4, 4)],
    };
    let back = Frame::from_bytes(&frame.as_bytes());
    assert_eq!(back.time_millis, 42);
    // in grid order, the space dropped
    assert_eq!(back.glyphs, vec![glyph(6, 2, 0), glyph(5, 10, 3)]);
}

#[test]
fn encode_of_decode_restores_bytes_but_spaces() {
    let bytes = encoded(77, &[(3, 0x99), (500, 0x3ff)]);
    assert_eq!(Frame::from_bytes(&bytes).as_bytes(), bytes);
    let with_space = encoded(77, &[(3, 0x99), (4, 0x20)]);
    assert_eq!(Frame::from_bytes(&with_space).as_bytes(), encoded(77, &[(3, 0x99)]));
}

#[test]
fn frame_round_trips_through_bytes() {
    let glyphs = vec![glyph(0x41, 0, 0), glyph(0x1ff, 52, 0), glyph(3, 1, 1), glyph(0x3ff, 52, 19)];
    let f = Frame { time_millis: 123_456_789, glyphs: glyphs.clone() };
    let g = Frame::from_bytes(&f.as_bytes());
    assert_eq!(g.time_millis, f.time_millis);
    assert_eq!(g.glyphs, glyphs);
}
