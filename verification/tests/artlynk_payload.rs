use backend::artlynk::{
    extract_osd_from_video, frame_from_sei, frames_from_sei, parse_hex, parse_msp_payload,
    walk_length_prefixed, walk_stays_in_bounds, ExtractAction, ExtractEvent, ExtractState,
    SeiEntry, QUICK_SCAN_SECONDS,
};
use backend::frame::{Glyph, GridPosition};

const DUMP: &str = "0d00ff0000ffd700ff0000ff9801ff0ab6ff030cff0300ff9034ff2e32ff3206ff07b6ff0309ff1900ff7273ff740affb603ff0d03ff009cff3030ff3a30ff3008ffb603ff0e2cff0041ff4352ff4f08ffb603ff0c2cff0004ff2038ff360bffb603ff0d2bff0020ff2030ff2e35ff379aff09b6ff030eff0400ff2020ff2034ff070fffb603ff1015ff004dff4554ff454fff5237ff3520ff5031ff04b6ff030fff1500ff0ab6ff0303ff0300ff7b37ff3a31ff3030ff0ab6ff0301ff0300ff0120ff3130ff4d57ff08b6ff0302ff0300ff012dff3531ff06b6ff030fff2c00ff4149";

fn glyph(index: u16, x: u32, y: u32) -> Glyph {
    Glyph { index, grid_position: GridPosition { x, y } }
}

#[test]
fn parse_hex_drops_every_third_byte() {
    let data = parse_hex(DUMP);
    assert_eq!(data.len(), 152);
    assert_eq!(
        data,
        vec![
            13, 0, 0, 0, 215, 0, 0, 0, 152, 1, 10, 182, 3, 12, 3, 0, 144, 52, 46, 50, 50, 6, 7,
            182, 3, 9, 25, 0, 114, 115, 116, 10, 182, 3, 13, 3, 0, 156, 48, 48, 58, 48, 48, 8,
            182, 3, 14, 44, 0, 65, 67, 82, 79, 8, 182, 3, 12, 44, 0, 4, 32, 56, 54, 11, 182, 3,
            13, 43, 0, 32, 32, 48, 46, 53, 55, 154, 9, 182, 3, 14, 4, 0, 32, 32, 32, 52, 7, 15,
            182, 3, 16, 21, 0, 77, 69, 84, 69, 79, 82, 55, 53, 32, 80, 49, 4, 182, 3, 15, 21, 0,
            10, 182, 3, 3, 3, 0, 123, 55, 58, 49, 48, 48, 10, 182, 3, 1, 3, 0, 1, 32, 49, 48, 77,
            87, 8, 182, 3, 2, 3, 0, 1, 45, 53, 49, 6, 182, 3, 15, 44, 0, 65, 73,
        ]
    );
}

#[test]
fn parse_hex_ignores_separators_and_case() {
    assert_eq!(parse_hex("0A:bb FF 01\n02 zz 03"), vec![0x0a, 0xbb, 0x01, 0x02]);
    assert_eq!(parse_hex(""), Vec::<u8>::new());
}

#[test]
fn msp_payload_of_recorded_dump() {
    let entries = parse_msp_payload(DUMP).expect("dump holds commands");
    let expected: Vec<(u8, u8, u16)> = vec![
        (12, 3, 144), (12, 4, 52), (12, 5, 46), (12, 6, 50), (12, 7, 50), (12, 8, 6),
        (9, 25, 114), (9, 26, 115), (9, 27, 116), (13, 3, 156), (13, 4, 48), (13, 5, 48),
        (13, 6, 58), (13, 7, 48), (13, 8, 48), (14, 44, 65), (14, 45, 67), (14, 46, 82),
        (14, 47, 79), (12, 44, 4), (12, 45, 32), (12, 46, 56), (12, 47, 54), (13, 43, 32),
        (13, 44, 32), (13, 45, 48), (13, 46, 46), (13, 47, 53), (13, 48, 55), (13, 49, 154),
        (14, 4, 32), (14, 5, 32), (14, 6, 32), (14, 7, 52), (14, 8, 7), (16, 21, 77),
        (16, 22, 69), (16, 23, 84), (16, 24, 69), (16, 25, 79), (16, 26, 82), (16, 27, 55),
        (16, 28, 53), (16, 29, 32), (16, 30, 80), (16, 31, 49), (3, 3, 123), (3, 4, 55),
        (3, 5, 58), (3, 6, 49), (3, 7, 48), (3, 8, 48), (1, 3, 1), (1, 4, 32), (1, 5, 49),
        (1, 6, 48), (1, 7, 77), (1, 8, 87), (2, 3, 1), (2, 4, 45), (2, 5, 53), (2, 6, 49),
        (15, 44, 65), (15, 45, 73),
    ];
    assert_eq!(entries, expected);
}

#[test]
fn msp_payload_strips_line_addresses() {
    let text = "00000000: 00 b6 ff 03 02 ff 05 00 \n00000010: ff 41 42 ff 43 44 ff  \n";
    assert_eq!(
        parse_msp_payload(text),
        Some(vec![(2, 5, 65), (2, 6, 66), (2, 7, 67), (2, 8, 68)])
    );
}

#[test]
fn msp_payload_attribute_selects_font_page() {
    // b6 03 row=1 col=2 attr=0x03, glyphs 0x10 0x11 0x12 0x13 (10 bytes after de-padding)
    let text = "b603ff0102ff0310ff1112ff1313ff";
    assert_eq!(
        parse_msp_payload(text),
        Some(vec![(1, 2, 0x310), (1, 3, 0x311), (1, 4, 0x312), (1, 5, 0x313), (1, 6, 0x313)])
    );
}

#[test]
fn msp_payload_column_saturates() {
    // col = 0xfe: the second glyph and later stay at column 255
    let text = "b603ff01feff0041ff4243ff4445ff";
    assert_eq!(
        parse_msp_payload(text),
        Some(vec![(1, 254, 0x41), (1, 255, 0x42), (1, 255, 0x43), (1, 255, 0x44), (1, 255, 0x45)])
    );
}

#[test]
fn msp_payload_rejects_bad_input() {
    // odd number of hex digits
    assert_eq!(parse_msp_payload("b603ff0102ff0310ff1112ff1313f"), None);
    // fewer than 10 bytes after de-padding
    assert_eq!(parse_msp_payload("b603ff0102ff03"), None);
    // no b6 03 command
    assert_eq!(parse_msp_payload("0000ff0000ff0000ff0000ff0000ff"), None);
    // a command whose header is cut off yields no entry
    assert_eq!(parse_msp_payload("0000ff0000ff0000ff0000ffb603ff"), None);
    assert_eq!(parse_msp_payload(""), None);
}

#[test]
fn frame_from_sei_keeps_visible_glyphs() {
    // row 1 col 51: glyphs at 51, 52 land on the grid, 53 and 54 do not;
    // the second glyph is a space and is dropped.
    let text = "b603ff0133ff0041ff2043ff4445ff";
    let frame = frame_from_sei(1500, text).expect("one visible glyph");
    assert_eq!(frame.time_millis, 1500);
    assert_eq!(frame.glyphs, vec![glyph(0x41, 51, 1)]);
}

#[test]
fn frame_from_sei_none_without_visible_glyph() {
    // row 25 is below the grid
    assert!(frame_from_sei(0, "b603ff1902ff0041ff4243ff4445ff").is_none());
    assert!(frame_from_sei(0, "zz").is_none());
}

#[test]
fn frames_from_entries_keep_order_and_skip_empty() {
    let entries = vec![
        SeiEntry { time_millis: 10, hex: "b603ff0102ff0041ff4243ff4445ff".to_string() },
        SeiEntry { time_millis: 20, hex: "nothing".to_string() },
        SeiEntry { time_millis: 30, hex: "b603ff0203ff0050ff0000ff0000ff".to_string() },
    ];
    let frames = frames_from_sei(&entries);
    assert_eq!(frames.len(), 2);
    assert_eq!(frames[0].time_millis, 10);
    assert_eq!(
        frames[0].glyphs,
        vec![glyph(0x41, 2, 1), glyph(0x42, 3, 1), glyph(0x43, 4, 1), glyph(0x44, 5, 1), glyph(0x45, 6, 1)]
    );
    assert_eq!(frames[1].time_millis, 30);
    assert_eq!(frames[1].glyphs, vec![glyph(0x50, 3, 2)]);
}

#[test]
fn extraction_uses_existing_osd_file() {
    let (s, a) = extract_osd_from_video(ExtractState::Start, ExtractEvent::Begin);
    assert_eq!(s, ExtractState::AwaitExisting);
    assert!(matches!(a, ExtractAction::CheckExistingOsdFile));
    let (s, a) = extract_osd_from_video(s, ExtractEvent::ExistingOsdFile(true));
    assert_eq!(s, ExtractState::Done);
    assert!(matches!(a, ExtractAction::OpenExistingOsdFile));
}

#[test]
fn extraction_skips_full_scan_without_quick_entries() {
    let (s, a) = extract_osd_from_video(ExtractState::AwaitExisting, ExtractEvent::ExistingOsdFile(false));
    assert_eq!(s, ExtractState::AwaitQuickScan);
    assert!(matches!(a, ExtractAction::ScanSei { limit_seconds: Some(QUICK_SCAN_SECONDS) }));
    assert_eq!(QUICK_SCAN_SECONDS, 2);
    let (s, a) = extract_osd_from_video(s, ExtractEvent::SeiEntries(vec![]));
    assert_eq!(s, ExtractState::Done);
    assert!(matches!(a, ExtractAction::NoOsd));
}

#[test]
fn extraction_builds_frames_from_full_scan() {
    let quick = vec![SeiEntry { time_millis: 0, hex: "00".to_string() }];
    let (s, a) = extract_osd_from_video(ExtractState::AwaitQuickScan, ExtractEvent::SeiEntries(quick));
    assert_eq!(s, ExtractState::AwaitFullScan);
    assert!(matches!(a, ExtractAction::ScanSei { limit_seconds: None }));
    let full = vec![
        SeiEntry { time_millis: 33, hex: "b603ff0102ff0041ff4243ff4445ff".to_string() },
        SeiEntry { time_millis: 66, hex: "b603ff0203ff0050ff0000ff0000ff".to_string() },
    ];
    let (s, a) = extract_osd_from_video(s, ExtractEvent::SeiEntries(full));
    assert_eq!(s, ExtractState::Done);
    match a {
        ExtractAction::Extracted(osd) => {
            assert_eq!(osd.frame_count, 2);
            assert_eq!(osd.frames[0].time_millis, 33);
            assert_eq!(osd.frames[1].glyphs, vec![glyph(0x50, 3, 2)]);
        }
        _ => panic!("expected extracted frames"),
    }
}

#[test]
fn extraction_without_valid_frames_finds_no_osd() {
    let full = vec![SeiEntry { time_millis: 33, hex: "ffff".to_string() }];
    let (s, a) = extract_osd_from_video(ExtractState::AwaitFullScan, ExtractEvent::SeiEntries(full));
    assert_eq!(s, ExtractState::Done);
    assert!(matches!(a, ExtractAction::NoOsd));
}

#[test]
fn length_prefixed_walk_of_recorded_dump() {
    let data = parse_hex(DUMP);
    assert!(walk_stays_in_bounds(&data, 8));
    assert_eq!(walk_length_prefixed(&data, 8), vec![]);
    assert_eq!(walk_length_prefixed(&data, 9), vec![(9, 1, false)]);
    assert_eq!(walk_length_prefixed(&data, 10), vec![(10, 10, true), (21, 6, false), (28, 114, false)]);
    assert_eq!(walk_length_prefixed(&data, 11), vec![]);
    // a one-byte record holding b6 as the last byte would be read past the end
    assert!(!walk_stays_in_bounds(&[1, 0xb6], 0));
    assert!(walk_stays_in_bounds(&[1, 0xb5], 0));
    assert_eq!(walk_length_prefixed(&[1, 0xb5, 2, 0xb6, 0x03], 0), vec![(0, 1, false), (2, 2, true)]);
}

#[test]
fn address_prefix_and_spaces_do_not_change_the_payload() {
    let plain = parse_msp_payload(DUMP);
    assert!(plain.is_some());
    assert_eq!(parse_msp_payload(&format!("00000010: {}", DUMP)), plain);
    let spaced: String = DUMP
        .chars()
        .enumerate()
        .flat_map(|(i, c)| if i % 5 == 0 { vec![' ', c] } else { vec![c] })
        .collect();
    assert_eq!(parse_msp_payload(&spaced), plain);
    // a line of whitespace only: the trimmed addressed line ends at the colon
    // (its digits are the address's), so such a line is left out of the law
    assert_eq!(parse_msp_payload(&format!("{}: ", DUMP)), plain);
    assert_ne!(parse_msp_payload(&format!("{}: ", DUMP)), parse_msp_payload(""));
}

#[test]
fn filler_bytes_do_not_change_the_payload() {
    let plain = parse_msp_payload(DUMP);
    let mut changed: Vec<char> = DUMP.chars().collect();
    // byte 2 (digits 4 and 5) and byte 5 (digits 10 and 11) are fillers
    for d in [4, 5, 10, 11] {
        changed[d] = '7';
    }
    let changed: String = changed.into_iter().collect();
    assert_ne!(changed, DUMP);
    assert_eq!(parse_msp_payload(&changed), plain);
}
