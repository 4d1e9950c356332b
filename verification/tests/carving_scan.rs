use backend::artlynk::sei_log_entries;
use backend::carving::{find_signatures, png_offset_in_line, signature_name};

#[test]
fn finds_signatures_in_order() {
    let mut buf = vec![0u8; 40];
    buf[3..11].copy_from_slice(b"\x89PNG\r\n\x1a\n");
    buf[20] = 0x1f;
    buf[21] = 0x8b;
    buf[30..34].copy_from_slice(b"hsqs");
    let hits = find_signatures(&buf, buf.len());
    // zero bytes hold no signature except that "\x5d\x00\x00" needs 0x5d
    assert_eq!(hits, vec![(1, 3), (6, 20), (2, 30)]);
    assert_eq!(signature_name(1), "PNG");
    assert_eq!(signature_name(2), "SquashFS");
}

#[test]
fn signature_must_fit_in_filled_part() {
    let mut buf = vec![0u8; 16];
    buf[6..10].copy_from_slice(b"OKLI");
    assert_eq!(find_signatures(&buf, 10), vec![(0, 6)]);
    assert_eq!(find_signatures(&buf, 9), Vec::<(usize, usize)>::new());
    // two signatures at one position come in list order
    let lz = [0x5d, 0x00, 0x00, 0x53, 0xef];
    assert_eq!(find_signatures(&lz, 5), vec![(7, 0), (4, 3)]);
}

#[test]
fn png_offsets_from_scan_log() {
    assert_eq!(png_offset_in_line("Found PNG at offset 0x1A2B"), Some(0x1a2b));
    assert_eq!(png_offset_in_line("Found PNG at offset 0x1a2b, size 10\n"), Some(0x1a2b));
    assert_eq!(png_offset_in_line("Found PNG at offset 0x   ff00"), Some(0xff00));
    assert_eq!(png_offset_in_line("Found GZIP at offset 0x10"), None);
    assert_eq!(png_offset_in_line("Found PNG at offset 0x"), None);
    assert_eq!(png_offset_in_line("Found PNG at offset 0xZZ"), None);
    assert_eq!(png_offset_in_line("Found PNG, no offset"), None);
    assert_eq!(png_offset_in_line("Found PNG 0x10000000000000000"), None);
}

#[test]
fn sei_entries_from_showinfo_log() {
    let log = "[Parsed_showinfo_0] n:0 pts:1 pts_time:0.033 duration:1\n  side data - User Data=0db603ff\n[Parsed_showinfo_0] n:1 pts_time:0.066\n  User Data=41 42\n";
    let entries = sei_log_entries(log).expect("pattern compiles");
    assert_eq!(
        entries,
        vec![
            ("0.033".to_string(), "0db603ff\n".to_string()),
            ("0.066".to_string(), "41 42\n".to_string()),
        ]
    );
    assert_eq!(sei_log_entries("no entries here"), Some(vec![]));
}

#[test]
fn sei_entries_with_unreadable_time_are_skipped() {
    let log = "pts_time:1.2.3 User Data=aa\npts_time:2.5 User Data=bb\npts_time:. User Data=cc\n";
    let entries = sei_log_entries(log).expect("pattern compiles");
    assert_eq!(entries, vec![("2.5".to_string(), "bb\n".to_string())]);
}
