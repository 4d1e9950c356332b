use backend::artlynk::sei_entries_of_captures;
use backend::srt::{AscentDebugSrtFrameData, SrtFrameData};

fn cap(groups: &[Option<&str>]) -> Vec<Option<String>> {
    groups.iter().map(|g| g.map(|s| s.to_string())).collect()
}

#[test]
fn sei_captures_keep_readable_entries_in_order() {
    let caps = vec![
        cap(&[Some("all"), Some("0.5"), Some("0d b6")]),
        cap(&[Some("all"), None, Some("ff")]),
        cap(&[Some("all"), Some("1.2.3"), Some("aa")]),
        cap(&[Some("all"), Some("2"), Some("bb")]),
        cap(&[Some("all"), Some("3")]),
    ];
    assert_eq!(
        sei_entries_of_captures(&caps),
        vec![("0.5".to_string(), "0d b6".to_string()), ("2".to_string(), "bb".to_string())]
    );
    assert_eq!(sei_entries_of_captures(&vec![]), vec![]);
}

#[test]
fn srt_captures_are_read_in_order() {
    let caps = vec![
        cap(&[Some("Signal:4"), Some("Signal"), Some("4")]),
        cap(&[Some("SBat:16.2V"), Some("SBat"), Some("16.2V")]),
        cap(&[Some("x"), None, Some("9")]),
        cap(&[Some("MCS:300"), Some("MCS"), Some("300")]),
        cap(&[Some("Gtemp:31"), Some("Gtemp"), Some("31")]),
    ];
    let d = SrtFrameData::from_captures(&caps);
    assert_eq!(d.signal, None);
    assert_eq!(d.sky_bat.as_deref(), Some("16.2"));
    assert_eq!(d.gnd_temp, Some(31));
    assert_eq!(d.air_temp, None);
    assert!(!d.is_debug);
}

fn debug_groups(frame: &str) -> Vec<Option<String>> {
    let mut g = vec![Some("whole")];
    g.extend(
        ["5805000", "4", "25.5", "17.2", "50", "45", "30", frame, "1", "2", "19", "17", "25.0"]
            .iter()
            .map(|s| Some(*s)),
    );
    cap(&g)
}

#[test]
fn ascent_debug_captures() {
    let d = AscentDebugSrtFrameData::from_captures(&vec![debug_groups("60"), debug_groups("x")]).unwrap();
    assert_eq!((d.hz, d.signal, d.frame, d.sp, d.gp), (5_805_000, 4, 60, 19, 17));
    assert_eq!(d.bitrate_mbps, "25.0");
    assert_eq!(
        AscentDebugSrtFrameData::from_captures(&vec![]).unwrap_err(),
        "Failed to match AscentDebugSrt pattern"
    );
    assert_eq!(
        AscentDebugSrtFrameData::from_captures(&vec![debug_groups("70000")]).unwrap_err(),
        "frame: number too large to fit in target type"
    );
}
