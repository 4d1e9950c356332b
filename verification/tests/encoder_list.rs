use backend::encoders::{Codec, Encoder, TargetOs};

fn names(v: &[Encoder]) -> Vec<String> {
    v.iter().map(|e| e.name.clone()).collect()
}

#[test]
fn candidates_on_linux() {
    let v = Encoder::candidate_encoders(TargetOs::Linux);
    assert_eq!(
        names(&v),
        vec![
            "libx264", "libx265", "h264_nvenc", "h264_qsv", "h264_vaapi", "h264_v4l2m2m",
            "hevc_nvenc", "hevc_qsv", "hevc_vaapi", "hevc_v4l2m2m", "libaom-av1", "libsvtav1",
            "librav1e", "av1_nvenc", "av1_qsv", "av1_vaapi", "av1_v4l2m2m",
        ]
    );
    assert!(v.iter().all(|e| !e.detected && e.extra_args.is_empty()));
    assert_eq!(v[2].codec, Codec::H264);
    assert!(v[2].hardware);
    assert!(!v[0].hardware);
}

#[test]
fn candidates_on_windows() {
    let v = Encoder::candidate_encoders(TargetOs::Windows);
    assert_eq!(
        names(&v),
        vec![
            "libx264", "libx265", "h264_amf", "h264_nvenc", "h264_qsv", "hevc_amf", "hevc_nvenc",
            "hevc_qsv", "libaom-av1", "libsvtav1", "librav1e", "av1_amf", "av1_nvenc", "av1_qsv",
        ]
    );
}

#[test]
fn candidates_on_macos() {
    let v = Encoder::candidate_encoders(TargetOs::MacOs);
    assert_eq!(
        names(&v),
        vec!["libx264", "libx265", "h264_videotoolbox", "hevc_videotoolbox", "libaom-av1", "libsvtav1", "librav1e"]
    );
    assert_eq!(v[3].extra_args, vec!["-tag:v".to_string(), "hvc1".to_string()]);
    assert_eq!(v[3].codec, Codec::H265);
}

#[test]
fn candidates_elsewhere_are_software_only() {
    let v = Encoder::candidate_encoders(TargetOs::Other);
    assert_eq!(names(&v), vec!["libx264", "libx265", "libaom-av1", "libsvtav1", "librav1e"]);
    assert!(v.iter().all(|e| !e.hardware));
}

#[test]
fn available_encoders_carry_probe_results() {
    let detected = [true, false, false, true, true, false, false];
    let v = Encoder::get_available_encoders(TargetOs::MacOs, &detected);
    assert_eq!(v.len(), 7);
    for (e, d) in v.iter().zip(detected.iter()) {
        assert_eq!(e.detected, *d);
    }
    assert_eq!(v[3].name, "hevc_videotoolbox");
    assert_eq!(v[3].extra_args, vec!["-tag:v".to_string(), "hvc1".to_string()]);
}

#[test]
fn probe_arguments() {
    let e = Encoder::new("h264_nvenc", Codec::H264, true);
    assert_eq!(
        e.probe_args(),
        vec!["-hide_banner", "-f", "lavfi", "-i", "nullsrc", "-c:v", "h264_nvenc", "-frames:v", "1", "-f", "null", "-"]
    );
}

#[test]
fn descriptions() {
    assert_eq!(Encoder::new("libx264", Codec::H264, false).description(), "libx264 — H.264 — software");
    assert_eq!(Encoder::new("av1_qsv", Codec::AV1, true).description(), "av1_qsv — AV1 — hardware");
    assert_eq!(Codec::H265.label(), "H.265");
}

#[test]
fn new_with_extra_args_copies_arguments() {
    let e = Encoder::new_with_extra_args("x", Codec::AV1, false, &["-a", "b"]);
    assert_eq!(e.name, "x");
    assert_eq!(e.extra_args, vec!["-a".to_string(), "b".to_string()]);
    assert!(!e.detected);
}
