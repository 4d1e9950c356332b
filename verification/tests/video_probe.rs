use backend::video_info::{frame_rate_texts, stream_fields, ProbedStream, VideoInfoError};

fn stream(
    width: Option<i64>,
    height: Option<i64>,
    rate: &str,
    bit_rate: Option<&str>,
    duration: Option<&str>,
) -> ProbedStream {
    ProbedStream {
        width,
        height,
        avg_frame_rate: rate.to_string(),
        bit_rate: bit_rate.map(|s| s.to_string()),
        duration: duration.map(|s| s.to_string()),
    }
}

fn good() -> ProbedStream {
    stream(Some(1920), Some(1080), "60000/1001", Some("25000000"), Some("12.345"))
}

fn error_of(s: ProbedStream) -> VideoInfoError {
    match stream_fields(&vec![s]) {
        Err(e) => e,
        Ok(_) => panic!("expected an error"),
    }
}

#[test]
fn reads_every_field_of_the_first_stream() {
    let other = stream(None, None, "", None, None);
    let f = stream_fields(&vec![good(), other]).unwrap();
    assert_eq!(f.width, 1920);
    assert_eq!(f.height, 1080);
    assert_eq!(f.frame_rate_num, "60000");
    assert_eq!(f.frame_rate_den, "1001");
    assert_eq!(f.bitrate, 25_000_000);
    assert_eq!(f.duration, "12.345");
}

#[test]
fn no_stream_is_an_error() {
    assert_eq!(stream_fields(&vec![]).unwrap_err(), VideoInfoError::NoStream);
}

#[test]
fn missing_properties_are_reported_in_order() {
    assert_eq!(error_of(stream(None, None, "", None, None)), VideoInfoError::NoFrameWidth);
    assert_eq!(error_of(stream(Some(1), None, "", None, None)), VideoInfoError::NoFrameHeight);
    assert_eq!(error_of(stream(Some(1), Some(1), "30", None, None)), VideoInfoError::NoFrameRate);
    assert_eq!(error_of(stream(Some(1), Some(1), "30/x", None, None)), VideoInfoError::NoFrameRate);
    assert_eq!(error_of(stream(Some(1), Some(1), "30/1", None, None)), VideoInfoError::NoBitrate);
    assert_eq!(
        error_of(stream(Some(1), Some(1), "30/1", Some("4294967296"), None)),
        VideoInfoError::NoBitrate
    );
    assert_eq!(error_of(stream(Some(1), Some(1), "30/1", Some("-1"), None)), VideoInfoError::NoBitrate);
    assert_eq!(error_of(stream(Some(1), Some(1), "30/1", Some("8"), None)), VideoInfoError::NoDuration);
    assert_eq!(
        error_of(stream(Some(1), Some(1), "30/1", Some("8"), Some("1.2.3"))),
        VideoInfoError::NoDuration
    );
}

#[test]
fn largest_bitrate_is_read() {
    let mut s = good();
    s.bit_rate = Some("4294967295".to_string());
    assert_eq!(stream_fields(&vec![s]).unwrap().bitrate, u32::MAX);
}

#[test]
fn width_is_truncated_to_32_bits() {
    let mut s = good();
    s.width = Some((1i64 << 32) + 640);
    assert_eq!(stream_fields(&vec![s]).unwrap().width, 640);
}

#[test]
fn frame_rate_pieces_stop_at_the_next_slash() {
    assert_eq!(
        frame_rate_texts("30/1/2"),
        Some(("30".to_string(), "1".to_string()))
    );
    assert_eq!(frame_rate_texts("24000/1001"), Some(("24000".to_string(), "1001".to_string())));
    assert_eq!(frame_rate_texts("/1"), None);
    assert_eq!(frame_rate_texts("30/"), None);
    assert_eq!(frame_rate_texts("inf/1e3"), Some(("inf".to_string(), "1e3".to_string())));
    // the texts read as f32 exactly where std reads them
    for (text, parts) in [("30/1", true), ("2.5/.5", true), ("1/0", true), ("a/1", false), ("", false)] {
        assert_eq!(frame_rate_texts(text).is_some(), parts);
        let std_reads = text
            .split('/')
            .collect::<Vec<_>>()
            .get(..2)
            .map(|p| p[0].parse::<f32>().is_ok() && p[1].parse::<f32>().is_ok())
            .unwrap_or(false);
        assert_eq!(std_reads, parts);
    }
}
