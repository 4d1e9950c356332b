use backend::srt::{AscentDebugSrtFrameData, AscentSrtFrameData, SrtDebugFrameData, SrtFrameData};

/// The telemetry values with decimals read as `f32`.
#[derive(Debug, PartialEq)]
struct Values {
    signal: Option<u8>,
    channel: Option<String>,
    flight_time: Option<u32>,
    sky_bat: Option<f32>,
    ground_bat: Option<f32>,
    latency: Option<u32>,
    bitrate_mbps: Option<f32>,
    distance: Option<u32>,
    hz: Option<u32>,
    sp: Option<u8>,
    gp: Option<u8>,
    air_temp: Option<u32>,
    gnd_temp: Option<u32>,
    ssnr: Option<f32>,
    gsnr: Option<f32>,
    stemp: Option<u32>,
    gtemp: Option<u32>,
    gerr: Option<u32>,
    serr: Option<u32>,
    sty_mode: Option<u32>,
    is_debug: bool,
}

fn num(t: &Option<String>) -> Option<f32> {
    t.as_ref().map(|t| t.parse::<f32>().expect("valid float text"))
}

fn values(d: &SrtFrameData) -> Values {
    Values {
        signal: d.signal,
        channel: d.channel.clone(),
        flight_time: d.flight_time,
        sky_bat: num(&d.sky_bat),
        ground_bat: num(&d.ground_bat),
        latency: d.latency,
        bitrate_mbps: num(&d.bitrate_mbps),
        distance: d.distance,
        hz: d.hz,
        sp: d.sp,
        gp: d.gp,
        air_temp: d.air_temp,
        gnd_temp: d.gnd_temp,
        ssnr: num(&d.ssnr),
        gsnr: num(&d.gsnr),
        stemp: d.stemp,
        gtemp: d.gtemp,
        gerr: d.gerr,
        serr: d.serr,
        sty_mode: d.sty_mode,
        is_debug: d.is_debug,
    }
}

#[test]
fn parse_pre_v31_36_8_srt_frame_data() {
    let line = "Signal:4 CH:8 FlightTime:0 SBat:4.7V GBat:7.2V Delay:32ms Bitrate:25Mbps Distance:7m";
    let parsed = SrtFrameData::from_str(line);
    assert_eq!(
        values(&parsed.expect("Failed to parse SRT frame data")),
        Values {
            signal: Some(4),
            channel: Some("8".to_string()),
            flight_time: Some(0),
            sky_bat: Some(4.7),
            ground_bat: Some(7.2),
            latency: Some(32),
            bitrate_mbps: Some(25.0),
            distance: Some(7),
            hz: None,
            sp: None,
            gp: None,
            air_temp: None,
            gnd_temp: None,
            ssnr: None,
            gsnr: None,
            stemp: None,
            gtemp: None,
            gerr: None,
            serr: None,
            sty_mode: None,
            is_debug: false,
        }
    );
}

#[test]
fn parse_v32_37_10_srt_frame_data() {
    let line = "Signal:4 CH:7 FlightTime:0 SBat:16.7V GBat:12.5V Delay:25ms Bitrate:25.0Mbps Distance:1m";
    let parsed = SrtFrameData::from_str(line);
    assert_eq!(
        values(&parsed.expect("Failed to parse SRT frame data")),
        Values {
            signal: Some(4),
            channel: Some("7".to_string()),
            flight_time: Some(0),
            sky_bat: Some(16.7),
            ground_bat: Some(12.5),
            latency: Some(25),
            bitrate_mbps: Some(25.0),
            distance: Some(1),
            hz: None,
            sp: None,
            gp: None,
            air_temp: None,
            gnd_temp: None,
            ssnr: None,
            gsnr: None,
            stemp: None,
            gtemp: None,
            gerr: None,
            serr: None,
            sty_mode: None,
            is_debug: false,
        }
    );
}

#[test]
fn parse_v37_42_3_debug_src_frame_data() {
    let line = "CH:1 MCS:4 SP[ 45 152  47 149] GP[ 49  48  45  47] GTP:27 GTP0:00 STP:24 STP0:00 GSNR:25.9 SSNR:17.8 Gtemp:50 Stemp:82 Delay:31ms Frame:60  Gerr:0 SErr:0 42, [iso:0,mode=max, exp:0] [gain:0.00 exp:0.000ms]";
    let d = SrtDebugFrameData::from_str(line).expect("Failed to parse SRT frame data");
    let f = |t: &String| t.parse::<f32>().expect("valid float text");
    assert_eq!(
        (d.signal, d.channel, d.latency, d.sp1, d.sp2, d.sp3, d.sp4, d.gp1, d.gp2, d.gp3, d.gp4),
        (4, 1, 31, 45, 152, 47, 149, 49, 48, 45, 47)
    );
    assert_eq!((d.gtp, d.gtp0, d.stp, d.stp0), (27, 0, 24, 0));
    assert_eq!((f(&d.gsnr), f(&d.ssnr), f(&d.gtemp), f(&d.stemp)), (25.9, 17.8, 50.0, 82.0));
    assert_eq!((d.frame, d.gerr, d.serr, d.serr_ext), (60, 0, 0, 42));
    assert_eq!((d.iso, d.iso_mode.as_str(), d.iso_exp), (0, "max", 0));
    assert_eq!((f(&d.gain), f(&d.gain_exp)), (0.0, 0.0));
}

#[test]
fn parse_ascent_srt_frame_data() {
    let line = "Signal:4 CH:AUTO Hz:5805000 FlightTime:0 Sp=19 Gp=17 SBat:5.0V GBat:11.6V Delay:37ms Bitrate:25.0Mbps Distance:0m";
    let d = AscentSrtFrameData::from_str(line).expect("Failed to parse Ascent SRT frame data");
    assert_eq!(d.signal, 4);
    assert_eq!(d.channel, "AUTO");
    assert_eq!(d.hz, 5_805_000);
    assert_eq!(d.flight_time, 0);
    assert_eq!(d.sp, 19);
    assert_eq!(d.gp, 17);
    assert_eq!(d.sky_bat.parse::<f32>().unwrap(), 5.0);
    assert_eq!(d.ground_bat.parse::<f32>().unwrap(), 11.6);
    assert_eq!(d.latency, 37);
    assert_eq!(d.bitrate_mbps.parse::<f32>().unwrap(), 25.0);
    assert_eq!(d.distance, 0);
}

#[test]
fn parse_artlynk_srt_frame_data() {
    let line = "Signal:4 CH: 3 FlightTime:   0 SBat:7.11 GBat:7.54 Bitrate: 4Mbps Distance:     0m STYMode:1 AirTemp: 49 GndTemp: 34";
    let parsed = SrtFrameData::from_str(line);
    assert_eq!(
        values(&parsed.expect("Failed to parse Artlynk SRT frame data")),
        Values {
            signal: Some(4),
            channel: Some("3".to_string()),
            flight_time: Some(0),
            sky_bat: Some(7.11),
            ground_bat: Some(7.54),
            latency: None,
            bitrate_mbps: Some(4.0),
            distance: Some(0),
            hz: None,
            sp: None,
            gp: None,
            air_temp: Some(49),
            gnd_temp: Some(34),
            ssnr: None,
            gsnr: None,
            stemp: None,
            gtemp: None,
            gerr: None,
            serr: None,
            sty_mode: Some(1),
            is_debug: false,
        }
    );
}

#[test]
fn test_ascent_parsing_priority() {
    let line = "Signal:4 CH:AUTO Hz:5805000 FlightTime:0 Sp=19 Gp=17 SBat:5.0V GBat:11.6V Delay:37ms Bitrate:25.0Mbps Distance:0m";
    let mut data = AscentSrtFrameData::from_str(line).ok().map(SrtFrameData::from);
    if data.is_none() {
        data = SrtFrameData::from_str(line).ok();
    }
    let data = data.expect("Should parse as AscentSrtFrameData");
    assert_eq!(data.hz, Some(5_805_000));
    assert_eq!(data.sp, Some(19));
    assert_eq!(data.gp, Some(17));
}

#[test]
fn srt_fields_that_do_not_parse_become_none() {
    let d = SrtFrameData::from_str("Signal:300 SBat:abcV FlightTime:-1 Delay:+12ms GndTemp:7").unwrap();
    assert_eq!(d.signal, None);
    assert_eq!(d.sky_bat, None);
    assert_eq!(d.flight_time, None);
    assert_eq!(d.latency, Some(12));
    assert_eq!(d.gnd_temp, Some(7));
}

#[test]
fn srt_later_field_replaces_earlier() {
    let d = SrtFrameData::from_str("AirTemp:40 Stemp:41 Gtemp:30 Unknown:5 MCS:7").unwrap();
    assert_eq!(d.air_temp, Some(41));
    assert_eq!(d.gnd_temp, Some(30));
    assert_eq!(d.signal, Some(7));
    assert_eq!(d.stemp, None);
    let e = SrtFrameData::from_str("").unwrap();
    assert_eq!(e.signal, None);
    assert!(!e.is_debug);
}

#[test]
fn srt_float_text_forms() {
    let d = SrtFrameData::from_str("SBat:1e3VV GBat:.5V Bitrate:inf").unwrap();
    assert_eq!(d.sky_bat.as_deref(), Some("1e3"));
    assert_eq!(d.ground_bat.as_deref(), Some(".5"));
    assert_eq!(d.bitrate_mbps.as_deref(), Some("inf"));
    let bad = SrtFrameData::from_str("SBat:1.2.3V GBat:e5V Bitrate:1e+").unwrap();
    assert_eq!((bad.sky_bat, bad.ground_bat, bad.bitrate_mbps), (None, None, None));
}

#[test]
fn ascent_errors_name_first_bad_field_alphabetically() {
    assert_eq!(
        AscentSrtFrameData::from_str("nothing like the template").unwrap_err(),
        "parse failed."
    );
    let line = "Signal:300 CH:A Hz:1 FlightTime:0 Sp=1 Gp=2 SBat:5.0V GBat:1V Delay:3ms Bitrate:2Mbps Distance:x0m";
    assert_eq!(AscentSrtFrameData::from_str(line).unwrap_err(), "field `distance` parse failed.");
    let line = "Signal:300 CH:A Hz:1 FlightTime:0 Sp=1 Gp=2 SBat:5.0V GBat:1V Delay:3ms Bitrate:2Mbps Distance:0m";
    assert_eq!(AscentSrtFrameData::from_str(line).unwrap_err(), "field `signal` parse failed.");
}

#[test]
fn ascent_fields_are_shortest() {
    // the channel runs to the first " Hz:"; the rest must still fit
    let line = "Signal:1 CH:a Hz:b Hz:2 FlightTime:0 Sp=1 Gp=2 SBat:5V GBat:1V Delay:3ms Bitrate:2Mbps Distance:0m";
    assert_eq!(AscentSrtFrameData::from_str(line).unwrap_err(), "field `hz` parse failed.");
}

#[test]
fn ascent_debug_line() {
    let line = "Hz:5805000 MCS:4 xx SSNR:25.5 GSNR:17.2 Stemp:50 Gtemp:45 Delay:30ms Frame:60 Serr:1 Gerr:2 yy Sp=19 Gp=17 25.0";
    let d = AscentDebugSrtFrameData::from_str(line).expect("debug line");
    assert_eq!((d.hz, d.signal, d.stemp, d.gtemp, d.latency, d.frame, d.serr, d.gerr, d.sp, d.gp), (5_805_000, 4, 50, 45, 30, 60, 1, 2, 19, 17));
    assert_eq!((d.ssnr.as_str(), d.gsnr.as_str(), d.bitrate_mbps.as_str()), ("25.5", "17.2", "25.0"));
    let s = SrtFrameData::from(d);
    assert!(s.is_debug);
    assert_eq!((s.air_temp, s.stemp, s.gnd_temp, s.gtemp), (Some(50), Some(50), Some(45), Some(45)));
    assert_eq!(s.channel, None);
    assert_eq!(s.ssnr.as_deref(), Some("25.5"));
}

#[test]
fn ascent_debug_errors() {
    assert_eq!(
        AscentDebugSrtFrameData::from_str("Signal:4").unwrap_err(),
        "Failed to match AscentDebugSrt pattern"
    );
    let line = "Hz:99999999999 MCS:4 SSNR:1.2.3 GSNR:1 Stemp:1 Gtemp:1 Delay:1ms Frame:1 Serr:1 Gerr:1 Sp=1 Gp=1 1";
    assert_eq!(
        AscentDebugSrtFrameData::from_str(line).unwrap_err(),
        "hz: number too large to fit in target type"
    );
    let line = "Hz:1 MCS:300 SSNR:1.2.3 GSNR:1 Stemp:1 Gtemp:1 Delay:1ms Frame:1 Serr:1 Gerr:1 Sp=1 Gp=1 1";
    assert_eq!(
        AscentDebugSrtFrameData::from_str(line).unwrap_err(),
        "mcs: number too large to fit in target type"
    );
    let line = "Hz:1 MCS:3 SSNR:1.2.3 GSNR:1 Stemp:1 Gtemp:1 Delay:1ms Frame:70000 Serr:1 Gerr:1 Sp=1 Gp=1 1";
    assert_eq!(AscentDebugSrtFrameData::from_str(line).unwrap_err(), "ssnr: invalid float literal");
    let line = "Hz:1 MCS:3 SSNR:1.2 GSNR:1 Stemp:1 Gtemp:1 Delay:1ms Frame:70000 Serr:1 Gerr:1 Sp=1 Gp=1 1";
    assert_eq!(
        AscentDebugSrtFrameData::from_str(line).unwrap_err(),
        "frame: number too large to fit in target type"
    );
}

#[test]
fn ascent_into_srt_frame() {
    let line = "Signal:4 CH:AUTO Hz:5805000 FlightTime:9 Sp=19 Gp=17 SBat:5.0V GBat:11.6V Delay:37ms Bitrate:25.0Mbps Distance:3m";
    let s = SrtFrameData::from(AscentSrtFrameData::from_str(line).unwrap());
    assert_eq!(s.channel.as_deref(), Some("AUTO"));
    assert_eq!((s.signal, s.flight_time, s.latency, s.distance), (Some(4), Some(9), Some(37), Some(3)));
    assert_eq!(s.sky_bat.as_deref(), Some("5.0"));
    assert_eq!((s.air_temp, s.ssnr.clone(), s.sty_mode), (None, None, None));
    assert!(!s.is_debug);
}
