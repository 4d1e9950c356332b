//! Telemetry lines of the SRT subtitle files that goggles record beside the
//! video. Decimal quantities (voltages, bit rates, signal-to-noise ratios,
//! ...) are kept as the text of a valid `f32` literal; their value is read
//! by whoever needs the number.
use vstd::prelude::*;

use crate::pattern::{
    captures_all, captures_model, group_of, group_text, groups_model, regex_captures,
};
use crate::template::{law_template_reading, lits_model, read_template, template_fields, template_literals};
use crate::text::{
    decimal, float_error_message, float_error_text, int_error_message, int_error_text,
    is_ascii_digit, is_float_literal, law_parse_unsigned_decimal,
    is_float_text, parse_unsigned, parse_unsigned_text, text_eq, trim_end_matches_text,
    trim_end_suffix, IntErrorKind,
};

verus! {

/// One line of telemetry, whichever firmware wrote it.
#[derive(Clone, Debug)]
pub struct SrtFrameData {
    pub signal: Option<u8>,
    pub channel: Option<String>,
    pub flight_time: Option<u32>,
    /// Sky (VTX) battery voltage, as `f32` text.
    pub sky_bat: Option<String>,
    /// Ground (goggle) battery voltage, as `f32` text.
    pub ground_bat: Option<String>,
    pub latency: Option<u32>,
    /// Bit rate in Mbps, as `f32` text.
    pub bitrate_mbps: Option<String>,
    pub distance: Option<u32>,
    pub hz: Option<u32>,
    pub sp: Option<u8>,
    pub gp: Option<u8>,
    pub air_temp: Option<u32>,
    pub gnd_temp: Option<u32>,
    /// Sky signal-to-noise ratio, as `f32` text.
    pub ssnr: Option<String>,
    /// Ground signal-to-noise ratio, as `f32` text.
    pub gsnr: Option<String>,
    pub stemp: Option<u32>,
    pub gtemp: Option<u32>,
    pub gerr: Option<u32>,
    pub serr: Option<u32>,
    pub sty_mode: Option<u32>,
    pub is_debug: bool,
}

/// `SrtFrameData` as a plain value.
pub struct SrtData {
    pub signal: Option<u8>,
    pub channel: Option<Seq<char>>,
    pub flight_time: Option<u32>,
    pub sky_bat: Option<Seq<char>>,
    pub ground_bat: Option<Seq<char>>,
    pub latency: Option<u32>,
    pub bitrate_mbps: Option<Seq<char>>,
    pub distance: Option<u32>,
    pub hz: Option<u32>,
    pub sp: Option<u8>,
    pub gp: Option<u8>,
    pub air_temp: Option<u32>,
    pub gnd_temp: Option<u32>,
    pub ssnr: Option<Seq<char>>,
    pub gsnr: Option<Seq<char>>,
    pub stemp: Option<u32>,
    pub gtemp: Option<u32>,
    pub gerr: Option<u32>,
    pub serr: Option<u32>,
    pub sty_mode: Option<u32>,
    pub is_debug: bool,
}

/// An optional string as a plain value.
pub open spec fn opt_text(o: Option<String>) -> Option<Seq<char>> {
    match o {
        Some(s) => Some(s@),
        None => None,
    }
}

/// `d` as a plain value.
pub open spec fn srt_model(d: SrtFrameData) -> SrtData {
    SrtData {
        signal: d.signal,
        channel: opt_text(d.channel),
        flight_time: d.flight_time,
        sky_bat: opt_text(d.sky_bat),
        ground_bat: opt_text(d.ground_bat),
        latency: d.latency,
        bitrate_mbps: opt_text(d.bitrate_mbps),
        distance: d.distance,
        hz: d.hz,
        sp: d.sp,
        gp: d.gp,
        air_temp: d.air_temp,
        gnd_temp: d.gnd_temp,
        ssnr: opt_text(d.ssnr),
        gsnr: opt_text(d.gsnr),
        stemp: d.stemp,
        gtemp: d.gtemp,
        gerr: d.gerr,
        serr: d.serr,
        sty_mode: d.sty_mode,
        is_debug: d.is_debug,
    }
}

/// A line with no field read yet.
pub open spec fn empty_srt() -> SrtData {
    SrtData {
        signal: None,
        channel: None,
        flight_time: None,
        sky_bat: None,
        ground_bat: None,
        latency: None,
        bitrate_mbps: None,
        distance: None,
        hz: None,
        sp: None,
        gp: None,
        air_temp: None,
        gnd_temp: None,
        ssnr: None,
        gsnr: None,
        stemp: None,
        gtemp: None,
        gerr: None,
        serr: None,
        sty_mode: None,
        is_debug: false,
    }
}

/// `v` as a `u8`, when it parses as one.
pub open spec fn u8_of(v: Seq<char>) -> Option<u8> {
    match parse_unsigned(v, 255) {
        Ok(n) => Some(n as u8),
        Err(_) => None,
    }
}

/// `v` as a `u16`, when it parses as one.
pub open spec fn u16_of(v: Seq<char>) -> Option<u16> {
    match parse_unsigned(v, 0xffff) {
        Ok(n) => Some(n as u16),
        Err(_) => None,
    }
}

/// `v` as a `u32`, when it parses as one.
pub open spec fn u32_of(v: Seq<char>) -> Option<u32> {
    match parse_unsigned(v, 0xffff_ffff) {
        Ok(n) => Some(n as u32),
        Err(_) => None,
    }
}

/// `v`, when it parses as an `f32`.
pub open spec fn float_of(v: Seq<char>) -> Option<Seq<char>> {
    if is_float_literal(v) {
        Some(v)
    } else {
        None
    }
}

/// The line after reading the field `key: value`: the value is parsed as
/// the field's type (after dropping a unit suffix where the field has one)
/// and replaces what was read before, `None` when it does not parse;
/// `Stemp` and `Gtemp` fill the air and ground temperatures; unknown keys
/// change nothing.
pub open spec fn apply_field(m: SrtData, key: Seq<char>, value: Seq<char>) -> SrtData {
    if key == "Signal"@ || key == "MCS"@ {
        SrtData { signal: u8_of(value), ..m }
    } else if key == "CH"@ {
        SrtData { channel: Some(value), ..m }
    } else if key == "FlightTime"@ {
        SrtData { flight_time: u32_of(value), ..m }
    } else if key == "SBat"@ {
        SrtData { sky_bat: float_of(trim_end_suffix(value, "V"@)), ..m }
    } else if key == "GBat"@ {
        SrtData { ground_bat: float_of(trim_end_suffix(value, "V"@)), ..m }
    } else if key == "Delay"@ {
        SrtData { latency: u32_of(trim_end_suffix(value, "ms"@)), ..m }
    } else if key == "Bitrate"@ {
        SrtData { bitrate_mbps: float_of(trim_end_suffix(value, "Mbps"@)), ..m }
    } else if key == "Distance"@ {
        SrtData { distance: u32_of(trim_end_suffix(value, "m"@)), ..m }
    } else if key == "AirTemp"@ || key == "Stemp"@ {
        SrtData { air_temp: u32_of(value), ..m }
    } else if key == "GndTemp"@ || key == "Gtemp"@ {
        SrtData { gnd_temp: u32_of(value), ..m }
    } else if key == "STYMode"@ {
        SrtData { sty_mode: u32_of(value), ..m }
    } else {
        m
    }
}

/// What reading one `key: value` field does to a line: the field the key
/// names takes the value read as its type (a decimal up to 255 for the
/// signal, up to 4294967295 for times, distances, temperatures and the
/// mode; a valid `f32` literal, kept as text, for voltages and the bit
/// rate), after dropping the unit (`V`, `ms`, `Mbps`, `m`) where it has
/// one, and `None` when the value does not read so; every other field
/// stays as it was, and an unknown key changes nothing.
pub proof fn law_srt_field_values(m: SrtData, key: Seq<char>, value: Seq<char>)
    ensures
        key == "Signal"@ || key == "MCS"@ ==> apply_field(m, key, value) == (SrtData {
            signal: match parse_unsigned(value, 255) {
                Ok(n) => Some(n as u8),
                Err(_) => None,
            },
            ..m
        }),
        key == "CH"@ ==> apply_field(m, key, value) == (SrtData { channel: Some(value), ..m }),
        key == "FlightTime"@ ==> apply_field(m, key, value) == (SrtData {
            flight_time: match parse_unsigned(value, 4294967295) {
                Ok(n) => Some(n as u32),
                Err(_) => None,
            },
            ..m
        }),
        key == "SBat"@ ==> apply_field(m, key, value) == (SrtData {
            sky_bat: if is_float_literal(trim_end_suffix(value, "V"@)) {
                Some(trim_end_suffix(value, "V"@))
            } else {
                None
            },
            ..m
        }),
        key == "GBat"@ ==> apply_field(m, key, value) == (SrtData {
            ground_bat: if is_float_literal(trim_end_suffix(value, "V"@)) {
                Some(trim_end_suffix(value, "V"@))
            } else {
                None
            },
            ..m
        }),
        key == "Delay"@ ==> apply_field(m, key, value) == (SrtData {
            latency: match parse_unsigned(trim_end_suffix(value, "ms"@), 4294967295) {
                Ok(n) => Some(n as u32),
                Err(_) => None,
            },
            ..m
        }),
        key == "Bitrate"@ ==> apply_field(m, key, value) == (SrtData {
            bitrate_mbps: if is_float_literal(trim_end_suffix(value, "Mbps"@)) {
                Some(trim_end_suffix(value, "Mbps"@))
            } else {
                None
            },
            ..m
        }),
        key == "Distance"@ ==> apply_field(m, key, value) == (SrtData {
            distance: match parse_unsigned(trim_end_suffix(value, "m"@), 4294967295) {
                Ok(n) => Some(n as u32),
                Err(_) => None,
            },
            ..m
        }),
        key == "AirTemp"@ || key == "Stemp"@ ==> apply_field(m, key, value) == (SrtData {
            air_temp: match parse_unsigned(value, 4294967295) {
                Ok(n) => Some(n as u32),
                Err(_) => None,
            },
            ..m
        }),
        key == "GndTemp"@ || key == "Gtemp"@ ==> apply_field(m, key, value) == (SrtData {
            gnd_temp: match parse_unsigned(value, 4294967295) {
                Ok(n) => Some(n as u32),
                Err(_) => None,
            },
            ..m
        }),
        key == "STYMode"@ ==> apply_field(m, key, value) == (SrtData {
            sty_mode: match parse_unsigned(value, 4294967295) {
                Ok(n) => Some(n as u32),
                Err(_) => None,
            },
            ..m
        }),
        key != "Signal"@ && key != "MCS"@ && key != "CH"@ && key != "FlightTime"@ && key != "SBat"@ && key != "GBat"@ && key != "Delay"@ && key != "Bitrate"@ && key != "Distance"@ && key != "AirTemp"@ && key != "Stemp"@ && key != "GndTemp"@ && key != "Gtemp"@ && key != "STYMode"@ ==> apply_field(m, key, value) == m,
{
    reveal_strlit("Signal");
    reveal_strlit("MCS");
    reveal_strlit("CH");
    reveal_strlit("FlightTime");
    reveal_strlit("SBat");
    reveal_strlit("GBat");
    reveal_strlit("Delay");
    reveal_strlit("Bitrate");
    reveal_strlit("Distance");
    reveal_strlit("AirTemp");
    reveal_strlit("Stemp");
    reveal_strlit("GndTemp");
    reveal_strlit("Gtemp");
    reveal_strlit("STYMode");
    assert("Signal"@.len() == 6);
    assert("MCS"@.len() == 3);
    assert("CH"@.len() == 2);
    assert("FlightTime"@.len() == 10);
    assert("SBat"@.len() == 4);
    assert("GBat"@.len() == 4);
    assert("Delay"@.len() == 5);
    assert("Bitrate"@.len() == 7);
    assert("Distance"@.len() == 8);
    assert("AirTemp"@.len() == 7);
    assert("Stemp"@.len() == 5);
    assert("GndTemp"@.len() == 7);
    assert("Gtemp"@.len() == 5);
    assert("STYMode"@.len() == 7);
    assert("SBat"@[0] != "GBat"@[0]);
    assert("Delay"@[0] != "Stemp"@[0]);
    assert("Delay"@[0] != "Gtemp"@[0]);
    assert("Bitrate"@[0] != "AirTemp"@[0]);
    assert("Bitrate"@[0] != "GndTemp"@[0]);
    assert("Bitrate"@[0] != "STYMode"@[0]);
    assert("AirTemp"@[0] != "GndTemp"@[0]);
    assert("AirTemp"@[0] != "STYMode"@[0]);
    assert("Stemp"@[0] != "Gtemp"@[0]);
    assert("GndTemp"@[0] != "STYMode"@[0]);
}

proof fn lemma_trim_unit(n: nat, unit: Seq<char>)
    requires
        unit.len() > 0,
        !is_ascii_digit(unit.last()),
    ensures
        trim_end_suffix(decimal(n) + unit, unit) == decimal(n),
{
    lemma_decimal_last_digit(n);
    let d = decimal(n);
    let s = d + unit;
    assert(s.subrange(s.len() - unit.len(), s.len() as int) =~= unit);
    assert(s.subrange(0, s.len() - unit.len()) =~= d);
    if d.len() >= unit.len() {
        assert(d.subrange(d.len() - unit.len(), d.len() as int).last() == d.last());
        assert(d.subrange(d.len() - unit.len(), d.len() as int) != unit);
    }
    assert(trim_end_suffix(d, unit) == d);
    assert(trim_end_suffix(s, unit) == trim_end_suffix(d, unit));
}

proof fn lemma_decimal_last_digit(n: nat)
    ensures
        decimal(n).len() > 0,
        is_ascii_digit(decimal(n).last()),
    decreases n,
{
    if n >= 10 {
        lemma_decimal_last_digit(n / 10);
    }
    assert(n % 10 < 10);
}

/// Whole numbers are read as themselves: a distance written as the
/// decimal `n` followed by `m`, a delay followed by `ms`, a flight time,
/// or a temperature, is read as `n` for every `n` up to 4294967295; a
/// signal quality is read as `n` up to 255 and is dropped above it.
pub proof fn law_srt_numbers_read_as_themselves(m: SrtData, n: nat)
    ensures
        n <= 4294967295 ==> apply_field(m, "Distance"@, decimal(n) + "m"@).distance == Some(
            n as u32,
        ),
        n <= 4294967295 ==> apply_field(m, "Delay"@, decimal(n) + "ms"@).latency == Some(
            n as u32,
        ),
        n <= 4294967295 ==> apply_field(m, "FlightTime"@, decimal(n)).flight_time == Some(
            n as u32,
        ),
        n <= 4294967295 ==> apply_field(m, "AirTemp"@, decimal(n)).air_temp == Some(n as u32),
        n <= 4294967295 ==> apply_field(m, "GndTemp"@, decimal(n)).gnd_temp == Some(n as u32),
        n <= 255 ==> apply_field(m, "Signal"@, decimal(n)).signal == Some(n as u8),
        n > 255 ==> apply_field(m, "Signal"@, decimal(n)).signal is None,
{
    reveal_strlit("m");
    reveal_strlit("ms");
    law_parse_unsigned_decimal(n, 4294967295, decimal(n));
    law_parse_unsigned_decimal(n, 255, decimal(n));
    lemma_trim_unit(n, "m"@);
    lemma_trim_unit(n, "ms"@);
    law_srt_field_values(m, "Distance"@, decimal(n) + "m"@);
    law_srt_field_values(m, "Delay"@, decimal(n) + "ms"@);
    law_srt_field_values(m, "FlightTime"@, decimal(n));
    law_srt_field_values(m, "AirTemp"@, decimal(n));
    law_srt_field_values(m, "GndTemp"@, decimal(n));
    law_srt_field_values(m, "Signal"@, decimal(n));
}

/// The fields of a line, read match by match: each match of the field
/// pattern gives a key (group 1) and a value (group 2).
pub open spec fn read_fields(caps: Seq<Seq<Option<Seq<char>>>>) -> SrtData
    decreases caps.len(),
{
    if caps.len() == 0 {
        empty_srt()
    } else {
        let before = read_fields(caps.drop_last());
        let c = caps.last();
        match (group_of(c, 1), group_of(c, 2)) {
            (Some(k), Some(v)) => apply_field(before, k, v),
            _ => before,
        }
    }
}

/// The pattern of one `key: value` field: a word, a colon, optional
/// whitespace, and a value free of colons and whitespace.
pub open spec fn srt_field_pattern() -> Seq<char> {
    "(\\w+):\\s*([^:\\s]+)"@
}

fn u8_text(v: &str) -> (r: Option<u8>)
    ensures
        r == u8_of(v@),
{
    match parse_unsigned_text(v, 255) {
        Ok(n) => Some(n as u8),
        Err(_) => None,
    }
}

fn u16_text(v: &str) -> (r: Option<u16>)
    ensures
        r == u16_of(v@),
{
    match parse_unsigned_text(v, 0xffff) {
        Ok(n) => Some(n as u16),
        Err(_) => None,
    }
}

fn u32_text(v: &str) -> (r: Option<u32>)
    ensures
        r == u32_of(v@),
{
    match parse_unsigned_text(v, 0xffff_ffff) {
        Ok(n) => Some(n as u32),
        Err(_) => None,
    }
}

fn float_text(v: String) -> (r: Option<String>)
    ensures
        opt_text(r) == float_of(v@),
{
    if is_float_text(v.as_str()) {
        Some(v)
    } else {
        None
    }
}

impl SrtFrameData {
    /// A line with no field read yet.
    pub fn empty() -> (d: SrtFrameData)
        ensures
            srt_model(d) == empty_srt(),
    {
        SrtFrameData {
            signal: None,
            channel: None,
            flight_time: None,
            sky_bat: None,
            ground_bat: None,
            latency: None,
            bitrate_mbps: None,
            distance: None,
            hz: None,
            sp: None,
            gp: None,
            air_temp: None,
            gnd_temp: None,
            ssnr: None,
            gsnr: None,
            stemp: None,
            gtemp: None,
            gerr: None,
            serr: None,
            sty_mode: None,
            is_debug: false,
        }
    }

    /// Reads the field `key: value` (see `apply_field`).
    pub fn apply_field(&mut self, key: &str, value: &str)
        ensures
            srt_model(*final(self)) == apply_field(srt_model(*old(self)), key@, value@),
    {
        if text_eq(key, "Signal") || text_eq(key, "MCS") {
            self.signal = u8_text(value);
        } else if text_eq(key, "CH") {
            self.channel = Some(value.to_owned());
        } else if text_eq(key, "FlightTime") {
            self.flight_time = u32_text(value);
        } else if text_eq(key, "SBat") {
            self.sky_bat = float_text(trim_end_matches_text(value, "V"));
        } else if text_eq(key, "GBat") {
            self.ground_bat = float_text(trim_end_matches_text(value, "V"));
        } else if text_eq(key, "Delay") {
            let t = trim_end_matches_text(value, "ms");
            self.latency = u32_text(t.as_str());
        } else if text_eq(key, "Bitrate") {
            self.bitrate_mbps = float_text(trim_end_matches_text(value, "Mbps"));
        } else if text_eq(key, "Distance") {
            let t = trim_end_matches_text(value, "m");
            self.distance = u32_text(t.as_str());
        } else if text_eq(key, "AirTemp") || text_eq(key, "Stemp") {
            self.air_temp = u32_text(value);
        } else if text_eq(key, "GndTemp") || text_eq(key, "Gtemp") {
            self.gnd_temp = u32_text(value);
        } else if text_eq(key, "STYMode") {
            self.sty_mode = u32_text(value);
        }
    }

    /// Reads a telemetry line made of `key: value` fields (see
    /// `read_fields`); fails only when the regular-expression engine
    /// rejects the field pattern.
    pub fn from_str(s: &str) -> (r: Result<SrtFrameData, String>)
        ensures
            r is Ok <==> regex_captures(srt_field_pattern(), s@) is Some,
            r matches Ok(d) ==> srt_model(d) == read_fields(
                regex_captures(srt_field_pattern(), s@).unwrap(),
            ),
    {
        match captures_all("(\\w+):\\s*([^:\\s]+)", s) {
            Some(caps) => Ok(Self::from_captures(&caps)),
            None => Err("invalid field pattern".to_owned()),
        }
    }

    /// Reads the matches `caps` of the field pattern in order (see
    /// `read_fields`).
    pub fn from_captures(caps: &Vec<Vec<Option<String>>>) -> (d: SrtFrameData)
        ensures
            srt_model(d) == read_fields(captures_model(caps@)),
    {
        let ghost all = captures_model(caps@);
        let mut d = SrtFrameData::empty();
        let mut i: usize = 0;
        while i < caps.len()
            invariant
                i <= caps@.len(),
                all.len() == caps@.len(),
                forall|k: int| 0 <= k < caps@.len() ==> #[trigger] all[k] == groups_model(caps@[k]@),
                srt_model(d) == read_fields(all.take(i as int)),
            decreases caps@.len() - i,
        {
            assert(all.take(i + 1).drop_last() =~= all.take(i as int));
            let key = group_text(&caps[i], 1);
            let value = group_text(&caps[i], 2);
            match (key, value) {
                (Some(k), Some(v)) => {
                    d.apply_field(k.as_str(), v.as_str());
                },
                _ => {},
            }
            i = i + 1;
        }
        assert(all.take(all.len() as int) =~= all);
        d
    }
}

/// The type a telemetry field is read as.
#[derive(Clone, Copy, Debug, PartialEq, Eq, Structural)]
pub enum FieldKind {
    U8,
    U16,
    U32,
    F32,
    Text,
}

/// `t` parses as a value of `kind`.
pub open spec fn field_parses(kind: FieldKind, t: Seq<char>) -> bool {
    match kind {
        FieldKind::U8 => parse_unsigned(t, 255) is Ok,
        FieldKind::U16 => parse_unsigned(t, 0xffff) is Ok,
        FieldKind::U32 => parse_unsigned(t, 0xffff_ffff) is Ok,
        FieldKind::F32 => is_float_literal(t),
        FieldKind::Text => true,
    }
}

/// The standard library's message for `t` failing to parse as `kind`.
pub open spec fn field_error(kind: FieldKind, t: Seq<char>) -> Seq<char> {
    match kind {
        FieldKind::U8 => match parse_unsigned(t, 255) {
            Err(k) => int_error_message(k),
            Ok(_) => Seq::empty(),
        },
        FieldKind::U16 => match parse_unsigned(t, 0xffff) {
            Err(k) => int_error_message(k),
            Ok(_) => Seq::empty(),
        },
        FieldKind::U32 => match parse_unsigned(t, 0xffff_ffff) {
            Err(k) => int_error_message(k),
            Ok(_) => Seq::empty(),
        },
        FieldKind::F32 => float_error_message(t),
        FieldKind::Text => Seq::empty(),
    }
}

/// Index of the first of `texts[i..]` that does not parse as its kind.
pub open spec fn first_bad_field(kinds: Seq<FieldKind>, texts: Seq<Seq<char>>, i: int) -> Option<
    int,
>
    decreases texts.len() - i,
{
    if i < 0 || i >= texts.len() || i >= kinds.len() {
        None
    } else if !field_parses(kinds[i], texts[i]) {
        Some(i)
    } else {
        first_bad_field(kinds, texts, i + 1)
    }
}

fn parse_kind_ok(kind: FieldKind, t: &str) -> (r: Result<(), &'static str>)
    ensures
        r is Ok <==> field_parses(kind, t@),
        r matches Err(m) ==> m@ == field_error(kind, t@),
{
    let max: u64 = match kind {
        FieldKind::U8 => 255,
        FieldKind::U16 => 0xffff,
        FieldKind::U32 => 0xffff_ffff,
        FieldKind::F32 => {
            if is_float_text(t) {
                return Ok(());
            } else {
                return Err(float_error_text(t));
            }
        },
        FieldKind::Text => {
            return Ok(());
        },
    };
    match parse_unsigned_text(t, max) {
        Ok(_) => Ok(()),
        Err(k) => Err(int_error_text(k)),
    }
}

/// Index of the first of `texts` that does not parse as its kind (see
/// `first_bad_field`).
pub fn find_bad_field(kinds: &[FieldKind], texts: &Vec<String>) -> (r: Option<(usize, &'static str)>)
    requires
        kinds@.len() == texts@.len(),
    ensures
        match r {
            Some((i, m)) => first_bad_field(kinds@, texts_model(texts@), 0) == Some(i as int)
                && i < texts@.len() && m@ == field_error(kinds@[i as int], texts@[i as int]@),
            None => first_bad_field(kinds@, texts_model(texts@), 0) is None,
        },
{
    let ghost ts = texts_model(texts@);
    let mut i: usize = 0;
    while i < texts.len()
        invariant
            kinds@.len() == texts@.len(),
            ts == texts_model(texts@),
            i <= texts@.len(),
            first_bad_field(kinds@, ts, 0) == first_bad_field(kinds@, ts, i as int),
        decreases texts@.len() - i,
    {
        assert(ts[i as int] == texts@[i as int]@);
        match parse_kind_ok(kinds[i], texts[i].as_str()) {
            Err(m) => {
                assert(first_bad_field(kinds@, ts, i as int) == Some(i as int));
                return Some((i, m));
            },
            Ok(()) => {},
        }
        i = i + 1;
    }
    None
}

/// Strings as plain values.
pub open spec fn texts_model(v: Seq<String>) -> Seq<Seq<char>> {
    v.map_values(|s: String| s@)
}

/// The debug telemetry line of Ascent firmware.
#[derive(Clone, Debug)]
pub struct AscentDebugSrtFrameData {
    pub hz: u32,
    pub signal: u8,
    /// As `f32` text.
    pub ssnr: String,
    /// As `f32` text.
    pub gsnr: String,
    pub stemp: u32,
    pub gtemp: u32,
    pub latency: u32,
    pub frame: u16,
    pub serr: u32,
    pub gerr: u32,
    pub sp: u8,
    pub gp: u8,
    /// As `f32` text.
    pub bitrate_mbps: String,
}

/// `AscentDebugSrtFrameData` as a plain value.
pub struct AscentDebugData {
    pub hz: u32,
    pub signal: u8,
    pub ssnr: Seq<char>,
    pub gsnr: Seq<char>,
    pub stemp: u32,
    pub gtemp: u32,
    pub latency: u32,
    pub frame: u16,
    pub serr: u32,
    pub gerr: u32,
    pub sp: u8,
    pub gp: u8,
    pub bitrate_mbps: Seq<char>,
}

/// `d` as a plain value.
pub open spec fn ascent_debug_model(d: AscentDebugSrtFrameData) -> AscentDebugData {
    AscentDebugData {
        hz: d.hz,
        signal: d.signal,
        ssnr: d.ssnr@,
        gsnr: d.gsnr@,
        stemp: d.stemp,
        gtemp: d.gtemp,
        latency: d.latency,
        frame: d.frame,
        serr: d.serr,
        gerr: d.gerr,
        sp: d.sp,
        gp: d.gp,
        bitrate_mbps: d.bitrate_mbps@,
    }
}

/// The pattern of an Ascent debug line; its named groups are, in order,
/// `hz`, `mcs`, `ssnr`, `gsnr`, `stemp`, `gtemp`, `delay`, `frame`, `serr`,
/// `gerr`, `sp`, `gp` and `bitrate`.
pub open spec fn ascent_debug_pattern() -> Seq<char> {
    "Hz:(?P<hz>\\d+)\\s+MCS:(?P<mcs>\\d+).*SSNR:(?P<ssnr>[\\d.]+)\\s+GSNR:(?P<gsnr>[\\d.]+)\\s+Stemp:(?P<stemp>\\d+)\\s+Gtemp:(?P<gtemp>\\d+)\\s+Delay:(?P<delay>\\d+)ms\\s+Frame:(?P<frame>\\d+)\\s+Serr:(?P<serr>\\d+)\\s+Gerr:(?P<gerr>\\d+).*Sp=(?P<sp>\\d+)\\s+Gp=(?P<gp>\\d+)\\s+(?P<bitrate>[\\d.]+)"@
}

/// The names of the groups of `ascent_debug_pattern`, in order.
pub open spec fn ascent_debug_labels() -> Seq<Seq<char>> {
    seq![
        "hz"@,
        "mcs"@,
        "ssnr"@,
        "gsnr"@,
        "stemp"@,
        "gtemp"@,
        "delay"@,
        "frame"@,
        "serr"@,
        "gerr"@,
        "sp"@,
        "gp"@,
        "bitrate"@,
    ]
}

/// The types the groups of `ascent_debug_pattern` are read as, in order.
pub open spec fn ascent_debug_kinds() -> Seq<FieldKind> {
    seq![
        FieldKind::U32,
        FieldKind::U8,
        FieldKind::F32,
        FieldKind::F32,
        FieldKind::U32,
        FieldKind::U32,
        FieldKind::U32,
        FieldKind::U16,
        FieldKind::U32,
        FieldKind::U32,
        FieldKind::U8,
        FieldKind::U8,
        FieldKind::F32,
    ]
}

/// The text of group `i` of a match, empty when it took no part.
pub open spec fn group_or_empty(c: Seq<Option<Seq<char>>>, i: int) -> Seq<char> {
    match group_of(c, i) {
        Some(t) => t,
        None => Seq::empty(),
    }
}

/// The texts of the 13 groups of a match of `ascent_debug_pattern`.
pub open spec fn ascent_debug_texts(c: Seq<Option<Seq<char>>>) -> Seq<Seq<char>> {
    Seq::new(13, |i: int| group_or_empty(c, i + 1))
}

/// What reading an Ascent debug line gives: the first match of
/// `ascent_debug_pattern` is read group by group in order; the first group
/// that does not parse gives the error "`name`: `reason`"; no match gives
/// "Failed to match AscentDebugSrt pattern"; the engine rejecting the
/// pattern gives "invalid AscentDebugSrt pattern".
pub open spec fn ascent_debug_result(s: Seq<char>) -> Result<AscentDebugData, Seq<char>> {
    match regex_captures(ascent_debug_pattern(), s) {
        None => Err("invalid AscentDebugSrt pattern"@),
        Some(caps) => ascent_debug_of_captures(caps),
    }
}

/// What reading the matches `caps` of `ascent_debug_pattern` gives (see
/// `ascent_debug_result`).
pub open spec fn ascent_debug_of_captures(caps: Seq<Seq<Option<Seq<char>>>>) -> Result<
    AscentDebugData,
    Seq<char>,
> {
    if caps.len() == 0 {
            Err("Failed to match AscentDebugSrt pattern"@)
        } else {
            let t = ascent_debug_texts(caps[0]);
            match first_bad_field(ascent_debug_kinds(), t, 0) {
                Some(i) => Err(ascent_debug_labels()[i] + ": "@ + field_error(
                    ascent_debug_kinds()[i],
                    t[i],
                )),
                None => Ok(
                    AscentDebugData {
                        hz: u32_of(t[0]).unwrap(),
                        signal: u8_of(t[1]).unwrap(),
                        ssnr: t[2],
                        gsnr: t[3],
                        stemp: u32_of(t[4]).unwrap(),
                        gtemp: u32_of(t[5]).unwrap(),
                        latency: u32_of(t[6]).unwrap(),
                        frame: u16_of(t[7]).unwrap(),
                        serr: u32_of(t[8]).unwrap(),
                        gerr: u32_of(t[9]).unwrap(),
                        sp: u8_of(t[10]).unwrap(),
                        gp: u8_of(t[11]).unwrap(),
                        bitrate_mbps: t[12],
                    },
                ),
            }
        }
}

fn text_or_empty(g: Option<String>) -> (r: String)
    ensures
        r@ == match pattern_group_model(g) {
            Some(t) => t,
            None => Seq::<char>::empty(),
        },
{
    match g {
        Some(t) => t,
        None => String::new(),
    }
}

/// A group as a plain value.
pub open spec fn pattern_group_model(g: Option<String>) -> Option<Seq<char>> {
    crate::pattern::group_model(g)
}

fn label_text(i: usize) -> (s: &'static str)
    requires
        i < 13,
    ensures
        s@ == ascent_debug_labels()[i as int],
{
    if i == 0 {
        "hz"
    } else if i == 1 {
        "mcs"
    } else if i == 2 {
        "ssnr"
    } else if i == 3 {
        "gsnr"
    } else if i == 4 {
        "stemp"
    } else if i == 5 {
        "gtemp"
    } else if i == 6 {
        "delay"
    } else if i == 7 {
        "frame"
    } else if i == 8 {
        "serr"
    } else if i == 9 {
        "gerr"
    } else if i == 10 {
        "sp"
    } else if i == 11 {
        "gp"
    } else {
        "bitrate"
    }
}

fn unwrap_u32(t: &str) -> (v: u32)
    requires
        parse_unsigned(t@, 0xffff_ffff) is Ok,
    ensures
        Some(v) == u32_of(t@),
{
    match u32_text(t) {
        Some(v) => v,
        None => 0,
    }
}

fn unwrap_u16(t: &str) -> (v: u16)
    requires
        parse_unsigned(t@, 0xffff) is Ok,
    ensures
        Some(v) == u16_of(t@),
{
    match u16_text(t) {
        Some(v) => v,
        None => 0,
    }
}

fn unwrap_u8(t: &str) -> (v: u8)
    requires
        parse_unsigned(t@, 255) is Ok,
    ensures
        Some(v) == u8_of(t@),
{
    match u8_text(t) {
        Some(v) => v,
        None => 0,
    }
}

impl AscentDebugSrtFrameData {
    /// Reads an Ascent debug telemetry line (see `ascent_debug_result`).
    pub fn from_str(s: &str) -> (r: Result<AscentDebugSrtFrameData, String>)
        ensures
            match r {
                Ok(d) => ascent_debug_result(s@) == Ok::<AscentDebugData, Seq<char>>(
                    ascent_debug_model(d),
                ),
                Err(m) => ascent_debug_result(s@) == Err::<AscentDebugData, Seq<char>>(m@),
            },
    {
        let caps = match captures_all(
            "Hz:(?P<hz>\\d+)\\s+MCS:(?P<mcs>\\d+).*SSNR:(?P<ssnr>[\\d.]+)\\s+GSNR:(?P<gsnr>[\\d.]+)\\s+Stemp:(?P<stemp>\\d+)\\s+Gtemp:(?P<gtemp>\\d+)\\s+Delay:(?P<delay>\\d+)ms\\s+Frame:(?P<frame>\\d+)\\s+Serr:(?P<serr>\\d+)\\s+Gerr:(?P<gerr>\\d+).*Sp=(?P<sp>\\d+)\\s+Gp=(?P<gp>\\d+)\\s+(?P<bitrate>[\\d.]+)",
            s,
        ) {
            Some(c) => c,
            None => {
                return Err("invalid AscentDebugSrt pattern".to_owned());
            },
        };
        Self::from_captures(&caps)
    }

    /// Reads the matches `caps` of the Ascent debug pattern (see
    /// `ascent_debug_of_captures`).
    pub fn from_captures(caps: &Vec<Vec<Option<String>>>) -> (r: Result<AscentDebugSrtFrameData, String>)
        ensures
            match r {
                Ok(d) => ascent_debug_of_captures(captures_model(caps@)) == Ok::<
                    AscentDebugData,
                    Seq<char>,
                >(ascent_debug_model(d)),
                Err(m) => ascent_debug_of_captures(captures_model(caps@)) == Err::<
                    AscentDebugData,
                    Seq<char>,
                >(m@),
            },
    {
        if caps.len() == 0 {
            return Err("Failed to match AscentDebugSrt pattern".to_owned());
        }
        let ghost c0 = captures_model(caps@)[0];
        assert(c0 == groups_model(caps@[0]@));
        let mut texts: Vec<String> = Vec::new();
        let mut g: usize = 1;
        while g <= 13
            invariant
                1 <= g <= 14,
                caps@.len() > 0,
                c0 == groups_model(caps@[0]@),
                texts@.len() == g - 1,
                forall|k: int| 0 <= k < texts@.len() ==> #[trigger] texts@[k]@ == group_or_empty(
                    c0,
                    k + 1,
                ),
            decreases 14 - g,
        {
            let t = text_or_empty(group_text(&caps[0], g));
            texts.push(t);
            g = g + 1;
        }
        let ghost ts = ascent_debug_texts(c0);
        assert(texts_model(texts@) =~= ts);
        let kinds = [
            FieldKind::U32,
            FieldKind::U8,
            FieldKind::F32,
            FieldKind::F32,
            FieldKind::U32,
            FieldKind::U32,
            FieldKind::U32,
            FieldKind::U16,
            FieldKind::U32,
            FieldKind::U32,
            FieldKind::U8,
            FieldKind::U8,
            FieldKind::F32,
        ];
        assert(kinds@ =~= ascent_debug_kinds());
        match find_bad_field(&kinds, &texts) {
            Some((i, m)) => {
                let mut msg = label_text(i).to_owned();
                msg.append(": ");
                msg.append(m);
                return Err(msg);
            },
            None => {},
        }
        proof {
            assert forall|k: int| 0 <= k < 13 implies field_parses(
                #[trigger] ascent_debug_kinds()[k],
                ts[k],
            ) by {
                lemma_no_bad_field(ascent_debug_kinds(), ts, 0, k);
            }
            assert(field_parses(ascent_debug_kinds()[0], ts[0]));
            assert(field_parses(ascent_debug_kinds()[1], ts[1]));
            assert(field_parses(ascent_debug_kinds()[4], ts[4]));
            assert(field_parses(ascent_debug_kinds()[5], ts[5]));
            assert(field_parses(ascent_debug_kinds()[6], ts[6]));
            assert(field_parses(ascent_debug_kinds()[7], ts[7]));
            assert(field_parses(ascent_debug_kinds()[8], ts[8]));
            assert(field_parses(ascent_debug_kinds()[9], ts[9]));
            assert(field_parses(ascent_debug_kinds()[10], ts[10]));
            assert(field_parses(ascent_debug_kinds()[11], ts[11]));
        }
        let d = AscentDebugSrtFrameData {
            hz: unwrap_u32(texts[0].as_str()),
            signal: unwrap_u8(texts[1].as_str()),
            ssnr: texts[2].clone(),
            gsnr: texts[3].clone(),
            stemp: unwrap_u32(texts[4].as_str()),
            gtemp: unwrap_u32(texts[5].as_str()),
            latency: unwrap_u32(texts[6].as_str()),
            frame: unwrap_u16(texts[7].as_str()),
            serr: unwrap_u32(texts[8].as_str()),
            gerr: unwrap_u32(texts[9].as_str()),
            sp: unwrap_u8(texts[10].as_str()),
            gp: unwrap_u8(texts[11].as_str()),
            bitrate_mbps: texts[12].clone(),
        };
        Ok(d)
    }
}

/// When no field from `i` on is bad, every field from `i` on parses.
proof fn lemma_no_bad_field(kinds: Seq<FieldKind>, texts: Seq<Seq<char>>, i: int, k: int)
    requires
        0 <= i <= k < texts.len(),
        k < kinds.len(),
        first_bad_field(kinds, texts, i) is None,
    ensures
        field_parses(kinds[k], texts[k]),
    decreases k - i,
{
    if i < k {
        lemma_no_bad_field(kinds, texts, i + 1, k);
    }
}

/// The telemetry line of Ascent firmware.
#[derive(Clone, Debug)]
pub struct AscentSrtFrameData {
    pub signal: u8,
    pub channel: String,
    pub hz: u32,
    pub flight_time: u32,
    pub sp: u8,
    pub gp: u8,
    /// As `f32` text.
    pub sky_bat: String,
    /// As `f32` text.
    pub ground_bat: String,
    pub latency: u32,
    /// As `f32` text.
    pub bitrate_mbps: String,
    pub distance: u32,
}

/// `AscentSrtFrameData` as a plain value.
pub struct AscentData {
    pub signal: u8,
    pub channel: Seq<char>,
    pub hz: u32,
    pub flight_time: u32,
    pub sp: u8,
    pub gp: u8,
    pub sky_bat: Seq<char>,
    pub ground_bat: Seq<char>,
    pub latency: u32,
    pub bitrate_mbps: Seq<char>,
    pub distance: u32,
}

/// `d` as a plain value.
pub open spec fn ascent_model(d: AscentSrtFrameData) -> AscentData {
    AscentData {
        signal: d.signal,
        channel: d.channel@,
        hz: d.hz,
        flight_time: d.flight_time,
        sp: d.sp,
        gp: d.gp,
        sky_bat: d.sky_bat@,
        ground_bat: d.ground_bat@,
        latency: d.latency,
        bitrate_mbps: d.bitrate_mbps@,
        distance: d.distance,
    }
}

/// The literals of the template `Signal:{signal} CH:{channel} Hz:{hz} FlightTime:{flight_time} Sp={sp} Gp={gp} SBat:{sky_bat}V GBat:{ground_bat}V Delay:{latency}ms Bitrate:{bitrate_mbps}Mbps Distance:{distance}m`.
pub open spec fn ascent_literals() -> Seq<Seq<char>> {
    seq![
        "Signal:"@,
        " CH:"@,
        " Hz:"@,
        " FlightTime:"@,
        " Sp="@,
        " Gp="@,
        " SBat:"@,
        "V GBat:"@,
        "V Delay:"@,
        "ms Bitrate:"@,
        "Mbps Distance:"@,
        "m"@,
    ]
}

/// The template fields in the order they are checked (by name).
pub open spec fn ascent_check_order() -> Seq<int> {
    seq![9, 1, 10, 3, 5, 7, 2, 8, 0, 6, 4]
}

/// The names of the fields in the order they are checked.
pub open spec fn ascent_check_labels() -> Seq<Seq<char>> {
    seq![
        "bitrate_mbps"@,
        "channel"@,
        "distance"@,
        "flight_time"@,
        "gp"@,
        "ground_bat"@,
        "hz"@,
        "latency"@,
        "signal"@,
        "sky_bat"@,
        "sp"@,
    ]
}

/// The types of the fields in the order they are checked.
pub open spec fn ascent_check_kinds() -> Seq<FieldKind> {
    seq![
        FieldKind::F32,
        FieldKind::Text,
        FieldKind::U32,
        FieldKind::U32,
        FieldKind::U8,
        FieldKind::F32,
        FieldKind::U32,
        FieldKind::U32,
        FieldKind::U8,
        FieldKind::F32,
        FieldKind::U8,
    ]
}

/// The field texts in the order they are checked.
pub open spec fn ascent_check_texts(fs: Seq<Seq<char>>) -> Seq<Seq<char>> {
    Seq::new(11, |k: int| fs[ascent_check_order()[k]])
}

/// The line whose fields, in template order, are `fs`, each parsed as
/// its type.
pub open spec fn ascent_data(fs: Seq<Seq<char>>) -> AscentData {
    AscentData {
        signal: u8_of(fs[0]).unwrap(),
        channel: fs[1],
        hz: u32_of(fs[2]).unwrap(),
        flight_time: u32_of(fs[3]).unwrap(),
        sp: u8_of(fs[4]).unwrap(),
        gp: u8_of(fs[5]).unwrap(),
        sky_bat: fs[6],
        ground_bat: fs[7],
        latency: u32_of(fs[8]).unwrap(),
        bitrate_mbps: fs[9],
        distance: u32_of(fs[10]).unwrap(),
    }
}

/// What reading a line with the template gives: `"parse failed."` when
/// the line does not have the template's form; otherwise the fields are
/// checked by name in alphabetical order and the first that does not parse
/// as its type gives `"field `name` parse failed."`.
pub open spec fn ascent_result(s: Seq<char>) -> Result<AscentData, Seq<char>> {
    match template_fields(s, ascent_literals()) {
        None => Err("parse failed."@),
        Some(fs) => match first_bad_field(ascent_check_kinds(), ascent_check_texts(fs), 0) {
            Some(k) => Err("field `"@ + ascent_check_labels()[k] + "` parse failed."@),
            None => Ok(ascent_data(fs)),
        },
    }
}

fn ascent_label(k: usize) -> (s: &'static str)
    requires
        k < 11,
    ensures
        s@ == ascent_check_labels()[k as int],
{
    if k == 0 {
        "bitrate_mbps"
    } else if k == 1 {
        "channel"
    } else if k == 2 {
        "distance"
    } else if k == 3 {
        "flight_time"
    } else if k == 4 {
        "gp"
    } else if k == 5 {
        "ground_bat"
    } else if k == 6 {
        "hz"
    } else if k == 7 {
        "latency"
    } else if k == 8 {
        "signal"
    } else if k == 9 {
        "sky_bat"
    } else {
        "sp"
    }
}

/// The line whose fields are `fs` (see `ascent_data`).
fn ascent_build(fs: &Vec<String>) -> (d: AscentSrtFrameData)
    requires
        fs@.len() == 11,
        parse_unsigned(fs@[10]@, 0xffff_ffff) is Ok,
        parse_unsigned(fs@[3]@, 0xffff_ffff) is Ok,
        parse_unsigned(fs@[5]@, 255) is Ok,
        parse_unsigned(fs@[2]@, 0xffff_ffff) is Ok,
        parse_unsigned(fs@[8]@, 0xffff_ffff) is Ok,
        parse_unsigned(fs@[0]@, 255) is Ok,
        parse_unsigned(fs@[4]@, 255) is Ok,
    ensures
        ascent_model(d) == ascent_data(fs@.map_values(|t: String| t@)),
{
    AscentSrtFrameData {
        signal: unwrap_u8(fs[0].as_str()),
        channel: fs[1].clone(),
        hz: unwrap_u32(fs[2].as_str()),
        flight_time: unwrap_u32(fs[3].as_str()),
        sp: unwrap_u8(fs[4].as_str()),
        gp: unwrap_u8(fs[5].as_str()),
        sky_bat: fs[6].clone(),
        ground_bat: fs[7].clone(),
        latency: unwrap_u32(fs[8].as_str()),
        bitrate_mbps: fs[9].clone(),
        distance: unwrap_u32(fs[10].as_str()),
    }
}

/// The literals of the template as character vectors.
fn ascent_template() -> (r: Vec<Vec<char>>)
    ensures
        lits_model(r@) == ascent_literals(),
{
    let lits = template_literals(&["Signal:", " CH:", " Hz:", " FlightTime:", " Sp=", " Gp=", " SBat:", "V GBat:", "V Delay:", "ms Bitrate:", "Mbps Distance:", "m"]);
    assert(lits_model(lits@) =~= ascent_literals());
    lits
}

/// The fields `fs` (in template order) in the order they are checked.
fn ascent_reorder(fs: &Vec<String>) -> (checked: Vec<String>)
    requires
        fs@.len() == 11,
    ensures
        texts_model(checked@) == ascent_check_texts(fs@.map_values(|t: String| t@)),
{
    let ghost fsm = fs@.map_values(|t: String| t@);
    let order: [usize; 11] = [9, 1, 10, 3, 5, 7, 2, 8, 0, 6, 4];
    let mut checked: Vec<String> = Vec::new();
    let mut k: usize = 0;
    while k < 11
        invariant
            fs@.len() == 11,
            fsm == fs@.map_values(|t: String| t@),
            order@ == ascent_check_order().map_values(|x: int| x as usize),
            k <= 11,
            checked@.len() == k,
            forall|j: int| 0 <= j < k ==> #[trigger] checked@[j]@ == ascent_check_texts(fsm)[j],
        decreases 11 - k,
    {
        let c = fs[order[k]].clone();
        checked.push(c);
        k = k + 1;
    }
    assert(texts_model(checked@) =~= ascent_check_texts(fsm));
    checked
}

/// The kinds of the fields in the order they are checked.
fn ascent_kinds() -> (r: [FieldKind; 11])
    ensures
        r@ == ascent_check_kinds(),
{
    let kinds = [FieldKind::F32, FieldKind::Text, FieldKind::U32, FieldKind::U32, FieldKind::U8, FieldKind::F32, FieldKind::U32, FieldKind::U32, FieldKind::U8, FieldKind::F32, FieldKind::U8];
    assert(kinds@ =~= ascent_check_kinds());
    kinds
}

/// Every field parses as its type, in template order.
proof fn lemma_ascent_all_parse(fs: Seq<Seq<char>>)
    requires
        fs.len() == 11,
        first_bad_field(ascent_check_kinds(), ascent_check_texts(fs), 0) is None,
    ensures
        parse_unsigned(fs[10], 0xffff_ffff) is Ok,
        parse_unsigned(fs[3], 0xffff_ffff) is Ok,
        parse_unsigned(fs[5], 255) is Ok,
        parse_unsigned(fs[2], 0xffff_ffff) is Ok,
        parse_unsigned(fs[8], 0xffff_ffff) is Ok,
        parse_unsigned(fs[0], 255) is Ok,
        parse_unsigned(fs[4], 255) is Ok,
{
    assert forall|j: int| 0 <= j < 11 implies field_parses(
        #[trigger] ascent_check_kinds()[j],
        ascent_check_texts(fs)[j],
    ) by {
        lemma_no_bad_field(ascent_check_kinds(), ascent_check_texts(fs), 0, j);
    }
    assert(field_parses(ascent_check_kinds()[2], ascent_check_texts(fs)[2]));
    assert(field_parses(ascent_check_kinds()[3], ascent_check_texts(fs)[3]));
    assert(field_parses(ascent_check_kinds()[4], ascent_check_texts(fs)[4]));
    assert(field_parses(ascent_check_kinds()[6], ascent_check_texts(fs)[6]));
    assert(field_parses(ascent_check_kinds()[7], ascent_check_texts(fs)[7]));
    assert(field_parses(ascent_check_kinds()[8], ascent_check_texts(fs)[8]));
    assert(field_parses(ascent_check_kinds()[10], ascent_check_texts(fs)[10]));
}

impl AscentSrtFrameData {
    /// Reads a line written with the template (see `ascent_result`).
    pub fn from_str(s: &str) -> (r: Result<AscentSrtFrameData, String>)
        ensures
            match r {
                Ok(d) => ascent_result(s@) == Ok::<AscentData, Seq<char>>(ascent_model(d)),
                Err(m) => ascent_result(s@) == Err::<AscentData, Seq<char>>(m@),
            },
    {
        let lits = ascent_template();
        let fs = match read_template(s, &lits) {
            Some(fs) => fs,
            None => {
                return Err("parse failed.".to_owned());
            },
        };
        let ghost fsm = fs@.map_values(|t: String| t@);
        proof {
            law_template_reading(s@, ascent_literals(), fsm);
        }
        assert(fsm.len() == 11);
        let checked = ascent_reorder(&fs);
        let kinds = ascent_kinds();
        match find_bad_field(&kinds, &checked) {
            Some((k, _)) => {
                let mut msg = "field `".to_owned();
                msg.append(ascent_label(k));
                msg.append("` parse failed.");
                return Err(msg);
            },
            None => {},
        }
        proof {
            lemma_ascent_all_parse(fsm);
        }
        Ok(ascent_build(&fs))
    }
}

/// The debug telemetry line of newer goggle firmware.
#[derive(Clone, Debug)]
pub struct SrtDebugFrameData {
    pub channel: u8,
    pub signal: u8,
    pub sp1: u16,
    pub sp2: u16,
    pub sp3: u16,
    pub sp4: u16,
    pub gp1: u16,
    pub gp2: u16,
    pub gp3: u16,
    pub gp4: u16,
    pub gtp: u16,
    pub gtp0: u16,
    pub stp: u16,
    pub stp0: u16,
    /// As `f32` text.
    pub gsnr: String,
    /// As `f32` text.
    pub ssnr: String,
    /// As `f32` text.
    pub gtemp: String,
    /// As `f32` text.
    pub stemp: String,
    pub latency: u32,
    pub frame: u16,
    pub gerr: u16,
    pub serr: u16,
    pub serr_ext: u16,
    pub iso: u32,
    pub iso_mode: String,
    pub iso_exp: u32,
    /// As `f32` text.
    pub gain: String,
    /// As `f32` text.
    pub gain_exp: String,
}

/// `SrtDebugFrameData` as a plain value.
pub struct SrtDebugData {
    pub channel: u8,
    pub signal: u8,
    pub sp1: u16,
    pub sp2: u16,
    pub sp3: u16,
    pub sp4: u16,
    pub gp1: u16,
    pub gp2: u16,
    pub gp3: u16,
    pub gp4: u16,
    pub gtp: u16,
    pub gtp0: u16,
    pub stp: u16,
    pub stp0: u16,
    pub gsnr: Seq<char>,
    pub ssnr: Seq<char>,
    pub gtemp: Seq<char>,
    pub stemp: Seq<char>,
    pub latency: u32,
    pub frame: u16,
    pub gerr: u16,
    pub serr: u16,
    pub serr_ext: u16,
    pub iso: u32,
    pub iso_mode: Seq<char>,
    pub iso_exp: u32,
    pub gain: Seq<char>,
    pub gain_exp: Seq<char>,
}

/// `d` as a plain value.
pub open spec fn srt_debug_model(d: SrtDebugFrameData) -> SrtDebugData {
    SrtDebugData {
        channel: d.channel,
        signal: d.signal,
        sp1: d.sp1,
        sp2: d.sp2,
        sp3: d.sp3,
        sp4: d.sp4,
        gp1: d.gp1,
        gp2: d.gp2,
        gp3: d.gp3,
        gp4: d.gp4,
        gtp: d.gtp,
        gtp0: d.gtp0,
        stp: d.stp,
        stp0: d.stp0,
        gsnr: d.gsnr@,
        ssnr: d.ssnr@,
        gtemp: d.gtemp@,
        stemp: d.stemp@,
        latency: d.latency,
        frame: d.frame,
        gerr: d.gerr,
        serr: d.serr,
        serr_ext: d.serr_ext,
        iso: d.iso,
        iso_mode: d.iso_mode@,
        iso_exp: d.iso_exp,
        gain: d.gain@,
        gain_exp: d.gain_exp@,
    }
}

/// The literals of the template `CH:{channel} MCS:{signal} SP[ {sp1} {sp2}  {sp3} {sp4}] GP[ {gp1}  {gp2}  {gp3}  {gp4}] GTP:{gtp} GTP0:{gtp0} STP:{stp} STP0:{stp0} GSNR:{gsnr} SSNR:{ssnr} Gtemp:{gtemp} Stemp:{stemp} Delay:{latency}ms Frame:{frame}  Gerr:{gerr} SErr:{serr} {serr_ext}, [iso:{iso},mode={iso_mode}, exp:{iso_exp}] [gain:{gain} exp:{gain_exp}ms]`.
pub open spec fn srt_debug_literals() -> Seq<Seq<char>> {
    seq![
        "CH:"@,
        " MCS:"@,
        " SP[ "@,
        " "@,
        "  "@,
        " "@,
        "] GP[ "@,
        "  "@,
        "  "@,
        "  "@,
        "] GTP:"@,
        " GTP0:"@,
        " STP:"@,
        " STP0:"@,
        " GSNR:"@,
        " SSNR:"@,
        " Gtemp:"@,
        " Stemp:"@,
        " Delay:"@,
        "ms Frame:"@,
        "  Gerr:"@,
        " SErr:"@,
        " "@,
        ", [iso:"@,
        ",mode="@,
        ", exp:"@,
        "] [gain:"@,
        " exp:"@,
        "ms]"@,
    ]
}

/// The template fields in the order they are checked (by name).
pub open spec fn srt_debug_check_order() -> Seq<int> {
    seq![0, 19, 26, 27, 20, 6, 7, 8, 9, 14, 16, 10, 11, 23, 25, 24, 18, 21, 22, 1, 2, 3, 4, 5, 15, 17, 12, 13]
}

/// The names of the fields in the order they are checked.
pub open spec fn srt_debug_check_labels() -> Seq<Seq<char>> {
    seq![
        "channel"@,
        "frame"@,
        "gain"@,
        "gain_exp"@,
        "gerr"@,
        "gp1"@,
        "gp2"@,
        "gp3"@,
        "gp4"@,
        "gsnr"@,
        "gtemp"@,
        "gtp"@,
        "gtp0"@,
        "iso"@,
        "iso_exp"@,
        "iso_mode"@,
        "latency"@,
        "serr"@,
        "serr_ext"@,
        "signal"@,
        "sp1"@,
        "sp2"@,
        "sp3"@,
        "sp4"@,
        "ssnr"@,
        "stemp"@,
        "stp"@,
        "stp0"@,
    ]
}

/// The types of the fields in the order they are checked.
pub open spec fn srt_debug_check_kinds() -> Seq<FieldKind> {
    seq![
        FieldKind::U8,
        FieldKind::U16,
        FieldKind::F32,
        FieldKind::F32,
        FieldKind::U16,
        FieldKind::U16,
        FieldKind::U16,
        FieldKind::U16,
        FieldKind::U16,
        FieldKind::F32,
        FieldKind::F32,
        FieldKind::U16,
        FieldKind::U16,
        FieldKind::U32,
        FieldKind::U32,
        FieldKind::Text,
        FieldKind::U32,
        FieldKind::U16,
        FieldKind::U16,
        FieldKind::U8,
        FieldKind::U16,
        FieldKind::U16,
        FieldKind::U16,
        FieldKind::U16,
        FieldKind::F32,
        FieldKind::F32,
        FieldKind::U16,
        FieldKind::U16,
    ]
}

/// The field texts in the order they are checked.
pub open spec fn srt_debug_check_texts(fs: Seq<Seq<char>>) -> Seq<Seq<char>> {
    Seq::new(28, |k: int| fs[srt_debug_check_order()[k]])
}

/// The line whose fields, in template order, are `fs`, each parsed as
/// its type.
pub open spec fn srt_debug_data(fs: Seq<Seq<char>>) -> SrtDebugData {
    SrtDebugData {
        channel: u8_of(fs[0]).unwrap(),
        signal: u8_of(fs[1]).unwrap(),
        sp1: u16_of(fs[2]).unwrap(),
        sp2: u16_of(fs[3]).unwrap(),
        sp3: u16_of(fs[4]).unwrap(),
        sp4: u16_of(fs[5]).unwrap(),
        gp1: u16_of(fs[6]).unwrap(),
        gp2: u16_of(fs[7]).unwrap(),
        gp3: u16_of(fs[8]).unwrap(),
        gp4: u16_of(fs[9]).unwrap(),
        gtp: u16_of(fs[10]).unwrap(),
        gtp0: u16_of(fs[11]).unwrap(),
        stp: u16_of(fs[12]).unwrap(),
        stp0: u16_of(fs[13]).unwrap(),
        gsnr: fs[14],
        ssnr: fs[15],
        gtemp: fs[16],
        stemp: fs[17],
        latency: u32_of(fs[18]).unwrap(),
        frame: u16_of(fs[19]).unwrap(),
        gerr: u16_of(fs[20]).unwrap(),
        serr: u16_of(fs[21]).unwrap(),
        serr_ext: u16_of(fs[22]).unwrap(),
        iso: u32_of(fs[23]).unwrap(),
        iso_mode: fs[24],
        iso_exp: u32_of(fs[25]).unwrap(),
        gain: fs[26],
        gain_exp: fs[27],
    }
}

/// What reading a line with the template gives: `"parse failed."` when
/// the line does not have the template's form; otherwise the fields are
/// checked by name in alphabetical order and the first that does not parse
/// as its type gives `"field `name` parse failed."`.
pub open spec fn srt_debug_result(s: Seq<char>) -> Result<SrtDebugData, Seq<char>> {
    match template_fields(s, srt_debug_literals()) {
        None => Err("parse failed."@),
        Some(fs) => match first_bad_field(srt_debug_check_kinds(), srt_debug_check_texts(fs), 0) {
            Some(k) => Err("field `"@ + srt_debug_check_labels()[k] + "` parse failed."@),
            None => Ok(srt_debug_data(fs)),
        },
    }
}

fn srt_debug_label(k: usize) -> (s: &'static str)
    requires
        k < 28,
    ensures
        s@ == srt_debug_check_labels()[k as int],
{
    if k == 0 {
        "channel"
    } else if k == 1 {
        "frame"
    } else if k == 2 {
        "gain"
    } else if k == 3 {
        "gain_exp"
    } else if k == 4 {
        "gerr"
    } else if k == 5 {
        "gp1"
    } else if k == 6 {
        "gp2"
    } else if k == 7 {
        "gp3"
    } else if k == 8 {
        "gp4"
    } else if k == 9 {
        "gsnr"
    } else if k == 10 {
        "gtemp"
    } else if k == 11 {
        "gtp"
    } else if k == 12 {
        "gtp0"
    } else if k == 13 {
        "iso"
    } else if k == 14 {
        "iso_exp"
    } else if k == 15 {
        "iso_mode"
    } else if k == 16 {
        "latency"
    } else if k == 17 {
        "serr"
    } else if k == 18 {
        "serr_ext"
    } else if k == 19 {
        "signal"
    } else if k == 20 {
        "sp1"
    } else if k == 21 {
        "sp2"
    } else if k == 22 {
        "sp3"
    } else if k == 23 {
        "sp4"
    } else if k == 24 {
        "ssnr"
    } else if k == 25 {
        "stemp"
    } else if k == 26 {
        "stp"
    } else {
        "stp0"
    }
}

/// The line whose fields are `fs` (see `srt_debug_data`).
fn srt_debug_build(fs: &Vec<String>) -> (d: SrtDebugFrameData)
    requires
        fs@.len() == 28,
        parse_unsigned(fs@[0]@, 255) is Ok,
        parse_unsigned(fs@[19]@, 0xffff) is Ok,
        parse_unsigned(fs@[20]@, 0xffff) is Ok,
        parse_unsigned(fs@[6]@, 0xffff) is Ok,
        parse_unsigned(fs@[7]@, 0xffff) is Ok,
        parse_unsigned(fs@[8]@, 0xffff) is Ok,
        parse_unsigned(fs@[9]@, 0xffff) is Ok,
        parse_unsigned(fs@[10]@, 0xffff) is Ok,
        parse_unsigned(fs@[11]@, 0xffff) is Ok,
        parse_unsigned(fs@[23]@, 0xffff_ffff) is Ok,
        parse_unsigned(fs@[25]@, 0xffff_ffff) is Ok,
        parse_unsigned(fs@[18]@, 0xffff_ffff) is Ok,
        parse_unsigned(fs@[21]@, 0xffff) is Ok,
        parse_unsigned(fs@[22]@, 0xffff) is Ok,
        parse_unsigned(fs@[1]@, 255) is Ok,
        parse_unsigned(fs@[2]@, 0xffff) is Ok,
        parse_unsigned(fs@[3]@, 0xffff) is Ok,
        parse_unsigned(fs@[4]@, 0xffff) is Ok,
        parse_unsigned(fs@[5]@, 0xffff) is Ok,
        parse_unsigned(fs@[12]@, 0xffff) is Ok,
        parse_unsigned(fs@[13]@, 0xffff) is Ok,
    ensures
        srt_debug_model(d) == srt_debug_data(fs@.map_values(|t: String| t@)),
{
    SrtDebugFrameData {
        channel: unwrap_u8(fs[0].as_str()),
        signal: unwrap_u8(fs[1].as_str()),
        sp1: unwrap_u16(fs[2].as_str()),
        sp2: unwrap_u16(fs[3].as_str()),
        sp3: unwrap_u16(fs[4].as_str()),
        sp4: unwrap_u16(fs[5].as_str()),
        gp1: unwrap_u16(fs[6].as_str()),
        gp2: unwrap_u16(fs[7].as_str()),
        gp3: unwrap_u16(fs[8].as_str()),
        gp4: unwrap_u16(fs[9].as_str()),
        gtp: unwrap_u16(fs[10].as_str()),
        gtp0: unwrap_u16(fs[11].as_str()),
        stp: unwrap_u16(fs[12].as_str()),
        stp0: unwrap_u16(fs[13].as_str()),
        gsnr: fs[14].clone(),
        ssnr: fs[15].clone(),
        gtemp: fs[16].clone(),
        stemp: fs[17].clone(),
        latency: unwrap_u32(fs[18].as_str()),
        frame: unwrap_u16(fs[19].as_str()),
        gerr: unwrap_u16(fs[20].as_str()),
        serr: unwrap_u16(fs[21].as_str()),
        serr_ext: unwrap_u16(fs[22].as_str()),
        iso: unwrap_u32(fs[23].as_str()),
        iso_mode: fs[24].clone(),
        iso_exp: unwrap_u32(fs[25].as_str()),
        gain: fs[26].clone(),
        gain_exp: fs[27].clone(),
    }
}

/// The literals of the template as character vectors.
fn srt_debug_template() -> (r: Vec<Vec<char>>)
    ensures
        lits_model(r@) == srt_debug_literals(),
{
    let lits = template_literals(&["CH:", " MCS:", " SP[ ", " ", "  ", " ", "] GP[ ", "  ", "  ", "  ", "] GTP:", " GTP0:", " STP:", " STP0:", " GSNR:", " SSNR:", " Gtemp:", " Stemp:", " Delay:", "ms Frame:", "  Gerr:", " SErr:", " ", ", [iso:", ",mode=", ", exp:", "] [gain:", " exp:", "ms]"]);
    assert(lits_model(lits@) =~= srt_debug_literals());
    lits
}

/// The fields `fs` (in template order) in the order they are checked.
fn srt_debug_reorder(fs: &Vec<String>) -> (checked: Vec<String>)
    requires
        fs@.len() == 28,
    ensures
        texts_model(checked@) == srt_debug_check_texts(fs@.map_values(|t: String| t@)),
{
    let ghost fsm = fs@.map_values(|t: String| t@);
    let order: [usize; 28] = [0, 19, 26, 27, 20, 6, 7, 8, 9, 14, 16, 10, 11, 23, 25, 24, 18, 21, 22, 1, 2, 3, 4, 5, 15, 17, 12, 13];
    let mut checked: Vec<String> = Vec::new();
    let mut k: usize = 0;
    while k < 28
        invariant
            fs@.len() == 28,
            fsm == fs@.map_values(|t: String| t@),
            order@ == srt_debug_check_order().map_values(|x: int| x as usize),
            k <= 28,
            checked@.len() == k,
            forall|j: int| 0 <= j < k ==> #[trigger] checked@[j]@ == srt_debug_check_texts(fsm)[j],
        decreases 28 - k,
    {
        let c = fs[order[k]].clone();
        checked.push(c);
        k = k + 1;
    }
    assert(texts_model(checked@) =~= srt_debug_check_texts(fsm));
    checked
}

/// The kinds of the fields in the order they are checked.
fn srt_debug_kinds() -> (r: [FieldKind; 28])
    ensures
        r@ == srt_debug_check_kinds(),
{
    let kinds = [FieldKind::U8, FieldKind::U16, FieldKind::F32, FieldKind::F32, FieldKind::U16, FieldKind::U16, FieldKind::U16, FieldKind::U16, FieldKind::U16, FieldKind::F32, FieldKind::F32, FieldKind::U16, FieldKind::U16, FieldKind::U32, FieldKind::U32, FieldKind::Text, FieldKind::U32, FieldKind::U16, FieldKind::U16, FieldKind::U8, FieldKind::U16, FieldKind::U16, FieldKind::U16, FieldKind::U16, FieldKind::F32, FieldKind::F32, FieldKind::U16, FieldKind::U16];
    assert(kinds@ =~= srt_debug_check_kinds());
    kinds
}

/// Every field parses as its type, in template order.
proof fn lemma_srt_debug_all_parse(fs: Seq<Seq<char>>)
    requires
        fs.len() == 28,
        first_bad_field(srt_debug_check_kinds(), srt_debug_check_texts(fs), 0) is None,
    ensures
        parse_unsigned(fs[0], 255) is Ok,
        parse_unsigned(fs[19], 0xffff) is Ok,
        parse_unsigned(fs[20], 0xffff) is Ok,
        parse_unsigned(fs[6], 0xffff) is Ok,
        parse_unsigned(fs[7], 0xffff) is Ok,
        parse_unsigned(fs[8], 0xffff) is Ok,
        parse_unsigned(fs[9], 0xffff) is Ok,
        parse_unsigned(fs[10], 0xffff) is Ok,
        parse_unsigned(fs[11], 0xffff) is Ok,
        parse_unsigned(fs[23], 0xffff_ffff) is Ok,
        parse_unsigned(fs[25], 0xffff_ffff) is Ok,
        parse_unsigned(fs[18], 0xffff_ffff) is Ok,
        parse_unsigned(fs[21], 0xffff) is Ok,
        parse_unsigned(fs[22], 0xffff) is Ok,
        parse_unsigned(fs[1], 255) is Ok,
        parse_unsigned(fs[2], 0xffff) is Ok,
        parse_unsigned(fs[3], 0xffff) is Ok,
        parse_unsigned(fs[4], 0xffff) is Ok,
        parse_unsigned(fs[5], 0xffff) is Ok,
        parse_unsigned(fs[12], 0xffff) is Ok,
        parse_unsigned(fs[13], 0xffff) is Ok,
{
    assert forall|j: int| 0 <= j < 28 implies field_parses(
        #[trigger] srt_debug_check_kinds()[j],
        srt_debug_check_texts(fs)[j],
    ) by {
        lemma_no_bad_field(srt_debug_check_kinds(), srt_debug_check_texts(fs), 0, j);
    }
    assert(field_parses(srt_debug_check_kinds()[0], srt_debug_check_texts(fs)[0]));
    assert(field_parses(srt_debug_check_kinds()[1], srt_debug_check_texts(fs)[1]));
    assert(field_parses(srt_debug_check_kinds()[4], srt_debug_check_texts(fs)[4]));
    assert(field_parses(srt_debug_check_kinds()[5], srt_debug_check_texts(fs)[5]));
    assert(field_parses(srt_debug_check_kinds()[6], srt_debug_check_texts(fs)[6]));
    assert(field_parses(srt_debug_check_kinds()[7], srt_debug_check_texts(fs)[7]));
    assert(field_parses(srt_debug_check_kinds()[8], srt_debug_check_texts(fs)[8]));
    assert(field_parses(srt_debug_check_kinds()[11], srt_debug_check_texts(fs)[11]));
    assert(field_parses(srt_debug_check_kinds()[12], srt_debug_check_texts(fs)[12]));
    assert(field_parses(srt_debug_check_kinds()[13], srt_debug_check_texts(fs)[13]));
    assert(field_parses(srt_debug_check_kinds()[14], srt_debug_check_texts(fs)[14]));
    assert(field_parses(srt_debug_check_kinds()[16], srt_debug_check_texts(fs)[16]));
    assert(field_parses(srt_debug_check_kinds()[17], srt_debug_check_texts(fs)[17]));
    assert(field_parses(srt_debug_check_kinds()[18], srt_debug_check_texts(fs)[18]));
    assert(field_parses(srt_debug_check_kinds()[19], srt_debug_check_texts(fs)[19]));
    assert(field_parses(srt_debug_check_kinds()[20], srt_debug_check_texts(fs)[20]));
    assert(field_parses(srt_debug_check_kinds()[21], srt_debug_check_texts(fs)[21]));
    assert(field_parses(srt_debug_check_kinds()[22], srt_debug_check_texts(fs)[22]));
    assert(field_parses(srt_debug_check_kinds()[23], srt_debug_check_texts(fs)[23]));
    assert(field_parses(srt_debug_check_kinds()[26], srt_debug_check_texts(fs)[26]));
    assert(field_parses(srt_debug_check_kinds()[27], srt_debug_check_texts(fs)[27]));
}

impl SrtDebugFrameData {
    /// Reads a line written with the template (see `srt_debug_result`).
    pub fn from_str(s: &str) -> (r: Result<SrtDebugFrameData, String>)
        ensures
            match r {
                Ok(d) => srt_debug_result(s@) == Ok::<SrtDebugData, Seq<char>>(srt_debug_model(d)),
                Err(m) => srt_debug_result(s@) == Err::<SrtDebugData, Seq<char>>(m@),
            },
    {
        let lits = srt_debug_template();
        let fs = match read_template(s, &lits) {
            Some(fs) => fs,
            None => {
                return Err("parse failed.".to_owned());
            },
        };
        let ghost fsm = fs@.map_values(|t: String| t@);
        proof {
            law_template_reading(s@, srt_debug_literals(), fsm);
        }
        assert(fsm.len() == 28);
        let checked = srt_debug_reorder(&fs);
        let kinds = srt_debug_kinds();
        match find_bad_field(&kinds, &checked) {
            Some((k, _)) => {
                let mut msg = "field `".to_owned();
                msg.append(srt_debug_label(k));
                msg.append("` parse failed.");
                return Err(msg);
            },
            None => {},
        }
        proof {
            lemma_srt_debug_all_parse(fsm);
        }
        Ok(srt_debug_build(&fs))
    }
}

/// An Ascent line as a telemetry line: all its fields are known, none of
/// the temperatures, link statistics or mode is.
impl vstd::std_specs::convert::FromSpecImpl<AscentSrtFrameData> for SrtFrameData {
    open spec fn obeys_from_spec() -> bool {
        true
    }

    open spec fn from_spec(a: AscentSrtFrameData) -> SrtFrameData {
        SrtFrameData {
            signal: Some(a.signal),
            channel: Some(a.channel),
            flight_time: Some(a.flight_time),
            sky_bat: Some(a.sky_bat),
            ground_bat: Some(a.ground_bat),
            latency: Some(a.latency),
            bitrate_mbps: Some(a.bitrate_mbps),
            distance: Some(a.distance),
            hz: Some(a.hz),
            sp: Some(a.sp),
            gp: Some(a.gp),
            air_temp: None,
            gnd_temp: None,
            ssnr: None,
            gsnr: None,
            stemp: None,
            gtemp: None,
            gerr: None,
            serr: None,
            sty_mode: None,
            is_debug: false,
        }
    }
}

impl From<AscentSrtFrameData> for SrtFrameData {
    fn from(a: AscentSrtFrameData) -> (d: SrtFrameData) {
        SrtFrameData {
            signal: Some(a.signal),
            channel: Some(a.channel),
            flight_time: Some(a.flight_time),
            sky_bat: Some(a.sky_bat),
            ground_bat: Some(a.ground_bat),
            latency: Some(a.latency),
            bitrate_mbps: Some(a.bitrate_mbps),
            distance: Some(a.distance),
            hz: Some(a.hz),
            sp: Some(a.sp),
            gp: Some(a.gp),
            air_temp: None,
            gnd_temp: None,
            ssnr: None,
            gsnr: None,
            stemp: None,
            gtemp: None,
            gerr: None,
            serr: None,
            sty_mode: None,
            is_debug: false,
        }
    }
}

/// An Ascent debug line as a telemetry line, marked as debug data: the
/// sky and ground temperatures fill both the temperature and the
/// air/ground temperature fields; channel, flight time, batteries,
/// distance and mode are unknown.
impl vstd::std_specs::convert::FromSpecImpl<AscentDebugSrtFrameData> for SrtFrameData {
    open spec fn obeys_from_spec() -> bool {
        true
    }

    open spec fn from_spec(a: AscentDebugSrtFrameData) -> SrtFrameData {
        SrtFrameData {
            signal: Some(a.signal),
            channel: None,
            flight_time: None,
            sky_bat: None,
            ground_bat: None,
            latency: Some(a.latency),
            bitrate_mbps: Some(a.bitrate_mbps),
            distance: None,
            hz: Some(a.hz),
            sp: Some(a.sp),
            gp: Some(a.gp),
            air_temp: Some(a.stemp),
            gnd_temp: Some(a.gtemp),
            ssnr: Some(a.ssnr),
            gsnr: Some(a.gsnr),
            stemp: Some(a.stemp),
            gtemp: Some(a.gtemp),
            gerr: Some(a.gerr),
            serr: Some(a.serr),
            sty_mode: None,
            is_debug: true,
        }
    }
}

impl From<AscentDebugSrtFrameData> for SrtFrameData {
    fn from(a: AscentDebugSrtFrameData) -> (d: SrtFrameData) {
        SrtFrameData {
            signal: Some(a.signal),
            channel: None,
            flight_time: None,
            sky_bat: None,
            ground_bat: None,
            latency: Some(a.latency),
            bitrate_mbps: Some(a.bitrate_mbps),
            distance: None,
            hz: Some(a.hz),
            sp: Some(a.sp),
            gp: Some(a.gp),
            air_temp: Some(a.stemp),
            gnd_temp: Some(a.gtemp),
            ssnr: Some(a.ssnr),
            gsnr: Some(a.gsnr),
            stemp: Some(a.stemp),
            gtemp: Some(a.gtemp),
            gerr: Some(a.gerr),
            serr: Some(a.serr),
            sty_mode: None,
            is_debug: true,
        }
    }
}

} // verus!
