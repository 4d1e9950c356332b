//! The checks made on the first stream that ffprobe reports for a video:
//! which property is missing or unreadable, and the plain values read from
//! it. The frame rate and the duration stay text here: they are read as
//! `f32`, and what is computed from them is floating point.
use vstd::prelude::*;
use crate::text::{
    chars_of, find_char, find_char_in, is_float_literal, is_float_text, lemma_parse_unsigned_bound,
    parse_unsigned, parse_unsigned_text, shift, text_between, IntErrorKind,
};

verus! {

/// Why no video properties could be read from a probed stream.
#[derive(Clone, Copy, Debug, PartialEq, Eq, Structural)]
pub enum VideoInfoError {
    /// The file has no stream.
    NoStream,
    /// The stream has no width.
    NoFrameWidth,
    /// The stream has no height.
    NoFrameHeight,
    /// The average frame rate is not `numerator/denominator` with two
    /// readable numbers.
    NoFrameRate,
    /// The bit rate is missing or not an unsigned 32-bit integer.
    NoBitrate,
    /// The duration is missing or not a readable number.
    NoDuration,
}

/// The properties of one probed stream that the checks read, as ffprobe
/// reports them.
#[derive(Clone, Debug)]
pub struct ProbedStream {
    pub width: Option<i64>,
    pub height: Option<i64>,
    /// `numerator/denominator`, such as `60000/1001`.
    pub avg_frame_rate: String,
    pub bit_rate: Option<String>,
    pub duration: Option<String>,
}

/// The values read from a stream that passed every check.
#[derive(Clone, Debug)]
pub struct StreamFields {
    pub width: u32,
    pub height: u32,
    /// The frame rate's numerator, a text that reads as an `f32`.
    pub frame_rate_num: String,
    /// The frame rate's denominator, a text that reads as an `f32`.
    pub frame_rate_den: String,
    pub bitrate: u32,
    /// The duration in seconds, a text that reads as an `f32`.
    pub duration: String,
}

/// `s` up to its first `/`, or all of `s` when it has none.
pub open spec fn first_piece(s: Seq<char>) -> Seq<char> {
    match find_char(s, '/') {
        Some(i) => s.take(i),
        None => s,
    }
}

/// The piece of `s` between its first and its second `/` (or the end), when
/// `s` has a `/`.
pub open spec fn second_piece(s: Seq<char>) -> Option<Seq<char>> {
    match find_char(s, '/') {
        Some(i) => Some(first_piece(s.skip(i + 1))),
        None => None,
    }
}

/// Whether the frame rate text gives a numerator and a denominator that both
/// read as `f32`.
pub open spec fn frame_rate_readable(s: Seq<char>) -> bool {
    match second_piece(s) {
        Some(d) => is_float_literal(first_piece(s)) && is_float_literal(d),
        None => false,
    }
}

/// Whether the bit rate reads as a `u32`.
pub open spec fn bitrate_readable(b: Option<String>) -> bool {
    match b {
        Some(t) => parse_unsigned(t@, u32::MAX as nat) is Ok,
        None => false,
    }
}

/// Whether the duration reads as an `f32`.
pub open spec fn duration_readable(d: Option<String>) -> bool {
    match d {
        Some(t) => is_float_literal(t@),
        None => false,
    }
}

/// The first check that `s` fails, in the order width, height, frame rate,
/// bit rate, duration; `None` when it passes them all.
pub open spec fn stream_error(s: ProbedStream) -> Option<VideoInfoError> {
    if s.width is None {
        Some(VideoInfoError::NoFrameWidth)
    } else if s.height is None {
        Some(VideoInfoError::NoFrameHeight)
    } else if !frame_rate_readable(s.avg_frame_rate@) {
        Some(VideoInfoError::NoFrameRate)
    } else if !bitrate_readable(s.bit_rate) {
        Some(VideoInfoError::NoBitrate)
    } else if !duration_readable(s.duration) {
        Some(VideoInfoError::NoDuration)
    } else {
        None
    }
}

/// Checks the first of the probed `streams` and reads its properties: the
/// width and height (truncated to `u32`), the two texts of the frame rate,
/// the bit rate and the duration text.
pub fn stream_fields(streams: &Vec<ProbedStream>) -> (r: Result<StreamFields, VideoInfoError>)
    ensures
        streams@.len() == 0 ==> r == Err::<StreamFields, VideoInfoError>(VideoInfoError::NoStream),
        streams@.len() > 0 ==> match r {
            Err(e) => stream_error(streams@[0]) == Some(e),
            Ok(f) => {
                let s = streams@[0];
                &&& stream_error(s) is None
                &&& f.width == s.width->0 as u32
                &&& f.height == s.height->0 as u32
                &&& f.frame_rate_num@ == first_piece(s.avg_frame_rate@)
                &&& Some(f.frame_rate_den@) == second_piece(s.avg_frame_rate@)
                &&& parse_unsigned(s.bit_rate->0@, u32::MAX as nat) == Ok::<nat, IntErrorKind>(f.bitrate as nat)
                &&& f.duration@ == s.duration->0@
            },
        },
{
    if streams.len() == 0 {
        return Err(VideoInfoError::NoStream);
    }
    let s = &streams[0];
    let width = match s.width {
        Some(w) => w as u32,
        None => return Err(VideoInfoError::NoFrameWidth),
    };
    let height = match s.height {
        Some(h) => h as u32,
        None => return Err(VideoInfoError::NoFrameHeight),
    };
    let (num, den) = match frame_rate_texts(s.avg_frame_rate.as_str()) {
        Some(p) => p,
        None => return Err(VideoInfoError::NoFrameRate),
    };
    let bitrate = match &s.bit_rate {
        Some(b) => match parse_unsigned_text(b.as_str(), 0xffff_ffff) {
            Ok(v) => {
                proof {
                    lemma_parse_unsigned_bound(b@, 0xffff_ffff);
                }
                v as u32
            },
            Err(_) => return Err(VideoInfoError::NoBitrate),
        },
        None => return Err(VideoInfoError::NoBitrate),
    };
    let duration = match &s.duration {
        Some(d) => {
            if !is_float_text(d.as_str()) {
                return Err(VideoInfoError::NoDuration);
            }
            d.clone()
        },
        None => return Err(VideoInfoError::NoDuration),
    };
    Ok(StreamFields { width, height, frame_rate_num: num, frame_rate_den: den, bitrate, duration })
}

/// The numerator and denominator texts of a frame rate `s`, when both read
/// as `f32` (see `frame_rate_readable`).
pub fn frame_rate_texts(s: &str) -> (r: Option<(String, String)>)
    ensures
        r is Some <==> frame_rate_readable(s@),
        r matches Some(p) ==> p.0@ == first_piece(s@) && Some(p.1@) == second_piece(s@),
{
    let v = chars_of(s);
    let n = v.len();
    assert(v@.subrange(0, n as int) =~= v@);
    let slash = match find_char_in(&v, 0, n, '/') {
        Some(i) => i,
        None => return None,
    };
    assert(find_char(s@, '/') == Some(slash as int));
    let rest_end = match find_char_in(&v, slash + 1, n, '/') {
        Some(j) => j,
        None => n,
    };
    let ghost rest = s@.skip(slash + 1);
    assert(rest =~= v@.subrange(slash + 1, n as int));
    assert(first_piece(rest) =~= v@.subrange(slash + 1, rest_end as int)) by {
        match find_char(rest, '/') {
            Some(k) => {
                assert(shift(find_char(rest, '/'), slash + 1) == Some(rest_end as int));
                assert(rest.take(k) =~= v@.subrange(slash + 1, rest_end as int));
            },
            None => {},
        }
    }
    let num = text_between(&v, 0, slash);
    assert(num@ =~= s@.take(slash as int));
    let den = text_between(&v, slash + 1, rest_end);
    if is_float_text(num.as_str()) && is_float_text(den.as_str()) {
        Some((num, den))
    } else {
        None
    }
}

} // verus!
