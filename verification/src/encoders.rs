//! Video encoders that ffmpeg may offer for rendering, by platform, and how
//! to probe and describe them.
use vstd::prelude::*;

verus! {

/// Video codec of an encoder.
#[derive(Clone, Copy, Debug, PartialEq, Eq, Structural)]
pub enum Codec {
    H264,
    H265,
    AV1,
}

/// Operating system the encoder list is built for.
#[derive(Clone, Copy, Debug, PartialEq, Eq, Structural)]
pub enum TargetOs {
    Windows,
    Linux,
    MacOs,
    Other,
}

/// Display name of a codec.
pub open spec fn codec_label(codec: Codec) -> Seq<char> {
    match codec {
        Codec::H264 => "H.264"@,
        Codec::H265 => "H.265"@,
        Codec::AV1 => "AV1"@,
    }
}

impl Codec {
    /// Display name of the codec: "H.264", "H.265" or "AV1".
    pub fn label(&self) -> (s: &'static str)
        ensures
            s@ == codec_label(*self),
    {
        match self {
            Codec::H264 => "H.264",
            Codec::H265 => "H.265",
            Codec::AV1 => "AV1",
        }
    }
}

/// An ffmpeg video encoder and whether it was found to work.
#[derive(Clone, Debug)]
pub struct Encoder {
    pub name: String,
    pub codec: Codec,
    pub hardware: bool,
    pub detected: bool,
    pub extra_args: Vec<String>,
}

/// An encoder as a plain value.
pub struct EncoderSpec {
    pub name: Seq<char>,
    pub codec: Codec,
    pub hardware: bool,
    pub detected: bool,
    pub extra_args: Seq<Seq<char>>,
}

/// The strings of `v` as plain values.
pub open spec fn strings_model(v: Seq<String>) -> Seq<Seq<char>> {
    v.map_values(|s: String| s@)
}

/// The encoder `e` as a plain value.
pub open spec fn encoder_model(e: Encoder) -> EncoderSpec {
    EncoderSpec {
        name: e.name@,
        codec: e.codec,
        hardware: e.hardware,
        detected: e.detected,
        extra_args: strings_model(e.extra_args@),
    }
}

/// The encoders of `v` as plain values.
pub open spec fn encoders_model(v: Seq<Encoder>) -> Seq<EncoderSpec> {
    v.map_values(|e: Encoder| encoder_model(e))
}

/// A not yet probed encoder without extra arguments.
pub open spec fn plain(name: Seq<char>, codec: Codec, hardware: bool) -> EncoderSpec {
    EncoderSpec { name, codec, hardware, detected: false, extra_args: Seq::empty() }
}

/// `s` followed by `e` when `cond` holds.
pub open spec fn push_if(s: Seq<EncoderSpec>, cond: bool, e: EncoderSpec) -> Seq<EncoderSpec> {
    if cond {
        s.push(e)
    } else {
        s
    }
}

/// The encoders worth probing on `os`, in order: the software H.264 and
/// H.265 encoders, the hardware H.264 then H.265 encoders of the platform
/// (AMF on Windows; NVENC and QSV on Windows and Linux; VAAPI and V4L2 M2M
/// on Linux; VideoToolbox on macOS, whose H.265 encoder gets
/// `-tag:v hvc1`), the software AV1 encoders, and the hardware AV1
/// encoders of the platform.
pub open spec fn candidate_encoders(os: TargetOs) -> Seq<EncoderSpec> {
    let win = os == TargetOs::Windows;
    let linux = os == TargetOs::Linux;
    let mac = os == TargetOs::MacOs;
    let s0 = seq![plain("libx264"@, Codec::H264, false), plain("libx265"@, Codec::H265, false)];
    let s1 = push_if(s0, win, plain("h264_amf"@, Codec::H264, true));
    let s2 = push_if(s1, win || linux, plain("h264_nvenc"@, Codec::H264, true));
    let s3 = push_if(s2, win || linux, plain("h264_qsv"@, Codec::H264, true));
    let s4 = push_if(s3, linux, plain("h264_vaapi"@, Codec::H264, true));
    let s5 = push_if(s4, linux, plain("h264_v4l2m2m"@, Codec::H264, true));
    let s6 = push_if(s5, mac, plain("h264_videotoolbox"@, Codec::H264, true));
    let s7 = push_if(s6, win, plain("hevc_amf"@, Codec::H265, true));
    let s8 = push_if(s7, win || linux, plain("hevc_nvenc"@, Codec::H265, true));
    let s9 = push_if(s8, win || linux, plain("hevc_qsv"@, Codec::H265, true));
    let s10 = push_if(s9, linux, plain("hevc_vaapi"@, Codec::H265, true));
    let s11 = push_if(s10, linux, plain("hevc_v4l2m2m"@, Codec::H265, true));
    let s12 = push_if(
        s11,
        mac,
        EncoderSpec {
            name: "hevc_videotoolbox"@,
            codec: Codec::H265,
            hardware: true,
            detected: false,
            extra_args: seq!["-tag:v"@, "hvc1"@],
        },
    );
    let s13 = s12.push(plain("libaom-av1"@, Codec::AV1, false)).push(
        plain("libsvtav1"@, Codec::AV1, false),
    ).push(plain("librav1e"@, Codec::AV1, false));
    let s14 = push_if(s13, win, plain("av1_amf"@, Codec::AV1, true));
    let s15 = push_if(s14, win || linux, plain("av1_nvenc"@, Codec::AV1, true));
    let s16 = push_if(s15, win || linux, plain("av1_qsv"@, Codec::AV1, true));
    let s17 = push_if(s16, linux, plain("av1_vaapi"@, Codec::AV1, true));
    push_if(s17, linux, plain("av1_v4l2m2m"@, Codec::AV1, true))
}

/// `e` with its detection result set to `detected`.
pub open spec fn with_detected(e: EncoderSpec, detected: bool) -> EncoderSpec {
    EncoderSpec { detected, ..e }
}

/// The ffmpeg arguments that test whether encoder `name` works: encode one
/// frame of a null source and discard it.
pub open spec fn probe_args_for(name: Seq<char>) -> Seq<Seq<char>> {
    seq![
        "-hide_banner"@,
        "-f"@,
        "lavfi"@,
        "-i"@,
        "nullsrc"@,
        "-c:v"@,
        name,
        "-frames:v"@,
        "1"@,
        "-f"@,
        "null"@,
        "-"@,
    ]
}

/// Description of an encoder: "name — codec — hardware" (or "software").
pub open spec fn encoder_description(e: EncoderSpec) -> Seq<char> {
    e.name + " — "@ + codec_label(e.codec) + " — "@ + if e.hardware {
        "hardware"@
    } else {
        "software"@
    }
}

fn owned(s: &str) -> (r: String)
    ensures
        r@ == s@,
{
    s.to_owned()
}

impl Encoder {
    /// A not yet probed encoder without extra arguments.
    pub fn new(name: &str, codec: Codec, hardware: bool) -> (e: Encoder)
        ensures
            encoder_model(e) == plain(name@, codec, hardware),
    {
        let e = Self::new_with_extra_args(name, codec, hardware, &[]);
        assert(strings_model(e.extra_args@) =~= Seq::<Seq<char>>::empty());
        e
    }

    /// A not yet probed encoder that needs `extra_args` on the ffmpeg
    /// command line.
    pub fn new_with_extra_args(name: &str, codec: Codec, hardware: bool, extra_args: &[&str]) -> (e:
        Encoder)
        ensures
            e.name@ == name@,
            e.codec == codec,
            e.hardware == hardware,
            !e.detected,
            e.extra_args@.len() == extra_args@.len(),
            forall|i: int| 0 <= i < extra_args@.len() ==> #[trigger] e.extra_args@[i]@ == extra_args@[i]@,
    {
        let mut args: Vec<String> = Vec::new();
        let mut i: usize = 0;
        while i < extra_args.len()
            invariant
                i <= extra_args@.len(),
                args@.len() == i,
                forall|k: int| 0 <= k < i ==> #[trigger] args@[k]@ == extra_args@[k]@,
            decreases extra_args@.len() - i,
        {
            args.push(owned(extra_args[i]));
            i = i + 1;
        }
        Encoder { name: owned(name), codec, hardware, detected: false, extra_args: args }
    }

    /// The ffmpeg arguments that test whether this encoder works (see
    /// `probe_args_for`).
    pub fn probe_args(&self) -> (args: Vec<String>)
        ensures
            strings_model(args@) == probe_args_for(self.name@),
    {
        let mut args: Vec<String> = Vec::new();
        args.push(owned("-hide_banner"));
        args.push(owned("-f"));
        args.push(owned("lavfi"));
        args.push(owned("-i"));
        args.push(owned("nullsrc"));
        args.push(owned("-c:v"));
        args.push(self.name.clone());
        args.push(owned("-frames:v"));
        args.push(owned("1"));
        args.push(owned("-f"));
        args.push(owned("null"));
        args.push(owned("-"));
        assert(strings_model(args@) =~= probe_args_for(self.name@));
        args
    }

    /// Description of the encoder (see `encoder_description`).
    pub fn description(&self) -> (s: String)
        ensures
            s@ == encoder_description(encoder_model(*self)),
    {
        let mut s = self.name.clone();
        s.append(" — ");
        s.append(self.codec.label());
        s.append(" — ");
        if self.hardware {
            s.append("hardware");
        } else {
            s.append("software");
        }
        s
    }

    /// The encoders worth probing on `os` (see `candidate_encoders`).
    pub fn candidate_encoders(os: TargetOs) -> (v: Vec<Encoder>)
        ensures
            encoders_model(v@) == candidate_encoders(os),
    {
        let win = os == TargetOs::Windows;
        let linux = os == TargetOs::Linux;
        let mac = os == TargetOs::MacOs;
        let mut v: Vec<Encoder> = Vec::new();
        assert(encoders_model(v@) =~= Seq::<EncoderSpec>::empty());
        Self::push_plain(&mut v, true, "libx264", Codec::H264, false);
        Self::push_plain(&mut v, true, "libx265", Codec::H265, false);
        Self::push_plain(&mut v, win, "h264_amf", Codec::H264, true);
        Self::push_plain(&mut v, win || linux, "h264_nvenc", Codec::H264, true);
        Self::push_plain(&mut v, win || linux, "h264_qsv", Codec::H264, true);
        Self::push_plain(&mut v, linux, "h264_vaapi", Codec::H264, true);
        Self::push_plain(&mut v, linux, "h264_v4l2m2m", Codec::H264, true);
        Self::push_plain(&mut v, mac, "h264_videotoolbox", Codec::H264, true);
        Self::push_plain(&mut v, win, "hevc_amf", Codec::H265, true);
        Self::push_plain(&mut v, win || linux, "hevc_nvenc", Codec::H265, true);
        Self::push_plain(&mut v, win || linux, "hevc_qsv", Codec::H265, true);
        Self::push_plain(&mut v, linux, "hevc_vaapi", Codec::H265, true);
        Self::push_plain(&mut v, linux, "hevc_v4l2m2m", Codec::H265, true);
        if mac {
            let e = Self::new_with_extra_args(
                "hevc_videotoolbox",
                Codec::H265,
                true,
                &["-tag:v", "hvc1"],
            );
            let ghost em = EncoderSpec {
                name: "hevc_videotoolbox"@,
                codec: Codec::H265,
                hardware: true,
                detected: false,
                extra_args: seq!["-tag:v"@, "hvc1"@],
            };
            assert(strings_model(e.extra_args@) =~= seq!["-tag:v"@, "hvc1"@]);
            assert(encoder_model(e) == em);
            let ghost before = v@;
            v.push(e);
            assert(encoders_model(v@) =~= encoders_model(before).push(em));
        }
        Self::push_plain(&mut v, true, "libaom-av1", Codec::AV1, false);
        Self::push_plain(&mut v, true, "libsvtav1", Codec::AV1, false);
        Self::push_plain(&mut v, true, "librav1e", Codec::AV1, false);
        Self::push_plain(&mut v, win, "av1_amf", Codec::AV1, true);
        Self::push_plain(&mut v, win || linux, "av1_nvenc", Codec::AV1, true);
        Self::push_plain(&mut v, win || linux, "av1_qsv", Codec::AV1, true);
        Self::push_plain(&mut v, linux, "av1_vaapi", Codec::AV1, true);
        Self::push_plain(&mut v, linux, "av1_v4l2m2m", Codec::AV1, true);
        v
    }

    fn push_plain(v: &mut Vec<Encoder>, cond: bool, name: &str, codec: Codec, hardware: bool)
        ensures
            encoders_model(final(v)@) == push_if(
                encoders_model(old(v)@),
                cond,
                plain(name@, codec, hardware),
            ),
    {
        if cond {
            let e = Self::new(name, codec, hardware);
            let ghost before = v@;
            v.push(e);
            assert(encoders_model(v@) =~= encoders_model(before).push(encoder_model(e)));
        }
    }

    /// The encoders worth probing on `os`, each marked with whether the
    /// probe found it working: `detected[i]` is the probe result for the
    /// `i`-th candidate.
    pub fn get_available_encoders(os: TargetOs, detected: &[bool]) -> (v: Vec<Encoder>)
        requires
            detected@.len() == candidate_encoders(os).len(),
        ensures
            v@.len() == candidate_encoders(os).len(),
            forall|i: int|
                0 <= i < v@.len() ==> #[trigger] encoder_model(v@[i]) == with_detected(
                    candidate_encoders(os)[i],
                    detected@[i],
                ),
    {
        let candidates = Self::candidate_encoders(os);
        let ghost cands = candidate_encoders(os);
        let mut out: Vec<Encoder> = Vec::new();
        let mut i: usize = 0;
        while i < candidates.len()
            invariant
                encoders_model(candidates@) == cands,
                detected@.len() == cands.len(),
                i <= candidates@.len(),
                out@.len() == i,
                forall|k: int|
                    0 <= k < i ==> #[trigger] encoder_model(out@[k]) == with_detected(
                        cands[k],
                        detected@[k],
                    ),
            decreases candidates@.len() - i,
        {
            let c = &candidates[i];
            assert(encoder_model(*c) == cands[i as int]);
            let e = Encoder {
                name: c.name.clone(),
                codec: c.codec,
                hardware: c.hardware,
                detected: detected[i],
                extra_args: Self::clone_strings(&c.extra_args),
            };
            out.push(e);
            i = i + 1;
        }
        out
    }

    fn clone_strings(v: &Vec<String>) -> (r: Vec<String>)
        ensures
            strings_model(r@) == strings_model(v@),
    {
        let mut r: Vec<String> = Vec::new();
        let mut i: usize = 0;
        while i < v.len()
            invariant
                i <= v@.len(),
                strings_model(r@) == strings_model(v@.take(i as int)),
            decreases v@.len() - i,
        {
            let ghost before = r@;
            let c = v[i].clone();
            assert(c@ == v@[i as int]@);
            r.push(c);
            assert(strings_model(r@) =~= strings_model(before).push(c@));
            assert(strings_model(v@.take(i + 1)) =~= strings_model(v@.take(i as int)).push(
                v@[i as int]@,
            ));
            i = i + 1;
        }
        assert(v@.take(v@.len() as int) =~= v@);
        r
    }
}


/// `s` begins with `p`.
pub open spec fn has_prefix(s: Seq<char>, p: Seq<char>) -> bool
    decreases p.len(),
{
    if p.len() == 0 {
        true
    } else {
        s.len() > 0 && s[0] == p[0] && has_prefix(s.drop_first(), p.drop_first())
    }
}

/// The codec that ffmpeg's naming gives an encoder: `h264_*` and `libx264`
/// encode H.264, `hevc_*` and `libx265` H.265, `av1_*`, `libaom-av1`,
/// `libsvtav1` and `librav1e` AV1.
pub open spec fn codec_by_name(name: Seq<char>) -> Option<Codec> {
    if has_prefix(name, "h264_"@) || has_prefix(name, "libx264"@) {
        Some(Codec::H264)
    } else if has_prefix(name, "hevc_"@) || has_prefix(name, "libx265"@) {
        Some(Codec::H265)
    } else if has_prefix(name, "av1_"@) || has_prefix(name, "libaom-av1"@) || has_prefix(
        name,
        "libsvtav1"@,
    ) || has_prefix(name, "librav1e"@) {
        Some(Codec::AV1)
    } else {
        None
    }
}

/// Every encoder worth probing encodes the codec its name says, and is a
/// hardware encoder exactly when it is not one of the `lib*` software
/// encoders; Windows has 14 of them, Linux 17, macOS 7 and any other
/// system the 5 software encoders.
pub proof fn law_candidate_codecs(os: TargetOs)
    ensures
        forall|i: int|
            0 <= i < candidate_encoders(os).len() ==> codec_by_name(
                (#[trigger] candidate_encoders(os)[i]).name,
            ) == Some(candidate_encoders(os)[i].codec) && candidate_encoders(os)[i].hardware
                == !has_prefix(candidate_encoders(os)[i].name, "lib"@),
        os == TargetOs::Windows ==> candidate_encoders(os).len() == 14,
        os == TargetOs::Linux ==> candidate_encoders(os).len() == 17,
        os == TargetOs::MacOs ==> candidate_encoders(os).len() == 7,
        os == TargetOs::Other ==> candidate_encoders(os).len() == 5,
{
    let c = candidate_encoders(os);
    lemma_entries_consistent();
    assert forall|s: Seq<EncoderSpec>, cond: bool, e: EncoderSpec|
        all_consistent(s) && consistent(e) implies #[trigger] all_consistent(push_if(s, cond, e)) by {
        if cond {
            assert forall|k: int| 0 <= k < s.push(e).len() implies consistent(
                #[trigger] s.push(e)[k],
            ) by {
                if k < s.len() {
                    assert(s.push(e)[k] == s[k]);
                }
            }
        }
    }
    assert forall|s: Seq<EncoderSpec>, e: EncoderSpec|
        all_consistent(s) && consistent(e) implies #[trigger] all_consistent(s.push(e)) by {
        assert forall|k: int| 0 <= k < s.push(e).len() implies consistent(#[trigger] s.push(e)[k]) by {
            if k < s.len() {
                assert(s.push(e)[k] == s[k]);
            }
        }
    }
    let s0 = seq![plain("libx264"@, Codec::H264, false), plain("libx265"@, Codec::H265, false)];
    assert(all_consistent(s0)) by {
        assert forall|k: int| 0 <= k < s0.len() implies consistent(#[trigger] s0[k]) by {
            if k == 0 {
                assert(s0[k] == plain("libx264"@, Codec::H264, false));
            } else {
                assert(s0[k] == plain("libx265"@, Codec::H265, false));
            }
        }
    }
    assert(all_consistent(c));
    assert forall|i: int| 0 <= i < c.len() implies codec_by_name((#[trigger] c[i]).name) == Some(
        c[i].codec,
    ) && c[i].hardware == !has_prefix(c[i].name, "lib"@) by {
        assert(consistent(c[i]));
    }
}

/// The encoder `e` encodes the codec its name says and is hardware exactly
/// when its name does not start with `lib`.
pub open spec fn consistent(e: EncoderSpec) -> bool {
    codec_by_name(e.name) == Some(e.codec) && e.hardware == !has_prefix(e.name, "lib"@)
}

/// Every encoder of `s` is `consistent`.
pub open spec fn all_consistent(s: Seq<EncoderSpec>) -> bool {
    forall|k: int| 0 <= k < s.len() ==> consistent(#[trigger] s[k])
}

proof fn lemma_entries_consistent()
    ensures
        consistent(plain("libx264"@, Codec::H264, false)),
        consistent(plain("libx265"@, Codec::H265, false)),
        consistent(plain("h264_amf"@, Codec::H264, true)),
        consistent(plain("h264_nvenc"@, Codec::H264, true)),
        consistent(plain("h264_qsv"@, Codec::H264, true)),
        consistent(plain("h264_vaapi"@, Codec::H264, true)),
        consistent(plain("h264_v4l2m2m"@, Codec::H264, true)),
        consistent(plain("h264_videotoolbox"@, Codec::H264, true)),
        consistent(plain("hevc_amf"@, Codec::H265, true)),
        consistent(plain("hevc_nvenc"@, Codec::H265, true)),
        consistent(plain("hevc_qsv"@, Codec::H265, true)),
        consistent(plain("hevc_vaapi"@, Codec::H265, true)),
        consistent(plain("hevc_v4l2m2m"@, Codec::H265, true)),
        consistent(plain("hevc_videotoolbox"@, Codec::H265, true)),
        consistent(plain("libaom-av1"@, Codec::AV1, false)),
        consistent(plain("libsvtav1"@, Codec::AV1, false)),
        consistent(plain("librav1e"@, Codec::AV1, false)),
        consistent(plain("av1_amf"@, Codec::AV1, true)),
        consistent(plain("av1_nvenc"@, Codec::AV1, true)),
        consistent(plain("av1_qsv"@, Codec::AV1, true)),
        consistent(plain("av1_vaapi"@, Codec::AV1, true)),
        consistent(plain("av1_v4l2m2m"@, Codec::AV1, true)),
        consistent(
            EncoderSpec {
                name: "hevc_videotoolbox"@,
                codec: Codec::H265,
                hardware: true,
                detected: false,
                extra_args: seq!["-tag:v"@, "hvc1"@],
            },
        ),
{
    reveal_strlit("h264_");
    reveal_strlit("libx264");
    reveal_strlit("hevc_");
    reveal_strlit("libx265");
    reveal_strlit("av1_");
    reveal_strlit("libaom-av1");
    reveal_strlit("libsvtav1");
    reveal_strlit("librav1e");
    reveal_strlit("lib");
    reveal_strlit("h264_amf");
    reveal_strlit("h264_nvenc");
    reveal_strlit("h264_qsv");
    reveal_strlit("h264_vaapi");
    reveal_strlit("h264_v4l2m2m");
    reveal_strlit("h264_videotoolbox");
    reveal_strlit("hevc_amf");
    reveal_strlit("hevc_nvenc");
    reveal_strlit("hevc_qsv");
    reveal_strlit("hevc_vaapi");
    reveal_strlit("hevc_v4l2m2m");
    reveal_strlit("hevc_videotoolbox");
    reveal_strlit("av1_amf");
    reveal_strlit("av1_nvenc");
    reveal_strlit("av1_qsv");
    reveal_strlit("av1_vaapi");
    reveal_strlit("av1_v4l2m2m");
    reveal_with_fuel(has_prefix, 11);
}

} // verus!
