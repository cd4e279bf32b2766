//! Making proxies: filters, command lines, the reading of progress, and which attempt follows
//! which.

use crate::args::{arg, arg2};
use crate::digest::{digest_text, hex16, push_hex16, text_digest};
use crate::proxy_names::{clamp, clamped, scale_filter, ProxyCodec, ProxyScale, Smoothing};
use crate::text::{
    decimal, ends,
    begins, begins_with, blank, chars_of, clone_option, escape, escaped, has_char, join, joined,
    number, option_view, owned, parse_number, push_signed, same, signed_decimal, sub_chars, trim,
    trimmed, views,
};
use vstd::prelude::*;
use vstd::string::*;

verus! {

/// Height from which a source counts as heavy.
pub const HEAVY_SOURCE_HEIGHT_THRESHOLD: u32 = 2160;

/// The most heavy sources that are transcoded at once.
pub const MAX_HEAVY_PARALLEL_TRANSCODES: u32 = 2;

/// Families of hardware encoders.
#[derive(Clone, Copy, Debug, PartialEq, Eq, Hash, Structural)]
pub enum HwEncoderFamily {
    Nvenc,
    Vaapi,
}

/// Permits for heavy transcodes.
#[derive(Debug)]
pub struct HeavyPermit {
    pub available: u32,
}

impl HeavyPermit {
    /// A number of permits.
    pub fn new(initial: u32) -> (r: HeavyPermit)
        ensures
            r.available == initial,
    {
        HeavyPermit { available: initial }
    }

    /// Takes a permit, if there is one.
    pub fn acquire(&mut self) -> (r: bool)
        ensures
            r == (old(self).available > 0),
            final(self).available == (if r {
                (old(self).available - 1) as u32
            } else {
                old(self).available
            }),
    {
        if self.available == 0 {
            return false;
        }
        self.available = self.available - 1;
        true
    }

    /// Gives a permit back.
    pub fn release(&mut self)
        requires
            old(self).available < u32::MAX,
        ensures
            final(self).available == old(self).available + 1,
    {
        self.available = self.available + 1;
    }
}

/// Whether a source of a known height needs a permit. One of unknown height needs none.
pub fn is_heavy(height: Option<u32>) -> (r: bool)
    ensures
        r == (height matches Some(h) && h >= HEAVY_SOURCE_HEIGHT_THRESHOLD),
{
    match height {
        Some(h) => h >= HEAVY_SOURCE_HEIGHT_THRESHOLD,
        None => false,
    }
}

/// What has happened to permits.
#[derive(Clone, Copy, Debug, PartialEq, Eq, Structural)]
pub enum PermitEvent {
    /// One was asked for.
    Asked,
    /// One was given back.
    Returned,
}

/// How many permits are left and how many are held after events, `initial` being left at first.
/// Where none is left, one that is asked for is not given; only what is held is given back.
pub open spec fn permits_after(initial: nat, events: Seq<PermitEvent>) -> (nat, nat)
    decreases events.len(),
{
    if events.len() == 0 {
        (initial, 0)
    } else {
        let (left, held) = permits_after(initial, events.drop_last());
        match events.last() {
            PermitEvent::Asked => if left > 0 {
                ((left - 1) as nat, held + 1)
            } else {
                (left, held)
            },
            PermitEvent::Returned => if held > 0 {
                (left + 1, (held - 1) as nat)
            } else {
                (left, held)
            },
        }
    }
}

/// Never are more heavy sources transcoded at once than there are permits, and no permit is lost.
pub proof fn lemma_heavy_sources_are_bounded(initial: nat, events: Seq<PermitEvent>)
    ensures
        ({
            let (left, held) = permits_after(initial, events);
            held <= initial && left + held == initial
        }),
    decreases events.len(),
{
    if events.len() > 0 {
        lemma_heavy_sources_are_bounded(initial, events.drop_last());
    }
}

/// The command line that asks for the height of the first video.
pub fn height_probe_args(source_path: &str) -> (r: Vec<String>)
    ensures
        views(r@) == seq![
            "-v"@,
            "error"@,
            "-select_streams"@,
            "v:0"@,
            "-show_entries"@,
            "stream=height"@,
            "-of"@,
            "default=noprint_wrappers=1:nokey=1"@,
            source_path@,
        ],
{
    let mut args: Vec<String> = Vec::new();
    proof {
        assert(views(args@) =~= Seq::empty());
    }
    arg2(&mut args, "-v", "error");
    arg2(&mut args, "-select_streams", "v:0");
    arg2(&mut args, "-show_entries", "stream=height");
    arg2(&mut args, "-of", "default=noprint_wrappers=1:nokey=1");
    arg(&mut args, source_path);
    proof {
        assert(views(args@) =~= seq![
            "-v"@,
            "error"@,
            "-select_streams"@,
            "v:0"@,
            "-show_entries"@,
            "stream=height"@,
            "-of"@,
            "default=noprint_wrappers=1:nokey=1"@,
            source_path@,
        ]);
    }
    args
}

/// The command line that asks for the duration of a file.
pub fn duration_probe_args(path: &str) -> (r: Vec<String>)
    ensures
        views(r@) == seq![
            "-v"@,
            "error"@,
            "-show_entries"@,
            "format=duration"@,
            "-of"@,
            "default=nokey=1:noprint_wrappers=1"@,
            path@,
        ],
{
    let mut args: Vec<String> = Vec::new();
    proof {
        assert(views(args@) =~= Seq::empty());
    }
    arg2(&mut args, "-v", "error");
    arg2(&mut args, "-show_entries", "format=duration");
    arg2(&mut args, "-of", "default=nokey=1:noprint_wrappers=1");
    arg(&mut args, path);
    proof {
        assert(views(args@) =~= seq![
            "-v"@,
            "error"@,
            "-show_entries"@,
            "format=duration"@,
            "-of"@,
            "default=nokey=1:noprint_wrappers=1"@,
            path@,
        ]);
    }
    args
}

/// The height that a probe printed.
pub fn parse_source_height(output: &str) -> (r: Option<u32>)
    ensures
        match r {
            Some(h) => number(trim(output@), u32::MAX as nat) == Some(h as nat),
            None => number(trim(output@), u32::MAX as nat) is None,
        },
{
    let text: String = trimmed(output);
    match parse_number(&chars_of(&text)) {
        Some(n) => if n <= 0xffff_ffff {
            Some(n as u32)
        } else {
            None
        },
        None => None,
    }
}

// -------------------------------------------------------------------- filters
/// Where the analysis of a source's motion is kept.
pub open spec fn motion_file(source: Seq<char>) -> Seq<char> {
    "/tmp/ultimateslice-proxy-vidstab-"@ + hex16(text_digest(source)) + ".trf"@
}

/// Where the analysis of a source's motion is kept.
pub fn vidstab_trf_path(source_path: &str) -> (r: String)
    ensures
        r@ == motion_file(source_path@),
{
    let mut r = owned("/tmp/ultimateslice-proxy-vidstab-");
    push_hex16(&mut r, digest_text(source_path));
    r.append(".trf");
    r
}

/// The filter that analyses motion.
pub open spec fn detect_filter(scale: ProxyScale, tenths: i32, trf: Seq<char>) -> Seq<char> {
    scale_filter(scale) + ",vidstabdetect=shakiness="@ + signed_decimal(
        clamped(tenths as int, 1, 10),
    ) + ":result="@ + trf
}

/// The command line of the motion analysis.
pub fn vidstab_analysis_args(source_path: &str, scale: ProxyScale, smoothing: &Smoothing) -> (r: Vec<
    String,
>)
    ensures
        views(r@) == seq![
            "-y"@,
            "-i"@,
            source_path@,
            "-vf"@,
            detect_filter(scale, smoothing.tenths, motion_file(source_path@)),
            "-f"@,
            "null"@,
            "-"@,
        ],
{
    let mut filter = scale.ffmpeg_scale_filter();
    filter.append(",vidstabdetect=shakiness=");
    push_signed(&mut filter, clamp(smoothing.tenths, 1, 10) as i64);
    filter.append(":result=");
    filter.append(&vidstab_trf_path(source_path));
    let mut r: Vec<String> = Vec::new();
    arg(&mut r, "-y");
    arg2(&mut r, "-i", source_path);
    arg2(&mut r, "-vf", &filter);
    arg2(&mut r, "-f", "null");
    arg(&mut r, "-");
    proof {
        assert(views(r@) =~= seq![
            "-y"@,
            "-i"@,
            source_path@,
            "-vf"@,
            detect_filter(scale, smoothing.tenths, motion_file(source_path@)),
            "-f"@,
            "null"@,
            "-"@,
        ]);
    }
    r
}

/// The part of the filter that steadies the picture.
pub open spec fn transform_filter(thirtieths: i32, trf: Seq<char>) -> Seq<char> {
    ",vidstabtransform=input="@ + trf + ":smoothing="@ + signed_decimal(
        clamped(thirtieths as int, 1, 30),
    ) + ":zoom=0:optzoom=1,unsharp=5:5:0.8:3:3:0.4"@
}

/// The filters of the first `n` LUTs that have a path.
pub open spec fn lut_filters(luts: Seq<Seq<char>>, n: nat) -> Seq<char>
    decreases n,
{
    if n == 0 {
        Seq::empty()
    } else {
        let front = lut_filters(luts, (n - 1) as nat);
        if luts[n - 1].len() > 0 {
            front + ",lut3d="@ + escaped(luts[n - 1], "\\:"@)
        } else {
            front
        }
    }
}

/// The filter of a proxy: scale, stabilisation where the motion was analysed, LUTs.
pub open spec fn proxy_filter(
    source: Seq<char>,
    scale: ProxyScale,
    luts: Seq<Seq<char>>,
    steadied: bool,
    thirtieths: i32,
) -> Seq<char> {
    scale_filter(scale) + (if steadied {
        transform_filter(thirtieths, motion_file(source))
    } else {
        Seq::empty()
    }) + lut_filters(luts, luts.len())
}

/// The filter of a proxy. `steadied` says whether the motion analysis succeeded.
pub fn build_proxy_filter(
    source_path: &str,
    scale: ProxyScale,
    lut_paths: &Vec<String>,
    steadied: bool,
    smoothing: &Smoothing,
) -> (r: String)
    ensures
        r@ == proxy_filter(source_path@, scale, views(lut_paths@), steadied, smoothing.thirtieths),
{
    let ghost luts = views(lut_paths@);
    let mut filter = scale.ffmpeg_scale_filter();
    if steadied {
        let mut part = owned(",vidstabtransform=input=");
        part.append(&vidstab_trf_path(source_path));
        part.append(":smoothing=");
        push_signed(&mut part, clamp(smoothing.thirtieths, 1, 30) as i64);
        part.append(":zoom=0:optzoom=1,unsharp=5:5:0.8:3:3:0.4");
        filter.append(&part);
    }
    let ghost head = filter@;
    proof {
        assert(head =~= scale_filter(scale) + (if steadied {
            transform_filter(smoothing.thirtieths, motion_file(source_path@))
        } else {
            Seq::empty()
        }));
        assert(head + lut_filters(luts, 0) =~= head);
    }
    let mut i: usize = 0;
    while i < lut_paths.len()
        invariant
            i <= lut_paths@.len(),
            luts == views(lut_paths@),
            filter@ == head + lut_filters(luts, i as nat),
        decreases lut_paths.len() - i,
    {
        let ghost before = filter@;
        proof {
            assert(luts[i as int] == lut_paths@[i as int]@);
        }
        if !lut_paths[i].as_str().is_empty() {
            filter.append(",lut3d=");
            filter.append(&escape(&lut_paths[i], "\\:"));
            proof {
                assert(filter@ =~= head + lut_filters(luts, (i + 1) as nat));
            }
        }
        i = i + 1;
    }
    filter
}

// --------------------------------------------------------------- command line
/// The encoder of a family, or of the processor, for a codec.
pub open spec fn encoder_name(family: Option<HwEncoderFamily>, codec: ProxyCodec) -> Seq<char> {
    match (family, codec) {
        (Some(HwEncoderFamily::Vaapi), ProxyCodec::H264) => "h264_vaapi"@,
        (Some(HwEncoderFamily::Vaapi), ProxyCodec::Hevc) => "hevc_vaapi"@,
        (Some(HwEncoderFamily::Nvenc), ProxyCodec::H264) => "h264_nvenc"@,
        (Some(HwEncoderFamily::Nvenc), ProxyCodec::Hevc) => "hevc_nvenc"@,
        (None, ProxyCodec::H264) => "libx264"@,
        (None, ProxyCodec::Hevc) => "libx265"@,
    }
}

/// The encoder of a family, or of the processor, for a codec.
pub fn encoder_label(family: Option<HwEncoderFamily>, codec: ProxyCodec) -> (r: &'static str)
    ensures
        r@ == encoder_name(family, codec),
{
    match (family, codec) {
        (Some(HwEncoderFamily::Vaapi), ProxyCodec::H264) => "h264_vaapi",
        (Some(HwEncoderFamily::Vaapi), ProxyCodec::Hevc) => "hevc_vaapi",
        (Some(HwEncoderFamily::Nvenc), ProxyCodec::H264) => "h264_nvenc",
        (Some(HwEncoderFamily::Nvenc), ProxyCodec::Hevc) => "hevc_nvenc",
        (None, ProxyCodec::H264) => "libx264",
        (None, ProxyCodec::Hevc) => "libx265",
    }
}

/// How the log names the decoder.
pub open spec fn decoder_name(method: Option<Seq<char>>) -> Seq<char> {
    match method {
        Some(m) => if m == "vaapi"@ {
            "sw (vaapi decode skipped — slower than CPU for HEVC 10-bit on Intel iGPUs)"@
        } else {
            m
        },
        None => "sw"@,
    }
}

/// How the log names the decoder.
pub fn decoder_label(method: &Option<String>) -> (r: String)
    ensures
        r@ == decoder_name(option_view(*method)),
{
    match method {
        Some(m) => if same(m, "vaapi") {
            owned("sw (vaapi decode skipped — slower than CPU for HEVC 10-bit on Intel iGPUs)")
        } else {
            m.clone()
        },
        None => owned("sw"),
    }
}

/// The arguments of an encoder.
pub open spec fn encoder_args(family: Option<HwEncoderFamily>, codec: ProxyCodec) -> Seq<Seq<char>> {
    let head = seq!["-c:v"@, encoder_name(family, codec)];
    match (family, codec) {
        (Some(HwEncoderFamily::Vaapi), _) => head + seq!["-qp"@, "28"@],
        (Some(HwEncoderFamily::Nvenc), _) => head + seq![
            "-preset"@,
            "p1"@,
            "-tune"@,
            "ll"@,
            "-rc"@,
            "constqp"@,
            "-cq"@,
            "28"@,
            "-pix_fmt"@,
            "yuv420p"@,
        ],
        (None, ProxyCodec::H264) => head + seq![
            "-preset"@,
            "ultrafast"@,
            "-tune"@,
            "fastdecode"@,
            "-crf"@,
            "28"@,
            "-bf"@,
            "0"@,
            "-refs"@,
            "1"@,
            "-pix_fmt"@,
            "yuv420p"@,
        ],
        (None, ProxyCodec::Hevc) => head + seq![
            "-preset"@,
            "ultrafast"@,
            "-x265-params"@,
            "log-level=error"@,
            "-crf"@,
            "28"@,
            "-pix_fmt"@,
            "yuv420p"@,
        ],
    }
}

fn push_encoder_args(args: &mut Vec<String>, family: Option<HwEncoderFamily>, codec: ProxyCodec)
    ensures
        views(final(args)@) == views(old(args)@) + encoder_args(family, codec),
{
    let ghost before = views(args@);
    arg2(args, "-c:v", encoder_label(family, codec));
    match (family, codec) {
        (Some(HwEncoderFamily::Vaapi), _) => {
            arg2(args, "-qp", "28");
        },
        (Some(HwEncoderFamily::Nvenc), _) => {
            arg2(args, "-preset", "p1");
            arg2(args, "-tune", "ll");
            arg2(args, "-rc", "constqp");
            arg2(args, "-cq", "28");
            arg2(args, "-pix_fmt", "yuv420p");
        },
        (None, ProxyCodec::H264) => {
            arg2(args, "-preset", "ultrafast");
            arg2(args, "-tune", "fastdecode");
            arg2(args, "-crf", "28");
            arg2(args, "-bf", "0");
            arg2(args, "-refs", "1");
            arg2(args, "-pix_fmt", "yuv420p");
        },
        (None, ProxyCodec::Hevc) => {
            arg2(args, "-preset", "ultrafast");
            arg2(args, "-x265-params", "log-level=error");
            arg2(args, "-crf", "28");
            arg2(args, "-pix_fmt", "yuv420p");
        },
    }
    proof {
        assert(views(args@) =~= before + encoder_args(family, codec));
    }
}

/// The arguments that choose the hardware: the device of a VA-API encoder, and the decoder. VA-API
/// is never used to decode.
pub open spec fn hardware_args(
    family: Option<HwEncoderFamily>,
    node: Option<Seq<char>>,
    decode: Option<Seq<char>>,
) -> Seq<Seq<char>> {
    let device = if family == Some(HwEncoderFamily::Vaapi) {
        match node {
            Some(n) => seq!["-vaapi_device"@, n],
            None => Seq::empty(),
        }
    } else {
        Seq::empty()
    };
    let accel = match decode {
        Some(m) => if m != "vaapi"@ {
            seq!["-hwaccel"@, m]
        } else {
            Seq::empty()
        },
        None => Seq::empty(),
    };
    device + accel
}

/// The filter with what a VA-API encoder needs at its end.
pub open spec fn uploaded(filter: Seq<char>, family: Option<HwEncoderFamily>) -> Seq<char> {
    if family == Some(HwEncoderFamily::Vaapi) {
        filter + ",format=nv12,hwupload"@
    } else {
        filter
    }
}

/// The command line of a transcode.
pub open spec fn transcode_command(
    source: Seq<char>,
    output: Seq<char>,
    filter: Seq<char>,
    family: Option<HwEncoderFamily>,
    node: Option<Seq<char>>,
    codec: ProxyCodec,
    decode: Option<Seq<char>>,
) -> Seq<Seq<char>> {
    seq!["-y"@, "-hide_banner"@, "-loglevel"@, "error"@, "-progress"@, "pipe:2"@, "-nostats"@]
        + hardware_args(family, node, decode) + seq![
        "-i"@,
        source,
        "-vf"@,
        uploaded(filter, family),
    ] + encoder_args(family, codec) + seq![
        "-c:a"@,
        "aac"@,
        "-b:a"@,
        "128k"@,
        "-movflags"@,
        "+faststart"@,
        "-f"@,
        "mp4"@,
        output,
    ]
}

/// The command line of a transcode. `render_node` is the VA-API device that was found.
pub fn transcode_args(
    source_path: &str,
    proxy_path: &str,
    filter: &str,
    hw_family: Option<HwEncoderFamily>,
    render_node: &Option<String>,
    proxy_codec: ProxyCodec,
    hw_decode_method: &Option<String>,
) -> (r: Vec<String>)
    ensures
        views(r@) == transcode_command(
            source_path@,
            proxy_path@,
            filter@,
            hw_family,
            option_view(*render_node),
            proxy_codec,
            option_view(*hw_decode_method),
        ),
{
    let mut r: Vec<String> = Vec::new();
    arg(&mut r, "-y");
    arg(&mut r, "-hide_banner");
    arg2(&mut r, "-loglevel", "error");
    arg2(&mut r, "-progress", "pipe:2");
    arg(&mut r, "-nostats");
    let vaapi: bool = match hw_family {
        Some(HwEncoderFamily::Vaapi) => true,
        _ => false,
    };
    let ghost head = views(r@);
    proof {
        assert(head =~= seq![
            "-y"@,
            "-hide_banner"@,
            "-loglevel"@,
            "error"@,
            "-progress"@,
            "pipe:2"@,
            "-nostats"@,
        ]);
    }
    if vaapi {
        if let Some(node) = render_node {
            arg2(&mut r, "-vaapi_device", node);
        }
    }
    if let Some(method) = hw_decode_method {
        if !same(method, "vaapi") {
            arg2(&mut r, "-hwaccel", method);
        }
    }
    proof {
        assert(views(r@) =~= head + hardware_args(
            hw_family,
            option_view(*render_node),
            option_view(*hw_decode_method),
        ));
    }
    let ghost head = views(r@);
    arg2(&mut r, "-i", source_path);
    let mut effective = owned(filter);
    if vaapi {
        effective.append(",format=nv12,hwupload");
    }
    arg2(&mut r, "-vf", &effective);
    proof {
        assert(views(r@) =~= head + seq!["-i"@, source_path@, "-vf"@, uploaded(filter@, hw_family)]);
    }
    push_encoder_args(&mut r, hw_family, proxy_codec);
    let ghost head = views(r@);
    arg2(&mut r, "-c:a", "aac");
    arg2(&mut r, "-b:a", "128k");
    arg2(&mut r, "-movflags", "+faststart");
    arg2(&mut r, "-f", "mp4");
    arg(&mut r, proxy_path);
    proof {
        assert(views(r@) =~= head + seq![
            "-c:a"@,
            "aac"@,
            "-b:a"@,
            "128k"@,
            "-movflags"@,
            "+faststart"@,
            "-f"@,
            "mp4"@,
            proxy_path@,
        ]);
    }
    r
}

// ------------------------------------------------------------------- progress
/// The number of bytes written that a line of progress tells.
pub open spec fn bytes_on(line: Seq<char>) -> Option<nat> {
    if begins(line, "total_size="@) {
        number(line.subrange("total_size="@.len() as int, line.len() as int), u64::MAX as nat)
    } else {
        None
    }
}

/// Whether a line is a message, and not one of the key=value rows of progress.
pub open spec fn is_message(line: Seq<char>) -> bool {
    &&& !begins(line, "total_size="@)
    &&& !(line.contains('=') && !line.contains(' '))
    &&& trim(line).len() > 0
}

/// The last eight messages.
pub open spec fn with_message(recent: Seq<Seq<char>>, line: Seq<char>) -> Seq<Seq<char>> {
    if !is_message(line) {
        recent
    } else if recent.len() == 8 {
        recent.drop_first().push(line)
    } else {
        recent.push(line)
    }
}

/// Takes in a line that a transcode printed: keeps it if it is a message, and returns the number
/// of bytes written if it tells that.
pub fn read_progress_line(recent: &mut Vec<String>, line: &str) -> (r: Option<u64>)
    requires
        old(recent)@.len() <= 8,
    ensures
        final(recent)@.len() <= 8,
        views(final(recent)@) == with_message(views(old(recent)@), line@),
        match r {
            Some(n) => bytes_on(line@) == Some(n as nat),
            None => bytes_on(line@) is None,
        },
{
    let chars: Vec<char> = chars_of(line);
    let ghost before = recent@;
    proof {
        reveal_strlit("total_size=");
    }
    if begins_with(line, "total_size=") {
        let tail: Vec<char> = sub_chars(&chars, 11, chars.len());
        return parse_number(&tail);
    }
    if has_char(&chars, '=') && !has_char(&chars, ' ') {
        return None;
    }
    if !blank(line) {
        if recent.len() == 8 {
            recent.remove(0);
            proof {
                assert(views(recent@) =~= views(before).drop_first());
            }
        }
        let ghost b1 = recent@;
        recent.push(owned(line));
        proof {
            assert(views(recent@) =~= views(b1).push(line@));
            assert(before.len() == views(before).len());
        }
    }
    None
}

/// What a failed transcode printed, in one line.
pub fn failure_tail(recent: &Vec<String>) -> (r: String)
    ensures
        r@ == (if recent@.len() == 0 {
            "(no stderr captured)"@
        } else {
            join(views(recent@), " | "@)
        }),
{
    if recent.len() == 0 {
        owned("(no stderr captured)")
    } else {
        joined(recent, " | ")
    }
}

// ------------------------------------------------------------------- attempts
/// What a transcode is waiting for.
#[derive(Clone, Copy, Debug, PartialEq, Eq, Structural)]
pub enum TranscodeStage {
    /// The directory of the output.
    MakingDirectory,
    /// The transcode itself.
    Running,
    /// Whether the unfinished output is complete.
    CheckingPartial,
    /// The renaming of the output.
    Renaming,
    /// Whether the renamed output is complete.
    CheckingOutput,
    /// Nothing more.
    Finished,
}

/// What has to be done next. Each is answered with whether it succeeded.
#[derive(Debug)]
pub enum TranscodeAction {
    /// Make the directory of the output at this path.
    MakeDirectory { proxy_path: String },
    /// Remove the unfinished output, and transcode to it.
    Run { partial_path: String, encoder: Option<HwEncoderFamily>, decoder: Option<String> },
    /// Find out whether the unfinished output is complete.
    CheckPartial { partial_path: String },
    /// Rename the unfinished output.
    Rename { partial_path: String, proxy_path: String },
    /// Find out whether the output is complete.
    CheckOutput { proxy_path: String },
    /// Report the result. Where there is a path to mirror to, copy the output there first.
    Finish { proxy_path: String, success: bool, owned_local: bool, mirror_to: Option<String> },
}

/// A transcode under way.
pub struct Transcode {
    pub local_path: String,
    pub sidecar_path: Option<String>,
    pub mirror: bool,
    pub first_encoder: Option<HwEncoderFamily>,
    pub first_decoder: Option<String>,
    pub at_sidecar: bool,
    pub stage: TranscodeStage,
    pub encoder: Option<HwEncoderFamily>,
    pub decoder: Option<String>,
}

/// A transcode under way, its texts as characters.
pub struct TranscodeView {
    pub local: Seq<char>,
    pub sidecar: Option<Seq<char>>,
    pub mirror: bool,
    pub first_encoder: Option<HwEncoderFamily>,
    pub first_decoder: Option<Seq<char>>,
    pub at_sidecar: bool,
    pub stage: TranscodeStage,
    pub encoder: Option<HwEncoderFamily>,
    pub decoder: Option<Seq<char>>,
}

/// What has to be done next, its texts as characters.
pub enum ActionView {
    MakeDirectory { proxy: Seq<char> },
    Run { partial: Seq<char>, encoder: Option<HwEncoderFamily>, decoder: Option<Seq<char>> },
    CheckPartial { partial: Seq<char> },
    Rename { partial: Seq<char>, proxy: Seq<char> },
    CheckOutput { proxy: Seq<char> },
    Finish { proxy: Seq<char>, success: bool, owned: bool, mirror_to: Option<Seq<char>> },
}

impl TranscodeAction {
    pub open spec fn view(&self) -> ActionView {
        match *self {
            TranscodeAction::MakeDirectory { proxy_path } => ActionView::MakeDirectory {
                proxy: proxy_path@,
            },
            TranscodeAction::Run { partial_path, encoder, decoder } => ActionView::Run {
                partial: partial_path@,
                encoder,
                decoder: option_view(decoder),
            },
            TranscodeAction::CheckPartial { partial_path } => ActionView::CheckPartial {
                partial: partial_path@,
            },
            TranscodeAction::Rename { partial_path, proxy_path } => ActionView::Rename {
                partial: partial_path@,
                proxy: proxy_path@,
            },
            TranscodeAction::CheckOutput { proxy_path } => ActionView::CheckOutput {
                proxy: proxy_path@,
            },
            TranscodeAction::Finish { proxy_path, success, owned_local, mirror_to } =>
                ActionView::Finish {
                proxy: proxy_path@,
                success,
                owned: owned_local,
                mirror_to: option_view(mirror_to),
            },
        }
    }
}

/// The path that a transcode is working on.
pub open spec fn target(t: TranscodeView) -> Seq<char> {
    if t.at_sidecar {
        t.sidecar->Some_0
    } else {
        t.local
    }
}

/// The path of the unfinished output.
pub open spec fn partial_of(t: TranscodeView) -> Seq<char> {
    target(t) + ".partial"@
}

/// A run of the transcode with the encoder and decoder that are up.
pub open spec fn run_of(t: TranscodeView) -> (TranscodeView, ActionView) {
    (
        TranscodeView { stage: TranscodeStage::Running, ..t },
        ActionView::Run { partial: partial_of(t), encoder: t.encoder, decoder: t.decoder },
    )
}

/// What follows when a target is given up: the path beside the source after the managed one, with
/// the first encoder and decoder again; failure after the last.
pub open spec fn next_target(t: TranscodeView) -> (TranscodeView, ActionView) {
    if !t.at_sidecar && t.sidecar is Some {
        (
            TranscodeView {
                at_sidecar: true,
                stage: TranscodeStage::MakingDirectory,
                encoder: t.first_encoder,
                decoder: t.first_decoder,
                ..t
            },
            ActionView::MakeDirectory { proxy: t.sidecar->Some_0 },
        )
    } else {
        (
            TranscodeView { stage: TranscodeStage::Finished, ..t },
            ActionView::Finish { proxy: t.local, success: false, owned: false, mirror_to: None },
        )
    }
}

/// Where the output is mirrored to.
pub open spec fn mirror_of(t: TranscodeView) -> Option<Seq<char>> {
    if !t.at_sidecar && t.mirror && t.sidecar is Some && t.sidecar->Some_0 != t.local {
        t.sidecar
    } else {
        None
    }
}

/// What follows on the outcome of an action. A failed run is repeated without the hardware
/// encoder, then without the hardware decoder.
pub open spec fn transcode_step(t: TranscodeView, ok: bool) -> (TranscodeView, ActionView) {
    match t.stage {
        TranscodeStage::MakingDirectory => if ok {
            run_of(t)
        } else {
            next_target(t)
        },
        TranscodeStage::Running => if ok {
            (
                TranscodeView { stage: TranscodeStage::CheckingPartial, ..t },
                ActionView::CheckPartial { partial: partial_of(t) },
            )
        } else if t.encoder is Some {
            run_of(TranscodeView { encoder: None, ..t })
        } else if t.decoder is Some {
            run_of(TranscodeView { decoder: None, ..t })
        } else {
            next_target(t)
        },
        TranscodeStage::CheckingPartial => if ok {
            (
                TranscodeView { stage: TranscodeStage::Renaming, ..t },
                ActionView::Rename { partial: partial_of(t), proxy: target(t) },
            )
        } else {
            next_target(t)
        },
        TranscodeStage::Renaming => if ok {
            (
                TranscodeView { stage: TranscodeStage::CheckingOutput, ..t },
                ActionView::CheckOutput { proxy: target(t) },
            )
        } else {
            next_target(t)
        },
        TranscodeStage::CheckingOutput => if ok {
            (
                TranscodeView { stage: TranscodeStage::Finished, ..t },
                ActionView::Finish {
                    proxy: target(t),
                    success: true,
                    owned: !t.at_sidecar,
                    mirror_to: mirror_of(t),
                },
            )
        } else {
            next_target(t)
        },
        TranscodeStage::Finished => (
            t,
            ActionView::Finish { proxy: t.local, success: false, owned: false, mirror_to: None },
        ),
    }
}

/// What a step leaves to be cleared up: an output to remove, with its source record or without, and
/// hardware that failed.
#[derive(Debug)]
pub struct Aftermath {
    pub discard: Option<String>,
    pub with_record: bool,
    pub failed_encoder: Option<HwEncoderFamily>,
    pub failed_decoder: Option<String>,
}

/// What a step leaves to be cleared up, its texts as characters.
pub struct AftermathView {
    pub discard: Option<Seq<char>>,
    pub with_record: bool,
    pub failed_encoder: Option<HwEncoderFamily>,
    pub failed_decoder: Option<Seq<char>>,
}

impl Aftermath {
    pub open spec fn view(&self) -> AftermathView {
        AftermathView {
            discard: option_view(self.discard),
            with_record: self.with_record,
            failed_encoder: self.failed_encoder,
            failed_decoder: option_view(self.failed_decoder),
        }
    }
}

/// A step that leaves nothing to be cleared up.
pub open spec fn no_aftermath() -> AftermathView {
    AftermathView {
        discard: None,
        with_record: false,
        failed_encoder: None,
        failed_decoder: None,
    }
}

/// What the outcome of an action leaves to be cleared up. Success leaves nothing. A failed run is
/// blamed on the hardware encoder, and without one on the hardware decoder; from then on a failure
/// costs the unfinished output, and at last the output itself with its source record.
pub open spec fn aftermath_of(t: TranscodeView, ok: bool) -> AftermathView {
    if ok {
        no_aftermath()
    } else {
        match t.stage {
            TranscodeStage::MakingDirectory | TranscodeStage::Finished => no_aftermath(),
            TranscodeStage::Running => AftermathView {
                discard: Some(partial_of(t)),
                failed_encoder: t.encoder,
                failed_decoder: if t.encoder is Some {
                    None
                } else {
                    t.decoder
                },
                ..no_aftermath()
            },
            TranscodeStage::CheckingPartial | TranscodeStage::Renaming => AftermathView {
                discard: Some(partial_of(t)),
                ..no_aftermath()
            },
            TranscodeStage::CheckingOutput => AftermathView {
                discard: Some(target(t)),
                with_record: true,
                ..no_aftermath()
            },
        }
    }
}

impl Transcode {
    pub open spec fn view(&self) -> TranscodeView {
        TranscodeView {
            local: self.local_path@,
            sidecar: option_view(self.sidecar_path),
            mirror: self.mirror,
            first_encoder: self.first_encoder,
            first_decoder: option_view(self.first_decoder),
            at_sidecar: self.at_sidecar,
            stage: self.stage,
            encoder: self.encoder,
            decoder: option_view(self.decoder),
        }
    }

    /// A transcode that works beside the source has a path there.
    pub open spec fn wf(&self) -> bool {
        self.at_sidecar ==> self.sidecar_path is Some
    }

    /// Begins a transcode: the managed path comes first.
    pub fn begin(
        local_path: String,
        sidecar_path: Option<String>,
        mirror: bool,
        encoder: Option<HwEncoderFamily>,
        decoder: Option<String>,
    ) -> (r: (Transcode, TranscodeAction))
        ensures
            r.0.wf(),
            r.0@ == (TranscodeView {
                local: local_path@,
                sidecar: option_view(sidecar_path),
                mirror,
                first_encoder: encoder,
                first_decoder: option_view(decoder),
                at_sidecar: false,
                stage: TranscodeStage::MakingDirectory,
                encoder,
                decoder: option_view(decoder),
            }),
            r.1@ == (ActionView::MakeDirectory { proxy: local_path@ }),
    {
        let proxy_path = local_path.clone();
        let first_decoder = clone_option(&decoder);
        (
            Transcode {
                local_path,
                sidecar_path,
                mirror,
                first_encoder: encoder,
                first_decoder,
                at_sidecar: false,
                stage: TranscodeStage::MakingDirectory,
                encoder,
                decoder,
            },
            TranscodeAction::MakeDirectory { proxy_path },
        )
    }

    fn target_path(&self) -> (r: String)
        requires
            self.wf(),
        ensures
            r@ == target(self@),
    {
        if self.at_sidecar {
            if let Some(p) = &self.sidecar_path {
                return p.clone();
            }
        }
        self.local_path.clone()
    }

    fn partial_path(&self) -> (r: String)
        requires
            self.wf(),
        ensures
            r@ == partial_of(self@),
    {
        let mut r = self.target_path();
        r.append(".partial");
        r
    }

    fn run(&mut self) -> (r: TranscodeAction)
        requires
            old(self).wf(),
        ensures
            final(self).wf(),
            (final(self)@, r@) == run_of(old(self)@),
    {
        self.stage = TranscodeStage::Running;
        let partial_path = self.partial_path();
        TranscodeAction::Run {
            partial_path,
            encoder: self.encoder,
            decoder: clone_option(&self.decoder),
        }
    }

    fn give_up_target(&mut self) -> (r: TranscodeAction)
        requires
            old(self).wf(),
        ensures
            final(self).wf(),
            (final(self)@, r@) == next_target(old(self)@),
    {
        if !self.at_sidecar {
            if let Some(p) = &self.sidecar_path {
                let proxy_path = p.clone();
                self.at_sidecar = true;
                self.stage = TranscodeStage::MakingDirectory;
                self.encoder = self.first_encoder;
                self.decoder = clone_option(&self.first_decoder);
                return TranscodeAction::MakeDirectory { proxy_path };
            }
        }
        self.stage = TranscodeStage::Finished;
        TranscodeAction::Finish {
            proxy_path: self.local_path.clone(),
            success: false,
            owned_local: false,
            mirror_to: None,
        }
    }

    fn mirror_path(&self) -> (r: Option<String>)
        requires
            self.wf(),
        ensures
            option_view(r) == mirror_of(self@),
    {
        if !self.at_sidecar && self.mirror {
            if let Some(p) = &self.sidecar_path {
                if !same(p, &self.local_path) {
                    return Some(p.clone());
                }
            }
        }
        None
    }

    /// What the outcome of the last action leaves to be cleared up, before the next step.
    pub fn aftermath(&self, ok: bool) -> (r: Aftermath)
        requires
            self.wf(),
        ensures
            r@ == aftermath_of(self@, ok),
    {
        let mut r = Aftermath {
            discard: None,
            with_record: false,
            failed_encoder: None,
            failed_decoder: None,
        };
        if ok {
            return r;
        }
        match self.stage {
            TranscodeStage::MakingDirectory | TranscodeStage::Finished => {},
            TranscodeStage::Running => {
                r.discard = Some(self.partial_path());
                r.failed_encoder = self.encoder;
                if self.encoder.is_none() {
                    r.failed_decoder = clone_option(&self.decoder);
                }
            },
            TranscodeStage::CheckingPartial | TranscodeStage::Renaming => {
                r.discard = Some(self.partial_path());
            },
            TranscodeStage::CheckingOutput => {
                r.discard = Some(self.target_path());
                r.with_record = true;
            },
        }
        r
    }

    /// Takes the outcome of the last action and says what follows.
    pub fn step(&mut self, ok: bool) -> (r: TranscodeAction)
        requires
            old(self).wf(),
            old(self).stage != TranscodeStage::Finished,
        ensures
            final(self).wf(),
            (final(self)@, r@) == transcode_step(old(self)@, ok),
    {
        match self.stage {
            TranscodeStage::MakingDirectory => if ok {
                self.run()
            } else {
                self.give_up_target()
            },
            TranscodeStage::Running => {
                if ok {
                    self.stage = TranscodeStage::CheckingPartial;
                    TranscodeAction::CheckPartial { partial_path: self.partial_path() }
                } else if self.encoder.is_some() {
                    self.encoder = None;
                    self.run()
                } else if self.decoder.is_some() {
                    self.decoder = None;
                    self.run()
                } else {
                    self.give_up_target()
                }
            },
            TranscodeStage::CheckingPartial => if ok {
                self.stage = TranscodeStage::Renaming;
                let partial_path = self.partial_path();
                let proxy_path = self.target_path();
                TranscodeAction::Rename { partial_path, proxy_path }
            } else {
                self.give_up_target()
            },
            TranscodeStage::Renaming => if ok {
                self.stage = TranscodeStage::CheckingOutput;
                TranscodeAction::CheckOutput { proxy_path: self.target_path() }
            } else {
                self.give_up_target()
            },
            TranscodeStage::CheckingOutput => if ok {
                let proxy_path = self.target_path();
                let mirror_to = self.mirror_path();
                self.stage = TranscodeStage::Finished;
                TranscodeAction::Finish {
                    proxy_path,
                    success: true,
                    owned_local: !self.at_sidecar,
                    mirror_to,
                }
            } else {
                self.give_up_target()
            },
            TranscodeStage::Finished => self.give_up_target(),
        }
    }
}

/// How many steps a transcode has before it at most.
pub open spec fn steps_left(t: TranscodeView) -> nat {
    let here: nat = match t.stage {
        TranscodeStage::Finished => 0,
        TranscodeStage::CheckingOutput => 1,
        TranscodeStage::Renaming => 2,
        TranscodeStage::CheckingPartial => 3,
        TranscodeStage::Running => 4 + (if t.encoder is Some {
            1nat
        } else {
            0nat
        }) + (if t.decoder is Some {
            1nat
        } else {
            0nat
        }),
        TranscodeStage::MakingDirectory => 7,
    };
    if t.stage != TranscodeStage::Finished && !t.at_sidecar && t.sidecar is Some {
        here + 7
    } else {
        here
    }
}

/// Every transcode comes to an end, whatever the outcomes of its actions.
pub proof fn lemma_transcode_ends(t: TranscodeView, ok: bool)
    requires
        t.stage != TranscodeStage::Finished,
    ensures
        steps_left(transcode_step(t, ok).0) < steps_left(t),
        transcode_step(t, ok).0.stage == TranscodeStage::Finished <==> transcode_step(
            t,
            ok,
        ).1 is Finish,
{
}

/// A target is given up after a failed run only where neither encoder nor decoder was hardware.
pub proof fn lemma_software_is_tried(t: TranscodeView)
    requires
        t.stage == TranscodeStage::Running,
        !(transcode_step(t, false).1 is Run),
    ensures
        t.encoder is None,
        t.decoder is None,
{
}

/// Hardware is noted as failed exactly where the next run goes without it: the encoder or the
/// decoder, never both.
pub proof fn lemma_blamed_hardware_is_dropped(t: TranscodeView, ok: bool)
    requires
        t.stage == TranscodeStage::Running,
    ensures
        ({
            let next = transcode_step(t, ok);
            let a = aftermath_of(t, ok);
            &&& a.failed_encoder is Some <==> next.1 is Run && next.0.encoder != t.encoder
            &&& a.failed_decoder is Some <==> next.1 is Run && next.0.decoder != t.decoder
            &&& !(a.failed_encoder is Some && a.failed_decoder is Some)
        }),
{
}

/// A failure leaves no output behind: whatever the failed action wrote or was to check is removed.
pub proof fn lemma_failure_leaves_no_output(t: TranscodeView)
    requires
        t.stage != TranscodeStage::MakingDirectory,
        t.stage != TranscodeStage::Finished,
    ensures
        aftermath_of(t, false).discard == Some(
            if t.stage == TranscodeStage::CheckingOutput {
                target(t)
            } else {
                partial_of(t)
            },
        ),
        aftermath_of(t, false).with_record <==> t.stage == TranscodeStage::CheckingOutput,
{
}

/// Success is reported only of an output that was found complete under its final name.
pub proof fn lemma_success_was_checked(t: TranscodeView, ok: bool)
    requires
        transcode_step(t, ok).1 is Finish,
        transcode_step(t, ok).1->success,
    ensures
        t.stage == TranscodeStage::CheckingOutput,
        ok,
        transcode_step(t, ok).1->Finish_proxy == target(t),
{
}

/// Where all works, a proxy is written under a passing name, checked, given its name and checked
/// again, and is then ready where it was wanted; it is copied beside its source where that is wanted
/// too.
pub proof fn lemma_good_transcode(t: TranscodeView)
    requires
        t.stage == TranscodeStage::MakingDirectory,
        !t.at_sidecar,
    ensures
        ({
            let (t1, a1) = transcode_step(t, true);
            let (t2, a2) = transcode_step(t1, true);
            let (t3, a3) = transcode_step(t2, true);
            let (t4, a4) = transcode_step(t3, true);
            let (t5, a5) = transcode_step(t4, true);
            let passing = t.local + ".partial"@;
            &&& a1 == (ActionView::Run {
                partial: passing,
                encoder: t.encoder,
                decoder: t.decoder,
            })
            &&& a2 == (ActionView::CheckPartial { partial: passing })
            &&& a3 == (ActionView::Rename { partial: passing, proxy: t.local })
            &&& a4 == (ActionView::CheckOutput { proxy: t.local })
            &&& a5 matches ActionView::Finish { proxy, success, owned, mirror_to } && proxy
                == t.local && success && owned && (mirror_to is Some ==> mirror_to == t.sidecar)
                && (mirror_to is Some <==> t.mirror && t.sidecar is Some && t.sidecar
                != Some(t.local))
        }),
{
}

/// A run that fails is tried again in software, first for the encoder and then for the decoder, on
/// the same file; then the proxy goes beside its source, and only if that fails too is it given up.
pub proof fn lemma_failed_run(t: TranscodeView)
    requires
        t.stage == TranscodeStage::Running,
    ensures
        ({
            let (u, a) = transcode_step(t, false);
            &&& t.encoder is Some ==> a == (ActionView::Run {
                partial: partial_of(t),
                encoder: None,
                decoder: t.decoder,
            })
            &&& t.encoder is None && t.decoder is Some ==> a == (ActionView::Run {
                partial: partial_of(t),
                encoder: None,
                decoder: None,
            })
            &&& t.encoder is None && t.decoder is None && !t.at_sidecar && t.sidecar is Some ==> a
                == (ActionView::MakeDirectory { proxy: t.sidecar->Some_0 }) && u.encoder
                == t.first_encoder && u.decoder == t.first_decoder && u.at_sidecar
            &&& t.encoder is None && t.decoder is None && (t.at_sidecar || t.sidecar is None) ==> (
            a matches ActionView::Finish { success, .. } && !success)
        }),
{
}

/// The encoder fits the codec: those of one codec share no name with those of the other.
pub proof fn lemma_encoder_fits_codec(family: Option<HwEncoderFamily>)
    ensures
        begins(encoder_name(family, ProxyCodec::H264), "h264"@) || encoder_name(
            family,
            ProxyCodec::H264,
        ) == "libx264"@,
        begins(encoder_name(family, ProxyCodec::Hevc), "hevc"@) || encoder_name(
            family,
            ProxyCodec::Hevc,
        ) == "libx265"@,
        family is Some ==> begins(encoder_name(family, ProxyCodec::H264), "h264"@) && begins(
            encoder_name(family, ProxyCodec::Hevc),
            "hevc"@,
        ),
        family == Some(HwEncoderFamily::Vaapi) ==> ends(
            encoder_name(family, ProxyCodec::H264),
            "vaapi"@,
        ) && ends(encoder_name(family, ProxyCodec::Hevc), "vaapi"@),
        family == Some(HwEncoderFamily::Nvenc) ==> ends(
            encoder_name(family, ProxyCodec::H264),
            "nvenc"@,
        ) && ends(encoder_name(family, ProxyCodec::Hevc), "nvenc"@),
{
    reveal_strlit("h264");
    reveal_strlit("hevc");
    reveal_strlit("vaapi");
    reveal_strlit("nvenc");
    reveal_strlit("h264_vaapi");
    reveal_strlit("hevc_vaapi");
    reveal_strlit("h264_nvenc");
    reveal_strlit("hevc_nvenc");
    assert("h264_vaapi"@.subrange(0, 4) =~= "h264"@);
    assert("h264_nvenc"@.subrange(0, 4) =~= "h264"@);
    assert("hevc_vaapi"@.subrange(0, 4) =~= "hevc"@);
    assert("hevc_nvenc"@.subrange(0, 4) =~= "hevc"@);
    assert("h264_vaapi"@.subrange(5, 10) =~= "vaapi"@);
    assert("hevc_vaapi"@.subrange(5, 10) =~= "vaapi"@);
    assert("h264_nvenc"@.subrange(5, 10) =~= "nvenc"@);
    assert("hevc_nvenc"@.subrange(5, 10) =~= "nvenc"@);
}

/// Every LUT with a path is applied, in order.
pub proof fn lemma_luts_in_order(luts: Seq<Seq<char>>, l: Seq<char>)
    ensures
        lut_filters(luts.push(l), luts.len() + 1) == (if l.len() > 0 {
            lut_filters(luts, luts.len()) + ",lut3d="@ + escaped(l, "\\:"@)
        } else {
            lut_filters(luts, luts.len())
        }),
        lut_filters(luts, 0).len() == 0,
{
    lemma_luts_of_front(luts, luts.push(l), luts.len());
}

proof fn lemma_luts_of_front(a: Seq<Seq<char>>, b: Seq<Seq<char>>, n: nat)
    requires
        n <= a.len(),
        n <= b.len(),
        forall|k: int| 0 <= k < n ==> a[k] == b[k],
    ensures
        lut_filters(a, n) == lut_filters(b, n),
    decreases n,
{
    if n > 0 {
        lemma_luts_of_front(a, b, (n - 1) as nat);
    }
}

/// The size that is reported is read from its line.
pub proof fn lemma_size_line(n: u64)
    ensures
        bytes_on("total_size="@ + decimal(n as nat)) == Some(n as nat),
        !is_message("total_size="@ + decimal(n as nat)),
{
    let head = "total_size="@;
    let line = head + decimal(n as nat);
    assert(line.subrange(0, head.len() as int) =~= head);
    assert(line.subrange(head.len() as int, line.len() as int) =~= decimal(n as nat));
    crate::text_shapes::lemma_number_reads_back(n as nat, u64::MAX as nat);
}

/// The last eight messages are kept, in the order in which they came.
pub proof fn lemma_last_messages(recent: Seq<Seq<char>>, line: Seq<char>)
    requires
        recent.len() <= 8,
    ensures
        with_message(recent, line).len() <= 8,
        !is_message(line) ==> with_message(recent, line) == recent,
        is_message(line) ==> with_message(recent, line).last() == line,
        is_message(line) && recent.len() < 8 ==> with_message(recent, line).drop_last() == recent,
        is_message(line) && recent.len() == 8 ==> with_message(recent, line).drop_last()
            == recent.subrange(1, 8),
{
    if is_message(line) {
        if recent.len() < 8 {
            assert(with_message(recent, line).drop_last() =~= recent);
        } else {
            assert(with_message(recent, line).drop_last() =~= recent.subrange(1, 8));
        }
    }
}

/// A decoder in hardware is asked for by its name, unless it is the one that is slower than software;
/// the device is named only to the encoder that needs it.
pub proof fn lemma_hardware_args(node: Seq<char>, m: Seq<char>)
    requires
        m != "vaapi"@,
    ensures
        hardware_args(None, Some(node), Some(m)) == seq!["-hwaccel"@, m],
        hardware_args(None, Some(node), None).len() == 0,
        hardware_args(None, Some(node), Some("vaapi"@)).len() == 0,
        hardware_args(Some(HwEncoderFamily::Vaapi), Some(node), None) == seq![
            "-vaapi_device"@,
            node,
        ],
        hardware_args(Some(HwEncoderFamily::Nvenc), Some(node), Some(m)) == seq!["-hwaccel"@, m],
{
    assert(hardware_args(None, Some(node), Some(m)) =~= seq!["-hwaccel"@, m]);
    assert(hardware_args(Some(HwEncoderFamily::Vaapi), Some(node), None) =~= seq![
        "-vaapi_device"@,
        node,
    ]);
    assert(hardware_args(Some(HwEncoderFamily::Nvenc), Some(node), Some(m)) =~= seq![
        "-hwaccel"@,
        m,
    ]);
}

/// The command reads the source, filters it and writes the output: the source follows the option for
/// input, the filter the one for filters, and the output comes last.
pub proof fn lemma_transcode_command(
    source: Seq<char>,
    output: Seq<char>,
    filter: Seq<char>,
    family: Option<HwEncoderFamily>,
    node: Option<Seq<char>>,
    codec: ProxyCodec,
    decode: Option<Seq<char>>,
)
    ensures
        ({
            let c = transcode_command(source, output, filter, family, node, codec, decode);
            let at = 7 + hardware_args(family, node, decode).len() as int;
            &&& c.last() == output
            &&& c[at] == "-i"@ && c[at + 1] == source
            &&& c[at + 2] == "-vf"@
            &&& family != Some(HwEncoderFamily::Vaapi) ==> c[at + 3] == filter
            &&& family == Some(HwEncoderFamily::Vaapi) ==> c[at + 3] == filter
                + ",format=nv12,hwupload"@
            &&& c[at + 4] == "-c:v"@ && c[at + 5] == encoder_name(family, codec)
            &&& c[0] == "-y"@
        }),
{
    let hw = hardware_args(family, node, decode);
    let head = seq![
        "-y"@,
        "-hide_banner"@,
        "-loglevel"@,
        "error"@,
        "-progress"@,
        "pipe:2"@,
        "-nostats"@,
    ];
    let c = transcode_command(source, output, filter, family, node, codec, decode);
    let upto = head + hw;
    assert(upto.len() == 7 + hw.len());
    assert(encoder_args(family, codec)[0] == "-c:v"@);
    assert(encoder_args(family, codec)[1] == encoder_name(family, codec));
    assert(encoder_args(family, codec).len() >= 2);
}

/// A proxy is scaled first, then steadied where that is wanted, and then gets its LUTs.
pub proof fn lemma_proxy_filter(
    source: Seq<char>,
    h: u32,
    luts: Seq<Seq<char>>,
    thirtieths: i32,
)
    ensures
        proxy_filter(source, ProxyScale::MaxHeight(h), luts, false, thirtieths) == scale_filter(
            ProxyScale::MaxHeight(h),
        ) + lut_filters(luts, luts.len()),
        1 <= thirtieths <= 30 ==> proxy_filter(
            source,
            ProxyScale::MaxHeight(h),
            luts,
            true,
            thirtieths,
        ) == scale_filter(ProxyScale::MaxHeight(h)) + (",vidstabtransform=input="@ + motion_file(
            source,
        ) + ":smoothing="@ + signed_decimal(thirtieths as int)
            + ":zoom=0:optzoom=1,unsharp=5:5:0.8:3:3:0.4"@) + lut_filters(luts, luts.len()),
        thirtieths < 1 ==> transform_filter(thirtieths, source) == transform_filter(1, source),
        thirtieths > 30 ==> transform_filter(thirtieths, source) == transform_filter(30, source),
{
    let a = scale_filter(ProxyScale::MaxHeight(h));
    assert(a + Seq::<char>::empty() =~= a);
}

/// Motion is looked for in the scaled picture, with a sensitivity from one to ten.
pub proof fn lemma_detect_filter(scale: ProxyScale, tenths: i32, trf: Seq<char>)
    ensures
        1 <= tenths <= 10 ==> detect_filter(scale, tenths, trf) == scale_filter(scale)
            + ",vidstabdetect=shakiness="@ + signed_decimal(tenths as int) + ":result="@ + trf,
        tenths < 1 ==> detect_filter(scale, tenths, trf) == detect_filter(scale, 1, trf),
        tenths > 10 ==> detect_filter(scale, tenths, trf) == detect_filter(scale, 10, trf),
{
}

} // verus!
