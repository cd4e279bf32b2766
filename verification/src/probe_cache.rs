//! Media probing: what is asked of a file, what its answers mean, and the cache of results.

use crate::args::{arg, arg2};
use crate::keyed::{StringMap, StringSet};
use crate::model::MediaProbeMetadata;
use crate::paths::{extension, extension_of};
use crate::text::{
    decimal,
    ascii_lower_all, ascii_upper_all, chars_of, first_index, first_of, lower_ascii, number,
    option_view, owned, parse_number, replace_char, replaced, same, split, split_on, string_of,
    sub_chars, trim, trimmed, trimmed_chars, upper_ascii, views, lemma_first_of, lemma_split_len,
};
use vstd::prelude::*;
use vstd::string::*;

verus! {

/// Result of a background media probe.
#[derive(Debug, Clone)]
pub struct ProbeResult {
    pub path: String,
    pub duration_ns: u64,
    pub is_audio_only: bool,
    pub has_audio: bool,
    pub source_timecode_base_ns: Option<u64>,
    /// Whether the file is a still image.
    pub is_image: bool,
    /// Whether the file is an SVG to be treated as moving media.
    pub is_animated_svg: bool,
    pub video_width: Option<u32>,
    pub video_height: Option<u32>,
    pub frame_rate_num: Option<u32>,
    pub frame_rate_den: Option<u32>,
    pub codec_summary: Option<String>,
    pub file_size_bytes: Option<u64>,
}

/// Length of a file whose duration is not known.
pub const UNKNOWN_DURATION_NS: u64 = 10_000_000_000;

/// Length of still-image clips.
pub const IMAGE_DEFAULT_DURATION_NS: u64 = 4_000_000_000;

/// Cache of probed media. Probes are requested, run elsewhere, and handed back.
pub struct MediaProbeCache {
    pub results: StringMap<ProbeResult>,
    pub pending: StringSet,
}

/// `known` with each result under its path, later ones in place of earlier ones.
pub open spec fn absorbed(
    known: Map<Seq<char>, ProbeResult>,
    done: Seq<ProbeResult>,
) -> Map<Seq<char>, ProbeResult>
    decreases done.len(),
{
    if done.len() == 0 {
        known
    } else {
        absorbed(known, done.drop_last()).insert(done.last().path@, done.last())
    }
}

/// The paths of the results.
pub open spec fn result_paths(done: Seq<ProbeResult>) -> Seq<Seq<char>> {
    done.map_values(|r: ProbeResult| r.path@)
}

impl MediaProbeCache {
    /// No path is both pending and resolved.
    pub open spec fn wf(&self) -> bool {
        &&& self.results.wf()
        &&& self.pending.wf()
        &&& self.pending@.disjoint(self.results@.dom())
        &&& forall|p: Seq<char>|
            #![trigger self.results@[p]]
            self.results@.dom().contains(p) ==> self.results@[p].path@ == p
    }

    /// An empty cache.
    pub fn new() -> (r: MediaProbeCache)
        ensures
            r.wf(),
            r.results@ == Map::<Seq<char>, ProbeResult>::empty(),
            r.pending@ == Set::<Seq<char>>::empty(),
    {
        MediaProbeCache { results: StringMap::new(), pending: StringSet::new() }
    }

    /// Asks for a probe of `source_path`. Says whether one has to be started: not where the path
    /// is cached or pending already.
    pub fn request(&mut self, source_path: &str) -> (r: bool)
        requires
            old(self).wf(),
        ensures
            final(self).wf(),
            final(self).results == old(self).results,
            r == !(old(self).results@.dom().contains(source_path@) || old(self).pending@.contains(
                source_path@,
            )),
            final(self).pending@ == (if r {
                old(self).pending@.insert(source_path@)
            } else {
                old(self).pending@
            }),
    {
        if self.results.contains_key(source_path) || self.pending.contains(source_path) {
            return false;
        }
        self.pending.insert(owned(source_path));
        true
    }

    /// Takes in finished probes, in the order in which they finished. Returns their paths.
    pub fn poll(&mut self, done: Vec<ProbeResult>) -> (r: Vec<String>)
        requires
            old(self).wf(),
        ensures
            final(self).wf(),
            views(r@) == result_paths(done@),
            final(self).results@ == absorbed(old(self).results@, done@),
            final(self).pending@ == old(self).pending@.difference(result_paths(done@).to_set()),
    {
        let ghost all = done@;
        let ghost results0 = self.results@;
        let ghost pending0 = self.pending@;
        let mut rest = done;
        let mut r: Vec<String> = Vec::new();
        let ghost mut n: int = 0;
        proof {
            assert(views(r@) =~= result_paths(all.subrange(0, 0)));
            assert(all.subrange(0, 0) =~= Seq::empty());
            assert(pending0.difference(result_paths(all.subrange(0, 0)).to_set()) =~= pending0);
            assert(rest@ =~= all.subrange(0, all.len() as int));
        }
        while rest.len() > 0
            invariant
                self.wf(),
                0 <= n <= all.len(),
                rest@ == all.subrange(n, all.len() as int),
                views(r@) == result_paths(all.subrange(0, n)),
                self.results@ == absorbed(results0, all.subrange(0, n)),
                self.pending@ == pending0.difference(result_paths(all.subrange(0, n)).to_set()),
            decreases rest.len(),
        {
            let result = rest.remove(0);
            let ghost front = all.subrange(0, n);
            let ghost next = all.subrange(0, n + 1);
            let ghost rb = r@;
            let ghost pb = self.pending@;
            let path = result.path.clone();
            proof {
                assert(result == all[n]);
                assert(rest@ =~= all.subrange(n + 1, all.len() as int));
                assert(next.drop_last() =~= front);
                assert(next.last() == result);
            }
            self.pending.remove(&path);
            self.results.insert(path.clone(), result);
            r.push(path);
            proof {
                assert(views(r@) =~= views(rb).push(result.path@));
                assert(result_paths(next) =~= result_paths(front).push(result.path@));
                crate::keyed::lemma_push_members(result_paths(front), result.path@);
                assert(self.pending@ =~= pending0.difference(result_paths(next).to_set()));
                n = n + 1;
            }
        }
        proof {
            assert(all.subrange(0, n) =~= all);
        }
        r
    }

    /// A finished probe, if there is one.
    pub fn get(&self, source_path: &str) -> (r: Option<&ProbeResult>)
        requires
            self.wf(),
        ensures
            match r {
                Some(p) => self.results@.dom().contains(source_path@) && *p
                    == self.results@[source_path@],
                None => !self.results@.dom().contains(source_path@),
            },
    {
        self.results.get(source_path)
    }
}

/// After a probe has come back, asking for the same path again starts nothing.
pub proof fn lemma_no_second_probe(
    known: Map<Seq<char>, ProbeResult>,
    done: Seq<ProbeResult>,
    i: int,
)
    requires
        0 <= i < done.len(),
    ensures
        absorbed(known, done).dom().contains(done[i].path@),
    decreases done.len(),
{
    if i < done.len() - 1 {
        lemma_no_second_probe(known, done.drop_last(), i);
    }
}

/// The result of a probe that found `metadata`.
pub fn probe_result(path: String, metadata: MediaProbeMetadata) -> (r: ProbeResult)
    ensures
        r == (ProbeResult {
            path,
            duration_ns: match metadata.duration_ns {
                Some(d) => d,
                None => UNKNOWN_DURATION_NS,
            },
            is_audio_only: metadata.is_audio_only,
            has_audio: metadata.has_audio,
            source_timecode_base_ns: metadata.source_timecode_base_ns,
            is_image: metadata.is_image,
            is_animated_svg: metadata.is_animated_svg,
            video_width: metadata.video_width,
            video_height: metadata.video_height,
            frame_rate_num: metadata.frame_rate_num,
            frame_rate_den: metadata.frame_rate_den,
            codec_summary: metadata.codec_summary,
            file_size_bytes: metadata.file_size_bytes,
        }),
{
    ProbeResult {
        path,
        duration_ns: match metadata.duration_ns {
            Some(d) => d,
            None => UNKNOWN_DURATION_NS,
        },
        is_audio_only: metadata.is_audio_only,
        has_audio: metadata.has_audio,
        source_timecode_base_ns: metadata.source_timecode_base_ns,
        is_image: metadata.is_image,
        is_animated_svg: metadata.is_animated_svg,
        video_width: metadata.video_width,
        video_height: metadata.video_height,
        frame_rate_num: metadata.frame_rate_num,
        frame_rate_den: metadata.frame_rate_den,
        codec_summary: metadata.codec_summary,
        file_size_bytes: metadata.file_size_bytes,
    }
}

// ------------------------------------------------------------------ timecode
/// The frames per second that a timecode counts: the frame rate rounded up.
pub open spec fn nominal_rate(num: nat, den: nat) -> nat {
    ((num + den - 1) / (den as int)) as nat
}

/// The four numbers of a timecode `HH:MM:SS:FF` or `HH:MM:SS;FF`.
pub open spec fn timecode_fields(tc: Seq<char>) -> Option<(nat, nat, nat, nat)> {
    let p = split(replace_char(tc, ';', ":"@), ':');
    if p.len() != 4 {
        None
    } else {
        match (
            number(p[0], u64::MAX as nat),
            number(p[1], u64::MAX as nat),
            number(p[2], u64::MAX as nat),
            number(p[3], u64::MAX as nat),
        ) {
            (Some(h), Some(m), Some(s), Some(f)) => Some((h, m, s, f)),
            _ => None,
        }
    }
}

/// The number of frames that a timecode counts.
pub open spec fn timecode_frames(f: (nat, nat, nat, nat), rate: nat) -> nat {
    f.0 * 3600 * rate + f.1 * 60 * rate + f.2 * rate + f.3
}

/// The time of a timecode in nanoseconds at `num / den` frames per second, where it fits.
pub open spec fn timecode_ns(tc: Seq<char>, num: u32, den: u32) -> Option<u64> {
    match timecode_fields(tc) {
        Some(f) => {
            let ns = timecode_frames(f, nominal_rate(num as nat, den as nat)) * (den as nat)
                * 1_000_000_000 / (num as nat);
            if num > 0 && den > 0 && ns <= u64::MAX {
                Some(ns as u64)
            } else {
                None
            }
        },
        None => None,
    }
}

/// Parses a timecode `HH:MM:SS:FF` or `HH:MM:SS;FF` to nanoseconds. A frame rate of zero, or a
/// time that does not fit, gives nothing.
pub fn parse_timecode_to_ns(tc: &str, fps_num: u32, fps_den: u32) -> (r: Option<u64>)
    ensures
        r == timecode_ns(tc@, fps_num, fps_den),
{
    let text = replaced(tc, ';', ":");
    let parts = split_on(&text, ':');
    let ghost p = split(replace_char(tc@, ';', ":"@), ':');
    proof {
        assert(p.len() == parts@.len());
    }
    if parts.len() != 4 {
        return None;
    }
    proof {
        assert(p[0] == parts@[0]@ && p[1] == parts@[1]@ && p[2] == parts@[2]@ && p[3]
            == parts@[3]@);
    }
    let h: u64 = match parse_number(&chars_of(&parts[0])) {
        Some(x) => x,
        None => return None,
    };
    let m: u64 = match parse_number(&chars_of(&parts[1])) {
        Some(x) => x,
        None => return None,
    };
    let s: u64 = match parse_number(&chars_of(&parts[2])) {
        Some(x) => x,
        None => return None,
    };
    let f: u64 = match parse_number(&chars_of(&parts[3])) {
        Some(x) => x,
        None => return None,
    };
    if fps_num == 0 || fps_den == 0 {
        return None;
    }
    let rate: u64 = (fps_num as u64 + fps_den as u64 - 1) / fps_den as u64;
    proof {
        assert(rate == nominal_rate(fps_num as nat, fps_den as nat));
        assert(rate <= fps_num) by (nonlinear_arith)
            requires
                fps_num > 0,
                fps_den > 0,
                rate == (fps_num as int + fps_den as int - 1) / (fps_den as int),
        ;
    }
    let total: u128 = total_frames(h, m, s, f, rate);
    let ghost t = timecode_frames((h as nat, m as nat, s as nat, f as nat), rate as nat);
    let unit: u128 = fps_den as u128 * 1_000_000_000u128;
    proof {
        assert(t * (fps_den as nat) * 1_000_000_000 == t * (unit as nat)) by (nonlinear_arith)
            requires
                unit == fps_den * 1_000_000_000,
        ;
    }
    let scaled: u128 = match total.checked_mul(unit) {
        Some(x) => x,
        None => {
            proof {
                let p = (t * (unit as nat)) as int;
                assert(p / (fps_num as int) > u64::MAX) by (nonlinear_arith)
                    requires
                        p > u128::MAX,
                        0 < fps_num <= 0xffff_ffff,
                ;
            }
            return None;
        },
    };
    let ns: u128 = scaled / fps_num as u128;
    if ns > u64::MAX as u128 {
        return None;
    }
    Some(ns as u64)
}

fn total_frames(h: u64, m: u64, s: u64, f: u64, rate: u64) -> (r: u128)
    requires
        rate <= 0xffff_ffff,
    ensures
        r == timecode_frames((h as nat, m as nat, s as nat, f as nat), rate as nat),
{
    proof {
        assert(h * 3600 * rate <= 0xffff_ffff_ffff_ffff * 3600 * 0xffff_ffff) by (nonlinear_arith)
            requires
                h <= 0xffff_ffff_ffff_ffff,
                rate <= 0xffff_ffff,
        ;
        assert(m * 60 * rate <= 0xffff_ffff_ffff_ffff * 60 * 0xffff_ffff) by (nonlinear_arith)
            requires
                m <= 0xffff_ffff_ffff_ffff,
                rate <= 0xffff_ffff,
        ;
        assert(s * rate <= 0xffff_ffff_ffff_ffff * 0xffff_ffff) by (nonlinear_arith)
            requires
                s <= 0xffff_ffff_ffff_ffff,
                rate <= 0xffff_ffff,
        ;
    }
    h as u128 * 3600u128 * rate as u128 + m as u128 * 60u128 * rate as u128 + s as u128
        * rate as u128 + f as u128
}

/// The timecode that a probe printed, in nanoseconds.
pub open spec fn printed_timecode(output: Option<Seq<char>>, num: u32, den: u32) -> Option<u64> {
    match output {
        Some(o) => if trim(o).len() == 0 {
            None
        } else {
            timecode_ns(trim(o), num, den)
        },
        None => None,
    }
}

/// What is asked of a file.
#[derive(Debug, Clone, Copy, PartialEq, Eq, Structural)]
pub enum ProbeQuestion {
    Timecode,
    Dimensions,
    Codecs,
}

/// The entries that answer a question.
pub open spec fn entries_for(q: ProbeQuestion) -> Seq<char> {
    match q {
        ProbeQuestion::Timecode => "stream_tags=timecode"@,
        ProbeQuestion::Dimensions => "stream=width,height"@,
        ProbeQuestion::Codecs => "stream=codec_type,codec_name"@,
    }
}

/// The command line that asks a question of a file. The timecode is that of the first video.
pub fn ffprobe_args(q: ProbeQuestion, path: &str) -> (r: Vec<String>)
    ensures
        views(r@) == seq!["-v"@, "quiet"@] + (if q == ProbeQuestion::Timecode {
            seq!["-select_streams"@, "v:0"@]
        } else {
            Seq::empty()
        }) + seq!["-show_entries"@, entries_for(q), "-of"@, "csv=p=0"@, path@],
{
    let mut args: Vec<String> = Vec::new();
    proof {
        assert(views(args@) =~= Seq::empty());
    }
    arg2(&mut args, "-v", "quiet");
    match q {
        ProbeQuestion::Timecode => {
            arg2(&mut args, "-select_streams", "v:0");
            arg2(&mut args, "-show_entries", "stream_tags=timecode");
        },
        ProbeQuestion::Dimensions => {
            arg2(&mut args, "-show_entries", "stream=width,height");
        },
        ProbeQuestion::Codecs => {
            arg2(&mut args, "-show_entries", "stream=codec_type,codec_name");
        },
    }
    arg2(&mut args, "-of", "csv=p=0");
    arg(&mut args, path);
    proof {
        assert(views(args@) =~= seq!["-v"@, "quiet"@] + (if q == ProbeQuestion::Timecode {
            seq!["-select_streams"@, "v:0"@]
        } else {
            Seq::empty()
        }) + seq!["-show_entries"@, entries_for(q), "-of"@, "csv=p=0"@, path@]);
    }
    args
}

/// Reads the timecode that a probe of the timecode track printed.
pub fn extract_embedded_timecode(output: &Option<String>, fps_num: u32, fps_den: u32) -> (r: Option<
    u64,
>)
    ensures
        r == printed_timecode(option_view(*output), fps_num, fps_den),
{
    match output {
        Some(o) => {
            let t = trimmed(o);
            if t.as_str().is_empty() {
                return None;
            }
            parse_timecode_to_ns(&t, fps_num, fps_den)
        },
        None => None,
    }
}

/// A time of day.
#[derive(Debug, Clone, Copy, PartialEq, Eq, Structural)]
pub struct CreationTime {
    pub hour: Option<u8>,
    pub minute: Option<u8>,
    pub second: Option<u8>,
    pub microsecond: Option<u32>,
}

/// Nanoseconds since midnight. Without hour, minute or second there is no time of day; missing
/// microseconds count as zero.
pub open spec fn time_of_day_ns(t: CreationTime) -> Option<int> {
    match (t.hour, t.minute, t.second) {
        (Some(h), Some(m), Some(s)) => Some(
            h * 3_600_000_000_000 + m * 60_000_000_000 + s * 1_000_000_000 + (match t.microsecond {
                Some(u) => u as int,
                None => 0,
            }) * 1_000,
        ),
        _ => None,
    }
}

/// Nanoseconds since midnight of a creation time.
pub fn extract_creation_time_ns(t: CreationTime) -> (r: Option<u64>)
    ensures
        match r {
            Some(ns) => time_of_day_ns(t) == Some(ns as int),
            None => time_of_day_ns(t) is None,
        },
{
    match (t.hour, t.minute, t.second) {
        (Some(h), Some(m), Some(s)) => {
            let u: u64 = match t.microsecond {
                Some(u) => u as u64,
                None => 0,
            };
            Some(
                h as u64 * 3_600_000_000_000 + m as u64 * 60_000_000_000 + s as u64 * 1_000_000_000
                    + u * 1_000,
            )
        },
        _ => None,
    }
}

// -------------------------------------------------------------------- codecs
/// The label of an image format, by the file's extension.
pub open spec fn image_label(path: Seq<char>) -> Option<Seq<char>> {
    match extension_of(path) {
        Some(e) => {
            let x = ascii_lower_all(e);
            if x == "jpg"@ || x == "jpeg"@ {
                Some("JPEG"@)
            } else if x == "png"@ {
                Some("PNG"@)
            } else if x == "gif"@ {
                Some("GIF"@)
            } else if x == "bmp"@ {
                Some("BMP"@)
            } else if x == "tif"@ || x == "tiff"@ {
                Some("TIFF"@)
            } else if x == "webp"@ {
                Some("WebP"@)
            } else if x == "heic"@ {
                Some("HEIC"@)
            } else if x == "svg"@ {
                Some("SVG"@)
            } else {
                None
            }
        },
        None => None,
    }
}

/// The label of an image format, by the file's extension.
pub fn image_codec_summary(path: &str) -> (r: Option<String>)
    ensures
        option_view(r) == image_label(path@),
{
    let x = match extension(path) {
        Some(e) => lower_ascii(&e),
        None => return None,
    };
    if same(&x, "jpg") || same(&x, "jpeg") {
        Some(owned("JPEG"))
    } else if same(&x, "png") {
        Some(owned("PNG"))
    } else if same(&x, "gif") {
        Some(owned("GIF"))
    } else if same(&x, "bmp") {
        Some(owned("BMP"))
    } else if same(&x, "tif") || same(&x, "tiff") {
        Some(owned("TIFF"))
    } else if same(&x, "webp") {
        Some(owned("WebP"))
    } else if same(&x, "heic") {
        Some(owned("HEIC"))
    } else if same(&x, "svg") {
        Some(owned("SVG"))
    } else {
        None
    }
}

/// The display name of a codec: a fixed name for the common ones, upper case for the others.
pub open spec fn codec_label(codec: Seq<char>) -> Seq<char> {
    let x = ascii_lower_all(codec);
    if x == "h264"@ {
        "H.264"@
    } else if x == "hevc"@ || x == "h265"@ {
        "H.265/HEVC"@
    } else if x == "prores"@ {
        "ProRes"@
    } else if x == "mpeg4"@ {
        "MPEG-4"@
    } else if x == "pcm_s16le"@ || x == "pcm_s24le"@ || x == "pcm_s32le"@ || x == "pcm_f32le"@ {
        "PCM"@
    } else if x == "opus"@ {
        "Opus"@
    } else if x == "vorbis"@ {
        "Vorbis"@
    } else {
        ascii_upper_all(x)
    }
}

/// The display name of a codec.
pub fn pretty_codec_name(codec: &str) -> (r: String)
    ensures
        r@ == codec_label(codec@),
{
    let x = lower_ascii(codec);
    if same(&x, "h264") {
        owned("H.264")
    } else if same(&x, "hevc") || same(&x, "h265") {
        owned("H.265/HEVC")
    } else if same(&x, "prores") {
        owned("ProRes")
    } else if same(&x, "mpeg4") {
        owned("MPEG-4")
    } else if same(&x, "pcm_s16le") || same(&x, "pcm_s24le") || same(&x, "pcm_s32le") || same(
        &x,
        "pcm_f32le",
    ) {
        owned("PCM")
    } else if same(&x, "opus") {
        owned("Opus")
    } else if same(&x, "vorbis") {
        owned("Vorbis")
    } else {
        upper_ascii(&x)
    }
}

/// The number of a printed field, where it fits 32 bits.
pub open spec fn printed_number(piece: Seq<char>) -> Option<u32> {
    match number(trim(piece), u32::MAX as nat) {
        Some(n) => Some(n as u32),
        None => None,
    }
}

/// The width and height that a probe printed: the first two numbers of its first line.
pub open spec fn printed_dimensions(output: Option<Seq<char>>) -> (Option<u32>, Option<u32>) {
    match output {
        Some(o) => {
            let p = split(split(o, '\n')[0], ',');
            (
                printed_number(p[0]),
                if p.len() > 1 {
                    printed_number(p[1])
                } else {
                    None
                },
            )
        },
        None => (None, None),
    }
}

fn parse_field(piece: &str) -> (r: Option<u32>)
    ensures
        r == printed_number(piece@),
{
    let t: Vec<char> = trimmed_chars(&chars_of(piece));
    match parse_number(&t) {
        Some(n) => if n <= u32::MAX as u64 {
            Some(n as u32)
        } else {
            None
        },
        None => None,
    }
}

/// Reads the width and height that a probe printed; nothing where it failed.
pub fn ffprobe_dimensions(output: &Option<String>) -> (r: (Option<u32>, Option<u32>))
    ensures
        r == printed_dimensions(option_view(*output)),
{
    match output {
        Some(o) => {
            let lines = split_on(o, '\n');
            proof {
                lemma_split_len(o@, '\n');
                assert(views(lines@).len() == lines@.len());
                assert(views(lines@)[0] == lines@[0]@);
            }
            let parts = split_on(&lines[0], ',');
            proof {
                lemma_split_len(lines@[0]@, ',');
                assert(views(parts@).len() == parts@.len());
                assert(views(parts@)[0] == parts@[0]@);
            }
            let width = parse_field(&parts[0]);
            let height = if parts.len() > 1 {
                proof {
                    assert(views(parts@)[1] == parts@[1]@);
                }
                parse_field(&parts[1])
            } else {
                None
            };
            (width, height)
        },
        None => (None, None),
    }
}

/// The codecs found so far, after one more printed line `type,name`. Only the first video and
/// the first audio codec count.
pub open spec fn after_codec_line(
    found: (Option<Seq<char>>, Option<Seq<char>>),
    line: Seq<char>,
) -> (Option<Seq<char>>, Option<Seq<char>>) {
    let comma = first_of(line, ',');
    let kind = trim(line.subrange(0, comma));
    let name = trim(line.subrange(comma + 1, line.len() as int));
    if comma >= line.len() || name.len() == 0 {
        found
    } else if kind == "video"@ && found.0 is None {
        (Some(codec_label(name)), found.1)
    } else if kind == "audio"@ && found.1 is None {
        (found.0, Some(codec_label(name)))
    } else {
        found
    }
}

/// The codecs that the first `n` lines name.
pub open spec fn codecs_upto(lines: Seq<Seq<char>>, n: nat) -> (Option<Seq<char>>, Option<Seq<char>>)
    decreases n,
{
    if n == 0 {
        (None, None)
    } else {
        after_codec_line(codecs_upto(lines, (n - 1) as nat), lines[n - 1])
    }
}

/// The summary of the codecs that a probe printed: video first, with a slash between them.
pub open spec fn printed_codecs(output: Option<Seq<char>>) -> Option<Seq<char>> {
    match output {
        Some(o) => {
            let lines = split(o, '\n');
            match codecs_upto(lines, lines.len()) {
                (Some(v), Some(a)) => Some(v + " / "@ + a),
                (Some(v), None) => Some(v),
                (None, a) => a,
            }
        },
        None => None,
    }
}

/// Summarises the codecs that a probe printed; nothing where it failed.
pub fn ffprobe_codec_summary(output: &Option<String>) -> (r: Option<String>)
    ensures
        option_view(r) == printed_codecs(option_view(*output)),
{
    let o = match output {
        Some(o) => o,
        None => return None,
    };
    let lines = split_on(o, '\n');
    let ghost all = views(lines@);
    let mut video: Option<String> = None;
    let mut audio: Option<String> = None;
    let mut i: usize = 0;
    while i < lines.len()
        invariant
            i <= lines@.len(),
            all == views(lines@),
            (option_view(video), option_view(audio)) == codecs_upto(all, i as nat),
        decreases lines.len() - i,
    {
        let line: Vec<char> = chars_of(&lines[i]);
        proof {
            assert(all[i as int] == line@);
            lemma_first_of(line@, ',');
        }
        if let Some(comma) = first_index(&line, ',') {
            let kind = string_of(&trimmed_chars(&sub_chars(&line, 0, comma)));
            let name = string_of(&trimmed_chars(&sub_chars(&line, comma + 1, line.len())));
            if !name.as_str().is_empty() {
                if same(&kind, "video") && video.is_none() {
                    video = Some(pretty_codec_name(&name));
                } else if same(&kind, "audio") && audio.is_none() {
                    audio = Some(pretty_codec_name(&name));
                }
            }
        }
        i = i + 1;
    }
    proof {
        assert(all.len() == lines@.len());
    }
    match (video, audio) {
        (Some(v), Some(a)) => {
            let mut r = v;
            r.append(" / ");
            r.append(&a);
            Some(r)
        },
        (Some(v), None) => Some(v),
        (None, a) => a,
    }
}

// ------------------------------------------------------------------- probing
/// What is known of the animation of an SVG file.
#[derive(Debug, Clone, Copy, PartialEq, Eq, Structural)]
pub struct SvgAnalysis {
    pub is_animated: bool,
    pub duration_ns: Option<u64>,
}

/// The first video stream of a file.
#[derive(Debug, Clone, Copy, PartialEq, Eq, Structural)]
pub struct VideoStream {
    pub width: u32,
    pub height: u32,
    pub rate_num: u32,
    pub rate_den: u32,
}

/// What a stream discoverer found in a file.
#[derive(Debug, Clone, Copy, PartialEq, Eq, Structural)]
pub struct Discovered {
    pub duration_ns: Option<u64>,
    pub video: Option<VideoStream>,
    pub has_audio: bool,
    pub created: Option<CreationTime>,
}

/// The answers that were obtained about a file. Printed output is missing where the program that
/// prints it failed.
#[derive(Debug, Clone)]
pub struct ProbeFacts {
    pub file_size_bytes: Option<u64>,
    pub dimensions_output: Option<String>,
    pub codec_output: Option<String>,
    pub timecode_output: Option<String>,
    pub svg: Option<SvgAnalysis>,
    pub discovered: Option<Discovered>,
}

/// Whether a file is a still image, by its extension.
pub open spec fn is_image_path(path: Seq<char>) -> bool {
    image_label(path) is Some
}

/// Whether a file is an SVG, by its extension.
pub open spec fn is_svg_path(path: Seq<char>) -> bool {
    match extension_of(path) {
        Some(e) => ascii_lower_all(e) == "svg"@,
        None => false,
    }
}

/// Whether a file is an animated SVG.
pub open spec fn is_animated(path: Seq<char>, facts: ProbeFacts) -> bool {
    is_svg_path(path) && facts.svg is Some && facts.svg->Some_0.is_animated
}

/// The frame rate for timecodes: that of the video, or 24.
pub open spec fn timecode_rate(d: Discovered) -> (u32, u32) {
    match d.video {
        Some(v) => (v.rate_num, v.rate_den),
        None => (24, 1),
    }
}

/// Whether `m` is what the facts say about the file at `path`.
pub open spec fn is_metadata_of(path: Seq<char>, facts: ProbeFacts, m: MediaProbeMetadata) -> bool {
    &&& m.file_size_bytes == facts.file_size_bytes
    &&& m.hdr_colorimetry is None
    &&& m.audio_source_streams@.len() == 0
    &&& if is_image_path(path) {
        let animated = is_animated(path, facts);
        &&& m.is_image
        &&& m.is_animated_svg == animated
        &&& m.duration_ns == Some(
            if animated && facts.svg->Some_0.duration_ns is Some {
                facts.svg->Some_0.duration_ns->Some_0
            } else {
                IMAGE_DEFAULT_DURATION_NS
            },
        )
        &&& (m.video_width, m.video_height) == printed_dimensions(
            option_view(facts.dimensions_output),
        )
        &&& option_view(m.codec_summary) == (if animated {
            Some("Animated SVG"@)
        } else {
            image_label(path)
        })
        &&& !m.is_audio_only
        &&& !m.has_audio
        &&& m.source_timecode_base_ns is None
        &&& m.frame_rate_num is None
        &&& m.frame_rate_den is None
    } else {
        &&& !m.is_image
        &&& !m.is_animated_svg
        &&& match facts.discovered {
            None => {
                &&& m.duration_ns == Some(UNKNOWN_DURATION_NS)
                &&& m.has_audio
                &&& !m.is_audio_only
                &&& m.source_timecode_base_ns is None
                &&& m.video_width is None
                &&& m.video_height is None
                &&& m.frame_rate_num is None
                &&& m.frame_rate_den is None
                &&& m.codec_summary is None
            },
            Some(d) => {
                let rate = timecode_rate(d);
                let embedded = printed_timecode(
                    option_view(facts.timecode_output),
                    rate.0,
                    rate.1,
                );
                &&& m.duration_ns == d.duration_ns
                &&& m.is_audio_only == (d.video is None)
                &&& m.has_audio == d.has_audio
                &&& if embedded is Some {
                    m.source_timecode_base_ns == embedded
                } else {
                    match d.created {
                        Some(t) => match m.source_timecode_base_ns {
                            Some(ns) => time_of_day_ns(t) == Some(ns as int),
                            None => time_of_day_ns(t) is None,
                        },
                        None => m.source_timecode_base_ns is None,
                    }
                }
                &&& m.video_width == (match d.video {
                    Some(v) => Some(v.width),
                    None => None,
                })
                &&& m.video_height == (match d.video {
                    Some(v) => Some(v.height),
                    None => None,
                })
                &&& m.frame_rate_num == (match d.video {
                    Some(v) => Some(v.rate_num),
                    None => None,
                })
                &&& m.frame_rate_den == (match d.video {
                    Some(v) => Some(v.rate_den),
                    None => None,
                })
                &&& option_view(m.codec_summary) == printed_codecs(option_view(facts.codec_output))
            },
        }
    }
}

/// Whether a file is a still image, by its extension.
pub fn is_image_file(path: &str) -> (r: bool)
    ensures
        r == is_image_path(path@),
{
    image_codec_summary(path).is_some()
}

/// Whether a file is an SVG, by its extension.
pub fn is_svg_file(path: &str) -> (r: bool)
    ensures
        r == is_svg_path(path@),
{
    match extension(path) {
        Some(e) => same(&lower_ascii(&e), "svg"),
        None => false,
    }
}

/// Puts together what is known of a file. Still images have neither streams nor a duration of
/// their own; a file that cannot be examined counts as ten seconds of media with sound.
pub fn probe_media_metadata(path: &str, facts: &ProbeFacts) -> (r: MediaProbeMetadata)
    ensures
        is_metadata_of(path@, *facts, r),
{
    let mut m: MediaProbeMetadata = MediaProbeMetadata::default();
    m.file_size_bytes = facts.file_size_bytes;
    if is_image_file(path) {
        let (w, h) = ffprobe_dimensions(&facts.dimensions_output);
        m.is_image = true;
        m.video_width = w;
        m.video_height = h;
        m.duration_ns = Some(IMAGE_DEFAULT_DURATION_NS);
        m.codec_summary = image_codec_summary(path);
        if is_svg_file(path) {
            if let Some(svg) = facts.svg {
                if svg.is_animated {
                    m.is_animated_svg = true;
                    if let Some(d) = svg.duration_ns {
                        m.duration_ns = Some(d);
                    }
                    m.codec_summary = Some(owned("Animated SVG"));
                }
            }
        }
        return m;
    }
    match facts.discovered {
        None => {
            m.duration_ns = Some(UNKNOWN_DURATION_NS);
            m.has_audio = true;
        },
        Some(d) => {
            m.duration_ns = d.duration_ns;
            m.has_audio = d.has_audio;
            m.is_audio_only = d.video.is_none();
            let mut rate_num: u32 = 24;
            let mut rate_den: u32 = 1;
            if let Some(v) = d.video {
                rate_num = v.rate_num;
                rate_den = v.rate_den;
                m.video_width = Some(v.width);
                m.video_height = Some(v.height);
                m.frame_rate_num = Some(v.rate_num);
                m.frame_rate_den = Some(v.rate_den);
            }
            m.source_timecode_base_ns =
            match extract_embedded_timecode(&facts.timecode_output, rate_num, rate_den) {
                Some(ns) => Some(ns),
                None => match d.created {
                    Some(t) => extract_creation_time_ns(t),
                    None => None,
                },
            };
            m.codec_summary = ffprobe_codec_summary(&facts.codec_output);
        },
    }
    m
}

/// What was probed last of a path is known of it; what was known of others stays.
pub proof fn lemma_absorbed(
    known: Map<Seq<char>, ProbeResult>,
    done: Seq<ProbeResult>,
    p: Seq<char>,
)
    ensures
        absorbed(known, done).dom().contains(p) <==> known.dom().contains(p) || result_paths(
            done,
        ).contains(p),
        forall|i: int|
            0 <= i < done.len() && (#[trigger] done[i]).path@ == p && (forall|j: int|
                i < j < done.len() ==> (#[trigger] done[j]).path@ != p) ==> absorbed(known, done)[p]
                == done[i],
        known.dom().contains(p) && !result_paths(done).contains(p) ==> absorbed(known, done)[p]
            == known[p],
    decreases done.len(),
{
    if done.len() > 0 {
        let front = done.drop_last();
        lemma_absorbed(known, front, p);
        assert(done[done.len() - 1] == done.last());
        assert(result_paths(done) =~= result_paths(front).push(done.last().path@));
        if result_paths(front).contains(p) {
            let k = choose|k: int| 0 <= k < front.len() && result_paths(front)[k] == p;
            assert(result_paths(done)[k] == p);
        }
        if done.last().path@ == p {
            assert(result_paths(done)[done.len() - 1] == p);
        }
        if result_paths(done).contains(p) && done.last().path@ != p {
            let k = choose|k: int| 0 <= k < done.len() && result_paths(done)[k] == p;
            assert(result_paths(front)[k] == p);
        }
        assert forall|i: int|
            0 <= i < done.len() && (#[trigger] done[i]).path@ == p && (forall|j: int|
                i < j < done.len() ==> (#[trigger] done[j]).path@ != p) implies absorbed(
            known,
            done,
        )[p] == done[i] by {
            if i < front.len() {
                assert(front[i] == done[i]);
                assert forall|j: int| i < j < front.len() implies (#[trigger] front[j]).path@
                    != p by {
                    assert(front[j] == done[j]);
                }
                assert(done[done.len() - 1].path@ != p);
            }
        }
    }
}

/// The nominal rate is the frame rate, rounded up.
pub proof fn lemma_nominal_rate(num: nat, den: nat)
    requires
        num > 0,
        den > 0,
    ensures
        (nominal_rate(num, den) - 1) * den < num <= nominal_rate(num, den) * den,
{
    let r = (num + den - 1) / (den as int);
    vstd::arithmetic::div_mod::lemma_fundamental_div_mod(num + den - 1, den as int);
    vstd::arithmetic::div_mod::lemma_mod_bound(num + den - 1, den as int);
    assert((r - 1) * den == den * r - den) by (nonlinear_arith);
    assert(r * den == den * r) by (nonlinear_arith);
    assert(r >= 0) by (nonlinear_arith)
        requires
            den > 0,
            num + den - 1 == den * r + (num + den - 1) % (den as int),
            0 <= (num + den - 1) % (den as int) < den,
            num > 0,
    ;
}

/// A second has as many frames as the rate says, a minute sixty seconds and an hour sixty minutes.
pub proof fn lemma_timecode_frames(h: nat, m: nat, s: nat, f: nat, rate: nat)
    ensures
        timecode_frames((h, m, s, f), rate) == ((h * 60 + m) * 60 + s) * rate + f,
{
    assert(h * 3600 * rate + m * 60 * rate + s * rate + f == ((h * 60 + m) * 60 + s) * rate + f)
        by (nonlinear_arith);
}

/// The time of day is counted in nanoseconds from midnight.
pub proof fn lemma_time_of_day(t: CreationTime, h: u8, m: u8, s: u8, u: u32)
    requires
        t.hour == Some(h),
        t.minute == Some(m),
        t.second == Some(s),
    ensures
        t.microsecond == Some(u) ==> time_of_day_ns(t) == Some(
            (((h * 60 + m) * 60 + s) * 1_000_000 + u) * 1_000,
        ),
        t.microsecond is None ==> time_of_day_ns(t) == Some(
            ((h * 60 + m) * 60 + s) * 1_000_000_000,
        ),
{
}

proof fn lemma_no_such_char(n: nat, c: char)
    requires
        c == ':' || c == ';' || c == ',' || c == '\n',
    ensures
        !decimal(n).contains(c),
        trim(decimal(n)) == decimal(n),
{
    crate::text::lemma_decimal(n);
    let d = decimal(n);
    assert forall|i: int| 0 <= i < d.len() implies d[i] != c by {
        assert(crate::text::is_digit(d[i]));
    }
    assert(crate::text::is_digit(d[0]));
    assert(crate::text::is_digit(d[d.len() - 1]));
    assert(crate::text::trim_start(d) == d);
    assert(crate::text::trim_end(d) == d);
}

proof fn lemma_nothing_replaced(s: Seq<char>, c: char, by: Seq<char>)
    requires
        !s.contains(c),
    ensures
        replace_char(s, c, by) == s,
    decreases s.len(),
{
    if s.len() > 0 {
        let front = s.drop_last();
        assert(s.contains(s[s.len() - 1]));
        assert forall|k: int| 0 <= k < front.len() implies front[k] != c by {
            assert(s.contains(s[k]));
        }
        lemma_nothing_replaced(front, c, by);
        assert(front.push(s.last()) =~= s);
    } else {
        assert(replace_char(s, c, by) =~= s);
    }
}

/// A time code of hours, minutes, seconds and frames with colons between them is read as these.
pub proof fn lemma_timecode_reads(h: nat, m: nat, s: nat, f: nat)
    requires
        h <= u64::MAX,
        m <= u64::MAX,
        s <= u64::MAX,
        f <= u64::MAX,
    ensures
        timecode_fields(
            decimal(h).push(':') + (decimal(m).push(':') + (decimal(s).push(':') + decimal(f))),
        ) == Some((h, m, s, f)),
{
    let x3 = decimal(s).push(':') + decimal(f);
    let x2 = decimal(m).push(':') + x3;
    let x = decimal(h).push(':') + x2;
    lemma_no_such_char(h, ';');
    lemma_no_such_char(m, ';');
    lemma_no_such_char(s, ';');
    lemma_no_such_char(f, ';');
    lemma_no_such_char(h, ':');
    lemma_no_such_char(m, ':');
    lemma_no_such_char(s, ':');
    lemma_no_such_char(f, ':');
    assert(!x.contains(';')) by {
        if x.contains(';') {
            let k = choose|k: int| 0 <= k < x.len() && x[k] == ';';
            let a = decimal(h).len() as int;
            let b = a + 1 + decimal(m).len();
            let c = b + 1 + decimal(s).len();
            if k < a {
                assert(decimal(h)[k] == ';');
            } else if k == a {
            } else if k < b {
                assert(decimal(m)[k - a - 1] == ';');
            } else if k == b {
            } else if k < c {
                assert(decimal(s)[k - b - 1] == ';');
            } else if k == c {
            } else {
                assert(decimal(f)[k - c - 1] == ';');
            }
        }
    }
    lemma_nothing_replaced(x, ';', ":"@);
    crate::text::lemma_split_concat(decimal(h), x2, ':');
    crate::text::lemma_split_concat(decimal(m), x3, ':');
    crate::text::lemma_split_concat(decimal(s), decimal(f), ':');
    crate::text::lemma_split_whole(decimal(h), ':');
    crate::text::lemma_split_whole(decimal(m), ':');
    crate::text::lemma_split_whole(decimal(s), ':');
    crate::text::lemma_split_whole(decimal(f), ':');
    let p = split(x, ':');
    assert(p =~= seq![decimal(h), decimal(m), decimal(s), decimal(f)]);
    crate::text_shapes::lemma_number_reads_back(h, u64::MAX as nat);
    crate::text_shapes::lemma_number_reads_back(m, u64::MAX as nat);
    crate::text_shapes::lemma_number_reads_back(s, u64::MAX as nat);
    crate::text_shapes::lemma_number_reads_back(f, u64::MAX as nat);
}

/// A semicolon before the frames, as in drop-frame time codes, counts as a colon.
pub proof fn lemma_drop_frame_timecode(a: Seq<char>, b: Seq<char>)
    ensures
        timecode_fields(a.push(';') + b) == timecode_fields(a.push(':') + b),
{
    reveal_strlit(":");
    assert(":"@ =~= seq![':']);
    let x = a.push(';') + b;
    let y = a.push(':') + b;
    crate::text_shapes::lemma_replace_char(a.push(';'), b, ';', ":"@);
    crate::text_shapes::lemma_replace_char(a.push(':'), b, ';', ":"@);
    assert(a.push(';').drop_last() =~= a);
    assert(a.push(':').drop_last() =~= a);
    assert(replace_char(a.push(';'), ';', ":"@) =~= replace_char(a, ';', ":"@).push(':'));
    assert(replace_char(a.push(':'), ';', ":"@) =~= replace_char(a, ';', ":"@).push(':'));
}

/// A width and a height with a comma between them are read as these, whatever lines follow.
pub proof fn lemma_dimensions_read(w: u32, h: u32, rest: Seq<char>)
    ensures
        printed_dimensions(
            Some((decimal(w as nat).push(',') + decimal(h as nat)).push('\n') + rest),
        ) == (Some(w), Some(h)),
{
    let first = decimal(w as nat).push(',') + decimal(h as nat);
    lemma_no_such_char(w as nat, ',');
    lemma_no_such_char(h as nat, ',');
    lemma_no_such_char(w as nat, '\n');
    lemma_no_such_char(h as nat, '\n');
    assert(!first.contains('\n')) by {
        if first.contains('\n') {
            let k = choose|k: int| 0 <= k < first.len() && first[k] == '\n';
            let a = decimal(w as nat).len() as int;
            if k < a {
                assert(decimal(w as nat)[k] == '\n');
            } else if k > a {
                assert(decimal(h as nat)[k - a - 1] == '\n');
            }
        }
    }
    crate::text::lemma_split_concat(first, rest, '\n');
    crate::text::lemma_split_whole(first, '\n');
    crate::text::lemma_split_concat(decimal(w as nat), decimal(h as nat), ',');
    crate::text::lemma_split_whole(decimal(w as nat), ',');
    crate::text::lemma_split_whole(decimal(h as nat), ',');
    assert(split(first, ',') =~= seq![decimal(w as nat), decimal(h as nat)]);
    crate::text_shapes::lemma_number_reads_back(w as nat, u32::MAX as nat);
    crate::text_shapes::lemma_number_reads_back(h as nat, u32::MAX as nat);
}

/// Whether a line names the codec of a stream of a kind.
pub open spec fn names_codec(line: Seq<char>, kind: Seq<char>) -> bool {
    line.contains(',') && trim(line.subrange(0, first_of(line, ','))) == kind && trim(
        line.subrange(first_of(line, ',') + 1, line.len() as int),
    ).len() > 0
}

/// The codec that a line names.
pub open spec fn codec_on(line: Seq<char>) -> Seq<char> {
    codec_label(trim(line.subrange(first_of(line, ',') + 1, line.len() as int)))
}

/// Of each kind of stream, the codec that is named first counts.
pub proof fn lemma_first_codecs(lines: Seq<Seq<char>>, n: nat)
    requires
        n <= lines.len(),
    ensures
        match codecs_upto(lines, n).0 {
            Some(v) => exists|k: int|
                0 <= k < n && names_codec(#[trigger] lines[k], "video"@) && v == codec_on(lines[k])
                    && forall|j: int|
                    0 <= j < k ==> !names_codec(#[trigger] lines[j], "video"@),
            None => forall|k: int| 0 <= k < n ==> !names_codec(#[trigger] lines[k], "video"@),
        },
        match codecs_upto(lines, n).1 {
            Some(v) => exists|k: int|
                0 <= k < n && names_codec(#[trigger] lines[k], "audio"@) && v == codec_on(lines[k])
                    && forall|j: int|
                    0 <= j < k ==> !names_codec(#[trigger] lines[j], "audio"@),
            None => forall|k: int| 0 <= k < n ==> !names_codec(#[trigger] lines[k], "audio"@),
        },
    decreases n,
{
    reveal_strlit("video");
    reveal_strlit("audio");
    assert("video"@[0] != "audio"@[0]);
    if n > 0 {
        lemma_first_codecs(lines, (n - 1) as nat);
        let line = lines[n - 1];
        crate::text::lemma_first_of(line, ',');
    }
}

/// What was found out of a source is told as it is: its length, the size and rate of its pictures,
/// and whether it has sound.
pub proof fn lemma_metadata(path: Seq<char>, facts: ProbeFacts, m: MediaProbeMetadata, d: Discovered)
    requires
        is_metadata_of(path, facts, m),
        !is_image_path(path),
        facts.discovered == Some(d),
    ensures
        !m.is_image && !m.is_animated_svg,
        m.duration_ns == d.duration_ns,
        m.has_audio == d.has_audio,
        m.file_size_bytes == facts.file_size_bytes,
        d.video is None ==> m.is_audio_only && m.video_width is None && m.video_height is None
            && m.frame_rate_num is None && m.frame_rate_den is None,
        d.video matches Some(v) ==> !m.is_audio_only && m.video_width == Some(v.width)
            && m.video_height == Some(v.height) && m.frame_rate_num == Some(v.rate_num)
            && m.frame_rate_den == Some(v.rate_den),
        option_view(facts.timecode_output) is None && d.created is None
            ==> m.source_timecode_base_ns is None,
{
}

/// A picture has no sound and no rate, and the size that was printed.
pub proof fn lemma_image_metadata(path: Seq<char>, facts: ProbeFacts, m: MediaProbeMetadata)
    requires
        is_metadata_of(path, facts, m),
        is_image_path(path),
    ensures
        m.is_image && !m.has_audio && !m.is_audio_only,
        m.frame_rate_num is None && m.frame_rate_den is None,
        m.video_width == printed_dimensions(option_view(facts.dimensions_output)).0,
        m.video_height == printed_dimensions(option_view(facts.dimensions_output)).1,
        m.is_animated_svg ==> is_svg_path(path),
        !m.is_animated_svg ==> m.duration_ns == Some(IMAGE_DEFAULT_DURATION_NS),
{
}

/// The codecs are told with that of the pictures first, then that of the sound.
pub proof fn lemma_printed_codecs(o: Seq<char>)
    ensures
        ({
            let lines = split(o, '\n');
            let found = codecs_upto(lines, lines.len());
            &&& found.0 matches Some(v) ==> (found.1 matches Some(a) ==> printed_codecs(Some(o))
                == Some(v + " / "@ + a))
            &&& found.0 matches Some(v) ==> (found.1 is None ==> printed_codecs(Some(o)) == Some(v))
            &&& found.0 is None ==> printed_codecs(Some(o)) == found.1
        }),
        printed_codecs(None) is None,
{
}

/// A time code is counted at the rate of the pictures, and at 24 frames for each second where there
/// are none.
pub proof fn lemma_timecode_rate(d: Discovered)
    ensures
        d.video is None ==> timecode_rate(d) == (24u32, 1u32),
        d.video matches Some(v) ==> timecode_rate(d) == (v.rate_num, v.rate_den),
{
}

} // verus!
