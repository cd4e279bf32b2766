//! Names of proxy files: cache keys, digests, file names and paths.

use crate::digest::{
    digest_of, digest_text, flag_material, hex16, number_material, push_hex16, text_digest,
    text_material, Digest,
};
use crate::paths::{
    file_name, file_stem, join, join_path, lemma_name_of_joined, name_of, parent_dir,
    parent_directory, stem_of,
};
use crate::pieces::{
    cut_at_last, cut_last, hex_number, lemma_hex16, lemma_last_match, parse_hex, strip_end,
    without_end,
};
use crate::text::{
    chars_of, decimal, ends, ends_with, fixed_digits, has, is_digit, occurs, occurs_at, option_view,
    owned, push_decimal, push_fixed, same,
};
use vstd::prelude::*;
use vstd::string::*;

verus! {

/// Size of proxy pictures. Caps the height, keeps the aspect ratio and never enlarges.
#[derive(Clone, Copy, Debug, PartialEq, Eq, Hash, Structural)]
pub enum ProxyScale {
    MaxHeight(u32),
}

/// Video codec of proxy files.
#[derive(Clone, Copy, Debug, PartialEq, Eq, Hash, Structural)]
pub enum ProxyCodec {
    H264,
    Hevc,
}

/// How a codec is written in settings and digests.
pub open spec fn codec_name(c: ProxyCodec) -> Seq<char> {
    match c {
        ProxyCodec::H264 => "h264"@,
        ProxyCodec::Hevc => "hevc"@,
    }
}

impl ProxyCodec {
    /// How the codec is written in settings and digests.
    pub fn as_str(&self) -> (r: &'static str)
        ensures
            r@ == codec_name(*self),
    {
        match self {
            ProxyCodec::H264 => "h264",
            ProxyCodec::Hevc => "hevc",
        }
    }
}

/// The scale filter of a proxy. The width follows from the aspect ratio and is even.
pub open spec fn scale_filter(s: ProxyScale) -> Seq<char> {
    match s {
        ProxyScale::MaxHeight(h) => "scale=-2:'min("@ + decimal(h as nat) + ",ih)':flags=lanczos"@,
    }
}

/// How a scale is written in file names.
pub open spec fn scale_suffix(s: ProxyScale) -> Seq<char> {
    match s {
        ProxyScale::MaxHeight(h) => decimal(h as nat) + "p"@,
    }
}

impl ProxyScale {
    /// The scale filter of a proxy.
    pub fn ffmpeg_scale_filter(&self) -> (r: String)
        ensures
            r@ == scale_filter(*self),
    {
        match self {
            ProxyScale::MaxHeight(h) => {
                let mut r = owned("scale=-2:'min(");
                push_decimal(&mut r, *h as u64);
                r.append(",ih)':flags=lanczos");
                r
            },
        }
    }

    /// How the scale is written in file names.
    pub fn suffix(&self) -> (r: String)
        ensures
            r@ == scale_suffix(*self),
    {
        match self {
            ProxyScale::MaxHeight(h) => {
                let mut r = String::new();
                push_decimal(&mut r, *h as u64);
                r.append("p");
                proof {
                    assert(r@ =~= scale_suffix(*self));
                }
                r
            },
        }
    }
}

/// Strength of the stabilisation in the forms in which it is used: whether it is above zero, as
/// text with two places, and rounded in hundredths, tenths and thirtieths.
#[derive(Clone, Debug)]
pub struct Smoothing {
    pub positive: bool,
    pub label: String,
    pub hundredths: i32,
    pub tenths: i32,
    pub thirtieths: i32,
}

impl Smoothing {
    /// Whether this is no stabilisation.
    pub open spec fn is_none(&self) -> bool {
        &&& !self.positive
        &&& self.hundredths == 0
        &&& self.tenths == 0
        &&& self.thirtieths == 0
        &&& self.label@ == "0.00"@
    }

    /// No stabilisation.
    pub fn none() -> (r: Smoothing)
        ensures
            r.is_none(),
    {
        Smoothing { positive: false, label: owned("0.00"), hundredths: 0, tenths: 0, thirtieths: 0 }
    }
}

/// `n` brought between `low` and `high`.
pub open spec fn clamped(n: int, low: int, high: int) -> int {
    if n < low {
        low
    } else if n > high {
        high
    } else {
        n
    }
}

/// `n` brought between `low` and `high`.
pub fn clamp(n: i32, low: i32, high: i32) -> (r: i32)
    ensures
        r == clamped(n as int, low as int, high as int),
{
    if n < low {
        low
    } else if n > high {
        high
    } else {
        n
    }
}

/// The strength of the stabilisation in hundredths, zero where it is off.
pub open spec fn stabilised(enabled: bool, hundredths: i32) -> int {
    if enabled {
        clamped(hundredths as int, 0, 100)
    } else {
        0
    }
}

/// The strength of the stabilisation in hundredths, zero where it is off.
pub fn normalized_vidstab_smoothing_hundredths(vidstab_enabled: bool, hundredths: i32) -> (r: i32)
    ensures
        r == stabilised(vidstab_enabled, hundredths),
        0 <= r <= 100,
{
    if !vidstab_enabled {
        0
    } else {
        clamp(hundredths, 0, 100)
    }
}

/// The characters of an optional text.
pub open spec fn chars_in(s: Option<&str>) -> Option<Seq<char>> {
    match s {
        Some(t) => Some(t@),
        None => None,
    }
}

// ---------------------------------------------------------------------- keys
/// The cache key of a proxy: the source, what LUT and stabilisation are baked in, and the codec
/// where it is not H.264.
pub open spec fn key_of(
    source: Seq<char>,
    lut: Option<Seq<char>>,
    codec: ProxyCodec,
    enabled: bool,
    smoothing: Smoothing,
) -> Seq<char> {
    let base = looked_key(source, lut);
    let stable = if enabled && smoothing.positive {
        base + ("|vs:"@ + smoothing.label@)
    } else {
        base
    };
    coded_key(stable, codec)
}

/// The source with the LUT that is baked in.
pub open spec fn looked_key(source: Seq<char>, lut: Option<Seq<char>>) -> Seq<char> {
    match lut {
        Some(l) => if l.len() > 0 {
            source + "|lut:"@ + l
        } else {
            source
        },
        None => source,
    }
}

/// A key with the codec, where it is not H.264.
pub open spec fn coded_key(key: Seq<char>, codec: ProxyCodec) -> Seq<char> {
    if codec == ProxyCodec::Hevc {
        key + "|c:hevc"@
    } else {
        key
    }
}

/// The cache key of a proxy without stabilisation.
pub open spec fn plain_key(source: Seq<char>, lut: Option<Seq<char>>, codec: ProxyCodec) -> Seq<
    char,
> {
    coded_key(looked_key(source, lut), codec)
}

/// The cache key of a proxy without stabilisation, in H.264.
pub fn proxy_key(source_path: &str, lut_path: Option<&str>) -> (r: String)
    ensures
        r@ == plain_key(source_path@, chars_in(lut_path), ProxyCodec::H264),
{
    proxy_key_with_vidstab(source_path, lut_path, false, &Smoothing::none())
}

/// The cache key of a proxy in H.264.
pub fn proxy_key_with_vidstab(
    source_path: &str,
    lut_path: Option<&str>,
    vidstab_enabled: bool,
    vidstab_smoothing: &Smoothing,
) -> (r: String)
    ensures
        r@ == key_of(
            source_path@,
            chars_in(lut_path),
            ProxyCodec::H264,
            vidstab_enabled,
            *vidstab_smoothing,
        ),
{
    proxy_key_with_codec_and_vidstab(
        source_path,
        lut_path,
        ProxyCodec::H264,
        vidstab_enabled,
        vidstab_smoothing,
    )
}

/// The cache key of a proxy.
pub fn proxy_key_with_codec_and_vidstab(
    source_path: &str,
    lut_path: Option<&str>,
    codec: ProxyCodec,
    vidstab_enabled: bool,
    vidstab_smoothing: &Smoothing,
) -> (r: String)
    ensures
        r@ == key_of(
            source_path@,
            chars_in(lut_path),
            codec,
            vidstab_enabled,
            *vidstab_smoothing,
        ),
{
    let mut key = owned(source_path);
    if let Some(lut) = lut_path {
        if !lut.is_empty() {
            key.append("|lut:");
            key.append(lut);
        }
    }
    if vidstab_enabled && vidstab_smoothing.positive {
        let mut part = owned("|vs:");
        part.append(&vidstab_smoothing.label);
        key.append(&part);
    }
    match codec {
        ProxyCodec::Hevc => {
            key.append("|c:hevc");
        },
        ProxyCodec::H264 => {},
    }
    key
}

/// The key of a proxy begins with the path of its source.
pub proof fn lemma_key_begins_with_source(
    source: Seq<char>,
    lut: Option<Seq<char>>,
    codec: ProxyCodec,
    enabled: bool,
    smoothing: Smoothing,
)
    ensures
        crate::text::begins(key_of(source, lut, codec, enabled, smoothing), source),
{
    let k = key_of(source, lut, codec, enabled, smoothing);
    assert(k.subrange(0, source.len() as int) =~= source);
}

/// Where only the codec differs, so do the keys.
pub proof fn lemma_codecs_have_distinct_keys(
    source: Seq<char>,
    lut: Option<Seq<char>>,
    enabled: bool,
    smoothing: Smoothing,
)
    ensures
        key_of(source, lut, ProxyCodec::H264, enabled, smoothing) != key_of(
            source,
            lut,
            ProxyCodec::Hevc,
            enabled,
            smoothing,
        ),
{
    reveal_strlit("|c:hevc");
    let a = key_of(source, lut, ProxyCodec::H264, enabled, smoothing);
    let b = key_of(source, lut, ProxyCodec::Hevc, enabled, smoothing);
    assert(b.len() == a.len() + 7);
}

// ------------------------------------------------------------------- digests
/// The digest of a source path.
pub fn source_path_hash(source_path: &str) -> (r: u64)
    ensures
        r == text_digest(source_path@),
{
    digest_text(source_path)
}

/// What goes into the digest of a proxy.
pub open spec fn variant_material(
    source: Seq<char>,
    scale: ProxyScale,
    lut: Option<Seq<char>>,
    codec: ProxyCodec,
    enabled: bool,
    hundredths: int,
) -> Seq<Seq<u8>> {
    let height = match scale {
        ProxyScale::MaxHeight(h) => h,
    };
    let lut_text = match lut {
        Some(l) => l,
        None => ""@,
    };
    let all = text_material(source) + number_material(height as nat, 4) + text_material(lut_text)
        + flag_material(enabled) + number_material(hundredths as nat, 4);
    if codec == ProxyCodec::Hevc {
        all + text_material(codec_name(codec))
    } else {
        all
    }
}

/// The digest of a proxy. The codec takes part only where it is not H.264.
pub fn source_variant_hash(
    source_path: &str,
    scale: ProxyScale,
    lut_path: Option<&str>,
    codec: ProxyCodec,
    vidstab_enabled: bool,
    hundredths: i32,
) -> (r: u64)
    ensures
        r == digest_of(
            variant_material(
                source_path@,
                scale,
                chars_in(lut_path),
                codec,
                vidstab_enabled,
                stabilised(vidstab_enabled, hundredths),
            ),
        ),
{
    let mut d = Digest::new();
    d.add_text(source_path);
    let height: u32 = match scale {
        ProxyScale::MaxHeight(h) => h,
    };
    d.add_low_bytes(height as u64, 4);
    match lut_path {
        Some(l) => d.add_text(l),
        None => d.add_text(""),
    }
    d.add_flag(vidstab_enabled);
    let h: i32 = normalized_vidstab_smoothing_hundredths(vidstab_enabled, hundredths);
    d.add_low_bytes(h as u64, 4);
    if let ProxyCodec::Hevc = codec {
        d.add_text(codec.as_str());
    }
    proof {
        assert(d@ =~= variant_material(
            source_path@,
            scale,
            chars_in(lut_path),
            codec,
            vidstab_enabled,
            stabilised(vidstab_enabled, hundredths),
        ));
    }
    d.finish()
}

// ---------------------------------------------------------------- file names
/// What a proxy is made of.
pub struct Variant<'a> {
    pub source_path: &'a str,
    pub scale: ProxyScale,
    pub lut_path: Option<&'a str>,
    pub codec: ProxyCodec,
    pub vidstab_enabled: bool,
    pub hundredths: i32,
}

/// What a proxy is made of, the strength of the stabilisation being zero where it is off.
pub struct VariantView {
    pub source: Seq<char>,
    pub scale: ProxyScale,
    pub lut: Option<Seq<char>>,
    pub codec: ProxyCodec,
    pub enabled: bool,
    pub hundredths: int,
}

impl Variant<'_> {
    pub open spec fn view(&self) -> VariantView {
        VariantView {
            source: self.source_path@,
            scale: self.scale,
            lut: chars_in(self.lut_path),
            codec: self.codec,
            enabled: self.vidstab_enabled,
            hundredths: stabilised(self.vidstab_enabled, self.hundredths),
        }
    }
}

/// The digest of a proxy.
pub open spec fn variant_digest(v: VariantView) -> u64 {
    digest_of(variant_material(v.source, v.scale, v.lut, v.codec, v.enabled, v.hundredths))
}

/// A proxy's file name from its parts.
pub open spec fn assembled_name(
    stem: Seq<char>,
    source_digest: u64,
    variant: u64,
    scale: ProxyScale,
) -> Seq<char> {
    stem + "-s"@ + hex16(source_digest) + "-v"@ + hex16(variant) + ".proxy_"@ + scale_suffix(scale)
        + ".mp4"@
}

/// The file name of a proxy, where its source has one.
pub open spec fn variant_name(v: VariantView) -> Option<Seq<char>> {
    match stem_of(v.source) {
        Some(stem) => Some(assembled_name(stem, text_digest(v.source), variant_digest(v), v.scale)),
        None => None,
    }
}

/// The file name of a proxy.
pub fn proxy_filename_for_variant(v: &Variant) -> (r: Option<String>)
    ensures
        option_view(r) == variant_name(v@),
{
    match file_stem(v.source_path) {
        Some(stem) => {
            let mut r = stem;
            r.append("-s");
            push_hex16(&mut r, source_path_hash(v.source_path));
            r.append("-v");
            push_hex16(
                &mut r,
                source_variant_hash(
                    v.source_path,
                    v.scale,
                    v.lut_path,
                    v.codec,
                    v.vidstab_enabled,
                    v.hundredths,
                ),
            );
            r.append(".proxy_");
            r.append(&v.scale.suffix());
            r.append(".mp4");
            Some(r)
        },
        None => None,
    }
}

/// The file name that proxies without digests had.
pub open spec fn legacy_name(
    source: Seq<char>,
    scale: ProxyScale,
    lut: Option<Seq<char>>,
) -> Option<Seq<char>> {
    match stem_of(source) {
        Some(stem) => match lut {
            Some(l) => if l.len() > 0 {
                Some(
                    stem + ".proxy_"@ + scale_suffix(scale) + "_lut"@ + fixed_digits(
                        text_digest(l) as nat,
                        16,
                        8,
                    ) + ".mp4"@,
                )
            } else {
                Some(stem + ".proxy_"@ + scale_suffix(scale) + ".mp4"@)
            },
            None => Some(stem + ".proxy_"@ + scale_suffix(scale) + ".mp4"@),
        },
        None => None,
    }
}

/// The file name that proxies without digests had.
pub fn legacy_proxy_filename_for_variant(
    source_path: &str,
    scale: ProxyScale,
    lut_path: Option<&str>,
) -> (r: Option<String>)
    ensures
        option_view(r) == legacy_name(source_path@, scale, chars_in(lut_path)),
{
    match file_stem(source_path) {
        Some(stem) => {
            let mut r = stem;
            r.append(".proxy_");
            r.append(&scale.suffix());
            if let Some(lut) = lut_path {
                if !lut.is_empty() {
                    r.append("_lut");
                    push_fixed(&mut r, digest_text(lut), 16, 8);
                }
            }
            r.append(".mp4");
            Some(r)
        },
        None => None,
    }
}

/// A file name below a directory.
pub open spec fn placed(dir: Option<Seq<char>>, name: Option<Seq<char>>) -> Option<Seq<char>> {
    match (dir, name) {
        (Some(d), Some(n)) => Some(join_path(d, n)),
        _ => None,
    }
}

/// The cache directory beside a source.
pub open spec fn sidecar_dir(source: Seq<char>) -> Option<Seq<char>> {
    match parent_dir(source) {
        Some(p) => Some(join_path(p, "UltimateSlice.cache"@)),
        None => None,
    }
}

/// The cache directory beside a source.
pub fn sidecar_proxy_dir_for(source_path: &str) -> (r: Option<String>)
    ensures
        option_view(r) == sidecar_dir(source_path@),
{
    match parent_directory(source_path) {
        Some(p) => Some(join(&p, "UltimateSlice.cache")),
        None => None,
    }
}

/// The path of a proxy under the managed root.
pub fn local_proxy_path_for(v: &Variant, local_root: &str) -> (r: Option<String>)
    ensures
        option_view(r) == placed(Some(local_root@), variant_name(v@)),
{
    match proxy_filename_for_variant(v) {
        Some(name) => Some(join(local_root, &name)),
        None => None,
    }
}

/// The path under the managed root that proxies without digests had.
pub fn legacy_local_proxy_path_for(
    source_path: &str,
    scale: ProxyScale,
    lut_path: Option<&str>,
    local_root: &str,
) -> (r: Option<String>)
    ensures
        option_view(r) == placed(
            Some(local_root@),
            legacy_name(source_path@, scale, chars_in(lut_path)),
        ),
{
    match legacy_proxy_filename_for_variant(source_path, scale, lut_path) {
        Some(name) => Some(join(local_root, &name)),
        None => None,
    }
}

/// The path of a proxy beside its source.
pub fn alongside_proxy_path_for(v: &Variant) -> (r: Option<String>)
    ensures
        option_view(r) == placed(sidecar_dir(v.source_path@), variant_name(v@)),
{
    match sidecar_proxy_dir_for(v.source_path) {
        Some(dir) => match proxy_filename_for_variant(v) {
            Some(name) => Some(join(&dir, &name)),
            None => None,
        },
        None => None,
    }
}

/// The path beside their source that proxies without digests had.
pub fn legacy_alongside_proxy_path_for(
    source_path: &str,
    scale: ProxyScale,
    lut_path: Option<&str>,
) -> (r: Option<String>)
    ensures
        option_view(r) == placed(
            sidecar_dir(source_path@),
            legacy_name(source_path@, scale, chars_in(lut_path)),
        ),
{
    match sidecar_proxy_dir_for(source_path) {
        Some(dir) => match legacy_proxy_filename_for_variant(source_path, scale, lut_path) {
            Some(name) => Some(join(&dir, &name)),
            None => None,
        },
        None => None,
    }
}

/// Whether a path lies directly in a cache directory beside its source.
pub open spec fn is_beside_source(path: Seq<char>) -> bool {
    match parent_dir(path) {
        Some(p) => name_of(p) == Some("UltimateSlice.cache"@),
        None => false,
    }
}

/// Whether a path lies directly in a cache directory beside its source.
pub fn is_sidecar_proxy_path(path: &str) -> (r: bool)
    ensures
        r == is_beside_source(path@),
{
    match parent_directory(path) {
        Some(p) => match file_name(&p) {
            Some(name) => same(&name, "UltimateSlice.cache"),
            None => false,
        },
        None => false,
    }
}

// -------------------------------------------------------------- reading back
/// A file name without the endings of unfinished files and of source records.
pub open spec fn proxy_part(name: Seq<char>) -> Seq<char> {
    let media = match without_end(name, ".source-meta.partial"@) {
        Some(n) => n,
        None => match without_end(name, ".source-meta"@) {
            Some(n) => n,
            None => name,
        },
    };
    match without_end(media, ".partial"@) {
        Some(n) => n,
        None => media,
    }
}

/// The digest of the source that a proxy's file name holds.
pub open spec fn source_digest_in(name: Seq<char>) -> Option<nat> {
    match without_end(proxy_part(name), ".mp4"@) {
        Some(bare) => match cut_last(bare, ".proxy_"@) {
            Some(a) => match cut_last(a.0, "-v"@) {
                Some(b) => match cut_last(b.0, "-s"@) {
                    Some(c) => hex_number(c.1),
                    None => None,
                },
                None => None,
            },
            None => None,
        },
        None => None,
    }
}

/// The digest of the source that a proxy's file name holds.
pub fn proxy_source_hash_from_name(name: &str) -> (r: Option<u64>)
    ensures
        match r {
            Some(n) => source_digest_in(name@) == Some(n as nat),
            None => source_digest_in(name@) is None,
        },
{
    let all: Vec<char> = chars_of(name);
    let media: Vec<char> = match strip_end(&all, ".source-meta.partial") {
        Some(n) => n,
        None => match strip_end(&all, ".source-meta") {
            Some(n) => n,
            None => all,
        },
    };
    let part: Vec<char> = match strip_end(&media, ".partial") {
        Some(n) => n,
        None => media,
    };
    match strip_end(&part, ".mp4") {
        Some(bare) => match cut_at_last(&bare, ".proxy_") {
            Some(a) => match cut_at_last(&a.0, "-v") {
                Some(b) => match cut_at_last(&b.0, "-s") {
                    Some(c) => parse_hex(&c.1),
                    None => None,
                },
                None => None,
            },
            None => None,
        },
        None => None,
    }
}

/// The digest of the source that the file name of a path holds.
pub open spec fn source_digest_at(path: Seq<char>) -> Option<nat> {
    match name_of(path) {
        Some(n) => source_digest_in(n),
        None => None,
    }
}

/// The digest of the source that the file name of a path holds.
pub fn proxy_source_hash_from_path(path: &str) -> (r: Option<u64>)
    ensures
        match r {
            Some(n) => source_digest_at(path@) == Some(n as nat),
            None => source_digest_at(path@) is None,
        },
{
    match file_name(path) {
        Some(n) => proxy_source_hash_from_name(&n),
        None => None,
    }
}

/// Whether a file name is that of a proxy, a record of its source, or an unfinished one of them.
pub open spec fn is_artifact(name: Seq<char>) -> bool {
    &&& occurs(name, ".proxy_"@)
    &&& ends(name, ".mp4"@) || ends(name, ".mp4.partial"@) || ends(name, ".mp4.source-meta"@)
        || ends(name, ".mp4.source-meta.partial"@)
}

/// Whether a file name is that of a proxy, a record of its source, or an unfinished one of them.
pub fn is_proxy_cache_artifact_name(file_name: &str) -> (r: bool)
    ensures
        r == is_artifact(file_name@),
{
    has(file_name, ".proxy_") && (ends_with(file_name, ".mp4") || ends_with(
        file_name,
        ".mp4.partial",
    ) || ends_with(file_name, ".mp4.source-meta") || ends_with(
        file_name,
        ".mp4.source-meta.partial",
    ))
}

/// A text is cut at its last pattern, where what follows has no first character of the pattern.
proof fn lemma_cut(a: Seq<char>, p: Seq<char>, b: Seq<char>)
    requires
        p.len() > 0,
        forall|i: int| 1 <= i < p.len() ==> #[trigger] p[i] != p[0],
        forall|i: int| 0 <= i < b.len() ==> #[trigger] b[i] != p[0],
    ensures
        cut_last(a + p + b, p) == Some((a, b)),
{
    let s = a + p + b;
    let n = a.len() as int;
    assert(s.subrange(n, n + p.len()) =~= p);
    assert(occurs_at(s, p, n));
    assert forall|k: int| n < k <= s.len() implies !#[trigger] occurs_at(s, p, k) by {
        if occurs_at(s, p, k) {
            assert(s.subrange(k, k + p.len())[0] == p[0]);
            assert(s[k] == p[0]);
            if k < n + p.len() {
                assert(s[k] == p[k - n]);
            } else {
                assert(s[k] == b[k - n - p.len()]);
            }
        }
    }
    lemma_last_match(s, p, n, s.len() as int);
    assert(s.subrange(0, n) =~= a);
    assert(s.subrange(n + p.len(), s.len() as int) =~= b);
}

/// The name of a proxy gives back the digest of its source: every proxy that is written can be
/// matched to its source again.
pub proof fn lemma_name_reads_back(stem: Seq<char>, source: u64, variant: u64, scale: ProxyScale)
    ensures
        source_digest_in(assembled_name(stem, source, variant, scale)) == Some(source as nat),
{
    reveal_strlit("-s");
    reveal_strlit("-v");
    reveal_strlit(".proxy_");
    reveal_strlit(".mp4");
    reveal_strlit("p");
    let height = match scale {
        ProxyScale::MaxHeight(h) => h,
    };
    crate::text::lemma_decimal(height as nat);
    lemma_hex16(source);
    lemma_hex16(variant);
    let name = assembled_name(stem, source, variant, scale);
    let suffix = scale_suffix(scale);
    let c0 = stem + "-s"@ + hex16(source);
    let b0 = c0 + "-v"@ + hex16(variant);
    let bare = b0 + ".proxy_"@ + suffix;
    assert(name == bare + ".mp4"@);
    assert(name.last() == '4');
    lemma_side_ending_gone(name);
    assert(name.subrange(name.len() - 4, name.len() as int) =~= ".mp4"@);
    assert(name.subrange(0, name.len() - 4) =~= bare);
    assert forall|i: int| 0 <= i < suffix.len() implies suffix[i] != '.' by {
        if i < decimal(height as nat).len() {
            assert(suffix[i] == decimal(height as nat)[i]);
            assert(is_digit(decimal(height as nat)[i]));
        } else {
            assert(suffix[i] == 'p');
        }
    }
    lemma_cut(b0, ".proxy_"@, suffix);
    assert forall|i: int| 0 <= i < 16 implies hex16(variant)[i] != '-' by {}
    lemma_cut(c0, "-v"@, hex16(variant));
    assert forall|i: int| 0 <= i < 16 implies hex16(source)[i] != '-' by {}
    lemma_cut(stem, "-s"@, hex16(source));
}

/// The path of a proxy in any directory gives back the digest of its source.
pub proof fn lemma_path_reads_back(v: VariantView, dir: Seq<char>)
    requires
        variant_name(v) is Some,
    ensures
        source_digest_at(join_path(dir, variant_name(v)->Some_0)) == Some(
            text_digest(v.source) as nat,
        ),
{
    let name = variant_name(v)->Some_0;
    let stem = stem_of(v.source)->Some_0;
    lemma_name_reads_back(stem, text_digest(v.source), variant_digest(v), v.scale);
    lemma_stem_plain(v.source);
    lemma_plain_name(stem, text_digest(v.source), variant_digest(v), v.scale);
    lemma_long_name(dir, name);
}

/// Whether a proxy's path has this ending while it is made, or its source record has it, or the
/// source record while it is made.
pub open spec fn is_side_ending(e: Seq<char>) -> bool {
    e == ".partial"@ || e == ".source-meta"@ || e == ".source-meta.partial"@
}

proof fn lemma_side_ending(name: Seq<char>, e: Seq<char>)
    requires
        name.len() > 0,
        name.last() == '4',
        is_side_ending(e),
    ensures
        proxy_part(name + e) == name,
        !e.contains('/'),
{
    reveal_strlit(".partial");
    reveal_strlit(".source-meta");
    reveal_strlit(".source-meta.partial");
    let s = name + e;
    let n = s.len() as int;
    assert(s.subrange(n - e.len(), n) =~= e);
    assert(s.subrange(0, n - e.len()) =~= name);
    assert(!ends(name, ".partial"@)) by {
        if ends(name, ".partial"@) {
            assert(name.subrange(name.len() - 8, name.len() as int)[7] == 'l');
        }
    }
    if e == ".source-meta"@ {
        assert(s.last() == 'a');
        if ends(s, ".source-meta.partial"@) {
            assert(s.subrange(n - 20, n)[19] == 'l');
        }
    }
    if e == ".partial"@ {
        if ends(s, ".source-meta.partial"@) {
            assert(s.subrange(n - 20, n)[11] == 'a');
            assert(s[n - 9] == name.last());
        }
        if ends(s, ".source-meta"@) {
            assert(s.subrange(n - 12, n)[11] == 'a');
        }
    }
}

/// The path of an unfinished proxy or of a source record in any directory gives back the digest of
/// the source too.
pub proof fn lemma_side_path_reads_back(v: VariantView, dir: Seq<char>, e: Seq<char>)
    requires
        variant_name(v) is Some,
        is_side_ending(e),
    ensures
        source_digest_at(join_path(dir, variant_name(v)->Some_0 + e)) == Some(
            text_digest(v.source) as nat,
        ),
{
    reveal_strlit(".mp4");
    let name = variant_name(v)->Some_0;
    let stem = stem_of(v.source)->Some_0;
    lemma_name_reads_back(stem, text_digest(v.source), variant_digest(v), v.scale);
    lemma_stem_plain(v.source);
    lemma_plain_name(stem, text_digest(v.source), variant_digest(v), v.scale);
    lemma_side_ending(name, e);
    lemma_side_ending_gone(name);
    assert(!(name + e).contains('/')) by {
        if (name + e).contains('/') {
            let k = choose|k: int| 0 <= k < (name + e).len() && (name + e)[k] == '/';
            if k < name.len() {
                assert(name[k] == '/');
            } else {
                assert(e[k - name.len()] == '/');
            }
        }
    }
    lemma_long_name(dir, name + e);
}

proof fn lemma_side_ending_gone(name: Seq<char>)
    requires
        name.len() > 0,
        name.last() == '4',
    ensures
        proxy_part(name) == name,
{
    reveal_strlit(".partial");
    reveal_strlit(".source-meta");
    reveal_strlit(".source-meta.partial");
    let n = name.len() as int;
    if ends(name, ".source-meta.partial"@) {
        assert(name.subrange(n - 20, n)[19] == 'l');
    }
    if ends(name, ".source-meta"@) {
        assert(name.subrange(n - 12, n)[11] == 'a');
    }
    if ends(name, ".partial"@) {
        assert(name.subrange(n - 8, n)[7] == 'l');
    }
}

proof fn lemma_long_name(dir: Seq<char>, name: Seq<char>)
    requires
        name.len() > 40,
        !name.contains('/'),
    ensures
        name_of(join_path(dir, name)) == Some(name),
{
    assert(seq!['.'].len() == 1);
    assert(seq!['.', '.'].len() == 2);
    lemma_name_of_joined(dir, name);
}

proof fn lemma_component_plain(pieces: Seq<Seq<char>>)
    requires
        forall|i: int| 0 <= i < pieces.len() ==> !(#[trigger] pieces[i]).contains('/'),
    ensures
        crate::paths::last_component(pieces) matches Some(n) ==> !n.contains('/'),
    decreases pieces.len(),
{
    if pieces.len() > 0 {
        assert(pieces[pieces.len() - 1] == pieces.last());
        let front = pieces.drop_last();
        assert forall|i: int| 0 <= i < front.len() implies !(#[trigger] front[i]).contains('/') by {
            assert(front[i] == pieces[i]);
        }
        lemma_component_plain(front);
    }
}

proof fn lemma_stem_plain(path: Seq<char>)
    ensures
        stem_of(path) matches Some(s) ==> !s.contains('/'),
{
    let pieces = crate::text::split(path, '/');
    assert forall|i: int| 0 <= i < pieces.len() implies !(#[trigger] pieces[i]).contains('/') by {
        crate::text::lemma_pieces_plain(path, '/', i);
    }
    lemma_component_plain(pieces);
    if let Some(n) = name_of(path) {
        let s = crate::paths::without_extension(n);
        crate::text::lemma_last_of(n, '.');
        if s.contains('/') {
            let k = choose|k: int| 0 <= k < s.len() && s[k] == '/';
            assert(n[k] == '/');
        }
    }
}

proof fn lemma_plain_name(stem: Seq<char>, source: u64, variant: u64, scale: ProxyScale)
    requires
        !stem.contains('/'),
    ensures
        ({
            let name = assembled_name(stem, source, variant, scale);
            &&& name.len() > 40
            &&& !name.contains('/')
        }),
{
    reveal_strlit("-s");
    reveal_strlit("-v");
    reveal_strlit(".proxy_");
    reveal_strlit(".mp4");
    reveal_strlit("p");
    let height = match scale {
        ProxyScale::MaxHeight(h) => h,
    };
    crate::text::lemma_decimal(height as nat);
    lemma_hex16(source);
    lemma_hex16(variant);
    let name = assembled_name(stem, source, variant, scale);
    let d = decimal(height as nat);
    let n = stem.len() as int;
    if name.contains('/') {
        let k = choose|k: int| 0 <= k < name.len() && name[k] == '/';
        if k < n {
            assert(stem[k] == '/');
        } else if k < n + 2 {
            assert(name[k] == "-s"@[k - n]);
        } else if k < n + 18 {
            assert(name[k] == hex16(source)[k - n - 2]);
        } else if k < n + 20 {
            assert(name[k] == "-v"@[k - n - 18]);
        } else if k < n + 36 {
            assert(name[k] == hex16(variant)[k - n - 20]);
        } else if k < n + 43 {
            assert(name[k] == ".proxy_"@[k - n - 36]);
        } else if k < n + 43 + d.len() {
            assert(name[k] == d[k - n - 43]);
            assert(is_digit(d[k - n - 43]));
        } else if k < n + 44 + d.len() {
            assert(name[k] == 'p');
        } else {
            assert(name[k] == ".mp4"@[k - n - 44 - d.len()]);
        }
    }
}

// --------------------------------------------------------------------- specs
/// A proxy that a project wants.
#[derive(Clone, Debug)]
pub struct ProxyVariantSpec {
    pub source_path: String,
    pub scale: ProxyScale,
    pub lut_path: Option<String>,
    pub codec: ProxyCodec,
    pub vidstab_enabled: bool,
    pub vidstab_smoothing_hundredths: i32,
}

impl ProxyVariantSpec {
    pub open spec fn view(&self) -> VariantView {
        VariantView {
            source: self.source_path@,
            scale: self.scale,
            lut: option_view(self.lut_path),
            codec: self.codec,
            enabled: self.vidstab_enabled,
            hundredths: stabilised(self.vidstab_enabled, self.vidstab_smoothing_hundredths),
        }
    }

    /// A proxy in H.264.
    pub fn new(
        source_path: String,
        scale: ProxyScale,
        lut_path: Option<String>,
        vidstab_enabled: bool,
        hundredths: i32,
    ) -> (r: ProxyVariantSpec)
        ensures
            r.source_path == source_path,
            r.scale == scale,
            r.lut_path == lut_path,
            r.codec == ProxyCodec::H264,
            r.vidstab_enabled == vidstab_enabled,
            r.vidstab_smoothing_hundredths == stabilised(vidstab_enabled, hundredths),
    {
        Self::with_codec(
            source_path,
            scale,
            lut_path,
            ProxyCodec::H264,
            vidstab_enabled,
            hundredths,
        )
    }

    /// A proxy in a given codec.
    pub fn with_codec(
        source_path: String,
        scale: ProxyScale,
        lut_path: Option<String>,
        codec: ProxyCodec,
        vidstab_enabled: bool,
        hundredths: i32,
    ) -> (r: ProxyVariantSpec)
        ensures
            r.source_path == source_path,
            r.scale == scale,
            r.lut_path == lut_path,
            r.codec == codec,
            r.vidstab_enabled == vidstab_enabled,
            r.vidstab_smoothing_hundredths == stabilised(vidstab_enabled, hundredths),
    {
        ProxyVariantSpec {
            source_path,
            scale,
            lut_path,
            codec,
            vidstab_enabled,
            vidstab_smoothing_hundredths: normalized_vidstab_smoothing_hundredths(
                vidstab_enabled,
                hundredths,
            ),
        }
    }

    /// The LUT that is baked in.
    pub fn lut_key(&self) -> (r: Option<&str>)
        ensures
            chars_in(r) == option_view(self.lut_path),
    {
        match &self.lut_path {
            Some(l) => Some(l.as_str()),
            None => None,
        }
    }

    /// The digest of the source path.
    pub fn source_hash(&self) -> (r: u64)
        ensures
            r == text_digest(self.source_path@),
    {
        source_path_hash(&self.source_path)
    }

    /// The path of the proxy under the managed root.
    pub fn local_proxy_path(&self, local_root: &str) -> (r: Option<String>)
        ensures
            option_view(r) == placed(Some(local_root@), variant_name(self@)),
    {
        local_proxy_path_for(
            &Variant {
                source_path: self.source_path.as_str(),
                scale: self.scale,
                lut_path: self.lut_key(),
                codec: self.codec,
                vidstab_enabled: self.vidstab_enabled,
                hundredths: self.vidstab_smoothing_hundredths,
            },
            local_root,
        )
    }

    /// The path of the proxy beside its source.
    pub fn alongside_proxy_path(&self) -> (r: Option<String>)
        ensures
            option_view(r) == placed(sidecar_dir(self.source_path@), variant_name(self@)),
    {
        alongside_proxy_path_for(
            &Variant {
                source_path: self.source_path.as_str(),
                scale: self.scale,
                lut_path: self.lut_key(),
                codec: self.codec,
                vidstab_enabled: self.vidstab_enabled,
                hundredths: self.vidstab_smoothing_hundredths,
            },
        )
    }
}

/// A number brought between bounds lies between them, and stays where it did.
pub proof fn lemma_clamped(n: int, low: int, high: int)
    requires
        low <= high,
    ensures
        low <= clamped(n, low, high) <= high,
        low <= n <= high ==> clamped(n, low, high) == n,
        n < low ==> clamped(n, low, high) == low,
        n > high ==> clamped(n, low, high) == high,
{
}

/// Stabilisation has a strength from nothing to full where it is on, and none where it is off.
pub proof fn lemma_stabilised(hundredths: i32)
    ensures
        stabilised(false, hundredths) == 0,
        0 <= stabilised(true, hundredths) <= 100,
        0 <= hundredths <= 100 ==> stabilised(true, hundredths) == hundredths,
{
}

/// Each thing that is baked in is told in the key: the LUT behind the source, then the
/// stabilisation, then the codec; what is not baked in leaves no trace.
pub proof fn lemma_key_tells(source: Seq<char>, lut: Seq<char>, smoothing: Smoothing)
    requires
        lut.len() > 0,
    ensures
        key_of(source, None, ProxyCodec::H264, false, smoothing) == source,
        key_of(source, Some(lut), ProxyCodec::H264, false, smoothing) == source + "|lut:"@ + lut,
        smoothing.positive ==> key_of(source, None, ProxyCodec::H264, true, smoothing) == source + (
        "|vs:"@ + smoothing.label@),
        !smoothing.positive ==> key_of(source, None, ProxyCodec::H264, true, smoothing) == source,
        key_of(source, None, ProxyCodec::Hevc, false, smoothing) == source + "|c:hevc"@,
        smoothing.positive ==> key_of(source, Some(lut), ProxyCodec::Hevc, true, smoothing)
            == source + "|lut:"@ + lut + ("|vs:"@ + smoothing.label@) + "|c:hevc"@,
{
}

/// Proxies are never taller than the source or the scale, and are named by the scale.
pub proof fn lemma_scale(h: u32)
    ensures
        scale_suffix(ProxyScale::MaxHeight(h)) == decimal(h as nat) + "p"@,
        crate::text::occurs_at(
            scale_filter(ProxyScale::MaxHeight(h)),
            decimal(h as nat),
            "scale=-2:'min("@.len() as int,
        ),
{
    let a = "scale=-2:'min("@;
    let s = scale_filter(ProxyScale::MaxHeight(h));
    assert(s.subrange(a.len() as int, (a.len() + decimal(h as nat).len()) as int) =~= decimal(
        h as nat,
    ));
}

/// The cache beside a source lies in the directory of the source.
pub proof fn lemma_sidecar_dir(dir: Seq<char>, name: Seq<char>)
    requires
        dir.len() > 0,
        dir.last() != '/',
        name.len() > 0,
        !name.contains('/'),
        !crate::paths::is_void_piece(name),
    ensures
        sidecar_dir(join_path(dir, name)) == Some(join_path(dir, "UltimateSlice.cache"@)),
{
    crate::paths::lemma_parent_of_joined(dir, name);
}

/// Every proxy, unfinished proxy and record is known as an artifact by its name.
pub proof fn lemma_names_are_artifacts(stem: Seq<char>, source: u64, variant: u64, scale: ProxyScale)
    ensures
        ({
            let name = assembled_name(stem, source, variant, scale);
            &&& is_artifact(name)
            &&& is_artifact(name + ".partial"@)
            &&& is_artifact(name + ".source-meta"@)
            &&& is_artifact(name + ".source-meta.partial"@)
        }),
{
    let name = assembled_name(stem, source, variant, scale);
    reveal_strlit(".mp4");
    reveal_strlit(".partial");
    reveal_strlit(".source-meta");
    reveal_strlit(".source-meta.partial");
    reveal_strlit(".mp4.partial");
    reveal_strlit(".mp4.source-meta");
    reveal_strlit(".mp4.source-meta.partial");
    assert(".mp4"@ + ".partial"@ =~= ".mp4.partial"@);
    assert(".mp4"@ + ".source-meta"@ =~= ".mp4.source-meta"@);
    assert(".mp4"@ + ".source-meta.partial"@ =~= ".mp4.source-meta.partial"@);
    let head = stem + "-s"@ + hex16(source) + "-v"@ + hex16(variant);
    let bare = head + ".proxy_"@ + scale_suffix(scale);
    assert(name == bare + ".mp4"@);
    lemma_artifact(head, scale_suffix(scale), ".mp4"@);
    lemma_artifact(head, scale_suffix(scale), ".mp4.partial"@);
    lemma_artifact(head, scale_suffix(scale), ".mp4.source-meta"@);
    lemma_artifact(head, scale_suffix(scale), ".mp4.source-meta.partial"@);
    assert(name + ".partial"@ =~= bare + ".mp4.partial"@);
    assert(name + ".source-meta"@ =~= bare + ".mp4.source-meta"@);
    assert(name + ".source-meta.partial"@ =~= bare + ".mp4.source-meta.partial"@);
}

proof fn lemma_artifact(head: Seq<char>, suffix: Seq<char>, ending: Seq<char>)
    requires
        ending == ".mp4"@ || ending == ".mp4.partial"@ || ending == ".mp4.source-meta"@ || ending
            == ".mp4.source-meta.partial"@,
    ensures
        is_artifact(head + ".proxy_"@ + suffix + ending),
{
    let s = head + ".proxy_"@ + suffix + ending;
    assert(s.subrange(head.len() as int, head.len() as int + ".proxy_"@.len()) =~= ".proxy_"@);
    assert(occurs_at(s, ".proxy_"@, head.len() as int));
    assert(s.subrange(s.len() - ending.len(), s.len() as int) =~= ending);
}

} // verus!
