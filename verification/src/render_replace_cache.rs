//! Render and replace: clips with their picture effects baked into a file.
//!
//! What is baked is named by a key over the source and every effect that goes into it: colour,
//! LUTs, denoise, sharpness, blur and plugins. Position, opacity, speed and the like stay live and
//! do not take part in the key.

use crate::args::{arg, arg2};
use crate::cache_support::cache_root;
use crate::digest::{
    digest_of, flag_material, hex16, number_material, push_hex16, text_material, Digest,
};
use crate::model::{Clip, ClipKind, EffectNumber, EffectText, FixedKeyframe, Frei0rEffect};
use crate::paths::join_path;
use crate::proxy_files::SourceSignature;
use crate::sidecars::{
    all_rendered, is_asked, status_of, succeeded, OnDisk, SidecarAnswer, SidecarCache,
    SidecarResult, SidecarStatus, SidecarView,
};
use crate::text::{blank, in_order, join, joined, option_view, owned, same, sorted, trim, views};
use vstd::prelude::*;
use vstd::string::*;

verus! {

/// The most bytes that the cache may take up, unless another cap is set.
pub const DEFAULT_MAX_CACHE_BYTES: u64 = 4_294_967_296;

/// The least cap that can be set.
pub const MIN_CACHE_BYTES: u64 = 268_435_456;

/// Whether clips of a kind have a single media file that can be baked.
pub fn is_bakeable_kind(kind: &ClipKind) -> (r: bool)
    ensures
        r == is_bakeable(*kind),
{
    match kind {
        ClipKind::Video => true,
        ClipKind::Image => true,
        ClipKind::Audio => true,
        _ => false,
    }
}

/// Whether clips of a kind have a single media file that can be baked.
pub open spec fn is_bakeable(kind: ClipKind) -> bool {
    kind == ClipKind::Video || kind == ClipKind::Image || kind == ClipKind::Audio
}

// ----------------------------------------------------------------------- key
/// What is baked: the part of the source, and the effects. Colour values are in ten-thousandths,
/// the temperature in tenths.
pub struct BakedFields<'a> {
    pub source_path: &'a str,
    pub source_in: u64,
    pub source_out: u64,
    pub brightness: i64,
    pub contrast: i64,
    pub saturation: i64,
    pub temperature: i64,
    pub tint: i64,
    pub exposure: i64,
    pub black_point: i64,
    pub shadows: i64,
    pub highlights: i64,
    pub denoise: i64,
    pub sharpness: i64,
    pub blur: i64,
    pub lut_paths: &'a Vec<String>,
    pub frei0r_effects: &'a Vec<Frei0rEffect>,
    pub brightness_keyframes: &'a Vec<FixedKeyframe>,
    pub contrast_keyframes: &'a Vec<FixedKeyframe>,
    pub saturation_keyframes: &'a Vec<FixedKeyframe>,
    pub temperature_keyframes: &'a Vec<FixedKeyframe>,
    pub tint_keyframes: &'a Vec<FixedKeyframe>,
}

/// What is baked, as plain values.
pub struct BakedView {
    pub source_path: Seq<char>,
    pub source_in: u64,
    pub source_out: u64,
    pub brightness: i64,
    pub contrast: i64,
    pub saturation: i64,
    pub temperature: i64,
    pub tint: i64,
    pub exposure: i64,
    pub black_point: i64,
    pub shadows: i64,
    pub highlights: i64,
    pub denoise: i64,
    pub sharpness: i64,
    pub blur: i64,
    pub luts: Seq<Seq<char>>,
    pub effects: Seq<Frei0rEffect>,
    pub brightness_keyframes: Seq<FixedKeyframe>,
    pub contrast_keyframes: Seq<FixedKeyframe>,
    pub saturation_keyframes: Seq<FixedKeyframe>,
    pub temperature_keyframes: Seq<FixedKeyframe>,
    pub tint_keyframes: Seq<FixedKeyframe>,
}

impl BakedFields<'_> {
    pub open spec fn view(&self) -> BakedView {
        BakedView {
            source_path: self.source_path@,
            source_in: self.source_in,
            source_out: self.source_out,
            brightness: self.brightness,
            contrast: self.contrast,
            saturation: self.saturation,
            temperature: self.temperature,
            tint: self.tint,
            exposure: self.exposure,
            black_point: self.black_point,
            shadows: self.shadows,
            highlights: self.highlights,
            denoise: self.denoise,
            sharpness: self.sharpness,
            blur: self.blur,
            luts: views(self.lut_paths@),
            effects: self.frei0r_effects@,
            brightness_keyframes: self.brightness_keyframes@,
            contrast_keyframes: self.contrast_keyframes@,
            saturation_keyframes: self.saturation_keyframes@,
            temperature_keyframes: self.temperature_keyframes@,
            tint_keyframes: self.tint_keyframes@,
        }
    }
}

/// What a signed number adds to a digest.
pub open spec fn signed_material(n: i64) -> Seq<Seq<u8>> {
    number_material((n as u64) as nat, 8)
}

/// What a source file adds to a digest: its path, and its size and time of change where it is
/// there.
pub open spec fn source_material(path: Seq<char>, stamp: Option<SourceSignature>) -> Seq<Seq<u8>> {
    text_material(path) + (match stamp {
        Some(s) => number_material(s.len as nat, 8) + number_material(s.modified_secs as nat, 8)
            + number_material(s.modified_nanos as nat, 4),
        None => Seq::empty(),
    })
}

/// What the colour values and the like add to a digest.
pub open spec fn values_material(f: BakedView) -> Seq<Seq<u8>> {
    signed_material(f.brightness) + signed_material(f.contrast) + signed_material(f.saturation)
        + signed_material(f.temperature) + signed_material(f.tint) + signed_material(f.exposure)
        + signed_material(f.black_point) + signed_material(f.shadows) + signed_material(
        f.highlights,
    ) + signed_material(f.denoise) + signed_material(f.sharpness) + signed_material(f.blur)
}

/// What the first `n` texts add to a digest.
pub open spec fn texts_material(texts: Seq<Seq<char>>, n: nat) -> Seq<Seq<u8>>
    decreases n,
{
    if n == 0 {
        Seq::empty()
    } else {
        texts_material(texts, (n - 1) as nat) + text_material(texts[n - 1])
    }
}

/// The names of parameters.
pub open spec fn number_names(p: Seq<EffectNumber>) -> Seq<Seq<char>> {
    p.map_values(|x: EffectNumber| x.name@)
}

/// The names of text parameters.
pub open spec fn text_names(p: Seq<EffectText>) -> Seq<Seq<char>> {
    p.map_values(|x: EffectText| x.name@)
}

/// The value of the first parameter with a name.
pub open spec fn number_under(p: Seq<EffectNumber>, name: Seq<char>) -> i64
    decreases p.len(),
{
    if p.len() == 0 {
        0
    } else if p[0].name@ == name {
        p[0].value
    } else {
        number_under(p.drop_first(), name)
    }
}

/// The value of the first text parameter with a name.
pub open spec fn text_under(p: Seq<EffectText>, name: Seq<char>) -> Seq<char>
    decreases p.len(),
{
    if p.len() == 0 {
        Seq::empty()
    } else if p[0].name@ == name {
        p[0].value@
    } else {
        text_under(p.drop_first(), name)
    }
}

/// What parameters add to a digest, for the first `n` of their names in order.
pub open spec fn numbers_material(p: Seq<EffectNumber>, names: Seq<Seq<char>>, n: nat) -> Seq<Seq<u8>>
    decreases n,
{
    if n == 0 {
        Seq::empty()
    } else {
        numbers_material(p, names, (n - 1) as nat) + text_material(names[n - 1]) + signed_material(
            number_under(p, names[n - 1]),
        )
    }
}

/// What text parameters add to a digest, for the first `n` of their names in order.
pub open spec fn strings_material(p: Seq<EffectText>, names: Seq<Seq<char>>, n: nat) -> Seq<Seq<u8>>
    decreases n,
{
    if n == 0 {
        Seq::empty()
    } else {
        strings_material(p, names, (n - 1) as nat) + text_material(names[n - 1]) + text_material(
            text_under(p, names[n - 1]),
        )
    }
}

/// What a plugin effect adds to a digest. Its parameters take part in the order of their names.
pub open spec fn effect_material(e: Frei0rEffect) -> Seq<Seq<u8>> {
    let numbers = sorted(number_names(e.params@));
    let texts = sorted(text_names(e.string_params@));
    text_material(e.plugin_name@) + flag_material(e.enabled) + numbers_material(
        e.params@,
        numbers,
        numbers.len(),
    ) + strings_material(e.string_params@, texts, texts.len())
}

/// What the first `n` plugin effects add to a digest.
pub open spec fn effects_material(effects: Seq<Frei0rEffect>, n: nat) -> Seq<Seq<u8>>
    decreases n,
{
    if n == 0 {
        Seq::empty()
    } else {
        effects_material(effects, (n - 1) as nat) + effect_material(effects[n - 1])
    }
}

/// What the first `n` keyframes add to a digest.
pub open spec fn keyframes_material(k: Seq<FixedKeyframe>, n: nat) -> Seq<Seq<u8>>
    decreases n,
{
    if n == 0 {
        Seq::empty()
    } else {
        keyframes_material(k, (n - 1) as nat) + number_material(k[n - 1].time_ns as nat, 8)
            + signed_material(k[n - 1].value)
    }
}

/// What goes into the key of what is baked.
pub open spec fn baked_material(f: BakedView, stamp: Option<SourceSignature>) -> Seq<Seq<u8>> {
    source_material(f.source_path, stamp) + number_material(f.source_in as nat, 8)
        + number_material(f.source_out as nat, 8) + values_material(f) + texts_material(
        f.luts,
        f.luts.len(),
    ) + effects_material(f.effects, f.effects.len()) + keyframes_material(
        f.brightness_keyframes,
        f.brightness_keyframes.len(),
    ) + keyframes_material(f.contrast_keyframes, f.contrast_keyframes.len()) + keyframes_material(
        f.saturation_keyframes,
        f.saturation_keyframes.len(),
    ) + keyframes_material(f.temperature_keyframes, f.temperature_keyframes.len())
        + keyframes_material(f.tint_keyframes, f.tint_keyframes.len())
}

/// The key of what is baked.
pub open spec fn baked_key(f: BakedView, stamp: Option<SourceSignature>) -> Seq<char> {
    "rr_"@ + hex16(digest_of(baked_material(f, stamp)))
}

fn add_signed(d: &mut Digest, n: i64)
    ensures
        final(d)@ == old(d)@ + signed_material(n),
{
    d.add_number(n as u64);
}

fn find_number(p: &Vec<EffectNumber>, name: &str) -> (r: i64)
    ensures
        r == number_under(p@, name@),
{
    let mut i: usize = 0;
    proof {
        assert(p@.subrange(0, p@.len() as int) =~= p@);
    }
    while i < p.len()
        invariant
            i <= p@.len(),
            number_under(p@, name@) == number_under(p@.subrange(i as int, p@.len() as int), name@),
        decreases p.len() - i,
    {
        proof {
            assert(p@.subrange(i as int, p@.len() as int).drop_first() =~= p@.subrange(
                i + 1,
                p@.len() as int,
            ));
        }
        if same(&p[i].name, name) {
            return p[i].value;
        }
        i = i + 1;
    }
    0
}

fn find_text(p: &Vec<EffectText>, name: &str) -> (r: String)
    ensures
        r@ == text_under(p@, name@),
{
    let mut i: usize = 0;
    proof {
        assert(p@.subrange(0, p@.len() as int) =~= p@);
    }
    while i < p.len()
        invariant
            i <= p@.len(),
            text_under(p@, name@) == text_under(p@.subrange(i as int, p@.len() as int), name@),
        decreases p.len() - i,
    {
        proof {
            assert(p@.subrange(i as int, p@.len() as int).drop_first() =~= p@.subrange(
                i + 1,
                p@.len() as int,
            ));
        }
        if same(&p[i].name, name) {
            return p[i].value.clone();
        }
        i = i + 1;
    }
    let r = String::new();
    proof {
        assert(r@ =~= Seq::<char>::empty());
    }
    r
}

fn add_numbers(d: &mut Digest, p: &Vec<EffectNumber>)
    ensures
        ({
            let names = sorted(number_names(p@));
            final(d)@ == old(d)@ + numbers_material(p@, names, names.len())
        }),
{
    let ghost before = d@;
    let mut names: Vec<String> = Vec::new();
    let mut i: usize = 0;
    while i < p.len()
        invariant
            i <= p@.len(),
            names@.len() == i,
            forall|k: int| 0 <= k < i ==> (#[trigger] names@[k])@ == p@[k].name@,
        decreases p.len() - i,
    {
        names.push(p[i].name.clone());
        i = i + 1;
    }
    proof {
        assert(views(names@) =~= number_names(p@));
    }
    let ordered: Vec<String> = in_order(&names);
    let ghost o = views(ordered@);
    let mut j: usize = 0;
    proof {
        assert(before + numbers_material(p@, o, 0) =~= before);
    }
    while j < ordered.len()
        invariant
            j <= ordered@.len(),
            o == views(ordered@),
            d@ == before + numbers_material(p@, o, j as nat),
        decreases ordered.len() - j,
    {
        proof {
            assert(o[j as int] == ordered@[j as int]@);
        }
        d.add_text(&ordered[j]);
        add_signed(d, find_number(p, &ordered[j]));
        proof {
            assert(d@ =~= before + numbers_material(p@, o, (j + 1) as nat));
        }
        j = j + 1;
    }
    proof {
        assert(o.len() == ordered@.len());
    }
}

fn add_strings(d: &mut Digest, p: &Vec<EffectText>)
    ensures
        ({
            let names = sorted(text_names(p@));
            final(d)@ == old(d)@ + strings_material(p@, names, names.len())
        }),
{
    let ghost before = d@;
    let mut names: Vec<String> = Vec::new();
    let mut i: usize = 0;
    while i < p.len()
        invariant
            i <= p@.len(),
            names@.len() == i,
            forall|k: int| 0 <= k < i ==> (#[trigger] names@[k])@ == p@[k].name@,
        decreases p.len() - i,
    {
        names.push(p[i].name.clone());
        i = i + 1;
    }
    proof {
        assert(views(names@) =~= text_names(p@));
    }
    let ordered: Vec<String> = in_order(&names);
    let ghost o = views(ordered@);
    let mut j: usize = 0;
    proof {
        assert(before + strings_material(p@, o, 0) =~= before);
    }
    while j < ordered.len()
        invariant
            j <= ordered@.len(),
            o == views(ordered@),
            d@ == before + strings_material(p@, o, j as nat),
        decreases ordered.len() - j,
    {
        proof {
            assert(o[j as int] == ordered@[j as int]@);
        }
        d.add_text(&ordered[j]);
        d.add_text(&find_text(p, &ordered[j]));
        proof {
            assert(d@ =~= before + strings_material(p@, o, (j + 1) as nat));
        }
        j = j + 1;
    }
    proof {
        assert(o.len() == ordered@.len());
    }
}

fn add_effects(d: &mut Digest, effects: &Vec<Frei0rEffect>)
    ensures
        final(d)@ == old(d)@ + effects_material(effects@, effects@.len()),
{
    let ghost before = d@;
    let mut i: usize = 0;
    proof {
        assert(before + effects_material(effects@, 0) =~= before);
    }
    while i < effects.len()
        invariant
            i <= effects@.len(),
            d@ == before + effects_material(effects@, i as nat),
        decreases effects.len() - i,
    {
        let e: &Frei0rEffect = &effects[i];
        d.add_text(&e.plugin_name);
        d.add_flag(e.enabled);
        add_numbers(d, &e.params);
        add_strings(d, &e.string_params);
        proof {
            assert(d@ =~= before + effects_material(effects@, (i + 1) as nat));
        }
        i = i + 1;
    }
}

fn add_keyframes(d: &mut Digest, k: &Vec<FixedKeyframe>)
    ensures
        final(d)@ == old(d)@ + keyframes_material(k@, k@.len()),
{
    let ghost before = d@;
    let mut i: usize = 0;
    proof {
        assert(before + keyframes_material(k@, 0) =~= before);
    }
    while i < k.len()
        invariant
            i <= k@.len(),
            d@ == before + keyframes_material(k@, i as nat),
        decreases k.len() - i,
    {
        d.add_number(k[i].time_ns);
        add_signed(d, k[i].value);
        proof {
            assert(d@ =~= before + keyframes_material(k@, (i + 1) as nat));
        }
        i = i + 1;
    }
}

fn add_values(d: &mut Digest, f: &BakedFields)
    ensures
        final(d)@ == old(d)@ + values_material(f@),
{
    let ghost before = d@;
    add_signed(d, f.brightness);
    add_signed(d, f.contrast);
    add_signed(d, f.saturation);
    add_signed(d, f.temperature);
    add_signed(d, f.tint);
    add_signed(d, f.exposure);
    add_signed(d, f.black_point);
    add_signed(d, f.shadows);
    add_signed(d, f.highlights);
    add_signed(d, f.denoise);
    add_signed(d, f.sharpness);
    add_signed(d, f.blur);
    proof {
        assert(d@ =~= before + values_material(f@));
    }
}

fn add_luts(d: &mut Digest, luts: &Vec<String>)
    ensures
        final(d)@ == old(d)@ + texts_material(views(luts@), luts@.len()),
{
    let ghost before = d@;
    let ghost v = views(luts@);
    let mut i: usize = 0;
    proof {
        assert(before + texts_material(v, 0) =~= before);
    }
    while i < luts.len()
        invariant
            i <= luts@.len(),
            v == views(luts@),
            d@ == before + texts_material(v, i as nat),
        decreases luts.len() - i,
    {
        d.add_text(&luts[i]);
        proof {
            assert(v[i as int] == luts@[i as int]@);
            assert(d@ =~= before + texts_material(v, (i + 1) as nat));
        }
        i = i + 1;
    }
}

fn add_source(d: &mut Digest, path: &str, stamp: Option<SourceSignature>)
    ensures
        final(d)@ == old(d)@ + source_material(path@, stamp),
{
    let ghost before = d@;
    d.add_text(path);
    if let Some(s) = stamp {
        d.add_number(s.len);
        d.add_number(s.modified_secs);
        d.add_low_bytes(s.modified_nanos as u64, 4);
    }
    proof {
        assert(d@ =~= before + source_material(path@, stamp));
    }
}

/// The key of what is baked. `stamp` tells size and time of change of the source, where it is
/// there.
pub fn cache_key_for_program_clip_fields(f: &BakedFields, stamp: Option<SourceSignature>) -> (r: String)
    ensures
        r@ == baked_key(f@, stamp),
{
    let mut d = Digest::new();
    add_source(&mut d, f.source_path, stamp);
    d.add_number(f.source_in);
    d.add_number(f.source_out);
    add_values(&mut d, f);
    add_luts(&mut d, f.lut_paths);
    add_effects(&mut d, f.frei0r_effects);
    add_keyframes(&mut d, f.brightness_keyframes);
    add_keyframes(&mut d, f.contrast_keyframes);
    add_keyframes(&mut d, f.saturation_keyframes);
    add_keyframes(&mut d, f.temperature_keyframes);
    add_keyframes(&mut d, f.tint_keyframes);
    proof {
        assert(views(f.lut_paths@).len() == f.lut_paths@.len());
        assert(d@ =~= baked_material(f@, stamp));
    }
    let mut r = owned("rr_");
    push_hex16(&mut r, d.finish());
    r
}

/// What is baked of a clip.
pub open spec fn baked_of(c: Clip) -> BakedView {
    BakedView {
        source_path: c.source_path@,
        source_in: c.source_in,
        source_out: c.source_out,
        brightness: c.brightness,
        contrast: c.contrast,
        saturation: c.saturation,
        temperature: c.temperature,
        tint: c.tint,
        exposure: c.exposure,
        black_point: c.black_point,
        shadows: c.shadows,
        highlights: c.highlights,
        denoise: c.denoise,
        sharpness: c.sharpness,
        blur: c.blur,
        luts: views(c.lut_paths@),
        effects: c.frei0r_effects@,
        brightness_keyframes: c.brightness_keyframes@,
        contrast_keyframes: c.contrast_keyframes@,
        saturation_keyframes: c.saturation_keyframes@,
        temperature_keyframes: c.temperature_keyframes@,
        tint_keyframes: c.tint_keyframes@,
    }
}

/// What is baked of a clip.
pub fn baked_fields<'a>(clip: &'a Clip) -> (r: BakedFields<'a>)
    ensures
        r@ == baked_of(*clip),
{
    BakedFields {
        source_path: clip.source_path.as_str(),
        source_in: clip.source_in,
        source_out: clip.source_out,
        brightness: clip.brightness,
        contrast: clip.contrast,
        saturation: clip.saturation,
        temperature: clip.temperature,
        tint: clip.tint,
        exposure: clip.exposure,
        black_point: clip.black_point,
        shadows: clip.shadows,
        highlights: clip.highlights,
        denoise: clip.denoise,
        sharpness: clip.sharpness,
        blur: clip.blur,
        lut_paths: &clip.lut_paths,
        frei0r_effects: &clip.frei0r_effects,
        brightness_keyframes: &clip.brightness_keyframes,
        contrast_keyframes: &clip.contrast_keyframes,
        saturation_keyframes: &clip.saturation_keyframes,
        temperature_keyframes: &clip.temperature_keyframes,
        tint_keyframes: &clip.tint_keyframes,
    }
}

/// The key of a clip.
pub open spec fn clip_key(c: Clip, stamp: Option<SourceSignature>) -> Seq<char> {
    baked_key(baked_of(c), stamp)
}

/// The key of a clip.
pub fn cache_key_for_clip(clip: &Clip, stamp: Option<SourceSignature>) -> (r: String)
    ensures
        r@ == clip_key(*clip, stamp),
{
    let f = baked_fields(clip);
    cache_key_for_program_clip_fields(&f, stamp)
}

/// Editing what stays live keeps the key: whatever place, name, size, position, opacity, rotation
/// and length on the timeline a clip is given, its key is the same.
pub proof fn lemma_live_edits_keep_key(a: Clip, b: Clip, stamp: Option<SourceSignature>)
    requires
        b == (Clip {
            id: b.id,
            label: b.label,
            timeline_start: b.timeline_start,
            retimed_duration_ns: b.retimed_duration_ns,
            scale: b.scale,
            position_x: b.position_x,
            position_y: b.position_y,
            opacity: b.opacity,
            rotate: b.rotate,
            flip_h: b.flip_h,
            flip_v: b.flip_v,
            scale_keyframes: b.scale_keyframes,
            position_x_keyframes: b.position_x_keyframes,
            position_y_keyframes: b.position_y_keyframes,
            rotate_keyframes: b.rotate_keyframes,
            masks: b.masks,
            ..a
        }),
    ensures
        clip_key(a, stamp) == clip_key(b, stamp),
{
}

// ------------------------------------------------------------------- filters
/// The texts that are not empty.
pub open spec fn filled(parts: Seq<Seq<char>>) -> Seq<Seq<char>>
    decreases parts.len(),
{
    if parts.len() == 0 {
        Seq::empty()
    } else if parts.last().len() > 0 {
        filled(parts.drop_last()).push(parts.last())
    } else {
        filled(parts.drop_last())
    }
}

/// The filter that bakes: the filters of the effects with commas between them, and one that does
/// nothing where there are none.
pub open spec fn bake_filter(parts: Seq<Seq<char>>) -> Seq<char> {
    if filled(parts).len() == 0 {
        "null"@
    } else {
        join(filled(parts), ","@)
    }
}

/// The filter that bakes, from the filters of LUTs, colour, denoise, sharpness, blur and plugins.
pub fn build_bake_video_filter(parts: &Vec<String>) -> (r: String)
    ensures
        r@ == bake_filter(views(parts@)),
{
    let ghost all = views(parts@);
    let mut kept: Vec<String> = Vec::new();
    let mut i: usize = 0;
    proof {
        assert(all.subrange(0, 0) =~= Seq::empty());
        assert(views(kept@) =~= Seq::empty());
    }
    while i < parts.len()
        invariant
            i <= parts@.len(),
            all == views(parts@),
            views(kept@) == filled(all.subrange(0, i as int)),
        decreases parts.len() - i,
    {
        let ghost k0 = kept@;
        proof {
            let next = all.subrange(0, i + 1);
            assert(next.drop_last() =~= all.subrange(0, i as int));
            assert(next.last() == parts@[i as int]@);
        }
        if !parts[i].as_str().is_empty() {
            kept.push(parts[i].clone());
            proof {
                assert(views(kept@) =~= views(k0).push(parts@[i as int]@));
            }
        }
        i = i + 1;
    }
    proof {
        assert(all.subrange(0, i as int) =~= all);
        assert(views(kept@).len() == kept@.len());
    }
    if kept.len() == 0 {
        owned("null")
    } else {
        joined(&kept, ",")
    }
}

/// A clip that has to be baked. The times are in nanoseconds.
#[derive(Debug)]
pub struct RenderReplaceJob {
    pub cache_key: String,
    pub source_path: String,
    pub output_path: String,
    pub video_filter: String,
    pub start_ns: u64,
    pub duration_ns: u64,
    pub remove_stale: bool,
}

/// The command line that bakes. `duration` is empty where the rest of the source is taken.
pub open spec fn bake_command(
    source: Seq<char>,
    output: Seq<char>,
    filter: Seq<char>,
    start: Seq<char>,
    duration: Seq<char>,
) -> Seq<Seq<char>> {
    seq!["-y"@, "-loglevel"@, "warning"@, "-ss"@, start] + (if duration.len() > 0 {
        seq!["-t"@, duration]
    } else {
        Seq::empty()
    }) + seq!["-i"@, source, "-map"@, "0:v:0?"@, "-map"@, "0:a?"@] + (if filter.len() > 0 {
        seq!["-vf"@, filter]
    } else {
        Seq::empty()
    }) + seq![
        "-c:v"@,
        "prores_ks"@,
        "-profile:v"@,
        "3"@,
        "-vendor"@,
        "apl0"@,
        "-pix_fmt"@,
        "yuv422p10le"@,
        "-c:a"@,
        "pcm_s24le"@,
        "-movflags"@,
        "+faststart"@,
        output,
    ]
}

/// Whether a duration is long enough to be given: above a millisecond.
pub fn has_duration(duration_ns: u64) -> (r: bool)
    ensures
        r == (duration_ns > 1_000_000),
{
    duration_ns > 1_000_000
}

/// The command line that bakes. The times are written in seconds.
pub fn render_replace_args(job: &RenderReplaceJob, start: &str, duration: &str) -> (r: Vec<String>)
    ensures
        views(r@) == bake_command(
            job.source_path@,
            job.output_path@,
            job.video_filter@,
            start@,
            duration@,
        ),
{
    let mut r: Vec<String> = Vec::new();
    arg(&mut r, "-y");
    arg2(&mut r, "-loglevel", "warning");
    arg2(&mut r, "-ss", start);
    if !duration.is_empty() {
        arg2(&mut r, "-t", duration);
    }
    arg2(&mut r, "-i", &job.source_path);
    arg2(&mut r, "-map", "0:v:0?");
    arg2(&mut r, "-map", "0:a?");
    if !job.video_filter.as_str().is_empty() {
        arg2(&mut r, "-vf", &job.video_filter);
    }
    let ghost head = views(r@);
    proof {
        assert(head =~= seq!["-y"@, "-loglevel"@, "warning"@, "-ss"@, start@] + (if duration@.len()
            > 0 {
            seq!["-t"@, duration@]
        } else {
            Seq::empty()
        }) + seq!["-i"@, job.source_path@, "-map"@, "0:v:0?"@, "-map"@, "0:a?"@] + (
        if job.video_filter@.len() > 0 {
            seq!["-vf"@, job.video_filter@]
        } else {
            Seq::empty()
        }));
    }
    arg2(&mut r, "-c:v", "prores_ks");
    arg2(&mut r, "-profile:v", "3");
    arg2(&mut r, "-vendor", "apl0");
    arg2(&mut r, "-pix_fmt", "yuv422p10le");
    arg2(&mut r, "-c:a", "pcm_s24le");
    arg2(&mut r, "-movflags", "+faststart");
    arg(&mut r, &job.output_path);
    proof {
        assert(views(r@) =~= head + seq![
            "-c:v"@,
            "prores_ks"@,
            "-profile:v"@,
            "3"@,
            "-vendor"@,
            "apl0"@,
            "-pix_fmt"@,
            "yuv422p10le"@,
            "-c:a"@,
            "pcm_s24le"@,
            "-movflags"@,
            "+faststart"@,
            job.output_path@,
        ]);
    }
    r
}

// --------------------------------------------------------------------- cache
/// How far the renderings have come.
#[derive(Debug, Clone, Copy, PartialEq, Eq, Structural)]
pub struct RenderReplaceProgress {
    pub total: usize,
    pub completed: usize,
    pub in_flight: bool,
}

/// How it stands with a clip.
#[derive(Debug, Clone, Copy, PartialEq, Eq, Structural)]
pub enum RenderReplaceStatus {
    Idle,
    Pending,
    Ready,
    Failed,
}

/// What asking for a baked clip asks of the caller.
#[derive(Debug)]
pub enum RenderReplaceAnswer {
    Nothing,
    Touch { path: String },
    Render(RenderReplaceJob),
}

/// The baked clips.
pub struct RenderReplaceCache {
    pub sidecars: SidecarCache,
    pub cache_cap_bytes: u64,
}

/// Whether a clip can be baked at all.
pub open spec fn can_be_baked(c: Clip) -> bool {
    is_bakeable(c.kind) && trim(c.source_path@).len() > 0
}

/// Whether an answer is the one of the cache of files.
pub open spec fn answers(
    r: RenderReplaceAnswer,
    a: SidecarAnswer,
    key: Seq<char>,
    path: Seq<char>,
    c: Clip,
    filter: Seq<char>,
) -> bool {
    match r {
        RenderReplaceAnswer::Nothing => a is Nothing,
        RenderReplaceAnswer::Touch { path: p } => a == (SidecarAnswer::Touch { path: p }),
        RenderReplaceAnswer::Render(j) => {
            &&& a == (SidecarAnswer::Render { remove_stale: j.remove_stale })
            &&& j.cache_key@ == key
            &&& j.source_path@ == c.source_path@
            &&& j.output_path@ == path
            &&& j.video_filter@ == filter
            &&& j.start_ns == c.source_in
            &&& j.duration_ns == (if c.source_out > c.source_in {
                c.source_out - c.source_in
            } else {
                0
            })
        },
    }
}

/// What asking for a baked clip does, its key being `key`.
pub open spec fn is_baking_asked(
    s: SidecarView,
    t: SidecarView,
    root: Seq<char>,
    key: Seq<char>,
    c: Clip,
    filter: Seq<char>,
    disk: OnDisk,
    r: RenderReplaceAnswer,
) -> bool {
    exists|a: SidecarAnswer| #[trigger]
        is_asked(s, t, key, join_path(root, key + ".mov"@), disk, a) && answers(
            r,
            a,
            key,
            join_path(root, key + ".mov"@),
            c,
            filter,
        )
}

impl RenderReplaceCache {
    pub open spec fn view(&self) -> SidecarView {
        self.sidecars@
    }

    pub open spec fn wf(&self) -> bool {
        self.sidecars.wf()
    }

    /// An empty cache over a directory, with the default cap.
    pub fn new(cache_root: String) -> (r: RenderReplaceCache)
        ensures
            r.wf(),
            r.sidecars.cache_root == cache_root,
            r.cache_cap_bytes == DEFAULT_MAX_CACHE_BYTES,
            r@ == (SidecarView {
                paths: Map::empty(),
                pending: Set::empty(),
                failed: Set::empty(),
                total: 0,
            }),
    {
        RenderReplaceCache {
            sidecars: SidecarCache::new(cache_root),
            cache_cap_bytes: DEFAULT_MAX_CACHE_BYTES,
        }
    }

    /// The file of a key.
    pub fn output_path_for_key(&self, key: &str) -> (r: String)
        ensures
            r@ == join_path(self.sidecars.cache_root@, key@ + ".mov"@),
    {
        self.sidecars.output_path(key, ".mov")
    }

    /// Sets the cap, at least the smallest.
    pub fn set_cache_cap_bytes(&mut self, bytes: u64)
        requires
            old(self).wf(),
        ensures
            final(self).sidecars == old(self).sidecars,
            final(self).cache_cap_bytes == (if bytes < MIN_CACHE_BYTES {
                MIN_CACHE_BYTES
            } else {
                bytes
            }),
    {
        self.cache_cap_bytes = if bytes < MIN_CACHE_BYTES {
            MIN_CACHE_BYTES
        } else {
            bytes
        };
    }

    /// Asks for a baked clip. `stamp` tells size and time of change of its source, `disk` what lies
    /// at its file, `filter` what is baked. Clips without a media file of their own are passed
    /// over.
    pub fn request(
        &mut self,
        clip: &Clip,
        stamp: Option<SourceSignature>,
        filter: &str,
        disk: OnDisk,
    ) -> (r: RenderReplaceAnswer)
        requires
            old(self).wf(),
            old(self).sidecars.total_requested < usize::MAX,
        ensures
            final(self).wf(),
            final(self).sidecars.cache_root == old(self).sidecars.cache_root,
            final(self).cache_cap_bytes == old(self).cache_cap_bytes,
            !can_be_baked(*clip) ==> r is Nothing && final(self)@ == old(self)@,
            can_be_baked(*clip) ==> is_baking_asked(
                old(self)@,
                final(self)@,
                old(self).sidecars.cache_root@,
                clip_key(*clip, stamp),
                *clip,
                filter@,
                disk,
                r,
            ),
    {
        if !is_bakeable_kind(&clip.kind) || blank(&clip.source_path) {
            return RenderReplaceAnswer::Nothing;
        }
        let key = cache_key_for_clip(clip, stamp);
        let output_path = self.output_path_for_key(&key);
        let ghost s = self@;
        let ghost root = self.sidecars.cache_root@;
        let a = self.sidecars.ask(&key, &output_path, disk);
        let ghost k = key@;
        let r = match a {
            SidecarAnswer::Nothing => RenderReplaceAnswer::Nothing,
            SidecarAnswer::Touch { path } => RenderReplaceAnswer::Touch { path },
            SidecarAnswer::Render { remove_stale } => RenderReplaceAnswer::Render(
                RenderReplaceJob {
                    cache_key: key,
                    source_path: clip.source_path.clone(),
                    output_path,
                    video_filter: owned(filter),
                    start_ns: clip.source_in,
                    duration_ns: if clip.source_out > clip.source_in {
                        clip.source_out - clip.source_in
                    } else {
                        0
                    },
                    remove_stale,
                },
            ),
        };
        proof {
            assert(is_asked(s, self@, k, join_path(root, k + ".mov"@), disk, a));
            assert(is_baking_asked(s, self@, root, k, *clip, filter@, disk, r));
        }
        r
    }

    /// Takes in renderings that came back. Returns the keys that became ready.
    pub fn poll(&mut self, done: Vec<SidecarResult>) -> (r: Vec<String>)
        requires
            old(self).wf(),
        ensures
            final(self).wf(),
            final(self).sidecars.cache_root == old(self).sidecars.cache_root,
            final(self).cache_cap_bytes == old(self).cache_cap_bytes,
            final(self)@ == all_rendered(old(self)@, done@),
            views(r@) == succeeded(done@),
    {
        self.sidecars.poll(done)
    }

    /// How far the renderings have come.
    pub fn progress(&self) -> (r: RenderReplaceProgress)
        requires
            self.wf(),
        ensures
            r.total == self.sidecars.total_requested,
            r.completed == self.sidecars.paths.names().len(),
            r.in_flight == (self@.pending != Set::<Seq<char>>::empty()),
    {
        let p = self.sidecars.progress();
        RenderReplaceProgress { total: p.total, completed: p.completed, in_flight: p.in_flight }
    }

    /// The baked file of a clip, if it is ready.
    pub fn get_path(&self, clip: &Clip, stamp: Option<SourceSignature>) -> (r: Option<&String>)
        requires
            self.wf(),
        ensures
            ({
                let key = clip_key(*clip, stamp);
                match r {
                    Some(p) => self@.paths.dom().contains(key) && self@.paths[key] == p@,
                    None => !self@.paths.dom().contains(key),
                }
            }),
    {
        let key = cache_key_for_clip(clip, stamp);
        self.sidecars.get(&key)
    }

    /// How it stands with a clip.
    pub fn status(&self, clip: &Clip, stamp: Option<SourceSignature>) -> (r: RenderReplaceStatus)
        requires
            self.wf(),
        ensures
            r == (match status_of(self@, clip_key(*clip, stamp)) {
                SidecarStatus::Idle => RenderReplaceStatus::Idle,
                SidecarStatus::Pending => RenderReplaceStatus::Pending,
                SidecarStatus::Ready => RenderReplaceStatus::Ready,
                SidecarStatus::Failed => RenderReplaceStatus::Failed,
            }),
    {
        let key = cache_key_for_clip(clip, stamp);
        match self.sidecars.status(&key) {
            SidecarStatus::Idle => RenderReplaceStatus::Idle,
            SidecarStatus::Pending => RenderReplaceStatus::Pending,
            SidecarStatus::Ready => RenderReplaceStatus::Ready,
            SidecarStatus::Failed => RenderReplaceStatus::Failed,
        }
    }

    /// Lets a clip that failed be asked for again; says whether it had failed.
    pub fn retry(&mut self, clip: &Clip, stamp: Option<SourceSignature>) -> (r: bool)
        requires
            old(self).wf(),
        ensures
            final(self).wf(),
            final(self).sidecars.cache_root == old(self).sidecars.cache_root,
            final(self).cache_cap_bytes == old(self).cache_cap_bytes,
            r == old(self)@.failed.contains(clip_key(*clip, stamp)),
            final(self)@ == (SidecarView {
                failed: old(self)@.failed.remove(clip_key(*clip, stamp)),
                ..old(self)@
            }),
    {
        let key = cache_key_for_clip(clip, stamp);
        self.sidecars.retry(&key)
    }
}

/// The directory of the rendered clips, from the environment.
pub fn cache_root_dir(cache_home: &Option<String>, home: &Option<String>) -> (r: String)
    ensures
        r@ == cache_root("render_replace"@, option_view(*cache_home), option_view(*home)),
{
    crate::cache_support::cache_root_dir("render_replace", cache_home, home)
}

/// A clip that has to be baked is baked from where it begins in its source, as long as it is, with
/// its filter, to the file of its key.
pub proof fn lemma_baking_job(
    s: SidecarView,
    t: SidecarView,
    root: Seq<char>,
    key: Seq<char>,
    c: Clip,
    filter: Seq<char>,
    disk: OnDisk,
    r: RenderReplaceAnswer,
)
    requires
        is_baking_asked(s, t, root, key, c, filter, disk, r),
    ensures
        r matches RenderReplaceAnswer::Render(j) ==> j.cache_key@ == key && j.source_path@
            == c.source_path@ && j.output_path@ == join_path(root, key + ".mov"@) && j.video_filter@
            == filter && j.start_ns == c.source_in && (c.source_in <= c.source_out ==> j.start_ns
            + j.duration_ns == c.source_out) && t.pending.contains(key) && !s.pending.contains(key)
            && !s.paths.dom().contains(key) && !s.failed.contains(key) && disk != OnDisk::Complete,
        r matches RenderReplaceAnswer::Touch { path } ==> t.paths.dom().contains(key)
            && t.paths[key] == path@,
        r is Nothing ==> t == s && (s.pending.contains(key) || s.failed.contains(key)),
{
}

/// Only clips with a media file of their own can be baked.
pub proof fn lemma_can_be_baked(c: Clip)
    ensures
        can_be_baked(c) <==> trim(c.source_path@).len() > 0 && (c.kind == ClipKind::Video || c.kind
            == ClipKind::Image || c.kind == ClipKind::Audio),
{
}

/// The command reads the source from the start that is given, for as long as is given, and writes
/// the output.
pub proof fn lemma_bake_command(
    source: Seq<char>,
    output: Seq<char>,
    filter: Seq<char>,
    start: Seq<char>,
    duration: Seq<char>,
)
    ensures
        ({
            let c = bake_command(source, output, filter, start, duration);
            let at: int = if duration.len() > 0 {
                7
            } else {
                5
            };
            &&& c.last() == output
            &&& c[3] == "-ss"@ && c[4] == start
            &&& duration.len() > 0 ==> c[5] == "-t"@ && c[6] == duration
            &&& c[at] == "-i"@ && c[at + 1] == source
            &&& filter.len() > 0 ==> c[at + 6] == "-vf"@ && c[at + 7] == filter
            &&& filter.len() == 0 ==> c[at + 6] == "-c:v"@
        }),
{
}

} // verus!
