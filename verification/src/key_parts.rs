//! What the keys of cached files tell apart.

use crate::digest::{
    flag_material, lemma_flag_told, lemma_number_told, lemma_short_number_told, lemma_text_told,
    low_bytes, number_material, text_material,
};
use crate::model::{FixedKeyframe, Frei0rEffect};
use crate::proxy_files::SourceSignature;
use crate::proxy_names::{variant_material, ProxyCodec, ProxyScale};
use crate::render_replace_cache::{
    baked_material, bake_filter, effect_material, effects_material, filled, keyframes_material,
    signed_material, source_material, texts_material, values_material, BakedView,
};
use crate::stt_cache::stt_material;
use crate::text::join;
use vstd::prelude::*;
use vstd::utf8::*;

verus! {

/// Equal sequences whose fronts are of one length have equal fronts and equal ends.
proof fn lemma_cut(a: Seq<Seq<u8>>, x: Seq<Seq<u8>>, b: Seq<Seq<u8>>, y: Seq<Seq<u8>>)
    requires
        a + x == b + y,
        a.len() == b.len() || x.len() == y.len(),
    ensures
        a == b,
        x == y,
{
    assert((a + x).len() == a.len() + x.len());
    assert((b + y).len() == b.len() + y.len());
    assert(a =~= (a + x).subrange(0, a.len() as int));
    assert(b =~= (b + y).subrange(0, b.len() as int));
    assert(x =~= (a + x).subrange(a.len() as int, (a.len() + x.len()) as int));
    assert(y =~= (b + y).subrange(b.len() as int, (b.len() + y.len()) as int));
}

// ------------------------------------------------------------------- proxies
/// What goes into the digest of a proxy tells proxies apart: source, height, LUT, codec and
/// stabilisation are the same where it is.
pub proof fn lemma_variants_told_apart(
    s1: Seq<char>,
    h1: u32,
    l1: Seq<char>,
    c1: ProxyCodec,
    e1: bool,
    n1: u32,
    s2: Seq<char>,
    h2: u32,
    l2: Seq<char>,
    c2: ProxyCodec,
    e2: bool,
    n2: u32,
)
    requires
        variant_material(s1, ProxyScale::MaxHeight(h1), Some(l1), c1, e1, n1 as int)
            == variant_material(s2, ProxyScale::MaxHeight(h2), Some(l2), c2, e2, n2 as int),
    ensures
        s1 == s2,
        h1 == h2,
        l1 == l2,
        c1 == c2,
        e1 == e2,
        n1 == n2,
{
    let a = variant_material(s1, ProxyScale::MaxHeight(h1), Some(l1), c1, e1, n1 as int);
    let b = variant_material(s2, ProxyScale::MaxHeight(h2), Some(l2), c2, e2, n2 as int);
    assert(a.len() == if c1 == ProxyCodec::Hevc {
        9int
    } else {
        7
    });
    assert(b.len() == if c2 == ProxyCodec::Hevc {
        9int
    } else {
        7
    });
    assert(a[0] == encode_utf8(s1) && b[0] == encode_utf8(s2));
    assert(a[2] == low_bytes(h1 as nat, 4) && b[2] == low_bytes(h2 as nat, 4));
    assert(a[3] == encode_utf8(l1) && b[3] == encode_utf8(l2));
    assert(a[5] == flag_material(e1)[0] && b[5] == flag_material(e2)[0]);
    assert(a[6] == low_bytes(n1 as nat, 4) && b[6] == low_bytes(n2 as nat, 4));
    lemma_text_told(s1, s2);
    lemma_text_told(l1, l2);
    lemma_short_number_told(h1, h2);
    lemma_short_number_told(n1, n2);
    lemma_flag_told(e1, e2);
}

// ----------------------------------------------------------------- subtitles
/// What goes into the key of subtitles tells them apart: source, part and language are the same where
/// it is.
pub proof fn lemma_subtitles_told_apart(
    s1: Seq<char>,
    a1: u64,
    b1: u64,
    l1: Seq<char>,
    s2: Seq<char>,
    a2: u64,
    b2: u64,
    l2: Seq<char>,
)
    requires
        stt_material(s1, a1, b1, l1) == stt_material(s2, a2, b2, l2),
    ensures
        s1 == s2,
        a1 == a2,
        b1 == b2,
        l1 == l2,
{
    let x = stt_material(s1, a1, b1, l1);
    let y = stt_material(s2, a2, b2, l2);
    assert(x[0] == encode_utf8(s1) && y[0] == encode_utf8(s2));
    assert(x[2] == low_bytes(a1 as nat, 8) && y[2] == low_bytes(a2 as nat, 8));
    assert(x[3] == low_bytes(b1 as nat, 8) && y[3] == low_bytes(b2 as nat, 8));
    assert(x[4] == encode_utf8(l1) && y[4] == encode_utf8(l2));
    lemma_text_told(s1, s2);
    lemma_text_told(l1, l2);
    lemma_number_told(a1, a2);
    lemma_number_told(b1, b2);
}

// --------------------------------------------------------------- baked clips
proof fn lemma_signed(a: i64, b: i64)
    ensures
        signed_material(a) == signed_material(b) ==> a == b,
        signed_material(a).len() == 1,
{
    if signed_material(a) == signed_material(b) {
        assert(signed_material(a)[0] == low_bytes((a as u64) as nat, 8));
        assert(signed_material(b)[0] == low_bytes((b as u64) as nat, 8));
        lemma_number_told(a as u64, b as u64);
        assert((a as u64) == (b as u64) ==> a == b) by (bit_vector);
    }
}

proof fn lemma_texts(a: Seq<Seq<char>>, b: Seq<Seq<char>>, n: nat)
    requires
        n <= a.len(),
        n <= b.len(),
    ensures
        texts_material(a, n).len() == 2 * n,
        texts_material(a, n) == texts_material(b, n) ==> forall|k: int|
            0 <= k < n ==> #[trigger] a[k] == b[k],
    decreases n,
{
    if n > 0 {
        let m = (n - 1) as nat;
        lemma_texts(a, b, m);
        lemma_texts(b, a, m);
        if texts_material(a, n) == texts_material(b, n) {
            lemma_cut(
                texts_material(a, m),
                text_material(a[n - 1]),
                texts_material(b, m),
                text_material(b[n - 1]),
            );
            assert(text_material(a[n - 1])[0] == encode_utf8(a[n - 1]));
            assert(text_material(b[n - 1])[0] == encode_utf8(b[n - 1]));
            lemma_text_told(a[n - 1], b[n - 1]);
        }
    }
}

proof fn lemma_keyframes(a: Seq<FixedKeyframe>, b: Seq<FixedKeyframe>, n: nat)
    requires
        n <= a.len(),
        n <= b.len(),
    ensures
        keyframes_material(a, n).len() == 2 * n,
        keyframes_material(a, n) == keyframes_material(b, n) ==> forall|k: int|
            0 <= k < n ==> (#[trigger] a[k]).time_ns == b[k].time_ns && a[k].value == b[k].value,
    decreases n,
{
    if n > 0 {
        let m = (n - 1) as nat;
        let x = a[n - 1];
        let y = b[n - 1];
        lemma_keyframes(a, b, m);
        lemma_keyframes(b, a, m);
        lemma_signed(x.value, y.value);
        lemma_signed(y.value, x.value);
        if keyframes_material(a, n) == keyframes_material(b, n) {
            lemma_cut(
                keyframes_material(a, m) + number_material(x.time_ns as nat, 8),
                signed_material(x.value),
                keyframes_material(b, m) + number_material(y.time_ns as nat, 8),
                signed_material(y.value),
            );
            lemma_cut(
                keyframes_material(a, m),
                number_material(x.time_ns as nat, 8),
                keyframes_material(b, m),
                number_material(y.time_ns as nat, 8),
            );
            assert(number_material(x.time_ns as nat, 8)[0] == low_bytes(x.time_ns as nat, 8));
            assert(number_material(y.time_ns as nat, 8)[0] == low_bytes(y.time_ns as nat, 8));
            lemma_number_told(x.time_ns, y.time_ns);
        }
    }
}

/// Whether keyframes are at the same times with the same values.
pub open spec fn is_same_lane(a: Seq<FixedKeyframe>, b: Seq<FixedKeyframe>) -> bool {
    a.len() == b.len() && forall|k: int|
        0 <= k < a.len() ==> (#[trigger] a[k]).time_ns == b[k].time_ns && a[k].value == b[k].value
}

/// Whether the colour values and the like are the same.
pub open spec fn has_same_values(a: BakedView, b: BakedView) -> bool {
    &&& a.brightness == b.brightness
    &&& a.contrast == b.contrast
    &&& a.saturation == b.saturation
    &&& a.temperature == b.temperature
    &&& a.tint == b.tint
    &&& a.exposure == b.exposure
    &&& a.black_point == b.black_point
    &&& a.shadows == b.shadows
    &&& a.highlights == b.highlights
    &&& a.denoise == b.denoise
    &&& a.sharpness == b.sharpness
    &&& a.blur == b.blur
}

proof fn lemma_values_at(f: BakedView)
    ensures
        ({
            let m = values_material(f);
            &&& m.len() == 12
            &&& m[0] == signed_material(f.brightness)[0]
            &&& m[1] == signed_material(f.contrast)[0]
            &&& m[2] == signed_material(f.saturation)[0]
            &&& m[3] == signed_material(f.temperature)[0]
            &&& m[4] == signed_material(f.tint)[0]
            &&& m[5] == signed_material(f.exposure)[0]
            &&& m[6] == signed_material(f.black_point)[0]
            &&& m[7] == signed_material(f.shadows)[0]
            &&& m[8] == signed_material(f.highlights)[0]
            &&& m[9] == signed_material(f.denoise)[0]
            &&& m[10] == signed_material(f.sharpness)[0]
            &&& m[11] == signed_material(f.blur)[0]
        }),
{
}

proof fn lemma_signed_at(a: i64, b: i64)
    requires
        signed_material(a)[0] == signed_material(b)[0],
    ensures
        a == b,
{
    assert(signed_material(a) =~= signed_material(b));
    lemma_signed(a, b);
}

proof fn lemma_values(a: BakedView, b: BakedView)
    requires
        values_material(a) == values_material(b),
    ensures
        has_same_values(a, b),
{
    lemma_values_at(a);
    lemma_values_at(b);
    lemma_signed_at(a.brightness, b.brightness);
    lemma_signed_at(a.contrast, b.contrast);
    lemma_signed_at(a.saturation, b.saturation);
    lemma_signed_at(a.temperature, b.temperature);
    lemma_signed_at(a.tint, b.tint);
    lemma_signed_at(a.exposure, b.exposure);
    lemma_signed_at(a.black_point, b.black_point);
    lemma_signed_at(a.shadows, b.shadows);
    lemma_signed_at(a.highlights, b.highlights);
    lemma_signed_at(a.denoise, b.denoise);
    lemma_signed_at(a.sharpness, b.sharpness);
    lemma_signed_at(a.blur, b.blur);
}

proof fn lemma_sources(
    p: Seq<char>,
    s: Option<SourceSignature>,
    q: Seq<char>,
    t: Option<SourceSignature>,
)
    requires
        s is Some <==> t is Some,
    ensures
        source_material(p, s).len() == source_material(q, t).len(),
        source_material(p, s) == source_material(q, t) ==> p == q && (s matches Some(x) ==> x.len
            == t->Some_0.len && x.modified_secs == t->Some_0.modified_secs && x.modified_nanos
            == t->Some_0.modified_nanos),
{
    let a = source_material(p, s);
    let b = source_material(q, t);
    if s is Some {
        let x = s->Some_0;
        let y = t->Some_0;
        assert(a.len() == 5 && b.len() == 5);
        assert(a[2] == low_bytes(x.len as nat, 8) && b[2] == low_bytes(y.len as nat, 8));
        assert(a[3] == low_bytes(x.modified_secs as nat, 8) && b[3] == low_bytes(
            y.modified_secs as nat,
            8,
        ));
        assert(a[4] == low_bytes(x.modified_nanos as nat, 4) && b[4] == low_bytes(
            y.modified_nanos as nat,
            4,
        ));
        lemma_number_told(x.len, y.len);
        lemma_number_told(x.modified_secs, y.modified_secs);
        lemma_short_number_told(x.modified_nanos, y.modified_nanos);
    } else {
        assert(a.len() == 2 && b.len() == 2);
    }
    assert(a[0] == encode_utf8(p) && b[0] == encode_utf8(q));
    lemma_text_told(p, q);
}

/// What goes into the key of what is baked tells clips with the same plugins apart: where it is the
/// same, with as many LUTs and keyframes, then so are the source, its size and time of change, the
/// part that is used, every value, every LUT and every keyframe.
pub proof fn lemma_baked_clips_told_apart(
    a: BakedView,
    s: Option<SourceSignature>,
    b: BakedView,
    t: Option<SourceSignature>,
)
    requires
        baked_material(a, s) == baked_material(b, t),
        s is Some <==> t is Some,
        a.luts.len() == b.luts.len(),
        a.effects == b.effects,
        a.brightness_keyframes.len() == b.brightness_keyframes.len(),
        a.contrast_keyframes.len() == b.contrast_keyframes.len(),
        a.saturation_keyframes.len() == b.saturation_keyframes.len(),
        a.temperature_keyframes.len() == b.temperature_keyframes.len(),
        a.tint_keyframes.len() == b.tint_keyframes.len(),
    ensures
        a.source_path == b.source_path,
        s matches Some(x) ==> x.len == t->Some_0.len && x.modified_secs == t->Some_0.modified_secs
            && x.modified_nanos == t->Some_0.modified_nanos,
        a.source_in == b.source_in,
        a.source_out == b.source_out,
        has_same_values(a, b),
        a.luts == b.luts,
        is_same_lane(a.brightness_keyframes, b.brightness_keyframes),
        is_same_lane(a.contrast_keyframes, b.contrast_keyframes),
        is_same_lane(a.saturation_keyframes, b.saturation_keyframes),
        is_same_lane(a.temperature_keyframes, b.temperature_keyframes),
        is_same_lane(a.tint_keyframes, b.tint_keyframes),
{
    let k5 = a.tint_keyframes;
    let j5 = b.tint_keyframes;
    let k4 = a.temperature_keyframes;
    let j4 = b.temperature_keyframes;
    let k3 = a.saturation_keyframes;
    let j3 = b.saturation_keyframes;
    let k2 = a.contrast_keyframes;
    let j2 = b.contrast_keyframes;
    let k1 = a.brightness_keyframes;
    let j1 = b.brightness_keyframes;
    lemma_keyframes(k1, j1, k1.len());
    lemma_keyframes(k2, j2, k2.len());
    lemma_keyframes(k3, j3, k3.len());
    lemma_keyframes(k4, j4, k4.len());
    lemma_keyframes(k5, j5, k5.len());
    lemma_keyframes(j1, k1, k1.len());
    lemma_keyframes(j2, k2, k2.len());
    lemma_keyframes(j3, k3, k3.len());
    lemma_keyframes(j4, k4, k4.len());
    lemma_keyframes(j5, k5, k5.len());
    lemma_texts(a.luts, b.luts, a.luts.len());
    lemma_texts(b.luts, a.luts, a.luts.len());
    lemma_sources(a.source_path, s, b.source_path, t);
    lemma_values_at(a);
    lemma_values_at(b);
    let a1 = source_material(a.source_path, s);
    let b1 = source_material(b.source_path, t);
    let a2 = a1 + number_material(a.source_in as nat, 8);
    let b2 = b1 + number_material(b.source_in as nat, 8);
    let a3 = a2 + number_material(a.source_out as nat, 8);
    let b3 = b2 + number_material(b.source_out as nat, 8);
    let a4 = a3 + values_material(a);
    let b4 = b3 + values_material(b);
    let a5 = a4 + texts_material(a.luts, a.luts.len());
    let b5 = b4 + texts_material(b.luts, b.luts.len());
    let e = effects_material(a.effects, a.effects.len());
    let a6 = a5 + e;
    let b6 = b5 + e;
    let a7 = a6 + keyframes_material(k1, k1.len());
    let b7 = b6 + keyframes_material(j1, j1.len());
    let a8 = a7 + keyframes_material(k2, k2.len());
    let b8 = b7 + keyframes_material(j2, j2.len());
    let a9 = a8 + keyframes_material(k3, k3.len());
    let b9 = b8 + keyframes_material(j3, j3.len());
    let a10 = a9 + keyframes_material(k4, k4.len());
    let b10 = b9 + keyframes_material(j4, j4.len());
    assert(baked_material(a, s) == a10 + keyframes_material(k5, k5.len()));
    assert(baked_material(b, t) == b10 + keyframes_material(j5, j5.len()));
    lemma_cut(a10, keyframes_material(k5, k5.len()), b10, keyframes_material(j5, j5.len()));
    lemma_cut(a9, keyframes_material(k4, k4.len()), b9, keyframes_material(j4, j4.len()));
    lemma_cut(a8, keyframes_material(k3, k3.len()), b8, keyframes_material(j3, j3.len()));
    lemma_cut(a7, keyframes_material(k2, k2.len()), b7, keyframes_material(j2, j2.len()));
    lemma_cut(a6, keyframes_material(k1, k1.len()), b6, keyframes_material(j1, j1.len()));
    lemma_cut(a5, e, b5, e);
    lemma_cut(a4, texts_material(a.luts, a.luts.len()), b4, texts_material(b.luts, b.luts.len()));
    lemma_cut(a3, values_material(a), b3, values_material(b));
    lemma_cut(
        a2,
        number_material(a.source_out as nat, 8),
        b2,
        number_material(b.source_out as nat, 8),
    );
    lemma_cut(
        a1,
        number_material(a.source_in as nat, 8),
        b1,
        number_material(b.source_in as nat, 8),
    );
    lemma_values(a, b);
    assert(number_material(a.source_in as nat, 8)[0] == low_bytes(a.source_in as nat, 8));
    assert(number_material(b.source_in as nat, 8)[0] == low_bytes(b.source_in as nat, 8));
    assert(number_material(a.source_out as nat, 8)[0] == low_bytes(a.source_out as nat, 8));
    assert(number_material(b.source_out as nat, 8)[0] == low_bytes(b.source_out as nat, 8));
    lemma_number_told(a.source_in, b.source_in);
    lemma_number_told(a.source_out, b.source_out);
    assert(a.luts =~= b.luts);
}

/// Which plugin an effect is, and whether it is on, goes into the key.
pub proof fn lemma_effects_told_apart(a: Frei0rEffect, b: Frei0rEffect)
    requires
        effect_material(a) == effect_material(b),
    ensures
        a.plugin_name@ == b.plugin_name@,
        a.enabled == b.enabled,
{
    let x = effect_material(a);
    let y = effect_material(b);
    assert(x[0] == encode_utf8(a.plugin_name@) && y[0] == encode_utf8(b.plugin_name@));
    assert(x[2] == flag_material(a.enabled)[0] && y[2] == flag_material(b.enabled)[0]);
    lemma_text_told(a.plugin_name@, b.plugin_name@);
    lemma_flag_told(a.enabled, b.enabled);
}

/// The filter that bakes has every filter that is not empty, in order, and nothing else; where there
/// is none it does nothing.
pub proof fn lemma_bake_filter(parts: Seq<Seq<char>>)
    ensures
        filled(parts) == parts.filter(|p: Seq<char>| p.len() > 0),
        (forall|k: int| 0 <= k < parts.len() ==> (#[trigger] parts[k]).len() == 0) ==> bake_filter(
            parts,
        ) == "null"@,
        (exists|k: int| 0 <= k < parts.len() && (#[trigger] parts[k]).len() > 0) ==> bake_filter(
            parts,
        ) == join(parts.filter(|p: Seq<char>| p.len() > 0), ","@),
    decreases parts.len(),
{
    reveal(Seq::filter);
    if parts.len() > 0 {
        let front = parts.drop_last();
        lemma_bake_filter(front);
        assert(parts[parts.len() - 1] == parts.last());
        if forall|k: int| 0 <= k < parts.len() ==> (#[trigger] parts[k]).len() == 0 {
            lemma_nothing_filled(parts);
        }
        if exists|k: int| 0 <= k < parts.len() && (#[trigger] parts[k]).len() > 0 {
            let k = choose|k: int| 0 <= k < parts.len() && (#[trigger] parts[k]).len() > 0;
            lemma_something_filled(parts, k);
        }
    }
}

proof fn lemma_nothing_filled(parts: Seq<Seq<char>>)
    requires
        forall|k: int| 0 <= k < parts.len() ==> (#[trigger] parts[k]).len() == 0,
    ensures
        filled(parts).len() == 0,
    decreases parts.len(),
{
    if parts.len() > 0 {
        let front = parts.drop_last();
        assert(parts[parts.len() - 1].len() == 0);
        assert forall|k: int| 0 <= k < front.len() implies (#[trigger] front[k]).len() == 0 by {
            assert(front[k] == parts[k]);
        }
        lemma_nothing_filled(front);
    }
}

proof fn lemma_something_filled(parts: Seq<Seq<char>>, k: int)
    requires
        0 <= k < parts.len(),
        parts[k].len() > 0,
    ensures
        filled(parts).len() > 0,
    decreases parts.len(),
{
    let front = parts.drop_last();
    if k < front.len() {
        assert(front[k] == parts[k]);
        lemma_something_filled(front, k);
    }
}

} // verus!
