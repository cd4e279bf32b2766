//! Filters for the preview that is rendered ahead: colour, sharpness, timing and masks.
//!
//! Numbers that are the result of computing with reals come as text, already rounded; the library
//! decides which filters are needed and puts them together.

use crate::numbers::{Real, EPSILON_BITS, HALF_BITS, ONE_BITS};
use crate::text::{
    ascii_upper_all, decimal, escape, escaped, fixed_digits, owned, push_decimal, push_fixed,
    upper_ascii, views,
};
use vstd::prelude::*;
use vstd::string::*;

verus! {

/// The bit pattern of one thousandth.
pub const THOUSANDTH_BITS: u64 = 0x3f50_624d_d2f1_a9fc;

/// The bit pattern of 1.001.
pub const FAST_BITS: u64 = 0x3ff0_0418_9374_bc6a;

/// The bit pattern of 0.999.
pub const SLOW_BITS: u64 = 0x3fef_f7ce_d916_872b;

/// The bit pattern of 359.5.
pub const BELOW_FULL_SHUTTER_BITS: u64 = 0x4076_7800_0000_0000;

/// The bit pattern of 360.5.
pub const ABOVE_FULL_SHUTTER_BITS: u64 = 0x4076_8800_0000_0000;

// ---------------------------------------------------------------- transitions
/// A transition between two inputs.
#[derive(Debug)]
pub struct TransitionPrerenderSpec {
    pub outgoing_input: usize,
    pub incoming_input: usize,
    pub xfade_transition: String,
    pub duration_ns: u64,
    pub before_cut_ns: u64,
    pub after_cut_ns: u64,
}

/// The padding of an input of a transition: the incoming one waits on its first frame for the
/// overlap, the outgoing one holds its last frame after the cut. The texts are the offset and the
/// time after the cut in seconds.
pub open spec fn tpad_of(
    spec: TransitionPrerenderSpec,
    offset_ns: u64,
    input: usize,
    offset: Seq<char>,
    after: Seq<char>,
) -> Seq<char> {
    let start = if input == spec.incoming_input && offset_ns > 0 {
        ",tpad=start_duration="@ + offset + ":start_mode=clone"@
    } else {
        ""@
    };
    if input == spec.outgoing_input && spec.after_cut_ns > 0 {
        start + ",tpad=stop_mode=clone:stop_duration="@ + after
    } else {
        start
    }
}

/// `tpad_of` an input, or nothing without a transition.
pub fn prerender_build_transition_tpad_filter(
    transition_spec: Option<&TransitionPrerenderSpec>,
    transition_offset_ns: u64,
    input_index: usize,
    offset: &str,
    after_cut: &str,
) -> (r: String)
    ensures
        r@ == (match transition_spec {
            Some(s) => tpad_of(*s, transition_offset_ns, input_index, offset@, after_cut@),
            None => ""@,
        }),
{
    let spec = match transition_spec {
        Some(s) => s,
        None => {
            return owned("");
        },
    };
    let mut r = owned("");
    if input_index == spec.incoming_input && transition_offset_ns > 0 {
        r = owned(",tpad=start_duration=");
        r.append(offset);
        r.append(":start_mode=clone");
    }
    if input_index == spec.outgoing_input && spec.after_cut_ns > 0 {
        r.append(",tpad=stop_mode=clone:stop_duration=");
        r.append(after_cut);
    }
    r
}

/// The delay of the sound of the incoming input, in whole milliseconds, rounded up.
pub fn prerender_build_transition_adelay_filter(
    transition_spec: Option<&TransitionPrerenderSpec>,
    transition_offset_ns: u64,
    input_index: usize,
) -> (r: String)
    requires
        transition_offset_ns + 999_999 <= u64::MAX,
    ensures
        r@ == (match transition_spec {
            Some(s) => if input_index == s.incoming_input && transition_offset_ns > 0 {
                ",adelay="@ + decimal(((transition_offset_ns + 999_999) / 1_000_000) as nat)
                    + ":all=1"@
            } else {
                ""@
            },
            None => ""@,
        }),
{
    let spec = match transition_spec {
        Some(s) => s,
        None => {
            return owned("");
        },
    };
    if input_index != spec.incoming_input || transition_offset_ns == 0 {
        return owned("");
    }
    let delay_ms: u64 = (transition_offset_ns + 999_999) / 1_000_000;
    let mut r = owned(",adelay=");
    push_decimal(&mut r, delay_ms);
    r.append(":all=1");
    r
}

/// The sound starts with the overlap or less than a millisecond after it, and never before.
pub proof fn lemma_delay_covers_offset(offset_ns: u64)
    requires
        offset_ns > 0,
    ensures
        ((offset_ns + 999_999) / 1_000_000) * 1_000_000 >= offset_ns,
        ((offset_ns + 999_999) / 1_000_000) * 1_000_000 < offset_ns + 1_000_000,
        (offset_ns + 999_999) / 1_000_000 >= 1,
{
}

// ---------------------------------------------------------------- colour
/// The colour of a clip: how many keyframes its values have, the values, and the texts for them.
#[derive(Debug)]
pub struct ColorInputs {
    pub brightness_keyframes: usize,
    pub contrast_keyframes: usize,
    pub saturation_keyframes: usize,
    pub brightness: Real,
    pub contrast: Real,
    pub saturation: Real,
    pub exposure: Real,
    pub brightness_expr: String,
    pub contrast_expr: String,
    pub saturation_expr: String,
    pub exposure_brightness: String,
    pub exposure_contrast: String,
    pub brightness_text: String,
    pub contrast_text: String,
    pub saturation_text: String,
}

/// Whether the colour moves.
pub open spec fn color_moves(c: ColorInputs) -> bool {
    c.brightness_keyframes > 0 || c.contrast_keyframes > 0 || c.saturation_keyframes > 0
}

/// An expression, with the part of the exposure where there is any.
pub open spec fn exposed(expr: Seq<char>, has_exposure: bool, delta: Seq<char>) -> Seq<char> {
    if has_exposure {
        "("@ + expr + ")+"@ + delta
    } else {
        expr
    }
}

/// The colour filter: one that is computed for each frame where the colour moves, a fixed one where
/// it is not neutral, and none else.
pub open spec fn color_filter(c: ColorInputs) -> Seq<char> {
    let has_exposure = c.exposure.is_beyond(EPSILON_BITS);
    let has_color = c.brightness.is_nonzero() || c.contrast.bits != ONE_BITS || c.saturation.bits
        != ONE_BITS;
    if color_moves(c) {
        ",eq=brightness='"@ + exposed(c.brightness_expr@, has_exposure, c.exposure_brightness@)
            + "':contrast='"@ + exposed(c.contrast_expr@, has_exposure, c.exposure_contrast@)
            + "':saturation='"@ + c.saturation_expr@ + "':eval=frame"@
    } else if has_color || has_exposure {
        ",eq=brightness="@ + c.brightness_text@ + ":contrast="@ + c.contrast_text@ + ":saturation="@
            + c.saturation_text@
    } else {
        ""@
    }
}

fn with_exposure(expr: &str, has_exposure: bool, delta: &str) -> (r: String)
    ensures
        r@ == exposed(expr@, has_exposure, delta@),
{
    if has_exposure {
        let mut r = owned("(");
        r.append(expr);
        r.append(")+");
        r.append(delta);
        r
    } else {
        owned(expr)
    }
}

/// `color_filter` of a clip.
pub fn prerender_build_color_filter(c: &ColorInputs) -> (r: String)
    ensures
        r@ == color_filter(*c),
{
    let has_exposure: bool = c.exposure.beyond(EPSILON_BITS);
    if c.brightness_keyframes > 0 || c.contrast_keyframes > 0 || c.saturation_keyframes > 0 {
        let b = with_exposure(&c.brightness_expr, has_exposure, &c.exposure_brightness);
        let k = with_exposure(&c.contrast_expr, has_exposure, &c.exposure_contrast);
        let mut r = owned(",eq=brightness='");
        r.append(&b);
        r.append("':contrast='");
        r.append(&k);
        r.append("':saturation='");
        r.append(&c.saturation_expr);
        r.append("':eval=frame");
        return r;
    }
    if c.brightness.nonzero() || c.contrast.bits != ONE_BITS || c.saturation.bits != ONE_BITS
        || has_exposure {
        let mut r = owned(",eq=brightness=");
        r.append(&c.brightness_text);
        r.append(":contrast=");
        r.append(&c.contrast_text);
        r.append(":saturation=");
        r.append(&c.saturation_text);
        return r;
    }
    owned("")
}

/// The temperature and tint of a clip: how many keyframes they have, whether the temperature is off
/// the neutral one, the tint, and the texts for them.
#[derive(Debug)]
pub struct TemperatureInputs {
    pub temperature_keyframes: usize,
    pub tint_keyframes: usize,
    pub temperature_off_neutral: bool,
    pub tint: Real,
    pub red: String,
    pub green: String,
    pub blue: String,
    pub temperature_expr: String,
    pub temperature_text: String,
    pub tint_expr: String,
    pub tint_red: String,
    pub tint_green: String,
    pub tint_blue: String,
}

/// The filter for the temperature.
pub open spec fn temperature_part(c: TemperatureInputs) -> Seq<char> {
    if c.temperature_keyframes > 0 {
        ",colortemperature=temperature='"@ + c.temperature_expr@ + "':eval=frame"@
    } else if c.temperature_off_neutral {
        ",colortemperature=temperature="@ + c.temperature_text@
    } else {
        ""@
    }
}

/// The filters for the temperature and the tint. Where the calibrated plugin can be had and
/// nothing moves, it does both.
pub open spec fn temperature_tint_filter(c: TemperatureInputs, plugin: bool) -> Seq<char> {
    let has_tint = c.tint.is_beyond(THOUSANDTH_BITS);
    if plugin && (c.temperature_off_neutral || has_tint) && c.temperature_keyframes == 0
        && c.tint_keyframes == 0 {
        ",frei0r=filter_name=coloradj_RGB:filter_params="@ + c.red@ + "|"@ + c.green@ + "|"@
            + c.blue@ + "|0.333"@
    } else if c.tint_keyframes > 0 {
        temperature_part(c) + ",colorbalance=rm='("@ + c.tint_expr@ + ")*0.25':gm='(-("@
            + c.tint_expr@ + "))*0.5':bm='("@ + c.tint_expr@ + ")*0.25':eval=frame"@
    } else if has_tint {
        temperature_part(c) + ",colorbalance=rm="@ + c.tint_red@ + ":gm="@ + c.tint_green@ + ":bm="@
            + c.tint_blue@
    } else {
        temperature_part(c)
    }
}

/// `temperature_tint_filter` of a clip.
pub fn prerender_build_temperature_tint_filter(c: &TemperatureInputs, use_coloradj_frei0r: bool) -> (r:
    String)
    ensures
        r@ == temperature_tint_filter(*c, use_coloradj_frei0r),
{
    let has_tint: bool = c.tint.beyond(THOUSANDTH_BITS);
    if use_coloradj_frei0r && (c.temperature_off_neutral || has_tint) && c.temperature_keyframes
        == 0 && c.tint_keyframes == 0 {
        let mut r = owned(",frei0r=filter_name=coloradj_RGB:filter_params=");
        r.append(&c.red);
        r.append("|");
        r.append(&c.green);
        r.append("|");
        r.append(&c.blue);
        r.append("|0.333");
        return r;
    }
    let mut r = owned("");
    if c.temperature_keyframes > 0 {
        r = owned(",colortemperature=temperature='");
        r.append(&c.temperature_expr);
        r.append("':eval=frame");
    } else if c.temperature_off_neutral {
        r = owned(",colortemperature=temperature=");
        r.append(&c.temperature_text);
    }
    if c.tint_keyframes > 0 {
        r.append(",colorbalance=rm='(");
        r.append(&c.tint_expr);
        r.append(")*0.25':gm='(-(");
        r.append(&c.tint_expr);
        r.append("))*0.5':bm='(");
        r.append(&c.tint_expr);
        r.append(")*0.25':eval=frame");
    } else if has_tint {
        r.append(",colorbalance=rm=");
        r.append(&c.tint_red);
        r.append(":gm=");
        r.append(&c.tint_green);
        r.append(":bm=");
        r.append(&c.tint_blue);
    }
    r
}

// ---------------------------------------------------------------- sharpness

/// The filter against noise, with the strengths for each plane and for time.
pub fn prerender_build_denoise_filter(denoise: Real, luma: &str, chroma: &str, luma_time: &str, chroma_time: &str) -> (r: String)
    ensures
        r@ == (if denoise.is_above(0) {
            ",hqdn3d="@ + luma@ + ":"@ + chroma@ + ":"@ + luma_time@ + ":"@ + chroma_time@
        } else {
            ""@
        }),
{
    if !denoise.above(0) {
        return owned("");
    }
    let mut r = owned(",hqdn3d=");
    r.append(luma);
    r.append(":");
    r.append(chroma);
    r.append(":");
    r.append(luma_time);
    r.append(":");
    r.append(chroma_time);
    r
}

/// The filter that sharpens or softens by an amount.
pub fn prerender_build_sharpen_filter(sharpness: Real, amount: &str) -> (r: String)
    ensures
        r@ == (if sharpness.is_nonzero() {
            ",unsharp=lx=5:ly=5:la="@ + amount@ + ":cx=5:cy=5:ca="@ + amount@
        } else {
            ""@
        }),
{
    if !sharpness.nonzero() {
        return owned("");
    }
    let mut r = owned(",unsharp=lx=5:ly=5:la=");
    r.append(amount);
    r.append(":cx=5:cy=5:ca=");
    r.append(amount);
    r
}

/// The filter that blurs by a radius.
pub fn prerender_build_blur_filter(blur: Real, radius: &str) -> (r: String)
    ensures
        r@ == (if blur.is_above(EPSILON_BITS) {
            ",boxblur="@ + radius@ + ":"@ + radius@
        } else {
            ""@
        }),
{
    if !blur.above(EPSILON_BITS) {
        return owned("");
    }
    let mut r = owned(",boxblur=");
    r.append(radius);
    r.append(":");
    r.append(radius);
    r
}

/// The filter that widens a picture that was squeezed by a factor.
pub fn prerender_build_anamorphic_filter(squeezed: bool, factor: &str) -> (r: String)
    ensures
        r@ == (if squeezed {
            ",scale=iw*"@ + factor@ + ":ih,setsar=1"@
        } else {
            ""@
        }),
{
    if !squeezed {
        return owned("");
    }
    let mut r = owned(",scale=iw*");
    r.append(factor);
    r.append(":ih,setsar=1");
    r
}

/// A colour table, and whether its file is there.
#[derive(Debug)]
pub struct LutPath {
    pub path: String,
    pub exists: bool,
}

/// The filters for the first `n` colour tables. Tables without a file are left out.
pub open spec fn lut_filters(paths: Seq<LutPath>, n: nat) -> Seq<char>
    decreases n,
{
    if n == 0 {
        ""@
    } else {
        let front = lut_filters(paths, (n - 1) as nat);
        let p = paths[n - 1];
        if p.path@.len() > 0 && p.exists {
            front + ",lut3d="@ + escaped(p.path@, "\\:"@)
        } else {
            front
        }
    }
}

/// The filters for the colour tables of a clip. A proxy has them already.
pub fn prerender_build_lut_filter(paths: &Vec<LutPath>, source_is_proxy: bool) -> (r: String)
    ensures
        r@ == (if source_is_proxy {
            ""@
        } else {
            lut_filters(paths@, paths@.len())
        }),
{
    if source_is_proxy {
        return owned("");
    }
    let mut r = owned("");
    let mut i: usize = 0;
    while i < paths.len()
        invariant
            i <= paths@.len(),
            r@ == lut_filters(paths@, i as nat),
        decreases paths.len() - i,
    {
        if !paths[i].path.as_str().is_empty() && paths[i].exists {
            r.append(",lut3d=");
            r.append(&escape(&paths[i].path, "\\:"));
        }
        i = i + 1;
    }
    r
}

/// Two hexadecimal digits in upper case.
pub open spec fn hex_pair(n: nat) -> Seq<char> {
    ascii_upper_all(fixed_digits(n, 16, 2))
}

fn hex_pair_text(n: u64) -> (r: String)
    requires
        n < 256,
    ensures
        r@ == hex_pair(n as nat),
{
    let mut s = String::new();
    proof {
        assert(s@ =~= Seq::empty());
    }
    push_fixed(&mut s, n, 16, 2);
    proof {
        assert(s@ =~= fixed_digits(n as nat, 16, 2));
    }
    upper_ascii(&s)
}

/// The filter that makes a colour transparent, with how similar colours are and how soft the edge
/// is. The colour has red, green and blue in its three lowest bytes.
pub fn prerender_build_chroma_key_filter(enabled: bool, color: u32, similarity: &str, blend: &str) -> (r:
    String)
    ensures
        r@ == (if enabled {
            ",colorkey=0x"@ + hex_pair((color / 65536 % 256) as nat) + hex_pair(
                (color / 256 % 256) as nat,
            ) + hex_pair((color % 256) as nat) + ":"@ + similarity@ + ":"@ + blend@
        } else {
            ""@
        }),
{
    if !enabled {
        return owned("");
    }
    let mut r = owned(",colorkey=0x");
    r.append(&hex_pair_text((color / 65536 % 256) as u64));
    r.append(&hex_pair_text((color / 256 % 256) as u64));
    r.append(&hex_pair_text((color % 256) as u64));
    r.append(":");
    r.append(similarity);
    r.append(":");
    r.append(blend);
    r
}

/// The filter of the grading: the curve where any of its values is set, and none else.
pub fn prerender_build_grading_filter(values: &Vec<Real>, curve: &str) -> (r: String)
    ensures
        r@ == (if exists|i: int| 0 <= i < values@.len() && (#[trigger] values@[i]).is_nonzero() {
            curve@
        } else {
            ""@
        }),
{
    let mut i: usize = 0;
    while i < values.len()
        invariant
            i <= values@.len(),
            forall|k: int| 0 <= k < i ==> !(#[trigger] values@[k]).is_nonzero(),
        decreases values.len() - i,
    {
        if values[i].nonzero() {
            return owned(curve);
        }
        i = i + 1;
    }
    owned("")
}

// ---------------------------------------------------------------- time
/// How many keyframes the values of a clip have.
#[derive(Debug, Clone, Copy, PartialEq, Eq, Structural)]
pub struct KeyframeCounts {
    pub scale: usize,
    pub position_x: usize,
    pub position_y: usize,
    pub rotate: usize,
    pub crop_left: usize,
    pub crop_right: usize,
    pub crop_top: usize,
    pub crop_bottom: usize,
    pub opacity: usize,
}

/// Whether the place, the size or the crop of the picture moves.
pub open spec fn frame_moves(k: KeyframeCounts) -> bool {
    k.scale > 0 || k.position_x > 0 || k.position_y > 0 || k.crop_left > 0 || k.crop_right > 0
        || k.crop_top > 0 || k.crop_bottom > 0
}

/// Whether the picture is laid over a background anew for each frame: where its place, its size or
/// its crop moves. Neither a turn nor an opacity that moves needs that.
pub fn prerender_clip_has_keyframed_overlay(k: &KeyframeCounts) -> (r: bool)
    ensures
        r == frame_moves(*k),
{
    k.scale > 0 || k.position_x > 0 || k.position_y > 0 || k.crop_left > 0 || k.crop_right > 0
        || k.crop_top > 0 || k.crop_bottom > 0
}

/// `n` times "1", with blanks between.
pub open spec fn equal_weights(n: nat) -> Seq<char>
    decreases n,
{
    if n <= 1 {
        "1"@
    } else {
        equal_weights((n - 1) as nat) + " 1"@
    }
}

/// The least of one to eight frames that are mixed.
pub open spec fn mixed_frames(raw: int) -> nat {
    if raw < 1 {
        1
    } else if raw > 8 {
        8
    } else {
        raw as nat
    }
}

/// The blur of motion. There is none where it is switched off, where the shutter is all but
/// closed, or where nothing moves and the clip is not fast. With the shutter open for a whole frame
/// two frames are mixed; otherwise the clip is taken to four times its frames, the frames that
/// the shutter sees are mixed, and the rate is brought back.
pub open spec fn motion_blur_filter(
    enabled: bool,
    shutter: Real,
    k: KeyframeCounts,
    speed: Real,
    raw_frames: i32,
    fps: u32,
) -> Seq<char> {
    let over = if fps * 4 > u32::MAX {
        u32::MAX as int
    } else if fps == 0 {
        1
    } else {
        fps * 4
    };
    if !enabled || shutter.bits == HALF_BITS || shutter.is_below(HALF_BITS) {
        ""@
    } else if !frame_moves(k) && k.rotate == 0 && !speed.is_above(FAST_BITS) {
        ""@
    } else if shutter.is_above(BELOW_FULL_SHUTTER_BITS) && shutter.is_below(
        ABOVE_FULL_SHUTTER_BITS,
    ) {
        ",tmix=frames=2:weights='1 1'"@
    } else {
        ",minterpolate=fps="@ + decimal(over as nat) + ":mi_mode=blend,tmix=frames="@ + decimal(
            mixed_frames(raw_frames as int),
        ) + ":weights='"@ + equal_weights(mixed_frames(raw_frames as int)) + "',fps="@ + decimal(
            fps as nat,
        )
    }
}

fn weights(n: usize) -> (r: String)
    requires
        n >= 1,
    ensures
        r@ == equal_weights(n as nat),
{
    let mut r = owned("1");
    let mut i: usize = 1;
    while i < n
        invariant
            1 <= i <= n,
            r@ == equal_weights(i as nat),
        decreases n - i,
    {
        r.append(" 1");
        i = i + 1;
    }
    r
}

/// `motion_blur_filter` of a clip. `raw_frames` is how many of four frames the shutter sees.
pub fn prerender_build_motion_blur_filter(
    enabled: bool,
    shutter: Real,
    k: &KeyframeCounts,
    speed: Real,
    raw_frames: i32,
    fps: u32,
) -> (r: String)
    ensures
        r@ == motion_blur_filter(enabled, shutter, *k, speed, raw_frames, fps),
{
    if !enabled || shutter.bits == HALF_BITS || shutter.below(HALF_BITS) {
        return owned("");
    }
    let moves: bool = k.scale > 0 || k.position_x > 0 || k.position_y > 0 || k.rotate > 0
        || k.crop_left > 0 || k.crop_right > 0 || k.crop_top > 0 || k.crop_bottom > 0;
    if !moves && !speed.above(FAST_BITS) {
        return owned("");
    }
    if shutter.above(BELOW_FULL_SHUTTER_BITS) && shutter.below(ABOVE_FULL_SHUTTER_BITS) {
        return owned(",tmix=frames=2:weights='1 1'");
    }
    let frames: usize = if raw_frames < 1 {
        1
    } else if raw_frames > 8 {
        8
    } else {
        raw_frames as usize
    };
    let over: u64 = if fps as u64 * 4 > 0xffff_ffff {
        0xffff_ffff
    } else if fps == 0 {
        1
    } else {
        fps as u64 * 4
    };
    let mut r = owned(",minterpolate=fps=");
    push_decimal(&mut r, over);
    r.append(":mi_mode=blend,tmix=frames=");
    push_decimal(&mut r, frames as u64);
    r.append(":weights='");
    r.append(&weights(frames));
    r.append("',fps=");
    push_decimal(&mut r, fps as u64);
    r
}

/// How the frames of slow motion are filled in.
#[derive(Debug, Clone, Copy, PartialEq, Eq, Structural)]
pub enum SlowMotionInterp {
    Off,
    Blend,
    OpticalFlow,
    Ai,
}

/// Whether a clip is slow anywhere: at one of its keyframes, or as a whole where it has none.
pub open spec fn is_slow(speed: Real, keyframes: Seq<Real>) -> bool {
    if keyframes.len() > 0 {
        exists|i: int| 0 <= i < keyframes.len() && (#[trigger] keyframes[i]).is_below(ONE_BITS)
    } else {
        speed.is_below(SLOW_BITS)
    }
}

fn slow(speed: Real, keyframes: &Vec<Real>) -> (r: bool)
    ensures
        r == is_slow(speed, keyframes@),
{
    if keyframes.len() == 0 {
        return speed.below(SLOW_BITS);
    }
    let mut i: usize = 0;
    while i < keyframes.len()
        invariant
            i <= keyframes@.len(),
            forall|k: int| 0 <= k < i ==> !(#[trigger] keyframes@[k]).is_below(ONE_BITS),
        decreases keyframes.len() - i,
    {
        if keyframes[i].below(ONE_BITS) {
            return true;
        }
        i = i + 1;
    }
    false
}

/// The filter that fills in the frames of slow motion. Frames that a network filled in come with
/// the source.
pub fn prerender_build_minterpolate_filter(
    interp: SlowMotionInterp,
    speed: Real,
    speed_keyframes: &Vec<Real>,
    fps: u32,
) -> (r: String)
    ensures
        r@ == (if !is_slow(speed, speed_keyframes@) {
            ""@
        } else {
            match interp {
                SlowMotionInterp::Blend => ",minterpolate=fps="@ + decimal(fps as nat)
                    + ":mi_mode=blend"@,
                SlowMotionInterp::OpticalFlow => ",minterpolate=fps="@ + decimal(fps as nat)
                    + ":mi_mode=mci"@,
                _ => ""@,
            }
        }),
{
    if !slow(speed, speed_keyframes) {
        return owned("");
    }
    match interp {
        SlowMotionInterp::Blend => {
            let mut r = owned(",minterpolate=fps=");
            push_decimal(&mut r, fps as u64);
            r.append(":mi_mode=blend");
            r
        },
        SlowMotionInterp::OpticalFlow => {
            let mut r = owned(",minterpolate=fps=");
            push_decimal(&mut r, fps as u64);
            r.append(":mi_mode=mci");
            r
        },
        _ => owned(""),
    }
}

// ---------------------------------------------------------------- masks
/// The alpha of the masks of a clip: an expression, or a picture in a file.
#[derive(Debug)]
pub enum MaskAlpha {
    Expression(String),
    Raster(String),
}

/// The nodes that apply a mask.
pub open spec fn mask_nodes(
    input: Seq<char>,
    output: Seq<char>,
    mask: Option<MaskAlpha>,
    out_w: u32,
    out_h: u32,
) -> Seq<Seq<char>> {
    match mask {
        Some(MaskAlpha::Expression(e)) => seq![
            "["@ + input + "]geq=lum='lum(X,Y)':cb='cb(X,Y)':cr='cr(X,Y)':a='alpha(X,Y)*("@ + e@
                + ")'["@ + output + "]"@,
        ],
        Some(MaskAlpha::Raster(path)) => seq![
            "movie='"@ + escaped(path@, "\\:"@) + "',format=gray,scale="@ + decimal(out_w as nat)
                + ":"@ + decimal(out_h as nat) + "["@ + output + "_mask]"@,
            "["@ + input + "]["@ + output + "_mask]alphamerge["@ + output + "]"@,
        ],
        None => Seq::empty(),
    }
}

/// Appends the nodes that apply a mask. Returns whether there is one.
pub fn prerender_append_mask_filter(
    nodes: &mut Vec<String>,
    input_label: &str,
    output_label: &str,
    mask: &Option<MaskAlpha>,
    out_w: u32,
    out_h: u32,
) -> (r: bool)
    ensures
        r == (*mask is Some),
        views(final(nodes)@) == views(old(nodes)@) + mask_nodes(
            input_label@,
            output_label@,
            *mask,
            out_w,
            out_h,
        ),
{
    let ghost before = views(nodes@);
    match mask {
        Some(MaskAlpha::Expression(e)) => {
            let mut r = owned("[");
            r.append(input_label);
            r.append("]geq=lum='lum(X,Y)':cb='cb(X,Y)':cr='cr(X,Y)':a='alpha(X,Y)*(");
            r.append(e);
            r.append(")'[");
            r.append(output_label);
            r.append("]");
            nodes.push(r);
            proof {
                assert(views(nodes@) =~= before + mask_nodes(
                    input_label@,
                    output_label@,
                    *mask,
                    out_w,
                    out_h,
                ));
            }
            true
        },
        Some(MaskAlpha::Raster(path)) => {
            let mut m = owned("movie='");
            m.append(&escape(path, "\\:"));
            m.append("',format=gray,scale=");
            push_decimal(&mut m, out_w as u64);
            m.append(":");
            push_decimal(&mut m, out_h as u64);
            m.append("[");
            m.append(output_label);
            m.append("_mask]");
            let mut r = owned("[");
            r.append(input_label);
            r.append("][");
            r.append(output_label);
            r.append("_mask]alphamerge[");
            r.append(output_label);
            r.append("]");
            nodes.push(m);
            nodes.push(r);
            proof {
                assert(views(nodes@) =~= before + mask_nodes(
                    input_label@,
                    output_label@,
                    *mask,
                    out_w,
                    out_h,
                ));
            }
            true
        },
        None => {
            proof {
                assert(views(nodes@) =~= before + mask_nodes(
                    input_label@,
                    output_label@,
                    *mask,
                    out_w,
                    out_h,
                ));
            }
            false
        },
    }
}

/// Only the clip that comes in is held back at its start, and only the one that goes out is held at
/// its end.
pub proof fn lemma_tpad(
    spec: TransitionPrerenderSpec,
    offset_ns: u64,
    input: usize,
    offset: Seq<char>,
    after: Seq<char>,
)
    ensures
        input != spec.incoming_input && input != spec.outgoing_input ==> tpad_of(
            spec,
            offset_ns,
            input,
            offset,
            after,
        ) == ""@,
        input == spec.incoming_input && input != spec.outgoing_input && offset_ns > 0 ==> tpad_of(
            spec,
            offset_ns,
            input,
            offset,
            after,
        ) == ",tpad=start_duration="@ + offset + ":start_mode=clone"@,
        input == spec.incoming_input && input != spec.outgoing_input && offset_ns == 0 ==> tpad_of(
            spec,
            offset_ns,
            input,
            offset,
            after,
        ) == ""@,
        input == spec.outgoing_input && input != spec.incoming_input && spec.after_cut_ns > 0
            ==> tpad_of(spec, offset_ns, input, offset, after)
            == ",tpad=stop_mode=clone:stop_duration="@ + after,
        input == spec.outgoing_input && input != spec.incoming_input && spec.after_cut_ns == 0
            ==> tpad_of(spec, offset_ns, input, offset, after) == ""@,
{
    reveal_strlit("");
    assert(""@ + ",tpad=stop_mode=clone:stop_duration="@
        =~= ",tpad=stop_mode=clone:stop_duration="@);
}

/// A colour table is applied where it has a path and a file, in order.
pub proof fn lemma_luts_in_order(paths: Seq<LutPath>, p: LutPath)
    ensures
        lut_filters(paths.push(p), paths.len() + 1) == (if p.path@.len() > 0 && p.exists {
            lut_filters(paths, paths.len()) + ",lut3d="@ + escaped(p.path@, "\\:"@)
        } else {
            lut_filters(paths, paths.len())
        }),
        lut_filters(paths, 0) == ""@,
{
    lemma_luts_of_front(paths, paths.push(p), paths.len());
}

proof fn lemma_luts_of_front(a: Seq<LutPath>, b: Seq<LutPath>, n: nat)
    requires
        n <= a.len(),
        n <= b.len(),
        forall|k: int| 0 <= k < n ==> a[k] == b[k],
    ensures
        lut_filters(a, n) == lut_filters(b, n),
    decreases n,
{
    if n > 0 {
        lemma_luts_of_front(a, b, (n - 1) as nat);
    }
}

/// There is one weight for each frame that is mixed, from one to eight.
pub proof fn lemma_weights(raw: int)
    ensures
        1 <= mixed_frames(raw) <= 8,
        1 <= raw <= 8 ==> mixed_frames(raw) == raw,
        raw < 1 ==> mixed_frames(raw) == 1,
        raw > 8 ==> mixed_frames(raw) == 8,
        equal_weights(mixed_frames(raw)).len() == 2 * mixed_frames(raw) - 1,
{
    lemma_weights_len(mixed_frames(raw));
}

proof fn lemma_weights_len(n: nat)
    requires
        n >= 1,
    ensures
        equal_weights(n).len() == 2 * n - 1,
    decreases n,
{
    reveal_strlit("1");
    reveal_strlit(" 1");
    if n > 1 {
        lemma_weights_len((n - 1) as nat);
    }
}

/// A picture without changes of colour gets no filter for it.
pub proof fn lemma_neutral_color(c: ColorInputs)
    ensures
        c.brightness_keyframes == 0 && c.contrast_keyframes == 0 && c.saturation_keyframes == 0
            && c.brightness.bits == 0 && c.contrast.bits == ONE_BITS && c.saturation.bits
            == ONE_BITS && c.exposure.bits == 0 ==> color_filter(c) == ""@,
        c.brightness_keyframes > 0 || c.contrast_keyframes > 0 || c.saturation_keyframes > 0
            || c.contrast.bits != ONE_BITS || c.saturation.bits != ONE_BITS
            || c.brightness.is_nonzero() ==> color_filter(c).len() > 0,
{
    reveal_strlit(",eq=brightness='");
    reveal_strlit(",eq=brightness=");
}

/// Blur of motion is made only where it is wanted and something moves, turns or runs fast.
pub proof fn lemma_no_motion_blur(
    shutter: Real,
    k: KeyframeCounts,
    speed: Real,
    raw_frames: i32,
    fps: u32,
)
    ensures
        motion_blur_filter(false, shutter, k, speed, raw_frames, fps) == ""@,
        !frame_moves(k) && k.rotate == 0 && !speed.is_above(FAST_BITS) ==> motion_blur_filter(
            true,
            shutter,
            k,
            speed,
            raw_frames,
            fps,
        ) == ""@,
        frame_moves(k) <==> k.scale + k.position_x + k.position_y + k.crop_left + k.crop_right
            + k.crop_top + k.crop_bottom > 0,
        shutter.is_above(HALF_BITS) && (frame_moves(k) || k.rotate > 0) ==> motion_blur_filter(
            true,
            shutter,
            k,
            speed,
            raw_frames,
            fps,
        ).len() > 0,
{
    reveal_strlit(",tmix=frames=2:weights='1 1'");
    reveal_strlit(",minterpolate=fps=");
}

/// Colour that moves is computed for each frame, with the exposure added to brightness and contrast;
/// colour that does not is told once.
pub proof fn lemma_color_filter(c: ColorInputs)
    ensures
        color_moves(c) && !c.exposure.is_beyond(EPSILON_BITS) ==> color_filter(c)
            == ",eq=brightness='"@ + c.brightness_expr@ + "':contrast='"@ + c.contrast_expr@
            + "':saturation='"@ + c.saturation_expr@ + "':eval=frame"@,
        !color_moves(c) && (c.brightness.is_nonzero() || c.contrast.bits != ONE_BITS
            || c.saturation.bits != ONE_BITS || c.exposure.is_beyond(EPSILON_BITS)) ==> color_filter(
            c,
        ) == ",eq=brightness="@ + c.brightness_text@ + ":contrast="@ + c.contrast_text@
            + ":saturation="@ + c.saturation_text@,
        exposed(c.brightness_expr@, true, c.exposure_brightness@) == "("@ + c.brightness_expr@
            + ")+"@ + c.exposure_brightness@,
        color_moves(c) <==> c.brightness_keyframes + c.contrast_keyframes + c.saturation_keyframes
            > 0,
{
}

/// Temperature and tint that do not move are left to the plugin where it is there; else each gets a
/// filter of its own.
pub proof fn lemma_temperature_tint(c: TemperatureInputs, plugin: bool)
    ensures
        !c.temperature_off_neutral && !c.tint.is_beyond(THOUSANDTH_BITS) && c.temperature_keyframes
            == 0 && c.tint_keyframes == 0 ==> temperature_tint_filter(c, plugin) == ""@,
        (c.temperature_off_neutral || c.tint.is_beyond(THOUSANDTH_BITS)) && c.temperature_keyframes
            == 0 && c.tint_keyframes == 0 ==> temperature_tint_filter(c, true)
            == ",frei0r=filter_name=coloradj_RGB:filter_params="@ + c.red@ + "|"@ + c.green@ + "|"@
            + c.blue@ + "|0.333"@,
        c.temperature_keyframes > 0 && c.tint_keyframes == 0 && !c.tint.is_beyond(THOUSANDTH_BITS)
            ==> temperature_tint_filter(c, plugin) == ",colortemperature=temperature='"@
            + c.temperature_expr@ + "':eval=frame"@,
        c.tint_keyframes == 0 && c.tint.is_beyond(THOUSANDTH_BITS) && !plugin
            ==> temperature_tint_filter(c, plugin) == temperature_part(c) + ",colorbalance=rm="@
            + c.tint_red@ + ":gm="@ + c.tint_green@ + ":bm="@ + c.tint_blue@,
{
}

/// A mask that is computed is one node; one that is a picture is read, scaled to the canvas and
/// merged.
pub proof fn lemma_mask_nodes(
    input: Seq<char>,
    output: Seq<char>,
    e: String,
    w: u32,
    h: u32,
)
    ensures
        mask_nodes(input, output, None, w, h).len() == 0,
        mask_nodes(input, output, Some(MaskAlpha::Expression(e)), w, h) == seq![
            "["@ + input + "]geq=lum='lum(X,Y)':cb='cb(X,Y)':cr='cr(X,Y)':a='alpha(X,Y)*("@ + e@
                + ")'["@ + output + "]"@,
        ],
        mask_nodes(input, output, Some(MaskAlpha::Raster(e)), w, h) == seq![
            "movie='"@ + escaped(e@, "\\:"@) + "',format=gray,scale="@ + decimal(w as nat) + ":"@
                + decimal(h as nat) + "["@ + output + "_mask]"@,
            "["@ + input + "]["@ + output + "_mask]alphamerge["@ + output + "]"@,
        ],
{
}

} // verus!
