//! Filters for the preview that is rendered ahead: the place, the size and the turn of a picture.

use crate::numbers::{Real, ONE_BITS};
use crate::text::{decimal, owned, push_decimal, push_signed, signed_decimal};
use vstd::prelude::*;
use vstd::string::*;

verus! {

/// A number that is not below zero.
pub open spec fn at_least_zero(n: int) -> int {
    if n < 0 {
        0
    } else {
        n
    }
}

/// What is left of a length, at least one.
pub open spec fn remaining(total: int, taken: int) -> int {
    if total - taken < 1 {
        1
    } else {
        total - taken
    }
}

fn cut(n: i32) -> (r: u32)
    ensures
        r == at_least_zero(n as int),
{
    if n < 0 {
        0
    } else {
        n as u32
    }
}

fn rest(total: u32, taken: u32) -> (r: u32)
    ensures
        r == remaining(total as int, taken as int),
{
    if total <= taken {
        1
    } else {
        total - taken
    }
}

/// The crop of a picture, with black or clear bars where it was.
pub open spec fn crop_filter(
    left: int,
    right: int,
    top: int,
    bottom: int,
    w: u32,
    h: u32,
    clear: bool,
) -> Seq<char> {
    if left == 0 && right == 0 && top == 0 && bottom == 0 {
        ""@
    } else {
        ",crop="@ + decimal(remaining(w as int, left + right) as nat) + ":"@ + decimal(
            remaining(h as int, top + bottom) as nat,
        ) + ":"@ + decimal(left as nat) + ":"@ + decimal(top as nat) + ",pad="@ + decimal(w as nat)
            + ":"@ + decimal(h as nat) + ":"@ + decimal(left as nat) + ":"@ + decimal(top as nat)
            + ":"@ + (if clear {
            "black@0.0"@
        } else {
            "black"@
        })
    }
}

/// `crop_filter` of a clip. A crop below zero counts as none.
pub fn prerender_build_crop_filter(
    crop_left: i32,
    crop_right: i32,
    crop_top: i32,
    crop_bottom: i32,
    out_w: u32,
    out_h: u32,
    transparent_pad: bool,
) -> (r: String)
    ensures
        r@ == crop_filter(
            at_least_zero(crop_left as int),
            at_least_zero(crop_right as int),
            at_least_zero(crop_top as int),
            at_least_zero(crop_bottom as int),
            out_w,
            out_h,
            transparent_pad,
        ),
{
    let cl: u32 = cut(crop_left);
    let cr: u32 = cut(crop_right);
    let ct: u32 = cut(crop_top);
    let cb: u32 = cut(crop_bottom);
    if cl == 0 && cr == 0 && ct == 0 && cb == 0 {
        return owned("");
    }
    let cw: u32 = rest(out_w, cl + cr);
    let ch: u32 = rest(out_h, ct + cb);
    let mut r = owned(",crop=");
    push_decimal(&mut r, cw as u64);
    r.append(":");
    push_decimal(&mut r, ch as u64);
    r.append(":");
    push_decimal(&mut r, cl as u64);
    r.append(":");
    push_decimal(&mut r, ct as u64);
    r.append(",pad=");
    push_decimal(&mut r, out_w as u64);
    r.append(":");
    push_decimal(&mut r, out_h as u64);
    r.append(":");
    push_decimal(&mut r, cl as u64);
    r.append(":");
    push_decimal(&mut r, ct as u64);
    r.append(":");
    if transparent_pad {
        r.append("black@0.0");
    } else {
        r.append("black");
    }
    r
}

/// The colour around a picture.
pub open spec fn fill_of(clear: bool) -> Seq<char> {
    if clear {
        "black@0"@
    } else {
        "black"@
    }
}

fn fill(clear: bool) -> (r: &'static str)
    ensures
        r@ == fill_of(clear),
{
    if clear {
        "black@0"
    } else {
        "black"
    }
}

/// The turn of a picture: by an expression where it has keyframes, by an angle in radians where it
/// is turned, and none else.
pub fn prerender_build_rotation_filter(
    keyframes: usize,
    rotate: i32,
    transparent_pad: bool,
    angle_expr: &str,
    angle: &str,
) -> (r: String)
    ensures
        r@ == (if keyframes > 0 {
            ",rotate='-("@ + angle_expr@ + ")*PI/180':fillcolor="@ + fill_of(transparent_pad)
        } else if rotate == 0 {
            ""@
        } else {
            ",rotate="@ + angle@ + ":fillcolor="@ + fill_of(transparent_pad)
        }),
{
    if keyframes > 0 {
        let mut r = owned(",rotate='-(");
        r.append(angle_expr);
        r.append(")*PI/180':fillcolor=");
        r.append(fill(transparent_pad));
        return r;
    }
    if rotate == 0 {
        return owned("");
    }
    let mut r = owned(",rotate=");
    r.append(angle);
    r.append(":fillcolor=");
    r.append(fill(transparent_pad));
    r
}

/// The flip of a picture.
pub fn prerender_build_flip_filter(flip_h: bool, flip_v: bool) -> (r: String)
    ensures
        r@ == (match (flip_h, flip_v) {
            (false, false) => ""@,
            (true, false) => ",hflip"@,
            (false, true) => ",vflip"@,
            (true, true) => ",hflip,vflip"@,
        }),
{
    match (flip_h, flip_v) {
        (false, false) => owned(""),
        (true, false) => owned(",hflip"),
        (false, true) => owned(",vflip"),
        (true, true) => owned(",hflip,vflip"),
    }
}

// ---------------------------------------------------------------- scale and place
/// How much of a scaled length lies before the canvas.
pub open spec fn before_canvas(raw: i64) -> u32 {
    if raw < 0 {
        #[verifier::truncate]
        ((-raw) as u32)
    } else {
        0
    }
}

/// How much of a scaled length lies behind the canvas.
pub open spec fn behind_canvas(raw: i64, scaled: u32, out: u32) -> u32 {
    if raw + scaled > out {
        #[verifier::truncate]
        ((raw + scaled - out) as u32)
    } else {
        0
    }
}

/// Where a scaled length begins on the canvas.
pub open spec fn start_on_canvas(raw: i64) -> u32 {
    if raw < 0 {
        0
    } else {
        #[verifier::truncate]
        (raw as u32)
    }
}

/// Whether a place can be computed with.
pub open spec fn is_placeable(raw: i64, scaled: u32, out: u32) -> bool {
    &&& raw > i64::MIN
    &&& raw + scaled <= i64::MAX
    &&& before_canvas(raw) + behind_canvas(raw, scaled, out) <= u32::MAX
}

/// A picture that is scaled and moved: what lies outside the canvas is cut off, and the rest is
/// padded to the size of the canvas.
pub open spec fn translate_filter(
    sw: u32,
    sh: u32,
    x: i64,
    y: i64,
    w: u32,
    h: u32,
    clear: bool,
) -> Seq<char> {
    let l = before_canvas(x);
    let t = before_canvas(y);
    let r = behind_canvas(x, sw, w);
    let b = behind_canvas(y, sh, h);
    let scale = ",scale="@ + decimal(sw as nat) + ":"@ + decimal(sh as nat);
    let cropped = if l > 0 || t > 0 || r > 0 || b > 0 {
        scale + ",crop="@ + decimal(remaining(sw as int, l + r) as nat) + ":"@ + decimal(
            remaining(sh as int, t + b) as nat,
        ) + ":"@ + decimal(l as nat) + ":"@ + decimal(t as nat)
    } else {
        scale
    };
    cropped + ",pad="@ + decimal(w as nat) + ":"@ + decimal(h as nat) + ":"@ + decimal(
        start_on_canvas(x) as nat,
    ) + ":"@ + decimal(start_on_canvas(y) as nat) + ":"@ + fill_of(clear)
}

fn cut_before(raw: i64) -> (r: u32)
    requires
        raw > i64::MIN,
    ensures
        r == before_canvas(raw),
{
    if raw < 0 {
        (-raw) as u32
    } else {
        0
    }
}

fn cut_behind(raw: i64, scaled: u32, out: u32) -> (r: u32)
    requires
        raw > i64::MIN,
        raw + scaled <= i64::MAX,
    ensures
        r == behind_canvas(raw, scaled, out),
{
    if raw + scaled as i64 > out as i64 {
        (raw + scaled as i64 - out as i64) as u32
    } else {
        0
    }
}

fn pad_start(raw: i64) -> (r: u32)
    ensures
        r == start_on_canvas(raw),
{
    if raw < 0 {
        0
    } else {
        raw as u32
    }
}

/// `translate_filter` of a picture.
pub fn prerender_build_scale_translate_filter(
    sw: u32,
    sh: u32,
    raw_x: i64,
    raw_y: i64,
    out_w: u32,
    out_h: u32,
    transparent_pad: bool,
) -> (r: String)
    requires
        is_placeable(raw_x, sw, out_w),
        is_placeable(raw_y, sh, out_h),
    ensures
        r@ == translate_filter(sw, sh, raw_x, raw_y, out_w, out_h, transparent_pad),
{
    let crop_left: u32 = cut_before(raw_x);
    let crop_top: u32 = cut_before(raw_y);
    let crop_right: u32 = cut_behind(raw_x, sw, out_w);
    let crop_bottom: u32 = cut_behind(raw_y, sh, out_h);
    let mut r = owned(",scale=");
    push_decimal(&mut r, sw as u64);
    r.append(":");
    push_decimal(&mut r, sh as u64);
    if crop_left > 0 || crop_top > 0 || crop_right > 0 || crop_bottom > 0 {
        let vis_w: u32 = rest(sw, crop_left + crop_right);
        let vis_h: u32 = rest(sh, crop_top + crop_bottom);
        r.append(",crop=");
        push_decimal(&mut r, vis_w as u64);
        r.append(":");
        push_decimal(&mut r, vis_h as u64);
        r.append(":");
        push_decimal(&mut r, crop_left as u64);
        r.append(":");
        push_decimal(&mut r, crop_top as u64);
    }
    r.append(",pad=");
    push_decimal(&mut r, out_w as u64);
    r.append(":");
    push_decimal(&mut r, out_h as u64);
    r.append(":");
    push_decimal(&mut r, pad_start(raw_x) as u64);
    r.append(":");
    push_decimal(&mut r, pad_start(raw_y) as u64);
    r.append(":");
    r.append(fill(transparent_pad));
    r
}

/// A picture that meets the canvas stays within it: what is left of it after the cut, put where it
/// begins, does not reach beyond the canvas, and is just the part that the two share.
pub proof fn lemma_visible_part(raw: i64, scaled: u32, out: u32)
    requires
        -0x7fff_ffff <= raw < out,
        0 < raw + scaled,
        0 < scaled <= 0x7fff_ffff,
        0 < out,
    ensures
        is_placeable(raw, scaled, out),
        ({
            let visible = remaining(
                scaled as int,
                before_canvas(raw) + behind_canvas(raw, scaled, out),
            );
            let start = start_on_canvas(raw) as int;
            let end = if raw + scaled < out {
                raw + scaled
            } else {
                out as int
            };
            start + visible == end
        }),
{
    if raw < 0 {
        assert(before_canvas(raw) == -raw);
        assert(start_on_canvas(raw) == 0);
    } else {
        assert(before_canvas(raw) == 0);
        assert(start_on_canvas(raw) == raw);
    }
    if raw + scaled > out {
        assert(behind_canvas(raw, scaled, out) == raw + scaled - out);
    } else {
        assert(behind_canvas(raw, scaled, out) == 0);
    }
}

/// A picture scaled and placed: the scale, whether it changes the picture at all, whether it moves
/// freely, its scaled size, where it goes where it moves freely, and where else.
#[derive(Debug, Clone, Copy)]
pub struct ScaledPlace {
    pub scale: Real,
    pub neutral: bool,
    pub direct: bool,
    pub width: u32,
    pub height: u32,
    pub direct_x: i64,
    pub direct_y: i64,
    pub x: i64,
    pub y: i64,
}

/// The filter that scales and places a picture. One that is not made smaller and does not move
/// freely is cut to the canvas.
pub open spec fn place_filter(p: ScaledPlace, w: u32, h: u32, clear: bool) -> Seq<char> {
    if p.neutral {
        ""@
    } else if p.direct {
        translate_filter(p.width, p.height, p.direct_x, p.direct_y, w, h, clear)
    } else if p.scale.is_below(ONE_BITS) {
        translate_filter(p.width, p.height, p.x, p.y, w, h, clear)
    } else {
        ",scale="@ + decimal(p.width as nat) + ":"@ + decimal(p.height as nat) + ",crop="@
            + decimal(w as nat) + ":"@ + decimal(h as nat) + ":"@ + signed_decimal(p.x as int)
            + ":"@ + signed_decimal(p.y as int)
    }
}

/// `place_filter` of a picture.
pub fn prerender_build_scale_position_filter(
    p: &ScaledPlace,
    out_w: u32,
    out_h: u32,
    transparent_pad: bool,
) -> (r: String)
    requires
        !p.neutral && p.direct ==> is_placeable(p.direct_x, p.width, out_w) && is_placeable(
            p.direct_y,
            p.height,
            out_h,
        ),
        !p.neutral && !p.direct && p.scale.is_below(ONE_BITS) ==> is_placeable(
            p.x,
            p.width,
            out_w,
        ) && is_placeable(p.y, p.height, out_h),
    ensures
        r@ == place_filter(*p, out_w, out_h, transparent_pad),
{
    if p.neutral {
        return owned("");
    }
    if p.direct {
        return prerender_build_scale_translate_filter(
            p.width,
            p.height,
            p.direct_x,
            p.direct_y,
            out_w,
            out_h,
            transparent_pad,
        );
    }
    if p.scale.below(ONE_BITS) {
        return prerender_build_scale_translate_filter(
            p.width,
            p.height,
            p.x,
            p.y,
            out_w,
            out_h,
            transparent_pad,
        );
    }
    let mut r = owned(",scale=");
    push_decimal(&mut r, p.width as u64);
    r.append(":");
    push_decimal(&mut r, p.height as u64);
    r.append(",crop=");
    push_decimal(&mut r, out_w as u64);
    r.append(":");
    push_decimal(&mut r, out_h as u64);
    r.append(":");
    push_signed(&mut r, p.x);
    r.append(":");
    push_signed(&mut r, p.y);
    r
}

// ---------------------------------------------------------------- keyframed overlay
/// The expressions of a picture that moves over a background, and how long it lasts.
#[derive(Debug)]
pub struct OverlayInputs {
    pub scale_expr: String,
    pub position_x_expr: String,
    pub position_y_expr: String,
    pub opacity_expr: String,
    pub duration: String,
    pub direct: bool,
}

/// A filter chain without its leading comma.
pub open spec fn without_comma(s: Seq<char>) -> Seq<char> {
    if s.len() > 0 && s[0] == ',' {
        s.subrange(1, s.len() as int)
    } else {
        s
    }
}

/// The filters between the overlay and the output: at least one that does nothing.
pub open spec fn closing_chain(yuv: bool, tail: Seq<char>) -> Seq<char> {
    let t = without_comma(tail);
    if yuv {
        if t.len() == 0 {
            "format=yuv420p"@
        } else {
            "format=yuv420p,"@ + t
        }
    } else if t.len() == 0 {
        "null"@
    } else {
        t
    }
}

/// Where the picture goes along one side of the canvas, of which `canvas` and `picture` are the
/// names in the expression.
pub open spec fn overlay_place(
    direct: bool,
    canvas: Seq<char>,
    picture: Seq<char>,
    position: Seq<char>,
) -> Seq<char> {
    if direct {
        "("@ + canvas + "*(1+("@ + position + "))-"@ + picture + ")/2"@
    } else {
        "("@ + canvas + "-"@ + picture + ")*(1+("@ + position + "))/2"@
    }
}

/// The graph that scales the picture of `[before]`, lays it over a background and fades it, into
/// `[output]`.
pub open spec fn overlay_tail(
    o: OverlayInputs,
    before: Seq<char>,
    output: Seq<char>,
    w: u32,
    h: u32,
    fps_n: u32,
    fps_d: u32,
    clear: bool,
    yuv: bool,
    tail: Seq<char>,
) -> Seq<char> {
    "["@ + before + "]scale=w='max(1,"@ + decimal(w as nat) + "*("@ + o.scale_expr@
        + "))':h='max(1,"@ + decimal(h as nat) + "*("@ + o.scale_expr@ + "))':eval=frame["@ + output
        + "fg];color=c="@ + fill_of(clear) + ":size="@ + decimal(w as nat) + "x"@ + decimal(
        h as nat,
    ) + ":r="@ + decimal(fps_n as nat) + "/"@ + decimal(fps_d as nat) + ":d="@ + o.duration@ + "["@
        + output + "bg];["@ + output + "bg]["@ + output + "fg]overlay=x='"@ + overlay_place(
        o.direct,
        "W"@,
        "w"@,
        o.position_x_expr@,
    ) + "':y='"@ + overlay_place(o.direct, "H"@, "h"@, o.position_y_expr@)
        + "':eval=frame,geq=lum='lum(X,Y)':cb='cb(X,Y)':cr='cr(X,Y)':a='alpha(X,Y)*("@
        + o.opacity_expr@ + ")'["@ + output + "raw];["@ + output + "raw]"@ + closing_chain(yuv, tail)
        + "["@ + output + "]"@
}

fn strip_comma(s: &str) -> (r: String)
    ensures
        r@ == without_comma(s@),
{
    let v = crate::text::chars_of(s);
    if v.len() > 0 && v[0] == ',' {
        crate::text::slice(&v, 1, v.len())
    } else {
        owned(s)
    }
}

fn closing(yuv: bool, tail: &str) -> (r: String)
    ensures
        r@ == closing_chain(yuv, tail@),
{
    let t = strip_comma(tail);
    if yuv {
        if t.as_str().is_empty() {
            owned("format=yuv420p")
        } else {
            let mut r = owned("format=yuv420p,");
            r.append(&t);
            r
        }
    } else if t.as_str().is_empty() {
        owned("null")
    } else {
        t
    }
}

fn place_expression(direct: bool, canvas: &str, picture: &str, position: &str) -> (r: String)
    ensures
        r@ == overlay_place(direct, canvas@, picture@, position@),
{
    let mut r = owned("(");
    r.append(canvas);
    if direct {
        r.append("*(1+(");
        r.append(position);
        r.append("))-");
        r.append(picture);
        r.append(")/2");
    } else {
        r.append("-");
        r.append(picture);
        r.append(")*(1+(");
        r.append(position);
        r.append("))/2");
    }
    r
}

/// `overlay_tail` of a picture that moves.
pub fn prerender_build_keyframed_overlay_tail(
    o: &OverlayInputs,
    pre_chain_label: &str,
    output_label: &str,
    out_w: u32,
    out_h: u32,
    fps_n: u32,
    fps_d: u32,
    transparent_bg: bool,
    final_format_yuv420p: bool,
    post_tail: &str,
) -> (r: String)
    ensures
        r@ == overlay_tail(
            *o,
            pre_chain_label@,
            output_label@,
            out_w,
            out_h,
            fps_n,
            fps_d,
            transparent_bg,
            final_format_yuv420p,
            post_tail@,
        ),
{
    let x = place_expression(o.direct, "W", "w", &o.position_x_expr);
    let y = place_expression(o.direct, "H", "h", &o.position_y_expr);
    let chain = closing(final_format_yuv420p, post_tail);
    let mut r = owned("[");
    r.append(pre_chain_label);
    r.append("]scale=w='max(1,");
    push_decimal(&mut r, out_w as u64);
    r.append("*(");
    r.append(&o.scale_expr);
    r.append("))':h='max(1,");
    push_decimal(&mut r, out_h as u64);
    r.append("*(");
    r.append(&o.scale_expr);
    r.append("))':eval=frame[");
    r.append(output_label);
    r.append("fg];color=c=");
    r.append(fill(transparent_bg));
    r.append(":size=");
    push_decimal(&mut r, out_w as u64);
    r.append("x");
    push_decimal(&mut r, out_h as u64);
    r.append(":r=");
    push_decimal(&mut r, fps_n as u64);
    r.append("/");
    push_decimal(&mut r, fps_d as u64);
    r.append(":d=");
    r.append(&o.duration);
    r.append("[");
    r.append(output_label);
    r.append("bg];[");
    r.append(output_label);
    r.append("bg][");
    r.append(output_label);
    r.append("fg]overlay=x='");
    r.append(&x);
    r.append("':y='");
    r.append(&y);
    r.append("':eval=frame,geq=lum='lum(X,Y)':cb='cb(X,Y)':cr='cr(X,Y)':a='alpha(X,Y)*(");
    r.append(&o.opacity_expr);
    r.append(")'[");
    r.append(output_label);
    r.append("raw];[");
    r.append(output_label);
    r.append("raw]");
    r.append(&chain);
    r.append("[");
    r.append(output_label);
    r.append("]");
    r
}

/// There is always a filter before the output, and it does not begin with a comma unless two came
/// in a row.
pub proof fn lemma_closing_chain(yuv: bool, tail: Seq<char>)
    requires
        tail.len() < 2 || tail[0] != ',' || tail[1] != ',',
    ensures
        closing_chain(yuv, tail).len() > 0,
        closing_chain(yuv, tail)[0] != ',',
{
    reveal_strlit("format=yuv420p");
    reveal_strlit("format=yuv420p,");
    reveal_strlit("null");
}

/// What is left after a crop and what was taken make up the whole, where anything is left; else one
/// pixel stays.
pub proof fn lemma_remaining(total: int, taken: int)
    ensures
        taken < total ==> remaining(total, taken) + taken == total,
        taken >= total ==> remaining(total, taken) == 1,
        remaining(total, taken) >= 1,
{
}

/// A picture that is not cropped gets no filter for it.
pub proof fn lemma_no_crop(left: int, right: int, top: int, bottom: int, w: u32, h: u32, clear: bool)
    ensures
        left == 0 && right == 0 && top == 0 && bottom == 0 ==> crop_filter(
            left,
            right,
            top,
            bottom,
            w,
            h,
            clear,
        ) == ""@,
        left > 0 || right > 0 || top > 0 || bottom > 0 ==> crop_filter(
            left,
            right,
            top,
            bottom,
            w,
            h,
            clear,
        ).len() > 0,
{
    reveal_strlit(",crop=");
}

/// A crop cuts out what is left of the width and height, from the left and the top, and puts it back
/// where it was, on a canvas of the old size.
pub proof fn lemma_crop_filter(left: nat, right: nat, top: nat, bottom: nat, w: u32, h: u32)
    requires
        left + right < w,
        top + bottom < h,
        left + right + top + bottom > 0,
    ensures
        crop_filter(left as int, right as int, top as int, bottom as int, w, h, false) == ",crop="@
            + decimal((w - left - right) as nat) + ":"@ + decimal((h - top - bottom) as nat)
            + ":"@ + decimal(left) + ":"@ + decimal(top) + ",pad="@ + decimal(w as nat) + ":"@
            + decimal(h as nat) + ":"@ + decimal(left) + ":"@ + decimal(top) + ":"@ + "black"@,
        crop_filter(left as int, right as int, top as int, bottom as int, w, h, true) == ",crop="@
            + decimal((w - left - right) as nat) + ":"@ + decimal((h - top - bottom) as nat)
            + ":"@ + decimal(left) + ":"@ + decimal(top) + ",pad="@ + decimal(w as nat) + ":"@
            + decimal(h as nat) + ":"@ + decimal(left) + ":"@ + decimal(top) + ":"@
            + "black@0.0"@,
{
    assert(remaining(w as int, (left + right) as int) == w - left - right);
    assert(remaining(h as int, (top + bottom) as int) == h - top - bottom);
}

/// A picture that fits the canvas is scaled and put where it belongs.
pub proof fn lemma_translate_filter(sw: u32, sh: u32, x: i64, y: i64, w: u32, h: u32, clear: bool)
    requires
        0 <= x,
        0 <= y,
        x + sw <= w,
        y + sh <= h,
    ensures
        translate_filter(sw, sh, x, y, w, h, clear) == ",scale="@ + decimal(sw as nat) + ":"@
            + decimal(sh as nat) + ",pad="@ + decimal(w as nat) + ":"@ + decimal(h as nat) + ":"@
            + decimal(x as nat) + ":"@ + decimal(y as nat) + ":"@ + fill_of(clear),
{
}

/// A picture that is larger than the canvas is scaled and cut to the canvas; one that needs no
/// change gets no filter.
pub proof fn lemma_place_filter(p: ScaledPlace, w: u32, h: u32, clear: bool)
    ensures
        p.neutral ==> place_filter(p, w, h, clear) == ""@,
        !p.neutral && p.direct ==> place_filter(p, w, h, clear) == translate_filter(
            p.width,
            p.height,
            p.direct_x,
            p.direct_y,
            w,
            h,
            clear,
        ),
        !p.neutral && !p.direct && p.scale.is_below(ONE_BITS) ==> place_filter(p, w, h, clear)
            == translate_filter(p.width, p.height, p.x, p.y, w, h, clear),
        !p.neutral && !p.direct && !p.scale.is_below(ONE_BITS) ==> place_filter(p, w, h, clear)
            == ",scale="@ + decimal(p.width as nat) + ":"@ + decimal(p.height as nat) + ",crop="@
            + decimal(w as nat) + ":"@ + decimal(h as nat) + ":"@ + signed_decimal(p.x as int)
            + ":"@ + signed_decimal(p.y as int),
{
}

/// In the middle, a picture is centred on the canvas, whichever way its place is counted.
pub proof fn lemma_overlay_place(canvas: Seq<char>, picture: Seq<char>, position: Seq<char>)
    ensures
        overlay_place(true, canvas, picture, position) == "("@ + canvas + "*(1+("@ + position
            + "))-"@ + picture + ")/2"@,
        overlay_place(false, canvas, picture, position) == "("@ + canvas + "-"@ + picture
            + ")*(1+("@ + position + "))/2"@,
{
}

} // verus!
