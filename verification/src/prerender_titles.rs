//! Filters for the preview that is rendered ahead: titles.

use crate::numbers::Real;
use crate::text::{
    blank, chars_of, escaped, fixed_digits, owned, push_fixed, push_signed,
    replace_char, replaced, signed_decimal, slice, trim,
};
use crate::title_font::escape_drawtext_value;
use vstd::prelude::*;
use vstd::string::*;

verus! {

/// How a title appears.
#[derive(Debug, Clone, Copy, PartialEq, Eq, Structural)]
pub enum TitleAnimation {
    Plain,
    Fade,
    Typewriter,
    Pop,
}

/// A colour, with the text of its alpha.
#[derive(Debug)]
pub struct TitleColor {
    pub red: u8,
    pub green: u8,
    pub blue: u8,
    pub alpha: String,
}

/// A title: its text and how it appears, and the texts for its font, size, place and timing.
#[derive(Debug)]
pub struct TitleInputs {
    pub text: String,
    pub animation: TitleAnimation,
    pub font_option: String,
    pub size: String,
    pub x: String,
    pub y: String,
    pub color: TitleColor,
    pub outline_width: Real,
    pub outline_text: String,
    pub outline_color: TitleColor,
    pub shadow: bool,
    pub shadow_x: i32,
    pub shadow_y: i32,
    pub shadow_color: TitleColor,
    pub bg_box: bool,
    pub box_padding: i32,
    pub box_color: TitleColor,
    pub duration: String,
    /// The moments at which the letters of a typed title appear, and its end.
    pub moments: Vec<String>,
}

/// A colour in six hexadecimal digits.
pub open spec fn hex_color(c: TitleColor) -> Seq<char> {
    fixed_digits(c.red as nat, 16, 2) + fixed_digits(c.green as nat, 16, 2) + fixed_digits(
        c.blue as nat,
        16,
        2,
    )
}

/// A colour with its alpha.
pub open spec fn full_color(c: TitleColor) -> Seq<char> {
    hex_color(c) + "@"@ + c.alpha@
}

/// The outline of a title.
pub open spec fn outline_style(t: TitleInputs) -> Seq<char> {
    if t.outline_width.is_above(0) {
        ":borderw="@ + t.outline_text@ + ":bordercolor="@ + full_color(t.outline_color)
    } else {
        ""@
    }
}

/// The outline and the shadow of a title.
pub open spec fn shadow_style(t: TitleInputs) -> Seq<char> {
    if t.shadow {
        outline_style(t) + ":shadowx="@ + signed_decimal(t.shadow_x as int) + ":shadowy="@
            + signed_decimal(t.shadow_y as int) + ":shadowcolor="@ + full_color(t.shadow_color)
    } else {
        outline_style(t)
    }
}

/// The outline, the shadow and the box of a title.
pub open spec fn title_style(t: TitleInputs) -> Seq<char> {
    if t.bg_box {
        shadow_style(t) + ":box=1:boxcolor="@ + full_color(t.box_color) + ":boxborderw="@
            + signed_decimal(t.box_padding as int)
    } else {
        shadow_style(t)
    }
}

/// A text as it stands in the filter.
pub open spec fn drawn_text(s: Seq<char>) -> Seq<char> {
    replace_char(escaped(s, "\\:'%"@), '\n', "\\n"@)
}

/// The filter that draws a text: its font, text, size, colour and place.
pub open spec fn draw(t: TitleInputs, text: Seq<char>, color: Seq<char>) -> Seq<char> {
    ",drawtext="@ + t.font_option@ + ":text='"@ + drawn_text(text) + "':fontsize="@ + t.size@
        + ":fontcolor="@ + color + ":x='("@ + t.x@ + ")*w-text_w/2':y='("@ + t.y@ + ")*h-text_h/2'"@
}

/// When the first `i + 1` of `n` letters of a typed title are shown.
pub open spec fn shown_while(t: TitleInputs, i: int, n: int) -> Seq<char> {
    if i + 1 == n {
        "gte(t\\,"@ + t.moments@[i]@ + ")"@
    } else {
        "between(t\\,"@ + t.moments@[i]@ + "\\,"@ + t.moments@[i + 1]@ + ")"@
    }
}

/// The filters that draw the first `k` steps of a typed title.
pub open spec fn typed(t: TitleInputs, k: nat) -> Seq<char>
    decreases k,
{
    if k == 0 {
        ""@
    } else {
        typed(t, (k - 1) as nat) + (draw(t, t.text@.subrange(0, k as int), full_color(t.color))
            + ":enable='"@ + shown_while(t, k - 1, t.text@.len() as int) + "'"@ + title_style(t))
    }
}

/// The filters that draw a title. A title of nothing but white space is not drawn.
pub open spec fn title_filter(t: TitleInputs) -> Seq<char> {
    if trim(t.text@).len() == 0 {
        ""@
    } else {
        match t.animation {
            TitleAnimation::Fade => draw(t, t.text@, hex_color(t.color))
                + ":alpha='min(1,max(0,t/"@ + t.duration@ + "))*"@ + t.color.alpha@ + "'"@
                + title_style(t),
            TitleAnimation::Typewriter => typed(t, t.text@.len()),
            _ => draw(t, t.text@, full_color(t.color)) + title_style(t),
        }
    }
}

fn push_hex_color(r: &mut String, c: &TitleColor)
    ensures
        final(r)@ == old(r)@ + hex_color(*c),
{
    let ghost before = r@;
    push_fixed(r, c.red as u64, 16, 2);
    push_fixed(r, c.green as u64, 16, 2);
    push_fixed(r, c.blue as u64, 16, 2);
    proof {
        assert(r@ =~= before + hex_color(*c));
    }
}

fn push_full_color(r: &mut String, c: &TitleColor)
    ensures
        final(r)@ == old(r)@ + full_color(*c),
{
    let ghost before = r@;
    push_hex_color(r, c);
    r.append("@");
    r.append(&c.alpha);
    proof {
        assert(r@ =~= before + full_color(*c));
    }
}

fn style_of(t: &TitleInputs) -> (r: String)
    ensures
        r@ == title_style(*t),
{
    let mut r = owned("");
    if t.outline_width.above(0) {
        r = owned(":borderw=");
        r.append(&t.outline_text);
        r.append(":bordercolor=");
        push_full_color(&mut r, &t.outline_color);
    }
    if t.shadow {
        r.append(":shadowx=");
        push_signed(&mut r, t.shadow_x as i64);
        r.append(":shadowy=");
        push_signed(&mut r, t.shadow_y as i64);
        r.append(":shadowcolor=");
        push_full_color(&mut r, &t.shadow_color);
    }
    if t.bg_box {
        r.append(":box=1:boxcolor=");
        push_full_color(&mut r, &t.box_color);
        r.append(":boxborderw=");
        push_signed(&mut r, t.box_padding as i64);
    }
    r
}

fn drawing(t: &TitleInputs, text: &str, color: &str) -> (r: String)
    ensures
        r@ == draw(*t, text@, color@),
{
    let shown = replaced(&escape_drawtext_value(text), '\n', "\\n");
    let mut r = owned(",drawtext=");
    r.append(&t.font_option);
    r.append(":text='");
    r.append(&shown);
    r.append("':fontsize=");
    r.append(&t.size);
    r.append(":fontcolor=");
    r.append(color);
    r.append(":x='(");
    r.append(&t.x);
    r.append(")*w-text_w/2':y='(");
    r.append(&t.y);
    r.append(")*h-text_h/2'");
    r
}

fn typing(t: &TitleInputs, color: &str, style: &str) -> (r: String)
    requires
        t.moments@.len() >= t.text@.len(),
        color@ == full_color(t.color),
        style@ == title_style(*t),
    ensures
        r@ == typed(*t, t.text@.len()),
{
    let letters = chars_of(&t.text);
    let n: usize = letters.len();
    let mut r = owned("");
    let mut i: usize = 0;
    while i < n
        invariant
            i <= n == letters@.len(),
            letters@ == t.text@,
            t.moments@.len() >= n,
            color@ == full_color(t.color),
            style@ == title_style(*t),
            r@ == typed(*t, i as nat),
        decreases n - i,
    {
        let prefix = slice(&letters, 0, i + 1);
        let mut f = drawing(t, &prefix, color);
        f.append(":enable='");
        let mut when = owned("");
        if i + 1 == n {
            when = owned("gte(t\\,");
            when.append(&t.moments[i]);
            when.append(")");
        } else {
            when = owned("between(t\\,");
            when.append(&t.moments[i]);
            when.append("\\,");
            when.append(&t.moments[i + 1]);
            when.append(")");
        }
        f.append(&when);
        f.append("'");
        f.append(style);
        r.append(&f);
        i = i + 1;
    }
    r
}

/// `title_filter` of a title. A typed title has a moment for each of its letters.
pub fn prerender_build_title_filter(t: &TitleInputs) -> (r: String)
    requires
        t.animation == TitleAnimation::Typewriter ==> t.moments@.len() >= t.text@.len(),
    ensures
        r@ == title_filter(*t),
{
    if blank(&t.text) {
        return owned("");
    }
    let style = style_of(t);
    let mut color = String::new();
    proof {
        assert(color@ =~= Seq::empty());
    }
    match t.animation {
        TitleAnimation::Fade => {
            push_hex_color(&mut color, &t.color);
            proof {
                assert(color@ =~= hex_color(t.color));
            }
            let mut r = drawing(t, &t.text, &color);
            r.append(":alpha='min(1,max(0,t/");
            r.append(&t.duration);
            r.append("))*");
            r.append(&t.color.alpha);
            r.append("'");
            r.append(&style);
            r
        },
        TitleAnimation::Typewriter => {
            push_full_color(&mut color, &t.color);
            proof {
                assert(color@ =~= full_color(t.color));
            }
            typing(t, &color, &style)
        },
        _ => {
            push_full_color(&mut color, &t.color);
            proof {
                assert(color@ =~= full_color(t.color));
            }
            let mut r = drawing(t, &t.text, &color);
            r.append(&style);
            r
        },
    }
}

/// A colour is written with two digits for each of red, green and blue, which read back as it.
pub proof fn lemma_hex_color(c: TitleColor)
    ensures
        hex_color(c).len() == 6,
        crate::pieces::hex_digits(hex_color(c).subrange(0, 2)) == Some(c.red as nat),
        crate::pieces::hex_digits(hex_color(c).subrange(2, 4)) == Some(c.green as nat),
        crate::pieces::hex_digits(hex_color(c).subrange(4, 6)) == Some(c.blue as nat),
{
    assert(vstd::arithmetic::power::pow(16, 2) == 256) by {
        reveal(vstd::arithmetic::power::pow);
        assert(vstd::arithmetic::power::pow(16, 1) == 16 * vstd::arithmetic::power::pow(16, 0));
        assert(vstd::arithmetic::power::pow(16, 2) == 16 * vstd::arithmetic::power::pow(16, 1));
    }
    crate::pieces::lemma_fixed_hex(c.red as nat, 2);
    crate::pieces::lemma_fixed_hex(c.green as nat, 2);
    crate::pieces::lemma_fixed_hex(c.blue as nat, 2);
    assert(hex_color(c).subrange(0, 2) =~= fixed_digits(c.red as nat, 16, 2));
    assert(hex_color(c).subrange(2, 4) =~= fixed_digits(c.green as nat, 16, 2));
    assert(hex_color(c).subrange(4, 6) =~= fixed_digits(c.blue as nat, 16, 2));
}

/// A typewriter shows one character more at each moment.
pub proof fn lemma_typed(t: TitleInputs, k: nat)
    requires
        0 < k <= t.text@.len(),
    ensures
        typed(t, k) == typed(t, (k - 1) as nat) + (draw(
            t,
            t.text@.subrange(0, k as int),
            full_color(t.color),
        ) + ":enable='"@ + shown_while(t, k - 1, t.text@.len() as int) + "'"@ + title_style(t)),
        k < t.text@.len() ==> shown_while(t, k - 1, t.text@.len() as int) == "between(t\\,"@
            + t.moments@[k - 1]@ + "\\,"@ + t.moments@[k as int]@ + ")"@,
        k == t.text@.len() ==> shown_while(t, k - 1, t.text@.len() as int) == "gte(t\\,"@
            + t.moments@[k - 1]@ + ")"@,
{
}

/// A title without text draws nothing.
pub proof fn lemma_blank_title(t: TitleInputs)
    ensures
        trim(t.text@).len() == 0 ==> title_filter(t) == ""@,
        trim(t.text@).len() > 0 && t.animation != TitleAnimation::Typewriter ==> title_filter(
            t,
        ).len() > 0,
{
    reveal_strlit(",drawtext=");
}

/// The text of a title is drawn character by character: special ones get a backslash, and the end of
/// a line is written out.
pub proof fn lemma_drawn_text(a: Seq<char>, b: Seq<char>)
    ensures
        drawn_text(a + b) == drawn_text(a) + drawn_text(b),
        drawn_text(seq!['\n']) == "\\n"@,
{
    let special = "\\:'%"@;
    crate::text_shapes::lemma_escaped(a, b, special);
    crate::text_shapes::lemma_replace_char(
        escaped(a, special),
        escaped(b, special),
        '\n',
        "\\n"@,
    );
    reveal_strlit("\\:'%");
    assert(!special.contains('\n'));
    assert(escaped(seq!['\n'], special) == seq!['\n']);
    crate::text_shapes::lemma_replace_char(Seq::empty(), Seq::empty(), '\n', "\\n"@);
}

/// An outline, a shadow and a box are each told where they are wanted, in this order, with their own
/// sizes and colours.
pub proof fn lemma_title_style(t: TitleInputs)
    ensures
        t.outline_width.is_above(0) ==> outline_style(t) == ":borderw="@ + t.outline_text@
            + ":bordercolor="@ + full_color(t.outline_color),
        !t.outline_width.is_above(0) ==> outline_style(t) == ""@,
        t.shadow ==> shadow_style(t) == outline_style(t) + ":shadowx="@ + signed_decimal(
            t.shadow_x as int,
        ) + ":shadowy="@ + signed_decimal(t.shadow_y as int) + ":shadowcolor="@ + full_color(
            t.shadow_color,
        ),
        !t.shadow ==> shadow_style(t) == outline_style(t),
        t.bg_box ==> title_style(t) == shadow_style(t) + ":box=1:boxcolor="@ + full_color(
            t.box_color,
        ) + ":boxborderw="@ + signed_decimal(t.box_padding as int),
        !t.bg_box ==> title_style(t) == shadow_style(t),
{
}

/// A text is drawn in its font, size and colour, its middle at its place.
pub proof fn lemma_draw(t: TitleInputs, text: Seq<char>, color: Seq<char>)
    ensures
        draw(t, text, color) == ",drawtext="@ + t.font_option@ + ":text='"@ + drawn_text(text)
            + "':fontsize="@ + t.size@ + ":fontcolor="@ + color + ":x='("@ + t.x@
            + ")*w-text_w/2':y='("@ + t.y@ + ")*h-text_h/2'"@,
        full_color(t.color) == hex_color(t.color) + "@"@ + t.color.alpha@,
{
}

/// A title that fades in is drawn once and gets clearer as time goes on; a plain one is drawn once.
pub proof fn lemma_title_filter(t: TitleInputs)
    requires
        trim(t.text@).len() > 0,
    ensures
        t.animation == TitleAnimation::Fade ==> title_filter(t) == draw(
            t,
            t.text@,
            hex_color(t.color),
        ) + ":alpha='min(1,max(0,t/"@ + t.duration@ + "))*"@ + t.color.alpha@ + "'"@ + title_style(
            t,
        ),
        t.animation == TitleAnimation::Typewriter ==> title_filter(t) == typed(t, t.text@.len()),
        t.animation != TitleAnimation::Fade && t.animation != TitleAnimation::Typewriter
            ==> title_filter(t) == draw(t, t.text@, full_color(t.color)) + title_style(t),
{
}

} // verus!
