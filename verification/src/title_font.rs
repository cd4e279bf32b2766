//! Fonts of titles and subtitles: how a requested font is looked up, and how good the match is.

use crate::args::{arg, arg2};
use crate::keyed::StringMap;
use crate::text::{
    ascii_lower_all, clone_option, escape, escaped, join, joined, lower_ascii, option_view, owned,
    same, split, split_on, trim, trimmed, views, lemma_split_len, chars_of,
};
use crate::unicode::{char_lowercase, is_letter_or_number, lower_char};
use vstd::prelude::*;
use vstd::string::*;

verus! {

/// The font of titles without a font of their own.
pub const DEFAULT_TITLE_FONT_DESC: &'static str = "Sans Bold 36";

/// Its size, in 1024ths of a point.
pub const DEFAULT_TITLE_FONT_SIZE: i32 = 36_864;

/// The font of subtitles without a font of their own.
pub const DEFAULT_SUBTITLE_FONT_DESC: &'static str = "Sans Bold 24";

/// Its size, in 1024ths of a point.
pub const DEFAULT_SUBTITLE_FONT_SIZE: i32 = 24_576;

/// The weight of a font.
#[derive(Debug, Clone, Copy, PartialEq, Eq, Structural)]
pub enum FontWeight {
    Thin,
    Ultralight,
    Light,
    Semilight,
    Book,
    Normal,
    Medium,
    Semibold,
    Bold,
    Ultrabold,
    Heavy,
    Ultraheavy,
    Other,
}

/// The slant of a font.
#[derive(Debug, Clone, Copy, PartialEq, Eq, Structural)]
pub enum FontSlant {
    Normal,
    Oblique,
    Italic,
    Other,
}

/// The width of a font.
#[derive(Debug, Clone, Copy, PartialEq, Eq, Structural)]
pub enum FontStretch {
    UltraCondensed,
    ExtraCondensed,
    Condensed,
    SemiCondensed,
    Normal,
    SemiExpanded,
    Expanded,
    ExtraExpanded,
    UltraExpanded,
    Other,
}

/// A font description, taken apart.
#[derive(Debug, Clone)]
pub struct FontFace {
    pub family: Option<String>,
    pub weight: FontWeight,
    pub slant: FontSlant,
    pub stretch: FontStretch,
    /// In 1024ths of a point; not positive where no size is given.
    pub size: i32,
}

/// A requested font.
#[derive(Debug, Clone)]
pub struct FontSpec {
    pub normalized_desc: String,
    pub family: String,
    /// In 1024ths of a point.
    pub size: i32,
    pub fontconfig_pattern: String,
    pub requested_style: Option<String>,
}

/// How good a font match is.
#[derive(Debug, Clone, Copy, PartialEq, Eq, Structural)]
pub enum DrawtextFontMatchKind {
    Exact,
    Fallback,
    Unavailable,
}

/// The font that is used for a requested one.
#[derive(Debug, Clone, PartialEq, Eq)]
pub struct DrawtextFontMatch {
    pub kind: DrawtextFontMatchKind,
    pub option_name: &'static str,
    pub option_value: String,
    pub matched_family: Option<String>,
    pub matched_style: Option<String>,
}

/// What the font matcher printed.
#[derive(Debug, Clone, PartialEq, Eq)]
pub struct FcMatchRecord {
    pub file: String,
    pub family: Option<String>,
    pub style: Option<String>,
}

// --------------------------------------------------------------------- names
/// A font name in lower case without anything but letters and numbers.
pub open spec fn plain_name(s: Seq<char>) -> Seq<char>
    decreases s.len(),
{
    if s.len() == 0 {
        Seq::empty()
    } else {
        plain_name(s.drop_last()) + char_lowercase(s.last()).filter(
            |c: char| is_letter_or_number(c),
        )
    }
}

/// A font name in lower case without anything but letters and numbers.
pub fn normalized_font_name(value: &str) -> (r: String)
    ensures
        r@ == plain_name(value@),
{
    let all: Vec<char> = chars_of(value);
    let ghost keep = |c: char| is_letter_or_number(c);
    let mut r = String::new();
    let mut i: usize = 0;
    while i < all.len()
        invariant
            i <= all@.len(),
            keep == (|c: char| is_letter_or_number(c)),
            r@ == plain_name(all@.subrange(0, i as int)),
        decreases all.len() - i,
    {
        let lower = lower_char(all[i]);
        let ghost front = r@;
        let mut k: usize = 0;
        proof {
            reveal(Seq::filter);
            assert(all@.subrange(0, i + 1).drop_last() =~= all@.subrange(0, i as int));
            assert(front + lower@.subrange(0, 0).filter(keep) =~= front);
        }
        while k < lower.len()
            invariant
                k <= lower@.len(),
                keep == (|c: char| is_letter_or_number(c)),
                r@ == front + lower@.subrange(0, k as int).filter(keep),
            decreases lower.len() - k,
        {
            let ghost before = r@;
            proof {
                reveal(Seq::filter);
                let next = lower@.subrange(0, k + 1);
                assert(next.drop_last() =~= lower@.subrange(0, k as int));
            }
            if lower[k].is_alphanumeric() {
                r.push(lower[k]);
                proof {
                    assert(r@ =~= front + lower@.subrange(0, k as int).filter(keep).push(
                        lower@[k as int],
                    ));
                }
            }
            k = k + 1;
        }
        proof {
            assert(lower@.subrange(0, k as int) =~= lower@);
        }
        i = i + 1;
    }
    proof {
        assert(all@.subrange(0, i as int) =~= all@);
    }
    r
}

/// Whether a family stands for whatever font the system prefers.
pub open spec fn is_generic(family: Seq<char>) -> bool {
    let f = ascii_lower_all(trim(family));
    f == "sans"@ || f == "sans-serif"@ || f == "serif"@ || f == "monospace"@ || f == "system-ui"@
}

/// Whether a family stands for whatever font the system prefers.
pub fn is_generic_family(family: &str) -> (r: bool)
    ensures
        r == is_generic(family@),
{
    let f = lower_ascii(&trimmed(family));
    same(&f, "sans") || same(&f, "sans-serif") || same(&f, "serif") || same(&f, "monospace")
        || same(&f, "system-ui")
}

/// Whether a style is the plain one.
pub open spec fn is_regular(style: Seq<char>) -> bool {
    let s = plain_name(style);
    s == "regular"@ || s == "book"@ || s == "roman"@ || s == "normal"@
}

/// Whether a style is the plain one.
pub fn is_regular_style(style: &str) -> (r: bool)
    ensures
        r == is_regular(style@),
{
    let s = normalized_font_name(style);
    same(&s, "regular") || same(&s, "book") || same(&s, "roman") || same(&s, "normal")
}

/// A text without surrounding white space, if anything is left.
pub open spec fn meaningful(s: Option<Seq<char>>) -> Option<Seq<char>> {
    match s {
        Some(t) => if trim(t).len() == 0 {
            None
        } else {
            Some(trim(t))
        },
        None => None,
    }
}

fn meaningful_text(s: &Option<String>) -> (r: Option<String>)
    ensures
        option_view(r) == meaningful(option_view(*s)),
{
    match s {
        Some(t) => {
            let u = trimmed(t);
            if u.as_str().is_empty() {
                None
            } else {
                Some(u)
            }
        },
        None => None,
    }
}

// ------------------------------------------------------------------ patterns
/// A value for an option of the text filter: backslash, colon, quote and percent are escaped.
pub fn escape_drawtext_value(value: &str) -> (r: String)
    ensures
        r@ == escaped(value@, "\\:'%"@),
{
    escape(value, "\\:'%")
}

/// A value in a font pattern: backslash, colon, comma, equals sign and hyphen are escaped.
pub fn escape_fontconfig_pattern_value(value: &str) -> (r: String)
    ensures
        r@ == escaped(value@, "\\:,=-"@),
{
    escape(value, "\\:,=-")
}

/// How a weight is asked for; the normal weight is not.
pub open spec fn weight_selector(w: FontWeight) -> Option<Seq<char>> {
    match w {
        FontWeight::Thin => Some("thin"@),
        FontWeight::Ultralight => Some("ultralight"@),
        FontWeight::Light => Some("light"@),
        FontWeight::Semilight => Some("semilight"@),
        FontWeight::Book => Some("book"@),
        FontWeight::Normal => None,
        FontWeight::Medium => Some("medium"@),
        FontWeight::Semibold => Some("semibold"@),
        FontWeight::Bold => Some("bold"@),
        FontWeight::Ultrabold => Some("ultrabold"@),
        FontWeight::Heavy => Some("heavy"@),
        FontWeight::Ultraheavy => Some("ultraheavy"@),
        FontWeight::Other => None,
    }
}

/// How a slant is asked for; no slant is not.
pub open spec fn slant_selector(s: FontSlant) -> Option<Seq<char>> {
    match s {
        FontSlant::Normal => None,
        FontSlant::Oblique => Some("oblique"@),
        FontSlant::Italic => Some("italic"@),
        FontSlant::Other => None,
    }
}

/// How a width is asked for; the normal width is not.
pub open spec fn width_selector(s: FontStretch) -> Option<Seq<char>> {
    match s {
        FontStretch::UltraCondensed => Some("ultracondensed"@),
        FontStretch::ExtraCondensed => Some("extracondensed"@),
        FontStretch::Condensed => Some("condensed"@),
        FontStretch::SemiCondensed => Some("semicondensed"@),
        FontStretch::Normal => None,
        FontStretch::SemiExpanded => Some("semiexpanded"@),
        FontStretch::Expanded => Some("expanded"@),
        FontStretch::ExtraExpanded => Some("extraexpanded"@),
        FontStretch::UltraExpanded => Some("ultraexpanded"@),
        FontStretch::Other => None,
    }
}

/// How a weight is asked for.
pub fn fontconfig_weight_selector(weight: FontWeight) -> (r: Option<&'static str>)
    ensures
        match r {
            Some(s) => weight_selector(weight) == Some(s@),
            None => weight_selector(weight) is None,
        },
{
    match weight {
        FontWeight::Thin => Some("thin"),
        FontWeight::Ultralight => Some("ultralight"),
        FontWeight::Light => Some("light"),
        FontWeight::Semilight => Some("semilight"),
        FontWeight::Book => Some("book"),
        FontWeight::Normal => None,
        FontWeight::Medium => Some("medium"),
        FontWeight::Semibold => Some("semibold"),
        FontWeight::Bold => Some("bold"),
        FontWeight::Ultrabold => Some("ultrabold"),
        FontWeight::Heavy => Some("heavy"),
        FontWeight::Ultraheavy => Some("ultraheavy"),
        FontWeight::Other => None,
    }
}

/// How a slant is asked for.
pub fn fontconfig_slant_selector(slant: FontSlant) -> (r: Option<&'static str>)
    ensures
        match r {
            Some(s) => slant_selector(slant) == Some(s@),
            None => slant_selector(slant) is None,
        },
{
    match slant {
        FontSlant::Normal => None,
        FontSlant::Oblique => Some("oblique"),
        FontSlant::Italic => Some("italic"),
        FontSlant::Other => None,
    }
}

/// How a width is asked for.
pub fn fontconfig_width_selector(stretch: FontStretch) -> (r: Option<&'static str>)
    ensures
        match r {
            Some(s) => width_selector(stretch) == Some(s@),
            None => width_selector(stretch) is None,
        },
{
    match stretch {
        FontStretch::UltraCondensed => Some("ultracondensed"),
        FontStretch::ExtraCondensed => Some("extracondensed"),
        FontStretch::Condensed => Some("condensed"),
        FontStretch::SemiCondensed => Some("semicondensed"),
        FontStretch::Normal => None,
        FontStretch::SemiExpanded => Some("semiexpanded"),
        FontStretch::Expanded => Some("expanded"),
        FontStretch::ExtraExpanded => Some("extraexpanded"),
        FontStretch::UltraExpanded => Some("ultraexpanded"),
        FontStretch::Other => None,
    }
}

/// `s` with a property behind it, where it has a value.
pub open spec fn with_property(s: Seq<char>, name: Seq<char>, value: Option<Seq<char>>) -> Seq<char> {
    match value {
        Some(v) => s + name + v,
        None => s,
    }
}

/// The pattern that asks for a face of a family.
pub open spec fn pattern_of(face: FontFace, family: Seq<char>) -> Seq<char> {
    let a = escaped(family, "\\:,=-"@);
    let b = with_property(a, ":weight="@, weight_selector(face.weight));
    let c = with_property(b, ":slant="@, slant_selector(face.slant));
    with_property(c, ":width="@, width_selector(face.stretch))
}

/// The pattern that asks for a face of a family.
pub fn build_fontconfig_pattern(face: &FontFace, family: &str) -> (r: String)
    ensures
        r@ == pattern_of(*face, family@),
{
    let mut r = escape_fontconfig_pattern_value(family);
    if let Some(w) = fontconfig_weight_selector(face.weight) {
        r.append(":weight=");
        r.append(w);
    }
    if let Some(s) = fontconfig_slant_selector(face.slant) {
        r.append(":slant=");
        r.append(s);
    }
    if let Some(w) = fontconfig_width_selector(face.stretch) {
        r.append(":width=");
        r.append(w);
    }
    r
}

// -------------------------------------------------------------------- styles
/// The name of a weight in a style; ordinary weights have none.
pub open spec fn weight_label(w: FontWeight) -> Option<Seq<char>> {
    match w {
        FontWeight::Thin => Some("Thin"@),
        FontWeight::Ultralight => Some("UltraLight"@),
        FontWeight::Light => Some("Light"@),
        FontWeight::Semilight => Some("SemiLight"@),
        FontWeight::Book => None,
        FontWeight::Normal => None,
        FontWeight::Medium => Some("Medium"@),
        FontWeight::Semibold => Some("SemiBold"@),
        FontWeight::Bold => Some("Bold"@),
        FontWeight::Ultrabold => Some("UltraBold"@),
        FontWeight::Heavy => Some("Heavy"@),
        FontWeight::Ultraheavy => Some("UltraHeavy"@),
        FontWeight::Other => None,
    }
}

/// The name of a slant in a style.
pub open spec fn slant_label(s: FontSlant) -> Option<Seq<char>> {
    match s {
        FontSlant::Italic => Some("Italic"@),
        FontSlant::Oblique => Some("Oblique"@),
        _ => None,
    }
}

/// The name of a width in a style.
pub open spec fn stretch_label(s: FontStretch) -> Option<Seq<char>> {
    match s {
        FontStretch::UltraCondensed => Some("UltraCondensed"@),
        FontStretch::ExtraCondensed => Some("ExtraCondensed"@),
        FontStretch::Condensed => Some("Condensed"@),
        FontStretch::SemiCondensed => Some("SemiCondensed"@),
        FontStretch::Normal => None,
        FontStretch::SemiExpanded => Some("SemiExpanded"@),
        FontStretch::Expanded => Some("Expanded"@),
        FontStretch::ExtraExpanded => Some("ExtraExpanded"@),
        FontStretch::UltraExpanded => Some("UltraExpanded"@),
        FontStretch::Other => None,
    }
}

/// The name of a weight in a style.
pub fn weight_style_label(weight: FontWeight) -> (r: Option<&'static str>)
    ensures
        match r {
            Some(s) => weight_label(weight) == Some(s@),
            None => weight_label(weight) is None,
        },
{
    match weight {
        FontWeight::Thin => Some("Thin"),
        FontWeight::Ultralight => Some("UltraLight"),
        FontWeight::Light => Some("Light"),
        FontWeight::Semilight => Some("SemiLight"),
        FontWeight::Book => None,
        FontWeight::Normal => None,
        FontWeight::Medium => Some("Medium"),
        FontWeight::Semibold => Some("SemiBold"),
        FontWeight::Bold => Some("Bold"),
        FontWeight::Ultrabold => Some("UltraBold"),
        FontWeight::Heavy => Some("Heavy"),
        FontWeight::Ultraheavy => Some("UltraHeavy"),
        FontWeight::Other => None,
    }
}

/// The name of a slant in a style.
pub fn slant_style_label(slant: FontSlant) -> (r: Option<&'static str>)
    ensures
        match r {
            Some(s) => slant_label(slant) == Some(s@),
            None => slant_label(slant) is None,
        },
{
    match slant {
        FontSlant::Italic => Some("Italic"),
        FontSlant::Oblique => Some("Oblique"),
        _ => None,
    }
}

/// The name of a width in a style.
pub fn stretch_style_label(stretch: FontStretch) -> (r: Option<&'static str>)
    ensures
        match r {
            Some(s) => stretch_label(stretch) == Some(s@),
            None => stretch_label(stretch) is None,
        },
{
    match stretch {
        FontStretch::UltraCondensed => Some("UltraCondensed"),
        FontStretch::ExtraCondensed => Some("ExtraCondensed"),
        FontStretch::Condensed => Some("Condensed"),
        FontStretch::SemiCondensed => Some("SemiCondensed"),
        FontStretch::Normal => None,
        FontStretch::SemiExpanded => Some("SemiExpanded"),
        FontStretch::Expanded => Some("Expanded"),
        FontStretch::ExtraExpanded => Some("ExtraExpanded"),
        FontStretch::UltraExpanded => Some("UltraExpanded"),
        FontStretch::Other => None,
    }
}

/// A list with one more entry, where there is one.
pub open spec fn with_entry(s: Seq<Seq<char>>, x: Option<Seq<char>>) -> Seq<Seq<char>> {
    match x {
        Some(v) => s.push(v),
        None => s,
    }
}

/// The style that a face asks for: width, weight and slant, as far as they are unusual.
pub open spec fn style_of(face: FontFace) -> Option<Seq<char>> {
    let parts = with_entry(
        with_entry(
            with_entry(Seq::empty(), stretch_label(face.stretch)),
            weight_label(face.weight),
        ),
        slant_label(face.slant),
    );
    if parts.len() == 0 {
        None
    } else {
        Some(join(parts, " "@))
    }
}

fn push_label(parts: &mut Vec<String>, label: &str)
    ensures
        views(final(parts)@) == views(old(parts)@).push(label@),
{
    let ghost before = parts@;
    parts.push(owned(label));
    proof {
        assert(views(parts@) =~= views(before).push(label@));
    }
}

/// The style that a face asks for.
pub fn requested_style_label(face: &FontFace) -> (r: Option<String>)
    ensures
        option_view(r) == style_of(*face),
{
    let mut parts: Vec<String> = Vec::new();
    proof {
        assert(views(parts@) =~= Seq::empty());
    }
    if let Some(w) = stretch_style_label(face.stretch) {
        push_label(&mut parts, w);
    }
    if let Some(w) = weight_style_label(face.weight) {
        push_label(&mut parts, w);
    }
    if let Some(s) = slant_style_label(face.slant) {
        push_label(&mut parts, s);
    }
    proof {
        assert(views(parts@).len() == parts@.len());
    }
    if parts.len() == 0 {
        None
    } else {
        Some(joined(&parts, " "))
    }
}

// --------------------------------------------------------------------- specs
/// The description that is to be taken apart: the requested one, or the default where nothing
/// is requested.
pub open spec fn wanted_description(font_desc: Seq<char>, default_desc: Seq<char>) -> Seq<char> {
    if trim(font_desc).len() == 0 {
        default_desc
    } else {
        trim(font_desc)
    }
}

/// The description that is to be taken apart.
pub fn description_to_parse(font_desc: &str, default_desc: &str) -> (r: String)
    ensures
        r@ == wanted_description(font_desc@, default_desc@),
{
    let t = trimmed(font_desc);
    if t.as_str().is_empty() {
        owned(default_desc)
    } else {
        t
    }
}

/// Whether `r` is the face to use: the parsed one if it names a family, else the default one,
/// with the default size where it has none.
pub open spec fn is_chosen_face(
    parsed: FontFace,
    fallback: FontFace,
    default_size: i32,
    r: FontFace,
) -> bool {
    let base = if meaningful(option_view(parsed.family)) is Some {
        parsed
    } else {
        fallback
    };
    &&& option_view(r.family) == option_view(base.family)
    &&& r.weight == base.weight
    &&& r.slant == base.slant
    &&& r.stretch == base.stretch
    &&& r.size == (if base.size <= 0 {
        default_size
    } else {
        base.size
    })
}

/// The face to use for a parsed description.
pub fn choose_face(parsed: &FontFace, fallback: &FontFace, default_size: i32) -> (r: FontFace)
    ensures
        is_chosen_face(*parsed, *fallback, default_size, r),
{
    let base: &FontFace = if meaningful_text(&parsed.family).is_some() {
        parsed
    } else {
        fallback
    };
    FontFace {
        family: clone_option(&base.family),
        weight: base.weight,
        slant: base.slant,
        stretch: base.stretch,
        size: if base.size <= 0 {
            default_size
        } else {
            base.size
        },
    }
}

/// The family of a face; a face without one is `Sans`.
pub open spec fn family_of(face: FontFace) -> Seq<char> {
    match meaningful(option_view(face.family)) {
        Some(f) => f,
        None => "Sans"@,
    }
}

impl FontSpec {
    /// A requested font, from the face to use and its description.
    pub fn new(face: &FontFace, normalized_desc: &str) -> (r: FontSpec)
        ensures
            r.normalized_desc@ == normalized_desc@,
            r.family@ == family_of(*face),
            r.size == face.size,
            r.fontconfig_pattern@ == pattern_of(*face, family_of(*face)),
            option_view(r.requested_style) == style_of(*face),
    {
        let family = match meaningful_text(&face.family) {
            Some(f) => f,
            None => owned("Sans"),
        };
        let fontconfig_pattern = build_fontconfig_pattern(face, &family);
        FontSpec {
            normalized_desc: owned(normalized_desc),
            family,
            size: face.size,
            fontconfig_pattern,
            requested_style: requested_style_label(face),
        }
    }

    /// What to show in a preview: for a fallback, the description of the font that is used
    /// instead; nothing where the requested font itself is shown.
    pub fn preview_description_for_match(&self, resolution: &DrawtextFontMatch) -> (r: Option<String>)
        ensures
            option_view(r) == (if resolution.kind == DrawtextFontMatchKind::Fallback {
                match_label(
                    option_view(resolution.matched_family),
                    option_view(resolution.matched_style),
                )
            } else {
                None
            }),
    {
        if resolution.kind == DrawtextFontMatchKind::Fallback {
            resolution.matched_label()
        } else {
            None
        }
    }
}

// ------------------------------------------------------------------- matching
/// The command line that asks the font matcher for file, family and style, with a unit separator
/// between them.
pub fn font_match_args(spec: &FontSpec) -> (r: Vec<String>)
    ensures
        views(r@) == seq![
            "-f"@,
            "%{file}\u{1f}%{family[0]}\u{1f}%{style[0]}"@,
            spec.fontconfig_pattern@,
        ],
{
    let mut args: Vec<String> = Vec::new();
    proof {
        assert(views(args@) =~= Seq::empty());
    }
    arg2(&mut args, "-f", "%{file}\u{1f}%{family[0]}\u{1f}%{style[0]}");
    arg(&mut args, &spec.fontconfig_pattern);
    proof {
        assert(views(args@) =~= seq![
            "-f"@,
            "%{file}\u{1f}%{family[0]}\u{1f}%{style[0]}"@,
            spec.fontconfig_pattern@,
        ]);
    }
    args
}

/// What the font matcher printed: file, family and style with a unit separator between them.
pub open spec fn printed_record(stdout: Seq<char>) -> Option<(
    Seq<char>,
    Option<Seq<char>>,
    Option<Seq<char>>,
)> {
    let p = split(trim(stdout), '\u{1f}');
    let file = trim(p[0]);
    if file.len() == 0 {
        None
    } else {
        Some(
            (
                file,
                if p.len() > 1 {
                    meaningful(Some(p[1]))
                } else {
                    None
                },
                if p.len() > 2 {
                    meaningful(Some(p[2]))
                } else {
                    None
                },
            ),
        )
    }
}

/// Reads what the font matcher printed.
pub fn parse_fc_match_record(stdout: &str) -> (r: Option<FcMatchRecord>)
    ensures
        match r {
            Some(x) => printed_record(stdout@) == Some(
                (x.file@, option_view(x.family), option_view(x.style)),
            ),
            None => printed_record(stdout@) is None,
        },
{
    let text = trimmed(stdout);
    let parts = split_on(&text, '\u{1f}');
    let ghost p = views(parts@);
    proof {
        lemma_split_len(text@, '\u{1f}');
        assert(p.len() == parts@.len());
        assert(p[0] == parts@[0]@);
    }
    let file = trimmed(&parts[0]);
    if file.as_str().is_empty() {
        return None;
    }
    let family = if parts.len() > 1 {
        proof {
            assert(p[1] == parts@[1]@);
        }
        meaningful_text(&Some(parts[1].clone()))
    } else {
        None
    };
    let style = if parts.len() > 2 {
        proof {
            assert(p[2] == parts@[2]@);
        }
        meaningful_text(&Some(parts[2].clone()))
    } else {
        None
    };
    Some(FcMatchRecord { file, family, style })
}

/// How good a match is. A generic family is matched by any family; a style counts only where
/// one is requested.
pub open spec fn match_kind(
    family: Seq<char>,
    requested_style: Option<Seq<char>>,
    found_family: Option<Seq<char>>,
    found_style: Option<Seq<char>>,
) -> DrawtextFontMatchKind {
    let family_matches = match found_family {
        Some(f) => if is_generic(family) {
            trim(f).len() > 0
        } else {
            plain_name(f) == plain_name(family)
        },
        None => false,
    };
    let style_matches = match requested_style {
        Some(r) => match found_style {
            Some(s) => plain_name(s) == plain_name(r),
            None => false,
        },
        None => true,
    };
    if family_matches && style_matches {
        DrawtextFontMatchKind::Exact
    } else {
        DrawtextFontMatchKind::Fallback
    }
}

/// How good a match is.
pub fn evaluate_match_kind(spec: &FontSpec, record: &FcMatchRecord) -> (r: DrawtextFontMatchKind)
    ensures
        r == match_kind(
            spec.family@,
            option_view(spec.requested_style),
            option_view(record.family),
            option_view(record.style),
        ),
{
    let family_matches: bool = match &record.family {
        Some(f) => if is_generic_family(&spec.family) {
            !trimmed(f).as_str().is_empty()
        } else {
            same(&normalized_font_name(f), &normalized_font_name(&spec.family))
        },
        None => false,
    };
    let style_matches: bool = match &spec.requested_style {
        Some(q) => match &record.style {
            Some(s) => same(&normalized_font_name(s), &normalized_font_name(q)),
            None => false,
        },
        None => true,
    };
    if family_matches && style_matches {
        DrawtextFontMatchKind::Exact
    } else {
        DrawtextFontMatchKind::Fallback
    }
}

/// Whether `m` is the match for a requested font, given what the font matcher printed. Where it
/// printed nothing usable, the pattern itself is passed on.
pub open spec fn is_match_for(
    spec: FontSpec,
    output: Option<Seq<char>>,
    m: DrawtextFontMatch,
) -> bool {
    let record = match output {
        Some(o) => printed_record(o),
        None => None,
    };
    match record {
        Some((file, family, style)) => {
            &&& m.kind == match_kind(spec.family@, option_view(spec.requested_style), family, style)
            &&& m.option_name@ == "fontfile"@
            &&& m.option_value@ == file
            &&& option_view(m.matched_family) == family
            &&& option_view(m.matched_style) == style
        },
        None => {
            &&& m.kind == DrawtextFontMatchKind::Unavailable
            &&& m.option_name@ == "font"@
            &&& m.option_value@ == spec.fontconfig_pattern@
            &&& m.matched_family is None
            &&& m.matched_style is None
        },
    }
}

/// The match for a requested font, from what the font matcher printed; nothing where it failed.
pub fn resolve_drawtext_font_uncached(spec: &FontSpec, output: &Option<String>) -> (r:
    DrawtextFontMatch)
    ensures
        is_match_for(*spec, option_view(*output), r),
{
    let record = match output {
        Some(o) => parse_fc_match_record(o),
        None => None,
    };
    match record {
        Some(x) => DrawtextFontMatch {
            kind: evaluate_match_kind(spec, &x),
            option_name: "fontfile",
            option_value: x.file.clone(),
            matched_family: clone_option(&x.family),
            matched_style: clone_option(&x.style),
        },
        None => DrawtextFontMatch {
            kind: DrawtextFontMatchKind::Unavailable,
            option_name: "font",
            option_value: spec.fontconfig_pattern.clone(),
            matched_family: None,
            matched_style: None,
        },
    }
}

/// Family and style of a match, without the plain style.
pub open spec fn match_label(family: Option<Seq<char>>, style: Option<Seq<char>>) -> Option<
    Seq<char>,
> {
    match meaningful(family) {
        Some(f) => match meaningful(style) {
            Some(s) => if is_regular(s) {
                Some(f)
            } else {
                Some(f + " "@ + s)
            },
            None => Some(f),
        },
        None => None,
    }
}

impl DrawtextFontMatch {
    /// The option that selects this font in the text filter.
    pub fn filter_fragment(&self) -> (r: String)
        ensures
            r@ == self.option_name@ + "='"@ + escaped(self.option_value@, "\\:'%"@) + "'"@,
    {
        let mut r = owned(self.option_name);
        r.append("='");
        r.append(&escape_drawtext_value(&self.option_value));
        r.append("'");
        r
    }

    /// Family and style of the match, without the plain style.
    pub fn matched_label(&self) -> (r: Option<String>)
        ensures
            option_view(r) == match_label(
                option_view(self.matched_family),
                option_view(self.matched_style),
            ),
    {
        let family = match meaningful_text(&self.matched_family) {
            Some(f) => f,
            None => return None,
        };
        let style = match meaningful_text(&self.matched_style) {
            Some(s) => s,
            None => return Some(family),
        };
        if is_regular_style(&style) {
            return Some(family);
        }
        let mut r = family;
        r.append(" ");
        r.append(&style);
        Some(r)
    }

    /// A copy.
    pub fn copied(&self) -> (r: DrawtextFontMatch)
        ensures
            r == *self,
    {
        DrawtextFontMatch {
            kind: self.kind,
            option_name: self.option_name,
            option_value: self.option_value.clone(),
            matched_family: clone_option(&self.matched_family),
            matched_style: clone_option(&self.matched_style),
        }
    }
}

/// The tooltip of a font: `base`, and on a second line what becomes of the font at `target`.
pub open spec fn tooltip(
    requested: Seq<char>,
    kind: DrawtextFontMatchKind,
    label: Option<Seq<char>>,
    base: Seq<char>,
    target: Seq<char>,
) -> Seq<char> {
    if kind == DrawtextFontMatchKind::Unavailable {
        base + "\n"@ + target
            + " font resolution unavailable; using best-effort font matching."@
    } else {
        match label {
            None => base,
            Some(l) => if kind == DrawtextFontMatchKind::Exact {
                base + "\n"@ + target + ": "@ + l
            } else {
                base + "\nRequested \""@ + requested + "\" falls back in "@ + target + " to "@ + l
                    + "."@
            },
        }
    }
}

/// The tooltip of a font.
pub fn build_font_tooltip(
    spec: &FontSpec,
    resolution: &DrawtextFontMatch,
    base: &str,
    target_label: &str,
) -> (r: String)
    ensures
        r@ == tooltip(
            spec.normalized_desc@,
            resolution.kind,
            match_label(
                option_view(resolution.matched_family),
                option_view(resolution.matched_style),
            ),
            base@,
            target_label@,
        ),
{
    let mut r = owned(base);
    match resolution.kind {
        DrawtextFontMatchKind::Unavailable => {
            r.append("\n");
            r.append(target_label);
            r.append(" font resolution unavailable; using best-effort font matching.");
        },
        DrawtextFontMatchKind::Exact => {
            if let Some(label) = resolution.matched_label() {
                r.append("\n");
                r.append(target_label);
                r.append(": ");
                r.append(&label);
            }
        },
        DrawtextFontMatchKind::Fallback => {
            if let Some(label) = resolution.matched_label() {
                r.append("\nRequested \"");
                r.append(&spec.normalized_desc);
                r.append("\" falls back in ");
                r.append(target_label);
                r.append(" to ");
                r.append(&label);
                r.append(".");
            }
        },
    }
    r
}

/// The tooltip of a title font.
pub fn build_title_font_tooltip(spec: &FontSpec, resolution: &DrawtextFontMatch, base: &str) -> (r:
    String)
    ensures
        r@ == tooltip(
            spec.normalized_desc@,
            resolution.kind,
            match_label(
                option_view(resolution.matched_family),
                option_view(resolution.matched_style),
            ),
            base@,
            "Export/prerender"@,
        ),
{
    build_font_tooltip(spec, resolution, base, "Export/prerender")
}

/// The tooltip of a subtitle font.
pub fn build_subtitle_font_tooltip(spec: &FontSpec, resolution: &DrawtextFontMatch, base: &str) -> (r:
    String)
    ensures
        r@ == tooltip(
            spec.normalized_desc@,
            resolution.kind,
            match_label(
                option_view(resolution.matched_family),
                option_view(resolution.matched_style),
            ),
            base@,
            "Preview/export"@,
        ),
{
    build_font_tooltip(spec, resolution, base, "Preview/export")
}

/// The matches that have been looked up, by pattern.
pub struct DrawtextFontCache {
    pub matches: StringMap<DrawtextFontMatch>,
}

impl DrawtextFontCache {
    /// An empty cache.
    pub fn new() -> (r: DrawtextFontCache)
        ensures
            r.matches.wf(),
            r.matches@ == Map::<Seq<char>, DrawtextFontMatch>::empty(),
    {
        DrawtextFontCache { matches: StringMap::new() }
    }

    /// The match for a requested font, if its pattern has been looked up before.
    pub fn get(&self, spec: &FontSpec) -> (r: Option<DrawtextFontMatch>)
        requires
            self.matches.wf(),
        ensures
            match r {
                Some(m) => self.matches@.dom().contains(spec.fontconfig_pattern@) && m
                    == self.matches@[spec.fontconfig_pattern@],
                None => !self.matches@.dom().contains(spec.fontconfig_pattern@),
            },
    {
        match self.matches.get(&spec.fontconfig_pattern) {
            Some(m) => Some(m.copied()),
            None => None,
        }
    }

    /// Looks a requested font up from what the font matcher printed, and keeps the match.
    pub fn resolve(&mut self, spec: &FontSpec, output: &Option<String>) -> (r: DrawtextFontMatch)
        requires
            old(self).matches.wf(),
        ensures
            final(self).matches.wf(),
            is_match_for(*spec, option_view(*output), r),
            final(self).matches@ == old(self).matches@.insert(spec.fontconfig_pattern@, r),
    {
        let m = resolve_drawtext_font_uncached(spec, output);
        self.matches.insert(spec.fontconfig_pattern.clone(), m.copied());
        m
    }
}

/// A face is looked for by the name that it is called by, in lower case; the weight that books have
/// is looked for and not told.
pub proof fn lemma_weights_are_named(w: FontWeight)
    ensures
        weight_label(w) matches Some(l) ==> weight_selector(w) == Some(ascii_lower_all(l)),
        weight_label(w) is None ==> weight_selector(w) is None || w == FontWeight::Book,
        w == FontWeight::Normal || w == FontWeight::Other ==> weight_label(w) is None
            && weight_selector(w) is None,
{
    reveal_strlit("Thin");
    reveal_strlit("thin");
    reveal_strlit("UltraLight");
    reveal_strlit("ultralight");
    reveal_strlit("Light");
    reveal_strlit("light");
    reveal_strlit("SemiLight");
    reveal_strlit("semilight");
    reveal_strlit("Medium");
    reveal_strlit("medium");
    reveal_strlit("SemiBold");
    reveal_strlit("semibold");
    reveal_strlit("Bold");
    reveal_strlit("bold");
    reveal_strlit("UltraBold");
    reveal_strlit("ultrabold");
    reveal_strlit("Heavy");
    reveal_strlit("heavy");
    reveal_strlit("UltraHeavy");
    reveal_strlit("ultraheavy");
    assert(ascii_lower_all("Thin"@) =~= "thin"@);
    assert(ascii_lower_all("UltraLight"@) =~= "ultralight"@);
    assert(ascii_lower_all("Light"@) =~= "light"@);
    assert(ascii_lower_all("SemiLight"@) =~= "semilight"@);
    assert(ascii_lower_all("Medium"@) =~= "medium"@);
    assert(ascii_lower_all("SemiBold"@) =~= "semibold"@);
    assert(ascii_lower_all("Bold"@) =~= "bold"@);
    assert(ascii_lower_all("UltraBold"@) =~= "ultrabold"@);
    assert(ascii_lower_all("Heavy"@) =~= "heavy"@);
    assert(ascii_lower_all("UltraHeavy"@) =~= "ultraheavy"@);
}

/// Slants and widths too are looked for by the names that they are called by, in lower case.
pub proof fn lemma_slants_and_widths_are_named(s: FontSlant, w: FontStretch)
    ensures
        slant_label(s) matches Some(l) ==> slant_selector(s) == Some(ascii_lower_all(l)),
        slant_label(s) is None ==> slant_selector(s) is None,
        stretch_label(w) matches Some(l) ==> width_selector(w) == Some(ascii_lower_all(l)),
        stretch_label(w) is None ==> width_selector(w) is None,
{
    reveal_strlit("Italic");
    reveal_strlit("italic");
    reveal_strlit("Oblique");
    reveal_strlit("oblique");
    reveal_strlit("UltraCondensed");
    reveal_strlit("ultracondensed");
    reveal_strlit("ExtraCondensed");
    reveal_strlit("extracondensed");
    reveal_strlit("Condensed");
    reveal_strlit("condensed");
    reveal_strlit("SemiCondensed");
    reveal_strlit("semicondensed");
    reveal_strlit("SemiExpanded");
    reveal_strlit("semiexpanded");
    reveal_strlit("Expanded");
    reveal_strlit("expanded");
    reveal_strlit("ExtraExpanded");
    reveal_strlit("extraexpanded");
    reveal_strlit("UltraExpanded");
    reveal_strlit("ultraexpanded");
    assert(ascii_lower_all("Italic"@) =~= "italic"@);
    assert(ascii_lower_all("Oblique"@) =~= "oblique"@);
    assert(ascii_lower_all("UltraCondensed"@) =~= "ultracondensed"@);
    assert(ascii_lower_all("ExtraCondensed"@) =~= "extracondensed"@);
    assert(ascii_lower_all("Condensed"@) =~= "condensed"@);
    assert(ascii_lower_all("SemiCondensed"@) =~= "semicondensed"@);
    assert(ascii_lower_all("SemiExpanded"@) =~= "semiexpanded"@);
    assert(ascii_lower_all("Expanded"@) =~= "expanded"@);
    assert(ascii_lower_all("ExtraExpanded"@) =~= "extraexpanded"@);
    assert(ascii_lower_all("UltraExpanded"@) =~= "ultraexpanded"@);
}

/// A plain face has no style and its pattern is its family; each property that it has is told, in
/// the order of width, weight and slant, and looked for.
pub proof fn lemma_style(face: FontFace, family: Seq<char>)
    ensures
        face.weight == FontWeight::Normal && face.slant == FontSlant::Normal && face.stretch
            == FontStretch::Normal ==> style_of(face) is None && pattern_of(face, family)
            == escaped(family, "\\:,=-"@),
        face.weight == FontWeight::Bold && face.slant == FontSlant::Normal && face.stretch
            == FontStretch::Normal ==> style_of(face) == Some("Bold"@) && pattern_of(face, family)
            == escaped(family, "\\:,=-"@) + ":weight="@ + "bold"@,
        weight_label(face.weight) matches Some(w) ==> (slant_label(face.slant) matches Some(s)
            ==> (stretch_label(face.stretch) is None ==> style_of(face) == Some(w + " "@ + s))),
{
    if let Some(w) = weight_label(face.weight) {
        if let Some(s) = slant_label(face.slant) {
            if stretch_label(face.stretch) is None {
                let parts = Seq::<Seq<char>>::empty().push(w).push(s);
                assert(parts.drop_last() =~= seq![w]);
                assert(join(parts.drop_last(), " "@) == w);
                assert(join(parts, " "@) == w + " "@ + s);
            }
        }
    }
}

/// What was printed is the file, the family and the style, with separators between them.
pub proof fn lemma_printed_record(file: Seq<char>, family: Seq<char>, style: Seq<char>)
    requires
        !file.contains('\u{1f}'),
        !family.contains('\u{1f}'),
        !style.contains('\u{1f}'),
        trim(file) == file,
        trim(family) == family,
        trim(style) == style,
        file.len() > 0,
        family.len() > 0,
        style.len() > 0,
    ensures
        printed_record(file.push('\u{1f}') + (family.push('\u{1f}') + style)) == Some(
            (file, Some(family), Some(style)),
        ),
{
    let rest = family.push('\u{1f}') + style;
    let s = file.push('\u{1f}') + rest;
    crate::text::lemma_trim_ends(file);
    crate::text::lemma_trim_ends(style);
    assert(s[0] == file[0]);
    assert(s.last() == style.last());
    assert(crate::text::trim_start(s) == s);
    assert(crate::text::trim_end(s) == s);
    crate::text::lemma_split_concat(file, rest, '\u{1f}');
    crate::text::lemma_split_concat(family, style, '\u{1f}');
    crate::text::lemma_split_whole(file, '\u{1f}');
    crate::text::lemma_split_whole(family, '\u{1f}');
    crate::text::lemma_split_whole(style, '\u{1f}');
    assert(split(s, '\u{1f}') =~= seq![file, family, style]);
}

/// A match is exact where the family that was found is the one that was asked for, but for case and
/// punctuation, or a family of that general kind, and the style that was asked for was found.
pub proof fn lemma_match_kind(
    family: Seq<char>,
    requested: Option<Seq<char>>,
    found_family: Option<Seq<char>>,
    found_style: Option<Seq<char>>,
)
    ensures
        match_kind(family, requested, found_family, found_style)
            != DrawtextFontMatchKind::Unavailable,
        found_family is None ==> match_kind(family, requested, found_family, found_style)
            == DrawtextFontMatchKind::Fallback,
        requested is Some && found_style is None ==> match_kind(
            family,
            requested,
            found_family,
            found_style,
        ) == DrawtextFontMatchKind::Fallback,
        match_kind(family, requested, Some(family), requested) == DrawtextFontMatchKind::Exact
            || trim(family).len() == 0,
        found_family matches Some(f) ==> (!is_generic(family) && plain_name(f) != plain_name(family)
            ==> match_kind(family, requested, found_family, found_style)
            == DrawtextFontMatchKind::Fallback),
        requested matches Some(r) ==> (found_style matches Some(s) ==> (plain_name(s) != plain_name(
            r,
        ) ==> match_kind(family, requested, found_family, found_style)
            == DrawtextFontMatchKind::Fallback)),
{
}

/// A match is called by its family, and by its style too where that is not the regular one.
pub proof fn lemma_match_label(f: Seq<char>, s: Seq<char>)
    requires
        trim(f) == f,
        f.len() > 0,
        trim(s) == s,
        s.len() > 0,
    ensures
        match_label(Some(f), None) == Some(f),
        is_regular(s) ==> match_label(Some(f), Some(s)) == Some(f),
        !is_regular(s) ==> match_label(Some(f), Some(s)) == Some(f + " "@ + s),
        match_label(None, Some(s)) is None,
{
}

/// A tooltip tells what was found: the face where it is the one asked for, and else what was asked
/// for and what it falls back to.
pub proof fn lemma_tooltip(requested: Seq<char>, l: Seq<char>, base: Seq<char>, target: Seq<char>)
    ensures
        tooltip(requested, DrawtextFontMatchKind::Exact, Some(l), base, target) == base + "\n"@
            + target + ": "@ + l,
        tooltip(requested, DrawtextFontMatchKind::Fallback, Some(l), base, target) == base
            + "\nRequested \""@ + requested + "\" falls back in "@ + target + " to "@ + l + "."@,
        tooltip(requested, DrawtextFontMatchKind::Exact, None, base, target) == base,
        tooltip(requested, DrawtextFontMatchKind::Unavailable, Some(l), base, target) == base
            + "\n"@ + target + " font resolution unavailable; using best-effort font matching."@,
{
}

} // verus!
