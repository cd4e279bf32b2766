use ultimateslice::title_font::{
    build_fontconfig_pattern, build_title_font_tooltip, choose_face, description_to_parse,
    escape_drawtext_value, evaluate_match_kind, font_match_args, parse_fc_match_record,
    resolve_drawtext_font_uncached, DrawtextFontCache, DrawtextFontMatchKind, FcMatchRecord,
    FontFace, FontSlant, FontSpec, FontStretch, FontWeight,
};

fn face(family: &str, weight: FontWeight, slant: FontSlant) -> FontFace {
    FontFace {
        family: Some(family.to_string()),
        weight,
        slant,
        stretch: FontStretch::Normal,
        size: 54 * 1024,
    }
}

fn record(family: &str, style: &str) -> FcMatchRecord {
    FcMatchRecord {
        file: "/tmp/font.ttf".to_string(),
        family: Some(family.to_string()),
        style: Some(style.to_string()),
    }
}

#[test]
fn parse_fc_match_record_reads_file_family_and_style() {
    let parsed =
        parse_fc_match_record("/tmp/font.ttf\u{1f}Liberation Sans Narrow\u{1f}Bold Italic")
            .expect("parsed fc-match record");
    assert_eq!(parsed.file, "/tmp/font.ttf");
    assert_eq!(parsed.family.as_deref(), Some("Liberation Sans Narrow"));
    assert_eq!(parsed.style.as_deref(), Some("Bold Italic"));
}

#[test]
fn evaluate_match_kind_treats_missing_family_as_fallback() {
    let f = face("Definitely Missing Font", FontWeight::Bold, FontSlant::Normal);
    let spec = FontSpec::new(&f, "Definitely Missing Font Bold 54");
    assert_eq!(
        evaluate_match_kind(&spec, &record("Noto Sans", "Bold")),
        DrawtextFontMatchKind::Fallback
    );
}

#[test]
fn evaluate_match_kind_accepts_generic_sans_family() {
    let f = face("Sans", FontWeight::Bold, FontSlant::Normal);
    let spec = FontSpec::new(&f, "Sans Bold 36");
    assert_eq!(
        evaluate_match_kind(&spec, &record("Noto Sans", "Bold")),
        DrawtextFontMatchKind::Exact
    );
}

#[test]
fn font_patterns_name_weight_and_slant() {
    let f = face("DejaVu Sans Mono", FontWeight::Bold, FontSlant::Oblique);
    assert_eq!(
        build_fontconfig_pattern(&f, "DejaVu Sans Mono"),
        "DejaVu Sans Mono:weight=bold:slant=oblique"
    );
    assert_eq!(escape_drawtext_value("a:b'c%d\\"), "a\\:b\\'c\\%d\\\\");
}

#[test]
fn fonts_are_resolved_once() {
    let f = face("Sans", FontWeight::Bold, FontSlant::Normal);
    let spec = FontSpec::new(&f, "Sans Bold 36");
    let out = Some("/tmp/font.ttf\u{1f}Noto Sans\u{1f}Bold".to_string());
    let direct = resolve_drawtext_font_uncached(&spec, &out);
    assert_eq!(direct.kind, DrawtextFontMatchKind::Exact);
    assert_eq!(direct.filter_fragment(), "fontfile='/tmp/font.ttf'");
    let mut cache = DrawtextFontCache::new();
    assert!(cache.get(&spec).is_none());
    cache.resolve(&spec, &out);
    assert_eq!(cache.get(&spec).map(|m| m.kind), Some(DrawtextFontMatchKind::Exact));
    let none = resolve_drawtext_font_uncached(&spec, &None);
    assert_eq!(none.kind, DrawtextFontMatchKind::Unavailable);
    assert!(!build_title_font_tooltip(&spec, &none, "Font").is_empty());
}

#[test]
fn empty_descriptions_fall_back() {
    assert_eq!(description_to_parse("  ", "Sans Bold 36"), "Sans Bold 36");
    assert_eq!(description_to_parse("Mono 12", "Sans Bold 36"), "Mono 12");
    let mut bare = face("Sans", FontWeight::Bold, FontSlant::Normal);
    bare.size = 0;
    let chosen = choose_face(&bare, &face("Serif", FontWeight::Normal, FontSlant::Normal), 7);
    assert_eq!(chosen.family.as_deref(), Some("Sans"));
    assert!(chosen.size > 0);
}

#[test]
fn malformed_font_records_are_refused() {
    assert!(parse_fc_match_record("").is_none());
}

#[test]
fn question_of_the_font_matcher() {
    let spec = FontSpec::new(&face("Noto Sans", FontWeight::Bold, FontSlant::Normal), "");
    assert_eq!(
        font_match_args(&spec),
        vec![
            "-f".to_string(),
            "%{file}\u{1f}%{family[0]}\u{1f}%{style[0]}".to_string(),
            "Noto Sans:weight=bold".to_string(),
        ]
    );
}
