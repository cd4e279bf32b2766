use ultimateslice::fdx::parse_fdx_str;
use ultimateslice::fountain::parse_fountain_str;
use ultimateslice::script::{parse_script, ScriptElementKind};

#[test]
fn test_parse_fdx_basic() {
    let xml = r#"<?xml version="1.0" encoding="UTF-8"?>
<FinalDraft DocumentType="Script" Template="No" Version="5">
  <Content>
    <Paragraph Type="Scene Heading">
      <Text>INT. OFFICE - DAY</Text>
    </Paragraph>
    <Paragraph Type="Action">
      <Text>John enters the room.</Text>
    </Paragraph>
    <Paragraph Type="Character">
      <Text>JOHN</Text>
    </Paragraph>
    <Paragraph Type="Dialogue">
      <Text>Hello there.</Text>
    </Paragraph>
    <Paragraph Type="Scene Heading">
      <Text>EXT. PARK - NIGHT</Text>
    </Paragraph>
    <Paragraph Type="Action">
      <Text>The wind howls.</Text>
    </Paragraph>
  </Content>
</FinalDraft>"#;
    let script = parse_fdx_str(xml, "test.fdx").unwrap();
    assert_eq!(script.scenes.len(), 2);
    assert_eq!(script.scenes[0].heading, "INT. OFFICE - DAY");
    assert_eq!(script.scenes[0].elements.len(), 4);
    assert_eq!(script.scenes[1].heading, "EXT. PARK - NIGHT");
    assert_eq!(script.scenes[1].elements.len(), 2);

    let dialogue = &script.scenes[0].elements[3];
    assert_eq!(dialogue.kind, ScriptElementKind::Dialogue);
    assert_eq!(dialogue.character.as_deref(), Some("JOHN"));
}

#[test]
fn test_parse_fdx_scene_number() {
    let xml = r#"<?xml version="1.0" encoding="UTF-8"?>
<FinalDraft DocumentType="Script">
  <Content>
    <Paragraph Type="Scene Heading" Number="42A">
      <Text>INT. LAB - DAY</Text>
    </Paragraph>
    <Paragraph Type="Action">
      <Text>Bubbling beakers.</Text>
    </Paragraph>
  </Content>
</FinalDraft>"#;
    let script = parse_fdx_str(xml, "test.fdx").unwrap();
    assert_eq!(script.scenes[0].scene_number.as_deref(), Some("42A"));
}

#[test]
fn fdx_title_comes_from_the_title_page() {
    let xml = "<FinalDraft><TitlePage><Content><Paragraph><Text> </Text></Paragraph>\
               <Paragraph><Text>Heat &amp; Dust</Text></Paragraph></Content></TitlePage>\
               <Content/></FinalDraft>";
    let script = parse_fdx_str(xml, "t.fdx").unwrap();
    assert_eq!(script.title.as_deref(), Some("Heat & Dust"));
    assert_eq!(script.path, "t.fdx");
}

#[test]
fn fdx_entities_and_runs_of_text() {
    let xml = "<Content><Paragraph Type=\"Action\"><Text>A &lt; B</Text><Text>second</Text>\
               </Paragraph><Paragraph Type=\"Lyrics\"><Text> la </Text></Paragraph></Content>";
    let script = parse_fdx_str(xml, "t.fdx").unwrap();
    assert_eq!(script.scenes.len(), 1);
    assert_eq!(script.scenes[0].heading, "Scene 1");
    assert_eq!(script.scenes[0].elements[0].text, "second");
    assert_eq!(script.scenes[0].elements[1].text, "la");
    assert_eq!(script.scenes[0].elements[1].kind, ScriptElementKind::Action);
    assert_eq!(script.scenes[0].full_text, "scene 1 second la");
}

#[test]
fn fdx_mismatched_tag_is_an_error() {
    let err = parse_fdx_str("<Content><Paragraph></Content>", "t.fdx").unwrap_err();
    assert_eq!(err.position, 20);
    assert!(err.message().starts_with("FDX parse error at position 20: "));
}

#[test]
fn fdx_scene_ids_are_random_identifiers() {
    let xml = "<Content><Paragraph Type=\"Action\"><Text>a</Text></Paragraph></Content>";
    let a = parse_fdx_str(xml, "t.fdx").unwrap();
    let b = parse_fdx_str(xml, "t.fdx").unwrap();
    assert_eq!(a.scenes[0].id.len(), 36);
    assert_ne!(a.scenes[0].id, b.scenes[0].id);
}

#[test]
fn parse_script_goes_by_the_extension() {
    let xml = "<Content><Paragraph Type=\"Action\"><Text>a</Text></Paragraph></Content>";
    assert_eq!(parse_script("X.FDX", xml).unwrap().scenes[0].elements[0].text, "a");
    assert_eq!(parse_script("x.txt", "a").unwrap().scenes[0].elements[0].text, "a");
    assert_eq!(parse_script("x.fountain", xml).unwrap().scenes[0].elements[0].text, xml);
    assert!(parse_script("x.fdx", "</a>").is_err());
}

#[test]
fn test_parse_fountain_basic() {
    let text = "Title: My Movie\n\
                 \n\
                 INT. OFFICE - DAY\n\
                 \n\
                 John enters.\n\
                 \n\
                 JOHN\n\
                 Hello there.\n\
                 \n\
                 EXT. PARK - NIGHT\n\
                 \n\
                 The wind howls.\n";

    let script = parse_fountain_str(text, "test.fountain");
    assert_eq!(script.title.as_deref(), Some("My Movie"));
    assert_eq!(script.scenes.len(), 2);
    assert_eq!(script.scenes[0].heading, "INT. OFFICE - DAY");
    assert_eq!(script.scenes[1].heading, "EXT. PARK - NIGHT");
}

#[test]
fn test_parse_fountain_forced_heading() {
    let text = ".FLASHBACK - THE TRENCHES\n\n\
                 Soldiers crouch in mud.\n";
    let script = parse_fountain_str(text, "test.fountain");
    assert_eq!(script.scenes.len(), 1);
    assert_eq!(script.scenes[0].heading, "FLASHBACK - THE TRENCHES");
}

#[test]
fn test_parse_fountain_scene_number() {
    let text = "INT. HOUSE - DAY #42#\n\n\
                 A quiet room.\n";
    let script = parse_fountain_str(text, "test.fountain");
    assert_eq!(script.scenes[0].scene_number.as_deref(), Some("42"));
}

#[test]
fn test_parse_fountain_transitions() {
    let text = "INT. OFFICE - DAY\n\n\
                 John sits.\n\n\
                 CUT TO:\n\n\
                 EXT. PARK - DAY\n\n\
                 Birds sing.\n";
    let script = parse_fountain_str(text, "test.fountain");
    assert_eq!(script.scenes.len(), 2);
    let has_transition = script.scenes[0]
        .elements
        .iter()
        .any(|e| e.kind == ScriptElementKind::Transition);
    assert!(has_transition);
}

#[test]
fn test_parse_fountain_parenthetical() {
    let text = "INT. OFFICE - DAY\n\n\
                 JOHN\n\
                 (whispering)\n\
                 Hello.\n";
    let script = parse_fountain_str(text, "test.fountain");
    let elements = &script.scenes[0].elements;
    let paren = elements
        .iter()
        .find(|e| e.kind == ScriptElementKind::Parenthetical);
    assert!(paren.is_some());
    assert_eq!(paren.unwrap().text, "(whispering)");
    assert_eq!(paren.unwrap().character.as_deref(), Some("JOHN"));
}

#[test]
fn test_parse_fountain_forced_character() {
    let text = "INT. OFFICE - DAY\n\n\
                 @McCLANE\n\
                 Yippee ki-yay.\n";
    let script = parse_fountain_str(text, "test.fountain");
    let char_el = script.scenes[0]
        .elements
        .iter()
        .find(|e| e.kind == ScriptElementKind::Character);
    assert!(char_el.is_some());
    assert_eq!(char_el.unwrap().text, "McCLANE");
}

#[test]
fn test_full_text_contains_all_dialogue() {
    let text = "INT. OFFICE - DAY\n\n\
                 JOHN\n\
                 Hello there.\n\n\
                 JANE\n\
                 Hi John.\n";
    let script = parse_fountain_str(text, "test.fountain");
    let ft = &script.scenes[0].full_text;
    assert!(ft.contains("hello there"));
    assert!(ft.contains("hi john"));
    assert!(ft.contains("int. office - day"));
}

#[test]
fn test_empty_script() {
    let script = parse_fountain_str("", "test.fountain");
    assert!(script.scenes.is_empty());
}

#[test]
fn test_no_scene_heading_creates_unnamed_scene() {
    let text = "John walks in.\n\n\
                 JOHN\n\
                 Hello.\n";
    let script = parse_fountain_str(text, "test.fountain");
    assert_eq!(script.scenes.len(), 1);
    assert!(script.scenes[0].heading.starts_with("Scene "));
}

#[test]
fn fountain_line_ends_and_skipped_lines() {
    let text = "int./ext. car - day\r\n\r# section\r\n= synopsis\n/* cut */\n[[note]]\n> FADE OUT.\r";
    let script = parse_fountain_str(text, "t.fountain");
    assert_eq!(script.title, None);
    assert_eq!(script.scenes.len(), 1);
    assert_eq!(script.scenes[0].heading, "int./ext. car - day");
    assert_eq!(script.scenes[0].elements.len(), 1);
    assert_eq!(script.scenes[0].elements[0].text, "FADE OUT.");
    assert_eq!(script.scenes[0].elements[0].kind, ScriptElementKind::Transition);
}

#[test]
fn fountain_speech_has_a_speaker() {
    let text = "INT. ROOM - DAY\n\nANN\n(quietly)\n  Hello. \n\nShe leaves.\n\n> FADE OUT.\n";
    let script = parse_fountain_str(text, "a.fountain");
    for e in &script.scenes[0].elements {
        let speech = e.kind == ScriptElementKind::Dialogue
            || e.kind == ScriptElementKind::Parenthetical;
        assert_eq!(e.character.as_deref(), if speech { Some("ANN") } else { None });
        assert!(!e.text.is_empty());
        assert_eq!(e.text.trim(), e.text);
    }
    assert_eq!(script.scenes[0].elements.len(), 5);
}

#[test]
fn fountain_cue_needs_a_line_to_speak() {
    let script = parse_fountain_str("ÉMILE (V.O.)\nBonjour.\n\nÉMILE\n\nÉmile", "t.fountain");
    let kinds: Vec<ScriptElementKind> = script.scenes[0].elements.iter().map(|e| e.kind).collect();
    assert_eq!(
        kinds,
        vec![
            ScriptElementKind::Character,
            ScriptElementKind::Dialogue,
            ScriptElementKind::Action,
            ScriptElementKind::Action
        ]
    );
    assert_eq!(script.scenes[0].elements[0].text, "ÉMILE (V.O.)");
    assert_eq!(script.scenes[0].full_text, "scene 1 émile (v.o.) bonjour. émile émile");
}

#[test]
fn fountain_title_page_keeps_the_last_title() {
    let script = parse_fountain_str("Author: X\nTITLE: One\nnotes\ntitle : Two \n\n.A", "t");
    assert_eq!(script.title.as_deref(), Some("Two"));
    assert_eq!(script.scenes[0].heading, "A");
}
