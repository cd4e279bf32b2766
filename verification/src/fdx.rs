//! Final Draft XML (`.fdx`) screenplays.
//!
//! ```xml
//! <FinalDraft>
//!   <TitlePage>...</TitlePage>
//!   <Content>
//!     <Paragraph Type="Scene Heading"><Text>INT. OFFICE - DAY</Text></Paragraph>
//!     <Paragraph Type="Action"><Text>John enters.</Text></Paragraph>
//!     <Paragraph Type="Character"><Text>JOHN</Text></Paragraph>
//!     <Paragraph Type="Dialogue"><Text>Hello there.</Text></Paragraph>
//!   </Content>
//! </FinalDraft>
//! ```

use crate::script::{
    empty_draft, flushed, identified, with_element, Draft, DraftView, ElementView, Script,
    ScriptElementKind, ScriptView,
};
use crate::text::{
    clone_option, decimal, lemma_trim_again, option_view, owned, push_decimal, same, trim, trimmed,
};
use crate::xml::{
    attributes_view, events_view, read_document, xml_events, AttributeView, EventView,
    XmlAttribute, XmlEvent,
};
use crate::script::{is_sound_draft, is_sound_scene, lemma_element_sound, lemma_flushed_sound};
use vstd::prelude::*;
use vstd::string::*;

verus! {

/// A Final Draft document that is not well-formed XML.
#[derive(Debug, Clone)]
pub struct FdxError {
    /// Where in the document, in bytes.
    pub position: u64,
    pub detail: String,
}

impl FdxError {
    pub open spec fn view(&self) -> (u64, Seq<char>) {
        (self.position, self.detail@)
    }

    /// The error in words.
    pub fn message(&self) -> (r: String)
        ensures
            r@ == "FDX parse error at position "@ + decimal(self.position as nat) + ": "@
                + self.detail@,
    {
        let mut r = owned("FDX parse error at position ");
        push_decimal(&mut r, self.position);
        r.append(": ");
        r.append(&self.detail);
        r
    }
}

/// The element kind of a paragraph type; an unknown type is action.
pub open spec fn kind_of_type(t: Seq<char>) -> ScriptElementKind {
    if t == "Scene Heading"@ {
        ScriptElementKind::SceneHeading
    } else if t == "Character"@ {
        ScriptElementKind::Character
    } else if t == "Dialogue"@ {
        ScriptElementKind::Dialogue
    } else if t == "Parenthetical"@ {
        ScriptElementKind::Parenthetical
    } else if t == "Transition"@ {
        ScriptElementKind::Transition
    } else {
        ScriptElementKind::Action
    }
}

/// The element kind of a paragraph type.
pub fn fdx_para_type_to_kind(para_type: &str) -> (r: ScriptElementKind)
    ensures
        r == kind_of_type(para_type@),
{
    if same(para_type, "Scene Heading") {
        ScriptElementKind::SceneHeading
    } else if same(para_type, "Character") {
        ScriptElementKind::Character
    } else if same(para_type, "Dialogue") {
        ScriptElementKind::Dialogue
    } else if same(para_type, "Parenthetical") {
        ScriptElementKind::Parenthetical
    } else if same(para_type, "Transition") {
        ScriptElementKind::Transition
    } else {
        ScriptElementKind::Action
    }
}

/// The last value among the attributes called `key`.
pub open spec fn attribute_value(attributes: Seq<AttributeView>, key: Seq<char>) -> Option<
    Seq<char>,
>
    decreases attributes.len(),
{
    if attributes.len() == 0 {
        None
    } else if attributes.last().key == key {
        Some(attributes.last().value)
    } else {
        attribute_value(attributes.drop_last(), key)
    }
}

/// The last value among the attributes called `key`.
pub fn find_attribute(attributes: &Vec<XmlAttribute>, key: &str) -> (r: Option<String>)
    ensures
        option_view(r) == attribute_value(attributes_view(attributes@), key@),
{
    let ghost all = attributes_view(attributes@);
    let mut n: usize = attributes.len();
    proof {
        assert(all.subrange(0, n as int) =~= all);
    }
    while n > 0
        invariant
            n <= attributes@.len(),
            all == attributes_view(attributes@),
            attribute_value(all, key@) == attribute_value(all.subrange(0, n as int), key@),
        decreases n,
    {
        proof {
            assert(all.subrange(0, n as int).drop_last() =~= all.subrange(0, n - 1));
            assert(all.subrange(0, n as int).last() == attributes@[n - 1]@);
        }
        if same(&attributes[n - 1].key, key) {
            return Some(attributes[n - 1].value.clone());
        }
        n = n - 1;
    }
    None
}

/// Where the parser stands in the document.
pub struct FdxState {
    pub draft: Draft,
    pub in_content: bool,
    pub in_title_page: bool,
    pub in_paragraph: bool,
    pub in_text: bool,
    pub para_type: String,
    pub pending_number: Option<String>,
    pub text: String,
}

/// What a parser state says.
#[verifier::ext_equal]
pub struct FdxView {
    pub draft: DraftView,
    pub in_content: bool,
    pub in_title_page: bool,
    pub in_paragraph: bool,
    pub in_text: bool,
    pub para_type: Seq<char>,
    pub pending_number: Option<Seq<char>>,
    pub text: Seq<char>,
}

impl FdxState {
    pub open spec fn view(&self) -> FdxView {
        FdxView {
            draft: self.draft@,
            in_content: self.in_content,
            in_title_page: self.in_title_page,
            in_paragraph: self.in_paragraph,
            in_text: self.in_text,
            para_type: self.para_type@,
            pending_number: option_view(self.pending_number),
            text: self.text@,
        }
    }
}

/// The state before the first event.
pub open spec fn fdx_start() -> FdxView {
    FdxView {
        draft: empty_draft(),
        in_content: false,
        in_title_page: false,
        in_paragraph: false,
        in_text: false,
        para_type: Seq::empty(),
        pending_number: None,
        text: Seq::empty(),
    }
}

/// The state after a start tag.
pub open spec fn after_start(s: FdxView, name: Seq<char>, attributes: Seq<AttributeView>) -> FdxView {
    if name == "Content"@ {
        FdxView { in_content: true, ..s }
    } else if name == "TitlePage"@ {
        FdxView { in_title_page: true, ..s }
    } else if name == "Paragraph"@ && s.in_content {
        FdxView {
            in_paragraph: true,
            para_type: match attribute_value(attributes, "Type"@) {
                Some(t) => t,
                None => Seq::empty(),
            },
            pending_number: attribute_value(attributes, "Number"@),
            ..s
        }
    } else if name == "Text"@ && (s.in_paragraph || s.in_title_page) {
        FdxView { in_text: true, text: Seq::empty(), ..s }
    } else {
        s
    }
}

/// The draft once a paragraph with this text and kind has ended. A scene heading closes the
/// scene before it; a character's name stays current until an element that is neither
/// dialogue nor parenthetical.
pub open spec fn after_paragraph(
    d: DraftView,
    kind: ScriptElementKind,
    text: Seq<char>,
    number: Option<Seq<char>>,
) -> DraftView {
    let spoken = kind == ScriptElementKind::Dialogue || kind == ScriptElementKind::Parenthetical;
    let opened = if kind == ScriptElementKind::SceneHeading {
        DraftView { heading: text, scene_number: number, ..flushed(d) }
    } else {
        d
    };
    let cued = DraftView {
        character: if kind == ScriptElementKind::Character {
            Some(text)
        } else if spoken {
            d.character
        } else {
            None
        },
        ..opened
    };
    with_element(
        cued,
        ElementView {
            kind,
            text,
            character: if spoken {
                d.character
            } else {
                None
            },
        },
    )
}

/// The state after an end tag.
pub open spec fn after_end(s: FdxView, name: Seq<char>) -> FdxView {
    if name == "Content"@ {
        FdxView { in_content: false, ..s }
    } else if name == "TitlePage"@ {
        FdxView { in_title_page: false, ..s }
    } else if name == "Text"@ {
        FdxView { in_text: false, ..s }
    } else if name == "Paragraph"@ && s.in_content {
        let t = trim(s.text);
        let kind = kind_of_type(s.para_type);
        if t.len() == 0 {
            FdxView { in_paragraph: false, text: Seq::empty(), ..s }
        } else {
            FdxView {
                in_paragraph: false,
                text: Seq::empty(),
                draft: after_paragraph(s.draft, kind, t, s.pending_number),
                pending_number: if kind == ScriptElementKind::SceneHeading {
                    None
                } else {
                    s.pending_number
                },
                ..s
            }
        }
    } else {
        s
    }
}

/// The state after an event.
pub open spec fn fdx_step(s: FdxView, e: EventView) -> FdxView {
    match e {
        EventView::Start { name, attributes } => after_start(s, name, attributes),
        EventView::End { name } => after_end(s, name),
        EventView::Text { content } => match content {
            Some(t) => if s.in_text {
                FdxView {
                    text: if s.text.len() == 0 {
                        s.text + t
                    } else {
                        s.text.push(' ') + t
                    },
                    ..s
                }
            } else {
                s
            },
            None => s,
        },
        _ => s,
    }
}

/// The state at the end of the document, or nothing where the document is malformed first.
pub open spec fn fdx_run(s: FdxView, events: Seq<EventView>) -> Option<FdxView>
    decreases events.len(),
{
    if events.len() == 0 {
        Some(s)
    } else {
        match events[0] {
            EventView::Eof => Some(s),
            EventView::Malformed { .. } => None,
            e => fdx_run(fdx_step(s, e), events.drop_first()),
        }
    }
}

/// Where and how a document is malformed.
pub open spec fn fdx_error(events: Seq<EventView>) -> (u64, Seq<char>)
    decreases events.len(),
{
    if events.len() == 0 {
        (0, Seq::empty())
    } else {
        match events[0] {
            EventView::Malformed { position, detail } => (position, detail),
            _ => fdx_error(events.drop_first()),
        }
    }
}

/// The first text of the title page that is not blank.
pub open spec fn title_in(
    events: Seq<EventView>,
    in_title_page: bool,
    in_text: bool,
    text: Seq<char>,
) -> Option<Seq<char>>
    decreases events.len(),
{
    if events.len() == 0 {
        None
    } else {
        let rest = events.drop_first();
        match events[0] {
            EventView::Start { name, .. } => {
                let page = in_title_page || name == "TitlePage"@;
                let opens = name == "Text"@ && page;
                title_in(
                    rest,
                    page,
                    in_text || opens,
                    if opens {
                        Seq::empty()
                    } else {
                        text
                    },
                )
            },
            EventView::End { name } => if name == "TitlePage"@ {
                None
            } else if name == "Text"@ && in_title_page {
                if trim(text).len() > 0 {
                    Some(trim(text))
                } else {
                    title_in(rest, in_title_page, false, text)
                }
            } else {
                title_in(rest, in_title_page, in_text, text)
            },
            EventView::Text { content } => match content {
                Some(t) => if in_text {
                    title_in(rest, in_title_page, in_text, text + t)
                } else {
                    title_in(rest, in_title_page, in_text, text)
                },
                None => title_in(rest, in_title_page, in_text, text),
            },
            EventView::Eof => None,
            EventView::Malformed { .. } => None,
            EventView::Other => title_in(rest, in_title_page, in_text, text),
        }
    }
}

/// The script that the events of a document describe, or nothing where it is malformed.
pub open spec fn fdx_of(events: Seq<EventView>, path: Seq<char>) -> Option<ScriptView> {
    match fdx_run(fdx_start(), events) {
        Some(s) => Some(
            ScriptView {
                path,
                title: title_in(events, false, false, Seq::empty()),
                scenes: flushed(s.draft).scenes,
            },
        ),
        None => None,
    }
}

impl FdxState {
    /// The state before the first event.
    fn new() -> (r: FdxState)
        ensures
            r@ == fdx_start(),
            r.draft.wf(),
    {
        FdxState {
            draft: Draft::new(),
            in_content: false,
            in_title_page: false,
            in_paragraph: false,
            in_text: false,
            para_type: String::new(),
            pending_number: None,
            text: String::new(),
        }
    }

    /// Takes in a start tag.
    fn start(&mut self, name: &str, attributes: &Vec<XmlAttribute>)
        requires
            old(self).draft.wf(),
        ensures
            final(self)@ == after_start(old(self)@, name@, attributes_view(attributes@)),
            final(self).draft == old(self).draft,
    {
        if same(name, "Content") {
            self.in_content = true;
        } else if same(name, "TitlePage") {
            self.in_title_page = true;
        } else if same(name, "Paragraph") && self.in_content {
            self.in_paragraph = true;
            self.para_type = match find_attribute(attributes, "Type") {
                Some(t) => t,
                None => String::new(),
            };
            self.pending_number = find_attribute(attributes, "Number");
        } else if same(name, "Text") && (self.in_paragraph || self.in_title_page) {
            self.in_text = true;
            self.text = String::new();
        }
    }

    /// Takes in an end tag.
    fn end(&mut self, name: &str)
        requires
            old(self).draft.wf(),
        ensures
            final(self)@ == after_end(old(self)@, name@),
            final(self).draft.wf(),
    {
        if same(name, "Content") {
            self.in_content = false;
        } else if same(name, "TitlePage") {
            self.in_title_page = false;
        } else if same(name, "Text") {
            self.in_text = false;
        } else if same(name, "Paragraph") && self.in_content {
            let ghost before = *self;
            self.in_paragraph = false;
            let text = trimmed(&self.text);
            self.text = String::new();
            if !text.as_str().is_empty() {
                let kind = fdx_para_type_to_kind(&self.para_type);
                if kind == ScriptElementKind::SceneHeading {
                    self.draft.flush_scene();
                    self.draft.heading = text.clone();
                    let mut number: Option<String> = None;
                    core::mem::swap(&mut number, &mut self.pending_number);
                    self.draft.scene_number = number;
                }
                let mut character: Option<String> = None;
                if kind == ScriptElementKind::Character {
                    self.draft.character = Some(text.clone());
                } else if kind == ScriptElementKind::Dialogue || kind
                    == ScriptElementKind::Parenthetical {
                    character = clone_option(&self.draft.character);
                } else {
                    self.draft.character = None;
                }
                self.draft.push_element(kind, text, character);
            }
            proof {
                assert(self@ =~= after_end(before@, name@));
            }
        }
    }

    /// Takes in an event other than a stop.
    fn step(&mut self, e: &XmlEvent)
        requires
            old(self).draft.wf(),
        ensures
            final(self)@ == fdx_step(old(self)@, e@),
            final(self).draft.wf(),
    {
        match e {
            XmlEvent::Start { name, attributes } => self.start(name, attributes),
            XmlEvent::End { name } => self.end(name),
            XmlEvent::Text { content } => {
                if let Some(t) = content {
                    if self.in_text {
                        if !self.text.as_str().is_empty() {
                            self.text.push(' ');
                        }
                        self.text.append(t);
                    }
                }
            },
            _ => {},
        }
    }
}

/// The script that the events of a document describe.
pub fn fdx_script(events: &Vec<XmlEvent>, path: &str) -> (r: Result<Script, FdxError>)
    ensures
        match r {
            Ok(s) => fdx_of(events_view(events@), path@) == Some(s@) && identified(s.scenes@),
            Err(e) => fdx_of(events_view(events@), path@) is None && e@ == fdx_error(
                events_view(events@),
            ),
        },
{
    let ghost all = events_view(events@);
    let mut s = FdxState::new();
    let mut i: usize = 0;
    proof {
        assert(all.subrange(0, all.len() as int) =~= all);
    }
    while i < events.len()
        invariant_except_break
            i <= events@.len(),
            all == events_view(events@),
            s.draft.wf(),
            fdx_run(fdx_start(), all) == fdx_run(s@, all.subrange(i as int, all.len() as int)),
            fdx_error(all) == fdx_error(all.subrange(i as int, all.len() as int)),
        ensures
            all == events_view(events@),
            s.draft.wf(),
            fdx_run(fdx_start(), all) == Some(s@),
        decreases events.len() - i,
    {
        let ghost rest = all.subrange(i as int, all.len() as int);
        proof {
            assert(rest[0] == events@[i as int]@);
            assert(rest.drop_first() =~= all.subrange(i + 1, all.len() as int));
        }
        match &events[i] {
            XmlEvent::Eof => {
                break;
            },
            XmlEvent::Malformed { position, detail } => {
                return Err(FdxError { position: *position, detail: detail.clone() });
            },
            _ => {},
        }
        s.step(&events[i]);
        i = i + 1;
    }
    s.draft.flush_scene();
    let title = extract_fdx_title(events);
    Ok(Script { path: owned(path), title, scenes: s.draft.scenes })
}

/// The first text of the title page that is not blank.
pub fn extract_fdx_title(events: &Vec<XmlEvent>) -> (r: Option<String>)
    ensures
        option_view(r) == title_in(events_view(events@), false, false, Seq::empty()),
{
    let ghost all = events_view(events@);
    let mut in_title_page: bool = false;
    let mut in_text: bool = false;
    let mut text = String::new();
    let mut i: usize = 0;
    proof {
        assert(all.subrange(0, all.len() as int) =~= all);
    }
    while i < events.len()
        invariant
            i <= events@.len(),
            all == events_view(events@),
            title_in(all, false, false, Seq::empty()) == title_in(
                all.subrange(i as int, all.len() as int),
                in_title_page,
                in_text,
                text@,
            ),
        decreases events.len() - i,
    {
        let ghost rest = all.subrange(i as int, all.len() as int);
        proof {
            assert(rest[0] == events@[i as int]@);
            assert(rest.drop_first() =~= all.subrange(i + 1, all.len() as int));
        }
        match &events[i] {
            XmlEvent::Start { name, .. } => {
                if same(name, "TitlePage") {
                    in_title_page = true;
                }
                if same(name, "Text") && in_title_page {
                    in_text = true;
                    text = String::new();
                }
            },
            XmlEvent::End { name } => {
                if same(name, "TitlePage") {
                    return None;
                }
                if same(name, "Text") && in_title_page {
                    in_text = false;
                    let t = trimmed(&text);
                    if !t.as_str().is_empty() {
                        return Some(t);
                    }
                }
            },
            XmlEvent::Text { content } => {
                if let Some(t) = content {
                    if in_text {
                        text.append(t);
                    }
                }
            },
            XmlEvent::Eof => {
                return None;
            },
            XmlEvent::Malformed { .. } => {
                return None;
            },
            XmlEvent::Other => {},
        }
        i = i + 1;
    }
    None
}

/// Parses a Final Draft document that was read from `path`.
pub fn parse_fdx_str(xml: &str, path: &str) -> (r: Result<Script, FdxError>)
    ensures
        match r {
            Ok(s) => fdx_of(xml_events(xml@), path@) == Some(s@) && identified(s.scenes@),
            Err(e) => fdx_of(xml_events(xml@), path@) is None && e@ == fdx_error(xml_events(xml@)),
        },
{
    let events = read_document(xml);
    fdx_script(&events, path)
}

proof fn lemma_paragraph_sound(
    d: DraftView,
    kind: ScriptElementKind,
    text: Seq<char>,
    number: Option<Seq<char>>,
)
    requires
        is_sound_draft(d),
        trim(text) == text,
        text.len() > 0,
    ensures
        is_sound_draft(after_paragraph(d, kind, text, number)),
{
    lemma_flushed_sound(d);
    let spoken = kind == ScriptElementKind::Dialogue || kind == ScriptElementKind::Parenthetical;
    let opened = if kind == ScriptElementKind::SceneHeading {
        DraftView { heading: text, scene_number: number, ..flushed(d) }
    } else {
        d
    };
    let cued = DraftView {
        character: if kind == ScriptElementKind::Character {
            Some(text)
        } else if spoken {
            d.character
        } else {
            None
        },
        ..opened
    };
    lemma_element_sound(
        cued,
        ElementView {
            kind,
            text,
            character: if spoken {
                d.character
            } else {
                None
            },
        },
    );
}

proof fn lemma_fdx_run_sound(s: FdxView, events: Seq<EventView>)
    requires
        is_sound_draft(s.draft),
    ensures
        fdx_run(s, events) matches Some(end) ==> is_sound_draft(end.draft),
    decreases events.len(),
{
    if events.len() > 0 {
        lemma_trim_again(s.text);
        if trim(s.text).len() > 0 {
            lemma_paragraph_sound(
                s.draft,
                kind_of_type(s.para_type),
                trim(s.text),
                s.pending_number,
            );
        }
        lemma_fdx_run_sound(fdx_step(s, events[0]), events.drop_first());
    }
}

/// Whether every element has a text.
pub open spec fn all_filled(elements: Seq<ElementView>) -> bool {
    forall|i: int| 0 <= i < elements.len() ==> (#[trigger] elements[i]).text.len() > 0
}

spec fn is_filled_draft(d: DraftView) -> bool {
    &&& forall|i: int| 0 <= i < d.scenes.len() ==> all_filled((#[trigger] d.scenes[i]).elements)
    &&& all_filled(d.elements)
}

proof fn lemma_flushed_filled(d: DraftView)
    requires
        is_filled_draft(d),
    ensures
        is_filled_draft(flushed(d)),
{
    let f = flushed(d);
    assert forall|i: int| 0 <= i < f.scenes.len() implies all_filled(
        (#[trigger] f.scenes[i]).elements,
    ) by {
        if i < d.scenes.len() {
            assert(f.scenes[i] == d.scenes[i]);
        }
    }
}

proof fn lemma_fdx_run_filled(s: FdxView, events: Seq<EventView>)
    requires
        is_filled_draft(s.draft),
    ensures
        fdx_run(s, events) matches Some(end) ==> is_filled_draft(end.draft),
    decreases events.len(),
{
    if events.len() > 0 {
        let text = trim(s.text);
        lemma_flushed_filled(s.draft);
        if text.len() > 0 {
            let kind = kind_of_type(s.para_type);
            let before = if kind == ScriptElementKind::SceneHeading {
                flushed(s.draft)
            } else {
                s.draft
            };
            let after = after_paragraph(s.draft, kind, text, s.pending_number);
            assert(after.elements =~= before.elements.push(after.elements.last()));
            assert(all_filled(after.elements)) by {
                assert forall|i: int| 0 <= i < after.elements.len() implies (
                #[trigger] after.elements[i]).text.len() > 0 by {
                    if i < before.elements.len() {
                        assert(after.elements[i] == before.elements[i]);
                    }
                }
            }
            assert(after.scenes == before.scenes);
        }
        lemma_fdx_run_filled(fdx_step(s, events[0]), events.drop_first());
    }
}

/// Every element of a Final Draft script has a text.
pub proof fn lemma_fdx_elements_filled(events: Seq<EventView>, path: Seq<char>, i: int)
    requires
        fdx_of(events, path) is Some,
        0 <= i < fdx_of(events, path)->Some_0.scenes.len(),
    ensures
        all_filled(fdx_of(events, path)->Some_0.scenes[i].elements),
{
    lemma_fdx_run_filled(fdx_start(), events);
    lemma_flushed_filled(fdx_run(fdx_start(), events)->Some_0.draft);
}

/// Every scene of a Final Draft script has a heading, tidy elements and their text in lower case, and
/// only its speech has speakers.
pub proof fn lemma_fdx_scenes_sound(events: Seq<EventView>, path: Seq<char>, i: int)
    requires
        fdx_of(events, path) is Some,
        0 <= i < fdx_of(events, path)->Some_0.scenes.len(),
    ensures
        is_sound_scene(fdx_of(events, path)->Some_0.scenes[i]),
{
    lemma_fdx_run_sound(fdx_start(), events);
    lemma_flushed_sound(fdx_run(fdx_start(), events)->Some_0.draft);
}

// ---------------------------------------------------------------- attributes
/// The value of an attribute is that of the last one with its key; there is none only where no
/// attribute has the key.
pub proof fn lemma_attribute_value(attributes: Seq<AttributeView>, key: Seq<char>)
    ensures
        match attribute_value(attributes, key) {
            Some(v) => exists|k: int|
                0 <= k < attributes.len() && (#[trigger] attributes[k]).key == key
                    && attributes[k].value == v && forall|j: int|
                    k < j < attributes.len() ==> (#[trigger] attributes[j]).key != key,
            None => forall|k: int|
                0 <= k < attributes.len() ==> (#[trigger] attributes[k]).key != key,
        },
    decreases attributes.len(),
{
    if attributes.len() > 0 {
        let front = attributes.drop_last();
        assert(attributes[attributes.len() - 1] == attributes.last());
        if attributes.last().key != key {
            lemma_attribute_value(front, key);
            match attribute_value(front, key) {
                Some(v) => {
                    let k = choose|k: int|
                        0 <= k < front.len() && (#[trigger] front[k]).key == key && front[k].value
                            == v && forall|j: int|
                            k < j < front.len() ==> (#[trigger] front[j]).key != key;
                    assert(attributes[k] == front[k]);
                    assert forall|j: int| k < j < attributes.len() implies (
                    #[trigger] attributes[j]).key != key by {
                        if j < front.len() {
                            assert(front[j] == attributes[j]);
                        }
                    }
                },
                None => {
                    assert forall|k: int| 0 <= k < attributes.len() implies (
                    #[trigger] attributes[k]).key != key by {
                        if k < front.len() {
                            assert(front[k] == attributes[k]);
                        }
                    }
                },
            }
        }
    }
}

proof fn lemma_names()
    ensures
        "Content"@.len() == 7,
        "TitlePage"@.len() == 9,
        "Paragraph"@.len() == 9,
        "Text"@.len() == 4,
        "Paragraph"@[0] == 'P',
        "TitlePage"@[0] == 'T',
        "Scene Heading"@.len() == 13,
        "Character"@.len() == 9,
        "Dialogue"@.len() == 8,
        "Parenthetical"@.len() == 13,
        "Transition"@.len() == 10,
        "Scene Heading"@[0] == 'S',
        "Parenthetical"@[0] == 'P',
{
    reveal_strlit("Content");
    reveal_strlit("TitlePage");
    reveal_strlit("Paragraph");
    reveal_strlit("Text");
    reveal_strlit("Scene Heading");
    reveal_strlit("Character");
    reveal_strlit("Dialogue");
    reveal_strlit("Parenthetical");
    reveal_strlit("Transition");
}

/// Each kind but action is that of one type of paragraph.
pub proof fn lemma_kinds(t: Seq<char>)
    ensures
        kind_of_type(t) == ScriptElementKind::SceneHeading <==> t == "Scene Heading"@,
        kind_of_type(t) == ScriptElementKind::Character <==> t == "Character"@,
        kind_of_type(t) == ScriptElementKind::Dialogue <==> t == "Dialogue"@,
        kind_of_type(t) == ScriptElementKind::Parenthetical <==> t == "Parenthetical"@,
        kind_of_type(t) == ScriptElementKind::Transition <==> t == "Transition"@,
        kind_of_type(t) != ScriptElementKind::Action ==> t.len() > 0,
{
    lemma_names();
}

// ---------------------------------------------------------------- paragraphs
/// A paragraph is one element with its text and kind, behind those that there were. A heading opens
/// a scene with its text and number, and the scene before it keeps its elements; any other stays in
/// the scene. Dialogue and parentheticals are spoken by the character named last, and nothing else
/// is; they leave that character speaking, and a name makes its own speak.
pub proof fn lemma_paragraph_is_one_element(
    d: DraftView,
    kind: ScriptElementKind,
    text: Seq<char>,
    number: Option<Seq<char>>,
)
    ensures
        ({
            let r = after_paragraph(d, kind, text, number);
            let e = r.elements.last();
            &&& r.elements.len() > 0
            &&& e.kind == kind && e.text == text
            &&& kind == ScriptElementKind::Dialogue || kind == ScriptElementKind::Parenthetical
                ==> e.character == d.character && r.character == d.character
            &&& !(kind == ScriptElementKind::Dialogue || kind == ScriptElementKind::Parenthetical)
                ==> e.character is None
            &&& kind == ScriptElementKind::Character ==> r.character == Some(text)
            &&& kind == ScriptElementKind::Action || kind == ScriptElementKind::Transition || kind
                == ScriptElementKind::SceneHeading ==> r.character is None
            &&& if kind == ScriptElementKind::SceneHeading {
                &&& r.heading == text && r.scene_number == number
                &&& r.elements.len() == 1
                &&& if d.heading.len() == 0 && d.elements.len() == 0 {
                    r.scenes == d.scenes
                } else {
                    &&& r.scenes.len() == d.scenes.len() + 1
                    &&& r.scenes.drop_last() == d.scenes
                    &&& r.scenes.last().elements == d.elements
                    &&& r.scenes.last().scene_number == d.scene_number
                    &&& d.heading.len() > 0 ==> r.scenes.last().heading == d.heading
                }
            } else {
                &&& r.heading == d.heading && r.scene_number == d.scene_number
                &&& r.scenes == d.scenes
                &&& r.elements.drop_last() == d.elements
            }
        }),
{
    let r = after_paragraph(d, kind, text, number);
    if kind == ScriptElementKind::SceneHeading {
        if !(d.heading.len() == 0 && d.elements.len() == 0) {
            assert(r.scenes.drop_last() =~= d.scenes);
        }
    } else {
        assert(r.elements.drop_last() =~= d.elements);
    }
}

/// The events of a paragraph with one text.
pub open spec fn paragraph_events(attributes: Seq<AttributeView>, text: Seq<char>) -> Seq<
    EventView,
> {
    seq![
        EventView::Start { name: "Paragraph"@, attributes },
        EventView::Start { name: "Text"@, attributes: Seq::empty() },
        EventView::Text { content: Some(text) },
        EventView::End { name: "Text"@ },
        EventView::End { name: "Paragraph"@ },
    ]
}

/// Reading a paragraph of the content adds what it says to the draft: an element of the kind that
/// its type names, with its text trimmed, and its number where it is a heading. A blank one adds
/// nothing.
pub proof fn lemma_paragraph_is_read(
    s: FdxView,
    attributes: Seq<AttributeView>,
    text: Seq<char>,
    rest: Seq<EventView>,
)
    requires
        s.in_content,
    ensures
        exists|t: FdxView|
            #![trigger fdx_run(t, rest)]
            {
                &&& fdx_run(s, paragraph_events(attributes, text) + rest) == fdx_run(t, rest)
                &&& t.in_content && !t.in_paragraph && !t.in_text && t.text.len() == 0
                &&& t.in_title_page == s.in_title_page
                &&& t.draft == (if trim(text).len() == 0 {
                    s.draft
                } else {
                    after_paragraph(
                        s.draft,
                        kind_of_type(
                            match attribute_value(attributes, "Type"@) {
                                Some(k) => k,
                                None => Seq::empty(),
                            },
                        ),
                        trim(text),
                        attribute_value(attributes, "Number"@),
                    )
                })
            },
{
    lemma_names();
    let p = paragraph_events(attributes, text);
    let all = p + rest;
    let s1 = fdx_step(s, p[0]);
    let s2 = fdx_step(s1, p[1]);
    let s3 = fdx_step(s2, p[2]);
    let s4 = fdx_step(s3, p[3]);
    let s5 = fdx_step(s4, p[4]);
    let e1 = all.drop_first();
    let e2 = e1.drop_first();
    let e3 = e2.drop_first();
    let e4 = e3.drop_first();
    let e5 = e4.drop_first();
    assert(all[0] == p[0] && e1[0] == p[1] && e2[0] == p[2] && e3[0] == p[3] && e4[0] == p[4]);
    assert(e5 =~= rest);
    assert(s1.in_paragraph && s1.in_content);
    assert(s2.in_text && s2.text.len() == 0);
    assert(s3.text =~= text);
    assert(s4.text == s3.text);
    assert(fdx_run(s, all) == fdx_run(s1, e1));
    assert(fdx_run(s1, e1) == fdx_run(s2, e2));
    assert(fdx_run(s2, e2) == fdx_run(s3, e3));
    assert(fdx_run(s3, e3) == fdx_run(s4, e4));
    assert(fdx_run(s4, e4) == fdx_run(s5, e5));
    assert(fdx_run(s, all) == fdx_run(s5, rest));
}

/// What stands outside the content adds nothing to the script.
pub proof fn lemma_only_content_is_read(s: FdxView, e: EventView)
    requires
        !s.in_content,
    ensures
        fdx_step(s, e).draft == s.draft,
        e matches EventView::Start { name, .. } ==> (fdx_step(s, e).in_content <==> name
            == "Content"@),
{
    lemma_names();
}

/// Only the end of a paragraph changes the script.
pub proof fn lemma_only_ends_change_the_draft(s: FdxView, e: EventView)
    requires
        fdx_step(s, e).draft != s.draft,
    ensures
        s.in_content,
        e == (EventView::End { name: "Paragraph"@ }),
{
}

/// A document that breaks off is no script: the error tells where the first fault is.
pub proof fn lemma_malformed(events: Seq<EventView>, s: FdxView, k: int)
    requires
        0 <= k < events.len(),
        events[k] is Malformed,
        forall|j: int| 0 <= j < k ==> !(events[j] is Malformed) && !(events[j] is Eof),
    ensures
        fdx_run(s, events) is None,
        fdx_error(events) == (events[k]->position, events[k]->detail),
    decreases events.len(),
{
    if k > 0 {
        let rest = events.drop_first();
        assert(!(events[0] is Malformed) && !(events[0] is Eof));
        assert(rest[k - 1] == events[k]);
        assert forall|j: int| 0 <= j < k - 1 implies !(rest[j] is Malformed) && !(rest[j] is Eof) by {
            assert(rest[j] == events[j + 1]);
        }
        lemma_malformed(rest, fdx_step(s, events[0]), k - 1);
    }
}

/// A document without a fault before its end is a script.
pub proof fn lemma_sound_document_is_read(events: Seq<EventView>, s: FdxView)
    requires
        forall|j: int| 0 <= j < events.len() ==> !(#[trigger] events[j] is Malformed),
    ensures
        fdx_run(s, events) is Some,
    decreases events.len(),
{
    if events.len() > 0 {
        let rest = events.drop_first();
        assert(!(events[0] is Malformed));
        assert forall|j: int| 0 <= j < rest.len() implies !(#[trigger] rest[j] is Malformed) by {
            assert(rest[j] == events[j + 1]);
        }
        lemma_sound_document_is_read(rest, fdx_step(s, events[0]));
    }
}

/// The title is the first text of the title page that is not blank, trimmed.
pub proof fn lemma_title_is_read(text: Seq<char>, attributes: Seq<AttributeView>, rest: Seq<EventView>)
    ensures
        ({
            let page = seq![
                EventView::Start { name: "TitlePage"@, attributes },
                EventView::Start { name: "Text"@, attributes },
                EventView::Text { content: Some(text) },
                EventView::End { name: "Text"@ },
            ];
            trim(text).len() > 0 ==> title_in(page + rest, false, false, Seq::empty()) == Some(
                trim(text),
            )
        }),
{
    lemma_names();
    let page = seq![
        EventView::Start { name: "TitlePage"@, attributes },
        EventView::Start { name: "Text"@, attributes },
        EventView::Text { content: Some(text) },
        EventView::End { name: "Text"@ },
    ];
    let e0 = page + rest;
    let e1 = e0.drop_first();
    let e2 = e1.drop_first();
    let e3 = e2.drop_first();
    assert(e0[0] == page[0] && e1[0] == page[1] && e2[0] == page[2] && e3[0] == page[3]);
    let none = Seq::<char>::empty();
    assert(title_in(e0, false, false, none) == title_in(e1, true, false, none));
    assert(title_in(e1, true, false, none) == title_in(e2, true, true, none));
    assert(none + text =~= text);
    assert(title_in(e2, true, true, none) == title_in(e3, true, true, text));
}

/// A document without a title page has no title.
pub proof fn lemma_no_title_page(events: Seq<EventView>, text: Seq<char>)
    requires
        forall|i: int|
            0 <= i < events.len() ==> !(#[trigger] events[i] matches EventView::Start { name, .. }
                && name == "TitlePage"@),
    ensures
        title_in(events, false, false, text) is None,
    decreases events.len(),
{
    lemma_names();
    if events.len() > 0 {
        let rest = events.drop_first();
        assert(!(events[0] matches EventView::Start { name, .. } && name == "TitlePage"@));
        assert forall|i: int| 0 <= i < rest.len() implies !(
        #[trigger] rest[i] matches EventView::Start { name, .. } && name == "TitlePage"@) by {
            assert(rest[i] == events[i + 1]);
        }
        lemma_no_title_page(rest, text);
    }
}

/// Text counts only within a text element; pieces of it have blanks between them.
pub proof fn lemma_text_pieces(s: FdxView, t: Seq<char>)
    ensures
        ({
            let r = fdx_step(s, EventView::Text { content: Some(t) });
            &&& s.in_text && s.text.len() == 0 ==> r.text == t
            &&& s.in_text && s.text.len() > 0 ==> r.text == s.text + seq![' '] + t
            &&& !s.in_text ==> r == s
            &&& r.draft == s.draft && r.in_text == s.in_text && r.in_paragraph == s.in_paragraph
        }),
        fdx_step(s, EventView::Text { content: None }) == s,
        fdx_step(s, EventView::Other) == s,
{
    if s.in_text && s.text.len() == 0 {
        assert(s.text + t =~= t);
    }
    assert(s.text.push(' ') + t =~= s.text + seq![' '] + t);
}

/// A tag opens and closes what it names, and nothing else: the content, the title page, and a text
/// within a paragraph or the title page.
pub proof fn lemma_tags(s: FdxView, name: Seq<char>, attributes: Seq<AttributeView>)
    ensures
        ({
            let a = after_start(s, name, attributes);
            let b = after_end(s, name);
            &&& a.draft == s.draft
            &&& a.in_content <==> s.in_content || name == "Content"@
            &&& b.in_content <==> s.in_content && name != "Content"@
            &&& a.in_title_page <==> s.in_title_page || name == "TitlePage"@
            &&& b.in_title_page <==> s.in_title_page && name != "TitlePage"@
            &&& a.in_paragraph <==> s.in_paragraph || (name == "Paragraph"@ && s.in_content)
            &&& b.in_paragraph <==> s.in_paragraph && !(name == "Paragraph"@ && s.in_content)
            &&& a.in_text <==> s.in_text || (name == "Text"@ && (s.in_paragraph
                || s.in_title_page))
            &&& b.in_text <==> s.in_text && name != "Text"@
        }),
{
    lemma_names();
}

} // verus!
