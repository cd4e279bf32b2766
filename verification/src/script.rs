//! Screenplays: scenes made of elements, and the draft that both parsers fill.

use crate::fdx::{fdx_error, fdx_of, parse_fdx_str, FdxError};
use crate::fountain::{fountain_of, parse_fountain_str};
use crate::ids::{fresh_id, is_uuid};
use crate::text::{
    clone_option, decimal, ends, ends_with, join, joined, option_view, owned, push_wide, trim,
    views,
};
use crate::unicode::lowercase;
use crate::xml::xml_events;
use vstd::prelude::*;

verus! {

/// The type of a screenplay element within a scene.
#[derive(Debug, Clone, Copy, PartialEq, Eq, Structural)]
pub enum ScriptElementKind {
    SceneHeading,
    Action,
    Character,
    Dialogue,
    Parenthetical,
    Transition,
}

/// A single element (line) within a scene.
#[derive(Debug, Clone)]
pub struct ScriptElement {
    pub kind: ScriptElementKind,
    pub text: String,
    /// Populated for dialogue and parentheticals.
    pub character: Option<String>,
}

/// A scene parsed from a screenplay.
#[derive(Debug, Clone)]
pub struct Scene {
    /// Random identifier, made when the scene is parsed.
    pub id: String,
    /// Explicit scene number if present in the script (e.g. "42A").
    pub scene_number: Option<String>,
    /// The scene heading text (e.g. "INT. OFFICE - DAY").
    pub heading: String,
    /// Ordered elements within the scene.
    pub elements: Vec<ScriptElement>,
    /// Heading and element texts in lower case with spaces between them.
    pub full_text: String,
}

/// A parsed screenplay.
#[derive(Debug, Clone)]
pub struct Script {
    /// Path to the script file.
    pub path: String,
    /// Script title if present in metadata.
    pub title: Option<String>,
    /// Scenes in script order.
    pub scenes: Vec<Scene>,
}

/// What an element says.
#[verifier::ext_equal]
pub struct ElementView {
    pub kind: ScriptElementKind,
    pub text: Seq<char>,
    pub character: Option<Seq<char>>,
}

/// What a scene says, its identifier apart.
#[verifier::ext_equal]
pub struct SceneView {
    pub scene_number: Option<Seq<char>>,
    pub heading: Seq<char>,
    pub elements: Seq<ElementView>,
    pub full_text: Seq<char>,
}

/// What a script says, the scenes' identifiers apart.
#[verifier::ext_equal]
pub struct ScriptView {
    pub path: Seq<char>,
    pub title: Option<Seq<char>>,
    pub scenes: Seq<SceneView>,
}

impl ScriptElement {
    pub open spec fn view(&self) -> ElementView {
        ElementView {
            kind: self.kind,
            text: self.text@,
            character: option_view(self.character),
        }
    }
}

/// What each element says.
pub open spec fn elements_view(s: Seq<ScriptElement>) -> Seq<ElementView> {
    s.map_values(|e: ScriptElement| e@)
}

/// What each scene says.
pub open spec fn scenes_view(s: Seq<Scene>) -> Seq<SceneView> {
    s.map_values(|e: Scene| e@)
}

/// Every scene has an identifier of the right shape.
pub open spec fn identified(s: Seq<Scene>) -> bool {
    forall|i: int| 0 <= i < s.len() ==> is_uuid(#[trigger] s[i].id@)
}

impl Scene {
    pub open spec fn view(&self) -> SceneView {
        SceneView {
            scene_number: option_view(self.scene_number),
            heading: self.heading@,
            elements: elements_view(self.elements@),
            full_text: self.full_text@,
        }
    }
}

impl Script {
    pub open spec fn view(&self) -> ScriptView {
        ScriptView {
            path: self.path@,
            title: option_view(self.title),
            scenes: scenes_view(self.scenes@),
        }
    }
}

/// Heading and element texts in lower case with one space between neighbours.
pub open spec fn full_text_of(heading: Seq<char>, elements: Seq<ElementView>) -> Seq<char> {
    join(
        seq![lowercase(heading)] + elements.map_values(|e: ElementView| lowercase(e.text)),
        " "@,
    )
}

/// The lower-case text of a scene.
pub fn build_full_text(heading: &str, elements: &Vec<ScriptElement>) -> (r: String)
    ensures
        r@ == full_text_of(heading@, elements_view(elements@)),
{
    let mut parts: Vec<String> = Vec::new();
    parts.push(heading.to_lowercase());
    let ghost f = |e: ElementView| lowercase(e.text);
    let ghost all = elements_view(elements@);
    let mut i: usize = 0;
    proof {
        assert(views(parts@) =~= seq![lowercase(heading@)] + all.subrange(0, 0).map_values(f));
    }
    while i < elements.len()
        invariant
            i <= elements@.len(),
            all == elements_view(elements@),
            f == (|e: ElementView| lowercase(e.text)),
            views(parts@) == seq![lowercase(heading@)] + all.subrange(0, i as int).map_values(f),
        decreases elements.len() - i,
    {
        let ghost done = parts@;
        parts.push(elements[i].text.to_lowercase());
        proof {
            assert(views(parts@) =~= views(done).push(lowercase(elements@[i as int].text@)));
            assert(all.subrange(0, i + 1).map_values(f) =~= all.subrange(0, i as int).map_values(
                f,
            ).push(f(all[i as int])));
            assert(views(parts@) =~= seq![lowercase(heading@)] + all.subrange(0, i + 1).map_values(
                f,
            ));
        }
        i = i + 1;
    }
    proof {
        assert(all.subrange(0, i as int) =~= all);
    }
    joined(&parts, " ")
}

/// A script under way: the scenes so far and the scene that is being filled.
pub struct Draft {
    pub scenes: Vec<Scene>,
    pub heading: String,
    pub scene_number: Option<String>,
    pub elements: Vec<ScriptElement>,
    /// The character whose lines follow.
    pub character: Option<String>,
}

/// What a draft says.
#[verifier::ext_equal]
pub struct DraftView {
    pub scenes: Seq<SceneView>,
    pub heading: Seq<char>,
    pub scene_number: Option<Seq<char>>,
    pub elements: Seq<ElementView>,
    pub character: Option<Seq<char>>,
}

/// The draft before the first line.
pub open spec fn empty_draft() -> DraftView {
    DraftView {
        scenes: Seq::empty(),
        heading: Seq::empty(),
        scene_number: None,
        elements: Seq::empty(),
        character: None,
    }
}

/// The heading that a finished scene gets: its own, or its number in the script.
pub open spec fn heading_or_number(heading: Seq<char>, finished: nat) -> Seq<char> {
    if heading.len() == 0 {
        "Scene "@ + decimal(finished + 1)
    } else {
        heading
    }
}

/// The draft once the scene that is being filled has been closed: an empty one leaves no scene.
pub open spec fn flushed(d: DraftView) -> DraftView {
    if d.heading.len() == 0 && d.elements.len() == 0 {
        d
    } else {
        let heading = heading_or_number(d.heading, d.scenes.len());
        DraftView {
            scenes: d.scenes.push(
                SceneView {
                    scene_number: d.scene_number,
                    heading,
                    elements: d.elements,
                    full_text: full_text_of(heading, d.elements),
                },
            ),
            elements: Seq::empty(),
            ..d
        }
    }
}

/// The draft with one more element in the scene that is being filled.
pub open spec fn with_element(d: DraftView, e: ElementView) -> DraftView {
    DraftView { elements: d.elements.push(e), ..d }
}

/// Only dialogue and parentheticals have a speaker.
pub open spec fn speakers_fit(elements: Seq<ElementView>) -> bool {
    forall|i: int|
        0 <= i < elements.len() && (#[trigger] elements[i]).character is Some ==> elements[i].kind
            == ScriptElementKind::Dialogue || elements[i].kind == ScriptElementKind::Parenthetical
}

/// Whether an element has a text without white space at its ends. A transition may be empty.
pub open spec fn is_tidy(e: ElementView) -> bool {
    trim(e.text) == e.text && (e.text.len() > 0 || e.kind == ScriptElementKind::Transition)
}

/// Whether every element is tidy.
pub open spec fn all_tidy(elements: Seq<ElementView>) -> bool {
    forall|i: int| 0 <= i < elements.len() ==> is_tidy(#[trigger] elements[i])
}

/// Whether an element is speech.
pub open spec fn is_speech(kind: ScriptElementKind) -> bool {
    kind == ScriptElementKind::Dialogue || kind == ScriptElementKind::Parenthetical
}

/// Whether all speech has a speaker.
pub open spec fn speech_attributed(elements: Seq<ElementView>) -> bool {
    forall|i: int|
        0 <= i < elements.len() && is_speech((#[trigger] elements[i]).kind) ==> (
        elements[i].character matches Some(c) && c.len() > 0)
}

/// A scene has a heading, its text for matching is that of the heading and the elements in lower
/// case, its elements are tidy, and only its speech has speakers.
pub open spec fn is_sound_scene(s: SceneView) -> bool {
    &&& s.heading.len() > 0
    &&& s.full_text == full_text_of(s.heading, s.elements)
    &&& all_tidy(s.elements)
    &&& speakers_fit(s.elements)
}

/// Every finished scene is sound, and so are the elements of the one that is being filled.
pub open spec fn is_sound_draft(d: DraftView) -> bool {
    &&& forall|i: int| 0 <= i < d.scenes.len() ==> is_sound_scene(#[trigger] d.scenes[i])
    &&& all_tidy(d.elements)
    &&& speakers_fit(d.elements)
}

/// Closing a scene keeps a draft sound.
pub proof fn lemma_flushed_sound(d: DraftView)
    requires
        is_sound_draft(d),
    ensures
        is_sound_draft(flushed(d)),
{
    reveal_strlit("Scene ");
    let f = flushed(d);
    assert forall|i: int| 0 <= i < f.scenes.len() implies is_sound_scene(#[trigger] f.scenes[i]) by {
        if i < d.scenes.len() {
            assert(f.scenes[i] == d.scenes[i]);
        }
    }
}

/// An element that fits keeps a draft sound.
pub proof fn lemma_element_sound(d: DraftView, e: ElementView)
    requires
        is_sound_draft(d),
        is_tidy(e),
        e.character is Some ==> is_speech(e.kind),
    ensures
        is_sound_draft(with_element(d, e)),
{
    let w = with_element(d, e);
    assert forall|i: int| 0 <= i < w.elements.len() implies is_tidy(#[trigger] w.elements[i]) by {
        if i < d.elements.len() {
            assert(w.elements[i] == d.elements[i]);
        }
    }
    assert forall|i: int|
        0 <= i < w.elements.len() && (#[trigger] w.elements[i]).character is Some implies w.elements[i].kind
        == ScriptElementKind::Dialogue || w.elements[i].kind == ScriptElementKind::Parenthetical by {
        if i < d.elements.len() {
            assert(w.elements[i] == d.elements[i]);
        }
    }
}

impl Draft {
    pub open spec fn view(&self) -> DraftView {
        DraftView {
            scenes: scenes_view(self.scenes@),
            heading: self.heading@,
            scene_number: option_view(self.scene_number),
            elements: elements_view(self.elements@),
            character: option_view(self.character),
        }
    }

    /// Every finished scene has an identifier.
    pub open spec fn wf(&self) -> bool {
        identified(self.scenes@)
    }

    /// The draft before the first line.
    pub fn new() -> (r: Draft)
        ensures
            r.wf(),
            r@ == empty_draft(),
    {
        let r = Draft {
            scenes: Vec::new(),
            heading: String::new(),
            scene_number: None,
            elements: Vec::new(),
            character: None,
        };
        proof {
            assert(r@.scenes =~= Seq::empty());
            assert(r@.elements =~= Seq::empty());
        }
        r
    }

    /// Closes the scene that is being filled.
    pub fn flush_scene(&mut self)
        requires
            old(self).wf(),
        ensures
            final(self).wf(),
            final(self)@ == flushed(old(self)@),
    {
        let ghost before = *self;
        if self.heading.as_str().is_empty() && self.elements.len() == 0 {
            return;
        }
        let heading = if self.heading.as_str().is_empty() {
            let mut h = owned("Scene ");
            push_wide(&mut h, self.scenes.len() as u128 + 1);
            h
        } else {
            self.heading.clone()
        };
        let full_text = build_full_text(&heading, &self.elements);
        let mut elements: Vec<ScriptElement> = Vec::new();
        core::mem::swap(&mut elements, &mut self.elements);
        let scene = Scene {
            id: fresh_id(),
            scene_number: clone_option(&self.scene_number),
            heading,
            elements,
            full_text,
        };
        let ghost sv = scene@;
        self.scenes.push(scene);
        proof {
            assert(self@.scenes =~= before@.scenes.push(sv));
            assert(self@.elements =~= Seq::empty());
            assert(self@ =~= flushed(before@));
        }
    }

    /// Adds an element to the scene that is being filled.
    pub fn push_element(&mut self, kind: ScriptElementKind, text: String, character: Option<String>)
        requires
            old(self).wf(),
        ensures
            final(self).wf(),
            final(self)@ == with_element(
                old(self)@,
                (ElementView { kind, text: text@, character: option_view(character) }),
            ),
            final(self).scenes == old(self).scenes,
    {
        let ghost before = *self;
        let ghost e = ElementView { kind, text: text@, character: option_view(character) };
        self.elements.push(ScriptElement { kind, text, character });
        proof {
            assert(self@.elements =~= before@.elements.push(e));
            assert(self@ =~= with_element(before@, e));
        }
    }
}

/// Whether a file of this name holds Final Draft XML rather than Fountain text.
pub open spec fn is_fdx_path(path: Seq<char>) -> bool {
    ends(lowercase(path), ".fdx"@)
}

/// Parses a screenplay that was read from `path`, telling the format by the extension:
/// `.fdx` is Final Draft, everything else is Fountain.
pub fn parse_script(path: &str, text: &str) -> (r: Result<Script, FdxError>)
    ensures
        is_fdx_path(path@) ==> match r {
            Ok(s) => fdx_of(xml_events(text@), path@) == Some(s@) && identified(s.scenes@),
            Err(e) => fdx_of(xml_events(text@), path@) is None && e@ == fdx_error(
                xml_events(text@),
            ),
        },
        !is_fdx_path(path@) ==> r is Ok && r->Ok_0@ == fountain_of(text@, path@) && identified(
            r->Ok_0.scenes@,
        ),
{
    let lower = path.to_lowercase();
    if ends_with(&lower, ".fdx") {
        parse_fdx_str(text, path)
    } else {
        Ok(parse_fountain_str(text, path))
    }
}

/// Closing a scene keeps its elements, heading and number, behind the scenes that there were, and
/// leaves room for the elements of the next. A scene without heading and elements leaves nothing.
pub proof fn lemma_flushed(d: DraftView)
    ensures
        d.heading.len() == 0 && d.elements.len() == 0 ==> flushed(d) == d,
        d.heading.len() > 0 || d.elements.len() > 0 ==> ({
            let r = flushed(d);
            let s = r.scenes.last();
            &&& r.scenes.len() == d.scenes.len() + 1
            &&& r.scenes.drop_last() == d.scenes
            &&& s.elements == d.elements && s.scene_number == d.scene_number
            &&& d.heading.len() > 0 ==> s.heading == d.heading
            &&& d.heading.len() == 0 ==> s.heading == "Scene "@ + decimal(d.scenes.len() + 1)
            &&& s.full_text == full_text_of(s.heading, d.elements)
            &&& r.elements.len() == 0 && r.character == d.character
        }),
{
    if d.heading.len() > 0 || d.elements.len() > 0 {
        assert(flushed(d).scenes.drop_last() =~= d.scenes);
    }
}

/// The text of a scene is its heading and the text of each element, in order and in lower case, with
/// blanks between them.
pub proof fn lemma_full_text(heading: Seq<char>, elements: Seq<ElementView>, e: ElementView)
    ensures
        full_text_of(heading, Seq::empty()) == lowercase(heading),
        full_text_of(heading, elements.push(e)) == full_text_of(heading, elements) + " "@
            + lowercase(e.text),
{
    let f = |e: ElementView| lowercase(e.text);
    let one = seq![lowercase(heading)] + Seq::<ElementView>::empty().map_values(f);
    assert(one =~= seq![lowercase(heading)]);
    let before = seq![lowercase(heading)] + elements.map_values(f);
    let after = seq![lowercase(heading)] + elements.push(e).map_values(f);
    assert(after.drop_last() =~= before);
    assert(after.last() == lowercase(e.text));
}

} // verus!
