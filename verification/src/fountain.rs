//! Fountain (`.fountain`) plain-text screenplays.
//!
//! - Scene headings: lines starting with `INT.`, `EXT.`, `INT/EXT.`, `INT./EXT.`, `I/E.`, or
//!   forced with a leading `.` (but not `..`).
//! - Character: an upper-case line followed by dialogue on the next line; `@` forces a cue.
//! - Dialogue: lines immediately following a character or parenthetical.
//! - Parenthetical: lines in `(parentheses)` within dialogue blocks.
//! - Transition: upper-case lines ending with `TO:`, or forced with `>`.
//! - Title page: `Key: Value` pairs at the start of the file before the first blank line.
//! - Action: everything else.

use crate::script::{
    empty_draft, flushed, identified, with_element, Draft, DraftView, ElementView, Script,
    ScriptElementKind, ScriptView,
};
use crate::text::{
    begins, begins_with, blank, chars_of, clone_option, ends, ends_with, first_index, first_of,
    has_char, last_index, last_of, option_view, owned, same, split, split_on, string_of, sub_chars,
    trim, trimmed, trimmed_chars, views, lemma_first_of,
    lemma_trim_again,
};
use crate::unicode::{is_capital, is_letter, lowercase, uppercase};
use crate::script::{
    is_sound_draft, is_sound_scene, is_speech, lemma_element_sound, lemma_flushed_sound,
    speech_attributed,
};
use vstd::prelude::*;

verus! {

/// `s` with each line end (`\r\n`, `\r` or `\n`) written as `\n`.
pub open spec fn normal_line_ends(s: Seq<char>) -> Seq<char>
    decreases s.len(),
{
    if s.len() == 0 {
        Seq::empty()
    } else if s[0] == '\r' {
        if s.len() > 1 && s[1] == '\n' {
            normal_line_ends(s.drop_first())
        } else {
            seq!['\n'] + normal_line_ends(s.drop_first())
        }
    } else {
        seq![s[0]] + normal_line_ends(s.drop_first())
    }
}

/// The lines of a text.
pub open spec fn lines_of(s: Seq<char>) -> Seq<Seq<char>> {
    split(normal_line_ends(s), '\n')
}

/// The lines of a text.
fn lines(s: &str) -> (r: Vec<String>)
    ensures
        views(r@) == lines_of(s@),
{
    let all: Vec<char> = chars_of(s);
    let mut out = String::new();
    let mut i: usize = 0;
    proof {
        assert(all@.subrange(0, all@.len() as int) =~= all@);
    }
    while i < all.len()
        invariant
            i <= all@.len(),
            normal_line_ends(all@) == out@ + normal_line_ends(
                all@.subrange(i as int, all@.len() as int),
            ),
        decreases all.len() - i,
    {
        let ghost rest = all@.subrange(i as int, all@.len() as int);
        let ghost before = out@;
        proof {
            assert(rest.drop_first() =~= all@.subrange(i + 1, all@.len() as int));
        }
        if all[i] == '\r' {
            if !(i + 1 < all.len() && all[i + 1] == '\n') {
                out.push('\n');
                proof {
                    assert(out@ + normal_line_ends(rest.drop_first()) =~= before + (seq!['\n']
                        + normal_line_ends(rest.drop_first())));
                }
            }
        } else {
            out.push(all[i]);
            proof {
                assert(out@ + normal_line_ends(rest.drop_first()) =~= before + (seq![rest[0]]
                    + normal_line_ends(rest.drop_first())));
            }
        }
        i = i + 1;
    }
    proof {
        assert(out@ =~= normal_line_ends(all@));
    }
    split_on(&out, '\n')
}

/// The title that the lines of a title page from `i` on set, and the line after the page.
pub open spec fn title_page_from(
    lines: Seq<Seq<char>>,
    i: nat,
    title: Option<Seq<char>>,
) -> (Option<Seq<char>>, nat)
    decreases lines.len() - i,
{
    if i >= lines.len() {
        (title, i)
    } else {
        let line = trim(lines[i as int]);
        if line.len() == 0 {
            (title, i + 1)
        } else {
            let colon = first_of(line, ':');
            let key = lowercase(trim(line.subrange(0, colon)));
            let value = trim(line.subrange(colon + 1, line.len() as int));
            title_page_from(
                lines,
                i + 1,
                if colon < line.len() && key == "title"@ && value.len() > 0 {
                    Some(value)
                } else {
                    title
                },
            )
        }
    }
}

/// The title and the first line after the title page. There is a title page where the first
/// line has a colon.
pub open spec fn title_page(lines: Seq<Seq<char>>) -> (Option<Seq<char>>, nat) {
    if lines.len() > 0 && trim(lines[0]).contains(':') {
        title_page_from(lines, 0, None)
    } else {
        (None, 0)
    }
}

/// Reads the title page, from the start of the file to the first blank line.
pub fn parse_fountain_title_page(lines: &Vec<String>) -> (r: (Option<String>, usize))
    ensures
        (option_view(r.0), r.1 as nat) == title_page(views(lines@)),
        r.1 <= lines@.len(),
{
    let ghost all = views(lines@);
    if lines.len() == 0 {
        return (None, 0);
    }
    let first: Vec<char> = trimmed_chars(&chars_of(&lines[0]));
    proof {
        assert(all[0] == lines@[0]@);
    }
    if !has_char(&first, ':') {
        return (None, 0);
    }
    let mut title: Option<String> = None;
    let mut i: usize = 0;
    while i < lines.len()
        invariant
            i <= lines@.len(),
            all == views(lines@),
            title_page_from(all, 0, None) == title_page_from(all, i as nat, option_view(title)),
            title_page(all) == title_page_from(all, 0, None),
        decreases lines.len() - i,
    {
        let line: Vec<char> = trimmed_chars(&chars_of(&lines[i]));
        proof {
            assert(all[i as int] == lines@[i as int]@);
        }
        if line.len() == 0 {
            return (title, i + 1);
        }
        if let Some(colon) = first_index(&line, ':') {
            let key: Vec<char> = trimmed_chars(&sub_chars(&line, 0, colon));
            let lower = string_of(&key).to_lowercase();
            let value: Vec<char> = trimmed_chars(&sub_chars(&line, colon + 1, line.len()));
            if same(&lower, "title") && value.len() > 0 {
                title = Some(string_of(&value));
            }
        }
        i = i + 1;
    }
    (title, i)
}

/// The scene number `#number#` at the end of a heading: what stands between its last two `#`.
pub open spec fn scene_number_in(heading: Seq<char>) -> Option<Seq<char>> {
    let end = last_of(heading, '#');
    let start = last_of(heading.subrange(0, end), '#');
    let number = trim(heading.subrange(start + 1, end));
    if end >= 0 && start >= 0 && number.len() > 0 {
        Some(number)
    } else {
        None
    }
}

/// The scene number of a heading.
pub fn extract_scene_number(heading: &str) -> (r: Option<String>)
    ensures
        option_view(r) == scene_number_in(heading@),
{
    let all: Vec<char> = chars_of(heading);
    if let Some(end) = last_index(&all, '#') {
        let front: Vec<char> = sub_chars(&all, 0, end);
        if let Some(start) = last_index(&front, '#') {
            let number: Vec<char> = trimmed_chars(&sub_chars(&all, start + 1, end));
            if number.len() > 0 {
                return Some(string_of(&number));
            }
        }
    }
    None
}

/// Whether a line is a forced scene heading.
pub open spec fn is_forced_heading(line: Seq<char>) -> bool {
    begins(line, "."@) && !begins(line, ".."@)
}

/// Whether a line starts as a scene heading does, in either case.
pub open spec fn is_plain_heading(line: Seq<char>) -> bool {
    let upper = uppercase(line);
    ||| begins(upper, "INT./EXT."@)
    ||| begins(upper, "INT/EXT."@)
    ||| begins(upper, "I/E."@)
    ||| begins(upper, "INT."@)
    ||| begins(upper, "EXT."@)
}

/// The heading and scene number of a line, if it is a scene heading.
pub open spec fn scene_heading(line: Seq<char>) -> Option<(Seq<char>, Option<Seq<char>>)> {
    if is_forced_heading(line) {
        let heading = trim(line.subrange(1, line.len() as int));
        Some((heading, scene_number_in(heading)))
    } else if is_plain_heading(line) {
        Some((trim(line), scene_number_in(trim(line))))
    } else {
        None
    }
}

/// The heading and scene number of a line, if it is a scene heading.
pub fn try_parse_scene_heading(line: &str) -> (r: Option<(String, Option<String>)>)
    ensures
        match r {
            Some((h, n)) => scene_heading(line@) == Some((h@, option_view(n))),
            None => scene_heading(line@) is None,
        },
{
    proof {
        reveal_strlit(".");
    }
    if begins_with(line, ".") && !begins_with(line, "..") {
        let all: Vec<char> = chars_of(line);
        let heading = string_of(&trimmed_chars(&sub_chars(&all, 1, all.len())));
        let number = extract_scene_number(&heading);
        return Some((heading, number));
    }
    let upper = line.to_uppercase();
    if begins_with(&upper, "INT./EXT.") || begins_with(&upper, "INT/EXT.") || begins_with(
        &upper,
        "I/E.",
    ) || begins_with(&upper, "INT.") || begins_with(&upper, "EXT.") {
        let heading = trimmed(line);
        let number = extract_scene_number(&heading);
        return Some((heading, number));
    }
    None
}

/// Whether a line is a transition: forced with `>`, or upper case and ending with `TO:`.
pub open spec fn is_transition(line: Seq<char>) -> bool {
    begins(line, ">"@) || (ends(line, "TO:"@) && line == uppercase(line))
}

/// Whether a line is a transition.
pub fn is_fountain_transition(line: &str) -> (r: bool)
    ensures
        r == is_transition(line@),
{
    if begins_with(line, ">") {
        return true;
    }
    ends_with(line, "TO:") && same(line, &line.to_uppercase())
}

/// `s` without the `c` at its front.
pub open spec fn without_leading(s: Seq<char>, c: char) -> Seq<char>
    decreases s.len(),
{
    if s.len() > 0 && s[0] == c {
        without_leading(s.drop_first(), c)
    } else {
        s
    }
}

/// The text of a transition.
fn transition_text(line: &str) -> (r: String)
    ensures
        r@ == trim(without_leading(line@, '>')),
{
    let all: Vec<char> = chars_of(line);
    let mut i: usize = 0;
    proof {
        assert(all@.subrange(0, all@.len() as int) =~= all@);
    }
    while i < all.len() && all[i] == '>'
        invariant
            i <= all@.len(),
            without_leading(all@, '>') == without_leading(
                all@.subrange(i as int, all@.len() as int),
                '>',
            ),
        decreases all.len() - i,
    {
        proof {
            assert(all@.subrange(i as int, all@.len() as int).drop_first() =~= all@.subrange(
                i + 1,
                all@.len() as int,
            ));
        }
        i = i + 1;
    }
    string_of(&trimmed_chars(&sub_chars(&all, i, all.len())))
}

/// Whether a name is in upper case: it has a letter, and every letter is a capital.
pub open spec fn is_upper_name(s: Seq<char>) -> bool {
    &&& forall|i: int| 0 <= i < s.len() ==> is_capital(#[trigger] s[i]) || !is_letter(s[i])
    &&& exists|i: int| 0 <= i < s.len() && is_letter(#[trigger] s[i])
}

/// The part of a cue before its extension, such as `(V.O.)`.
pub open spec fn cue_name(line: Seq<char>) -> Seq<char> {
    trim(line.subrange(0, first_of(line, '(')))
}

/// The name of a line that is a character cue. `spoken` says whether the line after it is not
/// blank; only a forced cue can do without.
pub open spec fn character_cue(line: Seq<char>, spoken: bool) -> Option<Seq<char>> {
    let forced = trim(line.subrange(1, line.len() as int));
    if begins(line, "@"@) && forced.len() > 0 {
        Some(forced)
    } else if is_upper_name(cue_name(line)) && spoken {
        Some(trim(line))
    } else {
        None
    }
}

/// Whether a name is in upper case.
fn upper_name(s: &Vec<char>) -> (r: bool)
    ensures
        r == is_upper_name(s@),
{
    let mut letter: bool = false;
    let mut i: usize = 0;
    while i < s.len()
        invariant
            i <= s@.len(),
            forall|k: int| 0 <= k < i ==> is_capital(#[trigger] s@[k]) || !is_letter(s@[k]),
            letter == exists|k: int| 0 <= k < i && is_letter(#[trigger] s@[k]),
        decreases s.len() - i,
    {
        let c: char = s[i];
        if !(c.is_uppercase() || !c.is_alphabetic()) {
            proof {
                assert(!is_capital(s@[i as int]) && is_letter(s@[i as int]));
            }
            return false;
        }
        if c.is_alphabetic() {
            letter = true;
            proof {
                assert(is_letter(s@[i as int]));
            }
        }
        i = i + 1;
    }
    letter
}

/// Whether there is a line at `i` that is not blank.
pub open spec fn spoken_at(lines: Seq<Seq<char>>, i: int) -> bool {
    0 <= i < lines.len() && trim(lines[i]).len() > 0
}

/// The name of a line that is a character cue; `next` is the line after it.
pub fn try_parse_character(line: &str, lines: &Vec<String>, next: usize) -> (r: Option<String>)
    ensures
        option_view(r) == character_cue(line@, spoken_at(views(lines@), next as int)),
{
    proof {
        reveal_strlit("@");
        lemma_first_of(line@, '(');
    }
    let all: Vec<char> = chars_of(line);
    if begins_with(line, "@") {
        let name: Vec<char> = trimmed_chars(&sub_chars(&all, 1, all.len()));
        if name.len() > 0 {
            return Some(string_of(&name));
        }
    }
    let end: usize = match first_index(&all, '(') {
        Some(i) => i,
        None => all.len(),
    };
    let base: Vec<char> = trimmed_chars(&sub_chars(&all, 0, end));
    if !upper_name(&base) {
        return None;
    }
    if next >= lines.len() {
        return None;
    }
    proof {
        assert(views(lines@)[next as int] == lines@[next as int]@);
    }
    if blank(&lines[next]) {
        return None;
    }
    Some(trimmed(line))
}

/// A draft and whether dialogue is being read.
#[verifier::ext_equal]
pub struct FountainView {
    pub draft: DraftView,
    pub in_dialogue: bool,
}

/// The draft with one more element.
pub open spec fn add_line(
    d: DraftView,
    kind: ScriptElementKind,
    text: Seq<char>,
    character: Option<Seq<char>>,
) -> DraftView {
    with_element(d, ElementView { kind, text, character })
}

/// The state after a line; `spoken` says whether the line after it is not blank.
pub open spec fn fountain_step(s: FountainView, raw: Seq<char>, spoken: bool) -> FountainView {
    let line = trim(raw);
    let quiet = DraftView { character: None, ..s.draft };
    if line.len() == 0 {
        FountainView { draft: quiet, in_dialogue: false }
    } else if begins(line, "/*"@) || begins(line, "[["@) || begins(line, "#"@) || begins(
        line,
        "="@,
    ) {
        s
    } else {
        match scene_heading(line) {
            Some((heading, number)) => FountainView {
                draft: DraftView { heading, scene_number: number, ..flushed(quiet) },
                in_dialogue: false,
            },
            None => if is_transition(line) {
                FountainView {
                    draft: add_line(
                        quiet,
                        ScriptElementKind::Transition,
                        trim(without_leading(line, '>')),
                        None,
                    ),
                    in_dialogue: false,
                }
            } else if s.in_dialogue {
                let kind = if begins(line, "("@) && ends(line, ")"@) {
                    ScriptElementKind::Parenthetical
                } else {
                    ScriptElementKind::Dialogue
                };
                FountainView { draft: add_line(s.draft, kind, line, s.draft.character), ..s }
            } else {
                match character_cue(line, spoken) {
                    Some(name) => FountainView {
                        draft: add_line(
                            DraftView { character: Some(name), ..s.draft },
                            ScriptElementKind::Character,
                            name,
                            None,
                        ),
                        in_dialogue: true,
                    },
                    None => FountainView {
                        draft: add_line(s.draft, ScriptElementKind::Action, line, None),
                        ..s
                    },
                }
            },
        }
    }
}

/// The state after the lines from `i` on.
pub open spec fn fountain_run(s: FountainView, lines: Seq<Seq<char>>, i: nat) -> FountainView
    decreases lines.len() - i,
{
    if i >= lines.len() {
        s
    } else {
        fountain_run(
            fountain_step(s, lines[i as int], spoken_at(lines, i as int + 1)),
            lines,
            i + 1,
        )
    }
}

/// The script that a Fountain text describes.
pub open spec fn fountain_of(text: Seq<char>, path: Seq<char>) -> ScriptView {
    let lines = lines_of(text);
    let (title, body) = title_page(lines);
    let end = fountain_run(FountainView { draft: empty_draft(), in_dialogue: false }, lines, body);
    ScriptView { path, title, scenes: flushed(end.draft).scenes }
}

/// Takes in the line at `i`.
fn take_line(draft: &mut Draft, in_dialogue: &mut bool, lines: &Vec<String>, i: usize)
    requires
        i < lines.len(),
        old(draft).wf(),
    ensures
        final(draft).wf(),
        (FountainView { draft: final(draft)@, in_dialogue: *final(in_dialogue) }) == fountain_step(
            FountainView { draft: old(draft)@, in_dialogue: *old(in_dialogue) },
            lines@[i as int]@,
            spoken_at(views(lines@), i + 1),
        ),
{
    let line = trimmed(&lines[i]);
    if line.as_str().is_empty() {
        *in_dialogue = false;
        draft.character = None;
        return;
    }
    if begins_with(&line, "/*") || begins_with(&line, "[[") || begins_with(&line, "#")
        || begins_with(&line, "=") {
        return;
    }
    if let Some((heading, number)) = try_parse_scene_heading(&line) {
        *in_dialogue = false;
        draft.character = None;
        draft.flush_scene();
        draft.heading = heading;
        draft.scene_number = number;
        return;
    }
    if is_fountain_transition(&line) {
        *in_dialogue = false;
        draft.character = None;
        draft.push_element(ScriptElementKind::Transition, transition_text(&line), None);
        return;
    }
    if *in_dialogue {
        let character = clone_option(&draft.character);
        if begins_with(&line, "(") && ends_with(&line, ")") {
            draft.push_element(ScriptElementKind::Parenthetical, line, character);
        } else {
            draft.push_element(ScriptElementKind::Dialogue, line, character);
        }
        return;
    }
    if let Some(name) = try_parse_character(&line, lines, i + 1) {
        draft.character = Some(name.clone());
        *in_dialogue = true;
        draft.push_element(ScriptElementKind::Character, name, None);
        return;
    }
    draft.push_element(ScriptElementKind::Action, line, None);
}

/// Parses a Fountain text that was read from `path`.
pub fn parse_fountain_str(text: &str, path: &str) -> (r: Script)
    ensures
        r@ == fountain_of(text@, path@),
        identified(r.scenes@),
{
    let all = lines(text);
    let ghost v = views(all@);
    let (title, body) = parse_fountain_title_page(&all);
    let mut draft = Draft::new();
    let mut in_dialogue: bool = false;
    let ghost start = FountainView { draft: empty_draft(), in_dialogue: false };
    let mut i: usize = body;
    while i < all.len()
        invariant
            body <= i <= all@.len(),
            v == views(all@),
            draft.wf(),
            fountain_run(start, v, body as nat) == fountain_run(
                FountainView { draft: draft@, in_dialogue },
                v,
                i as nat,
            ),
        decreases all.len() - i,
    {
        proof {
            assert(v[i as int] == all@[i as int]@);
        }
        take_line(&mut draft, &mut in_dialogue, &all, i);
        i = i + 1;
    }
    draft.flush_scene();
    Script { path: owned(path), title, scenes: draft.scenes }
}

proof fn lemma_step_sound(s: FountainView, raw: Seq<char>, spoken: bool)
    requires
        is_sound_draft(s.draft),
    ensures
        is_sound_draft(fountain_step(s, raw, spoken).draft),
{
    let line = trim(raw);
    let quiet = DraftView { character: None, ..s.draft };
    lemma_flushed_sound(quiet);
    lemma_trim_again(raw);
    lemma_trim_again(without_leading(line, '>'));
    if line.len() > 0 {
        lemma_element_sound(
            quiet,
            ElementView {
                kind: ScriptElementKind::Transition,
                text: trim(without_leading(line, '>')),
                character: None,
            },
        );
        lemma_element_sound(
            s.draft,
            ElementView {
                kind: ScriptElementKind::Parenthetical,
                text: line,
                character: s.draft.character,
            },
        );
        lemma_element_sound(
            s.draft,
            ElementView {
                kind: ScriptElementKind::Dialogue,
                text: line,
                character: s.draft.character,
            },
        );
        lemma_element_sound(
            s.draft,
            ElementView { kind: ScriptElementKind::Action, text: line, character: None },
        );
        if let Some(name) = character_cue(line, spoken) {
            lemma_trim_again(line);
            lemma_trim_again(line.subrange(1, line.len() as int));
            lemma_element_sound(
                DraftView { character: Some(name), ..s.draft },
                ElementView { kind: ScriptElementKind::Character, text: name, character: None },
            );
        }
    }
}

proof fn lemma_run_sound(s: FountainView, lines: Seq<Seq<char>>, i: nat)
    requires
        is_sound_draft(s.draft),
    ensures
        is_sound_draft(fountain_run(s, lines, i).draft),
    decreases lines.len() - i,
{
    if i < lines.len() {
        let raw = lines[i as int];
        let spoken = spoken_at(lines, i as int + 1);
        lemma_step_sound(s, raw, spoken);
        lemma_run_sound(fountain_step(s, raw, spoken), lines, i + 1);
    }
}

/// Whether speech has a speaker in every scene and in the one that is being filled, and somebody
/// speaks while dialogue is being read.
spec fn is_attributed(s: FountainView) -> bool {
    &&& forall|i: int|
        0 <= i < s.draft.scenes.len() ==> speech_attributed(
            (#[trigger] s.draft.scenes[i]).elements,
        )
    &&& speech_attributed(s.draft.elements)
    &&& s.in_dialogue ==> (s.draft.character matches Some(c) && c.len() > 0)
}

proof fn lemma_element_attributed(elements: Seq<ElementView>, e: ElementView)
    requires
        speech_attributed(elements),
        is_speech(e.kind) ==> (e.character matches Some(c) && c.len() > 0),
    ensures
        speech_attributed(elements.push(e)),
{
    let w = elements.push(e);
    assert forall|i: int| 0 <= i < w.len() && is_speech((#[trigger] w[i]).kind) implies (
    w[i].character matches Some(c) && c.len() > 0) by {
        if i < elements.len() {
            assert(w[i] == elements[i]);
        }
    }
}

proof fn lemma_flushed_attributed(d: DraftView)
    requires
        is_attributed(FountainView { draft: d, in_dialogue: false }),
    ensures
        is_attributed(FountainView { draft: flushed(d), in_dialogue: false }),
{
    let f = flushed(d);
    assert forall|i: int| 0 <= i < f.scenes.len() implies speech_attributed(
        (#[trigger] f.scenes[i]).elements,
    ) by {
        if i < d.scenes.len() {
            assert(f.scenes[i] == d.scenes[i]);
        }
    }
}

proof fn lemma_step_attributed(s: FountainView, raw: Seq<char>, spoken: bool)
    requires
        is_attributed(s),
    ensures
        is_attributed(fountain_step(s, raw, spoken)),
{
    let line = trim(raw);
    let quiet = DraftView { character: None, ..s.draft };
    lemma_flushed_attributed(quiet);
    lemma_trim_again(raw);
    let before = s.draft.elements;
    let next = fountain_step(s, raw, spoken);
    if next.draft.elements.len() == before.len() + 1 {
        let e = next.draft.elements.last();
        assert(next.draft.elements =~= before.push(e));
        lemma_element_attributed(before, e);
    }
}

proof fn lemma_run_attributed(s: FountainView, lines: Seq<Seq<char>>, i: nat)
    requires
        is_attributed(s),
    ensures
        is_attributed(fountain_run(s, lines, i)),
    decreases lines.len() - i,
{
    if i < lines.len() {
        let raw = lines[i as int];
        let spoken = spoken_at(lines, i as int + 1);
        lemma_step_attributed(s, raw, spoken);
        lemma_run_attributed(fountain_step(s, raw, spoken), lines, i + 1);
    }
}

/// Every line of speech of a Fountain script has a speaker, and nothing else has.
pub proof fn lemma_fountain_speech_has_speaker(text: Seq<char>, path: Seq<char>, i: int, j: int)
    requires
        0 <= i < fountain_of(text, path).scenes.len(),
        0 <= j < fountain_of(text, path).scenes[i].elements.len(),
    ensures
        ({
            let e = fountain_of(text, path).scenes[i].elements[j];
            &&& is_speech(e.kind) <==> e.character is Some
            &&& e.character matches Some(c) ==> c.len() > 0
        }),
{
    let lines = lines_of(text);
    let (title, body) = title_page(lines);
    let start = FountainView { draft: empty_draft(), in_dialogue: false };
    lemma_run_attributed(start, lines, body);
    let end = fountain_run(start, lines, body);
    lemma_flushed_attributed(end.draft);
    lemma_fountain_scenes_sound(text, path, i);
    let s = fountain_of(text, path).scenes[i];
    assert(flushed(end.draft).scenes[i] == s);
    assert(speech_attributed(s.elements));
    assert(s.elements[j] == s.elements[j]);
}

/// Every scene of a Fountain script has a heading, tidy elements and their text in lower case, and
/// only its speech has speakers.
pub proof fn lemma_fountain_scenes_sound(text: Seq<char>, path: Seq<char>, i: int)
    requires
        0 <= i < fountain_of(text, path).scenes.len(),
    ensures
        is_sound_scene(fountain_of(text, path).scenes[i]),
{
    let lines = lines_of(text);
    let (title, body) = title_page(lines);
    let start = FountainView { draft: empty_draft(), in_dialogue: false };
    lemma_run_sound(start, lines, body);
    lemma_flushed_sound(fountain_run(start, lines, body).draft);
}

proof fn lemma_normal_line_ends(s: Seq<char>)
    ensures
        !normal_line_ends(s).contains('\r'),
        normal_line_ends(normal_line_ends(s)) == normal_line_ends(s),
    decreases s.len(),
{
    let n = normal_line_ends(s);
    if s.len() > 0 {
        let rest = normal_line_ends(s.drop_first());
        lemma_normal_line_ends(s.drop_first());
        if s[0] == '\r' && s.len() > 1 && s[1] == '\n' {
            assert(n == rest);
        } else {
            let c = if s[0] == '\r' {
                '\n'
            } else {
                s[0]
            };
            assert(n == seq![c] + rest);
            assert(n.drop_first() =~= rest);
            assert forall|k: int| 0 <= k < n.len() implies n[k] != '\r' by {
                if k > 0 {
                    assert(n[k] == rest[k - 1]);
                    assert(rest.contains(rest[k - 1]));
                }
            }
        }
    } else {
        assert(n =~= Seq::empty());
    }
}

/// How lines end makes no difference: texts that are the same once every line ends with `\n` are
/// the same script.
pub proof fn lemma_line_ends_do_not_matter(text: Seq<char>, path: Seq<char>)
    ensures
        fountain_of(normal_line_ends(text), path) == fountain_of(text, path),
{
    lemma_normal_line_ends(text);
}

// --------------------------------------------------------------------- lines
/// `\r\n` ends a line as `\n` does, wherever it stands.
pub proof fn lemma_two_character_line_end(a: Seq<char>, b: Seq<char>)
    ensures
        normal_line_ends(a + seq!['\r', '\n'] + b) == normal_line_ends(a) + seq!['\n']
            + normal_line_ends(b),
    decreases a.len(),
{
    let s = a + seq!['\r', '\n'] + b;
    if a.len() == 0 {
        assert(s.drop_first() =~= seq!['\n'] + b);
        assert(s.drop_first().drop_first() =~= b);
        assert(normal_line_ends(s.drop_first()) == seq!['\n'] + normal_line_ends(b));
        assert(normal_line_ends(s) =~= normal_line_ends(a) + seq!['\n'] + normal_line_ends(b));
    } else {
        lemma_two_character_line_end(a.drop_first(), b);
        assert(s.drop_first() =~= a.drop_first() + seq!['\r', '\n'] + b);
        if a.len() > 1 {
            assert(s[1] == a[1]);
        }
        assert(normal_line_ends(s) =~= normal_line_ends(a) + seq!['\n'] + normal_line_ends(b));
    }
}

/// A lone `\r` ends a line too.
pub proof fn lemma_lone_carriage_return(a: Seq<char>, b: Seq<char>)
    requires
        b.len() == 0 || b[0] != '\n',
    ensures
        normal_line_ends(a + seq!['\r'] + b) == normal_line_ends(a) + seq!['\n']
            + normal_line_ends(b),
    decreases a.len(),
{
    let s = a + seq!['\r'] + b;
    if a.len() == 0 {
        assert(s.drop_first() =~= b);
        assert(normal_line_ends(s) =~= normal_line_ends(a) + seq!['\n'] + normal_line_ends(b));
    } else {
        lemma_lone_carriage_return(a.drop_first(), b);
        assert(s.drop_first() =~= a.drop_first() + seq!['\r'] + b);
        if a.len() > 1 {
            assert(s[1] == a[1]);
        }
        assert(normal_line_ends(s) =~= normal_line_ends(a) + seq!['\n'] + normal_line_ends(b));
    }
}

/// A text that has no `\r` has its lines between its `\n`.
pub proof fn lemma_plain_line_ends(s: Seq<char>)
    requires
        !s.contains('\r'),
    ensures
        normal_line_ends(s) == s,
    decreases s.len(),
{
    if s.len() > 0 {
        assert(s.contains(s[0]));
        assert forall|k: int| 0 <= k < s.len() - 1 implies s.drop_first()[k] != '\r' by {
            assert(s.contains(s[k + 1]));
        }
        lemma_plain_line_ends(s.drop_first());
        assert(normal_line_ends(s) =~= s);
    }
}

// ---------------------------------------------------------------- title page
/// Whether a line of a title page sets the title to `value`.
pub open spec fn sets_title(line: Seq<char>, value: Seq<char>) -> bool {
    exists|colon: int|
        0 <= colon < trim(line).len() && #[trigger] trim(line)[colon] == ':' && (forall|k: int|
            0 <= k < colon ==> trim(line)[k] != ':') && lowercase(
            trim(trim(line).subrange(0, colon)),
        ) == "title"@ && trim(trim(line).subrange(colon + 1, trim(line).len() as int)) == value
            && value.len() > 0
}

/// Whether the line at `k` sets the title, and no later one of the first `n` does.
pub open spec fn is_last_title(lines: Seq<Seq<char>>, n: int, k: int, value: Seq<char>) -> bool {
    &&& k < n && sets_title(lines[k], value)
    &&& forall|l: int, w: Seq<char>| k < l < n ==> !#[trigger] sets_title(lines[l], w)
}

proof fn lemma_title_page_from(lines: Seq<Seq<char>>, i: nat, title: Option<Seq<char>>)
    requires
        i <= lines.len(),
    ensures
        ({
            let (t, n) = title_page_from(lines, i, title);
            &&& i <= n <= lines.len()
            &&& i < lines.len() ==> i < n
            &&& forall|k: int| i <= k < n - 1 ==> trim(#[trigger] lines[k]).len() > 0
            &&& n < lines.len() ==> trim(lines[n - 1]).len() == 0
            &&& (forall|k: int, w: Seq<char>| i <= k < n ==> !#[trigger] sets_title(lines[k], w))
                ==> t == title
            &&& (exists|k: int, w: Seq<char>| i <= k < n && #[trigger] sets_title(lines[k], w))
                ==> (t matches Some(v) && exists|k: int|
                i <= k && #[trigger] is_last_title(lines, n as int, k, v))
        }),
    decreases lines.len() - i,
{
    if i < lines.len() {
        let line = trim(lines[i as int]);
        if line.len() == 0 {
            assert forall|k: int, w: Seq<char>| i <= k < i + 1 implies !#[trigger] sets_title(
                lines[k],
                w,
            ) by {
                assert(k == i);
            }
        } else {
            let colon = first_of(line, ':');
            crate::text::lemma_first_of(line, ':');
            let key = lowercase(trim(line.subrange(0, colon)));
            let value = trim(line.subrange(colon + 1, line.len() as int));
            let sets = colon < line.len() && key == "title"@ && value.len() > 0;
            let next = if sets {
                Some(value)
            } else {
                title
            };
            lemma_title_page_from(lines, i + 1, next);
            let (t, n) = title_page_from(lines, i + 1, next);
            assert(title_page_from(lines, i, title) == (t, n));
            assert forall|w: Seq<char>| #[trigger] sets_title(lines[i as int], w) implies sets && w
                == value by {
                let c = choose|colon: int|
                    0 <= colon < line.len() && #[trigger] line[colon] == ':' && (forall|k: int|
                        0 <= k < colon ==> line[k] != ':') && lowercase(
                        trim(line.subrange(0, colon)),
                    ) == "title"@ && trim(line.subrange(colon + 1, line.len() as int)) == w
                        && w.len() > 0;
                crate::text::lemma_first_of_is(line, ':', c);
            }
            if sets {
                assert(line[colon] == ':');
                assert(sets_title(lines[i as int], value));
            }
            let later = exists|k: int, w: Seq<char>|
                i + 1 <= k < n && #[trigger] sets_title(lines[k], w);
            if later {
                let k = choose|k: int|
                    i + 1 <= k && #[trigger] is_last_title(lines, n as int, k, t->Some_0);
                assert(is_last_title(lines, n as int, k, t->Some_0));
                assert(sets_title(lines[k], t->Some_0));
            } else {
                assert(t == next);
                if sets {
                    assert(is_last_title(lines, n as int, i as int, value));
                } else {
                    assert forall|k: int, w: Seq<char>| i <= k < n implies !#[trigger] sets_title(
                        lines[k],
                        w,
                    ) by {
                        assert(k == i || i + 1 <= k);
                    }
                }
            }
            assert forall|k: int| i <= k < n - 1 implies trim(#[trigger] lines[k]).len() > 0 by {
                assert(k == i || i + 1 <= k);
            }
            if n < lines.len() && n == i + 1 {
                assert(i + 1 < lines.len());
            }
        }
    }
}

/// A text has a title page where its first line has a colon. The page goes up to and with the first
/// blank line; the script begins behind it. The title is what the last line of the page that sets
/// one says.
pub proof fn lemma_title_page(lines: Seq<Seq<char>>)
    ensures
        ({
            let (t, n) = title_page(lines);
            let has_page = lines.len() > 0 && trim(lines[0]).contains(':');
            &&& !has_page ==> t is None && n == 0
            &&& has_page ==> {
                &&& 1 <= n <= lines.len()
                &&& forall|k: int| 0 <= k < n - 1 ==> trim(#[trigger] lines[k]).len() > 0
                &&& n < lines.len() ==> trim(lines[n - 1]).len() == 0
                &&& t is None <==> forall|k: int, w: Seq<char>|
                    0 <= k < n ==> !#[trigger] sets_title(lines[k], w)
                &&& t matches Some(v) ==> exists|k: int|
                    0 <= k && #[trigger] is_last_title(lines, n as int, k, v)
            }
        }),
{
    lemma_title_page_from(lines, 0, None);
}

// ------------------------------------------------------------- kinds of lines
/// Whether a line is a comment, a note, a section or a synopsis, which are no part of the script.
pub open spec fn is_remark(line: Seq<char>) -> bool {
    line.len() > 0 && (line[0] == '#' || line[0] == '=' || (line.len() > 1 && ((line[0] == '/'
        && line[1] == '*') || (line[0] == '[' && line[1] == '['))))
}

/// Whether a line stands in round brackets.
pub open spec fn is_bracketed(line: Seq<char>) -> bool {
    line.len() > 0 && line[0] == '(' && line.last() == ')'
}

/// Whether a line belongs to the speech that is being read.
pub open spec fn is_spoken(line: Seq<char>) -> bool {
    line.len() > 0 && !is_remark(line) && scene_heading(line) is None && !is_transition(line)
}

proof fn lemma_line_starts(line: Seq<char>)
    ensures
        (begins(line, "/*"@) || begins(line, "[["@) || begins(line, "#"@) || begins(line, "="@))
            <==> is_remark(line),
        (begins(line, "("@) && ends(line, ")"@)) <==> is_bracketed(line),
        begins(line, "@"@) <==> line.len() > 0 && line[0] == '@',
        begins(line, ">"@) <==> line.len() > 0 && line[0] == '>',
        begins(line, "."@) <==> line.len() > 0 && line[0] == '.',
        begins(line, ".."@) <==> line.len() > 1 && line[0] == '.' && line[1] == '.',
{
    reveal_strlit("/*");
    reveal_strlit("[[");
    reveal_strlit("#");
    reveal_strlit("=");
    reveal_strlit("(");
    reveal_strlit(")");
    reveal_strlit("@");
    reveal_strlit(">");
    reveal_strlit(".");
    reveal_strlit("..");
    if line.len() > 0 {
        assert(line.subrange(0, 1) =~= seq![line[0]]);
        assert(line.subrange(line.len() - 1, line.len() as int) =~= seq![line.last()]);
        assert("#"@ =~= seq!['#']);
        assert("="@ =~= seq!['=']);
        assert("("@ =~= seq!['(']);
        assert(")"@ =~= seq![')']);
        assert("@"@ =~= seq!['@']);
        assert(">"@ =~= seq!['>']);
        assert("."@ =~= seq!['.']);
        assert(seq![line[0]][0] == line[0]);
        assert(seq![line.last()][0] == line.last());
        assert(seq!['#'][0] == '#' && seq!['='][0] == '=' && seq!['('][0] == '(' && seq![')'][0]
            == ')' && seq!['@'][0] == '@' && seq!['>'][0] == '>' && seq!['.'][0] == '.');
    }
    if line.len() > 1 {
        let two = line.subrange(0, 2);
        assert(two =~= seq![line[0], line[1]]);
        assert("/*"@ =~= seq!['/', '*']);
        assert("[["@ =~= seq!['[', '[']);
        assert(".."@ =~= seq!['.', '.']);
        assert(seq![line[0], line[1]][0] == line[0] && seq![line[0], line[1]][1] == line[1]);
        assert(seq!['/', '*'][0] == '/' && seq!['/', '*'][1] == '*');
        assert(seq!['[', '['][0] == '[' && seq!['[', '['][1] == '[');
        assert(seq!['.', '.'][0] == '.' && seq!['.', '.'][1] == '.');
    }
}

/// Whether `number` stands between the last two `#` of a heading.
pub open spec fn is_number_of(heading: Seq<char>, start: int, end: int, number: Seq<char>) -> bool {
    &&& 0 <= start < end < heading.len()
    &&& heading[start] == '#' && heading[end] == '#'
    &&& forall|k: int| start < k < heading.len() && k != end ==> #[trigger] heading[k] != '#'
    &&& number == trim(heading.subrange(start + 1, end))
}

proof fn lemma_last_of_is(s: Seq<char>, c: char)
    ensures
        -1 <= last_of(s, c) < s.len(),
        last_of(s, c) >= 0 ==> s[last_of(s, c)] == c,
        forall|k: int| last_of(s, c) < k < s.len() ==> #[trigger] s[k] != c,
    decreases s.len(),
{
    if s.len() > 0 && s.last() != c {
        lemma_last_of_is(s.drop_last(), c);
        assert forall|k: int| last_of(s, c) < k < s.len() implies #[trigger] s[k] != c by {
            if k < s.len() - 1 {
                assert(s.drop_last()[k] == s[k]);
            }
        }
    }
}

/// The number of a heading is what stands between its last two `#`, where that is not blank.
pub proof fn lemma_scene_number(heading: Seq<char>)
    ensures
        scene_number_in(heading) matches Some(n) ==> n.len() > 0 && exists|a: int, b: int|
            #[trigger] is_number_of(heading, a, b, n),
        scene_number_in(heading) is None ==> forall|a: int, b: int, n: Seq<char>|
            #[trigger] is_number_of(heading, a, b, n) ==> n.len() == 0,
{
    let end = last_of(heading, '#');
    lemma_last_of_is(heading, '#');
    if end >= 0 {
        let head = heading.subrange(0, end);
        let start = last_of(head, '#');
        lemma_last_of_is(head, '#');
        if start >= 0 {
            assert(head[start] == heading[start]);
            assert forall|k: int|
                start < k < heading.len() && k != end implies #[trigger] heading[k] != '#' by {
                if k < end {
                    assert(head[k] == heading[k]);
                }
            }
            let n = trim(heading.subrange(start + 1, end));
            assert(is_number_of(heading, start, end, n));
        }
        assert forall|a: int, b: int, n: Seq<char>| #[trigger]
            is_number_of(heading, a, b, n) implies start >= 0 && a == start && b == end && n
            == trim(heading.subrange(start + 1, end)) by {
            assert(b == end);
            assert(head[a] == heading[a]);
            if start > a {
                assert(heading[start] == head[start]);
            }
        }
        let number = trim(heading.subrange(start + 1, end));
        if start >= 0 && number.len() > 0 {
            assert(scene_number_in(heading) == Some(number));
            assert(is_number_of(heading, start, end, number));
        } else {
            assert(scene_number_in(heading) is None);
        }
    } else {
        assert forall|a: int, b: int, n: Seq<char>| #[trigger]
            is_number_of(heading, a, b, n) implies false by {
            assert(heading[b] == '#');
        }
        assert(scene_number_in(heading) is None);
    }
}

/// A scene heading is a line with one dot at its front, which is not part of it, or one that in
/// capitals begins as a heading does. It is told with its number.
pub proof fn lemma_headings(line: Seq<char>)
    ensures
        ({
            let forced = line.len() > 0 && line[0] == '.' && !(line.len() > 1 && line[1] == '.');
            let upper = uppercase(line);
            let plain = begins(upper, "INT."@) || begins(upper, "EXT."@) || begins(
                upper,
                "INT/EXT."@,
            ) || begins(upper, "INT./EXT."@) || begins(upper, "I/E."@);
            match scene_heading(line) {
                Some((heading, number)) => {
                    &&& forced || plain
                    &&& heading == trim(
                        if forced {
                            line.drop_first()
                        } else {
                            line
                        },
                    )
                    &&& number == scene_number_in(heading)
                },
                None => !forced && !plain,
            }
        }),
{
    lemma_line_starts(line);
    if line.len() > 0 {
        assert(line.subrange(1, line.len() as int) =~= line.drop_first());
    }
}

/// A transition is a line with `>` at its front, or one in capitals that ends with `TO:`.
pub proof fn lemma_transitions(line: Seq<char>)
    ensures
        is_transition(line) <==> (line.len() > 0 && line[0] == '>') || (line == uppercase(line)
            && line.len() >= 3 && line[line.len() - 3] == 'T' && line[line.len() - 2] == 'O'
            && line[line.len() - 1] == ':'),
{
    lemma_line_starts(line);
    reveal_strlit("TO:");
    if line.len() >= 3 {
        let tail = line.subrange(line.len() - 3, line.len() as int);
        assert("TO:"@ =~= seq!['T', 'O', ':']);
        assert(tail =~= seq![line[line.len() - 3], line[line.len() - 2], line[line.len() - 1]]);
        assert(tail[0] == line[line.len() - 3] && tail[1] == line[line.len() - 2] && tail[2]
            == line[line.len() - 1]);
        assert(seq!['T', 'O', ':'][0] == 'T' && seq!['T', 'O', ':'][1] == 'O'
            && seq!['T', 'O', ':'][2] == ':');
    }
}

/// A cue is a name with `@` at its front, or one in capitals before its bracket, which needs a line
/// after it that is not blank. The name keeps its bracket, not its `@`.
pub proof fn lemma_cues(line: Seq<char>, spoken: bool)
    ensures
        ({
            let forced = line.len() > 0 && line[0] == '@' && trim(line.drop_first()).len() > 0;
            match character_cue(line, spoken) {
                Some(name) => if forced {
                    name == trim(line.drop_first())
                } else {
                    spoken && is_upper_name(cue_name(line)) && name == trim(line)
                },
                None => !forced && !(spoken && is_upper_name(cue_name(line))),
            }
        }),
{
    lemma_line_starts(line);
    if line.len() > 0 {
        assert(line.subrange(1, line.len() as int) =~= line.drop_first());
    }
}

// --------------------------------------------------------------- what a line does
/// Whether two drafts differ in nothing but the last elements and who speaks.
pub open spec fn is_same_scene(a: DraftView, b: DraftView) -> bool {
    a.scenes == b.scenes && a.heading == b.heading && a.scene_number == b.scene_number
}

/// A blank line ends the speech that is being read and adds nothing.
pub proof fn lemma_blank_line(s: FountainView, raw: Seq<char>, spoken: bool)
    requires
        trim(raw).len() == 0,
    ensures
        ({
            let t = fountain_step(s, raw, spoken);
            &&& !t.in_dialogue && t.draft.character is None
            &&& is_same_scene(s.draft, t.draft) && t.draft.elements == s.draft.elements
        }),
{
}

/// A remark changes nothing: the speech around it goes on.
pub proof fn lemma_remark(s: FountainView, raw: Seq<char>, spoken: bool)
    requires
        is_remark(trim(raw)),
    ensures
        fountain_step(s, raw, spoken) == s,
{
    lemma_line_starts(trim(raw));
}

/// A heading ends the scene that is being filled, which keeps all its elements, and opens an empty
/// one. Nobody is speaking there yet.
pub proof fn lemma_heading_opens_scene(s: FountainView, raw: Seq<char>, spoken: bool)
    requires
        trim(raw).len() > 0,
        !is_remark(trim(raw)),
        scene_heading(trim(raw)) is Some,
    ensures
        ({
            let t = fountain_step(s, raw, spoken);
            let (heading, number) = scene_heading(trim(raw))->Some_0;
            &&& !t.in_dialogue && t.draft.character is None
            &&& t.draft.heading == heading && t.draft.scene_number == number
            &&& t.draft.elements.len() == 0
            &&& if s.draft.heading.len() == 0 && s.draft.elements.len() == 0 {
                t.draft.scenes == s.draft.scenes
            } else {
                &&& t.draft.scenes.len() == s.draft.scenes.len() + 1
                &&& t.draft.scenes.drop_last() == s.draft.scenes
                &&& t.draft.scenes.last().elements == s.draft.elements
                &&& t.draft.scenes.last().scene_number == s.draft.scene_number
                &&& s.draft.heading.len() > 0 ==> t.draft.scenes.last().heading == s.draft.heading
            }
        }),
{
    lemma_line_starts(trim(raw));
    let t = fountain_step(s, raw, spoken);
    if !(s.draft.heading.len() == 0 && s.draft.elements.len() == 0) {
        assert(t.draft.scenes.drop_last() =~= s.draft.scenes);
    }
}

/// A transition is one element without its `>` and without a speaker, and ends the speech.
pub proof fn lemma_transition_line(s: FountainView, raw: Seq<char>, spoken: bool)
    requires
        trim(raw).len() > 0,
        !is_remark(trim(raw)),
        scene_heading(trim(raw)) is None,
        is_transition(trim(raw)),
    ensures
        ({
            let t = fountain_step(s, raw, spoken);
            let e = t.draft.elements.last();
            &&& !t.in_dialogue && t.draft.character is None
            &&& is_same_scene(s.draft, t.draft)
            &&& t.draft.elements.len() == s.draft.elements.len() + 1
            &&& t.draft.elements.drop_last() == s.draft.elements
            &&& e.kind == ScriptElementKind::Transition && e.character is None
            &&& exists|k: int|
                0 <= k <= trim(raw).len() && (forall|j: int| 0 <= j < k ==> trim(raw)[j] == '>')
                    && (k < trim(raw).len() ==> trim(raw)[k] != '>') && e.text == trim(
                    #[trigger] trim(raw).skip(k),
                )
        }),
{
    lemma_line_starts(trim(raw));
    let k = lemma_without_leading(trim(raw), '>');
    let t = fountain_step(s, raw, spoken);
    assert(t.draft.elements.drop_last() =~= s.draft.elements);
    assert(t.draft.elements.last().text == trim(trim(raw).skip(k)));
}

proof fn lemma_without_leading(s: Seq<char>, c: char) -> (k: int)
    ensures
        0 <= k <= s.len(),
        forall|j: int| 0 <= j < k ==> s[j] == c,
        k < s.len() ==> s[k] != c,
        without_leading(s, c) == s.skip(k),
    decreases s.len(),
{
    if s.len() > 0 && s[0] == c {
        let rest = s.drop_first();
        let k = lemma_without_leading(rest, c);
        assert(s.skip(k + 1) =~= rest.skip(k));
        assert forall|j: int| 0 <= j < k + 1 implies s[j] == c by {
            if j > 0 {
                assert(rest[j - 1] == s[j]);
            }
        }
        if k + 1 < s.len() {
            assert(rest[k] == s[k + 1]);
        }
        k + 1
    } else {
        assert(s.skip(0) =~= s);
        0
    }
}

/// A line that is read while somebody speaks is theirs, and they go on speaking: a parenthetical
/// where it stands in brackets, else dialogue.
pub proof fn lemma_speech_goes_on(s: FountainView, raw: Seq<char>, spoken: bool)
    requires
        s.in_dialogue,
        is_spoken(trim(raw)),
    ensures
        ({
            let t = fountain_step(s, raw, spoken);
            let e = t.draft.elements.last();
            &&& t.in_dialogue && t.draft.character == s.draft.character
            &&& is_same_scene(s.draft, t.draft)
            &&& t.draft.elements.len() == s.draft.elements.len() + 1
            &&& t.draft.elements.drop_last() == s.draft.elements
            &&& e.text == trim(raw) && e.character == s.draft.character
            &&& is_bracketed(trim(raw)) ==> e.kind == ScriptElementKind::Parenthetical
            &&& !is_bracketed(trim(raw)) ==> e.kind == ScriptElementKind::Dialogue
        }),
{
    lemma_line_starts(trim(raw));
    let t = fountain_step(s, raw, spoken);
    assert(t.draft.elements.drop_last() =~= s.draft.elements);
}

/// Where nobody speaks, a cue names who speaks from then on; any other line is action.
pub proof fn lemma_cue_or_action(s: FountainView, raw: Seq<char>, spoken: bool)
    requires
        !s.in_dialogue,
        is_spoken(trim(raw)),
    ensures
        ({
            let t = fountain_step(s, raw, spoken);
            let e = t.draft.elements.last();
            &&& is_same_scene(s.draft, t.draft)
            &&& t.draft.elements.len() == s.draft.elements.len() + 1
            &&& t.draft.elements.drop_last() == s.draft.elements
            &&& e.character is None
            &&& match character_cue(trim(raw), spoken) {
                Some(name) => t.in_dialogue && t.draft.character == Some(name) && e.text == name
                    && e.kind == ScriptElementKind::Character,
                None => !t.in_dialogue && t.draft.character == s.draft.character && e.text == trim(
                    raw,
                ) && e.kind == ScriptElementKind::Action,
            }
        }),
{
    lemma_line_starts(trim(raw));
    let t = fountain_step(s, raw, spoken);
    assert(t.draft.elements.drop_last() =~= s.draft.elements);
}

/// The elements that lines of speech become.
pub open spec fn speech_of(lines: Seq<Seq<char>>, name: Seq<char>) -> Seq<ElementView> {
    lines.filter(|l: Seq<char>| !is_remark(trim(l))).map_values(
        |l: Seq<char>|
            ElementView {
                kind: if is_bracketed(trim(l)) {
                    ScriptElementKind::Parenthetical
                } else {
                    ScriptElementKind::Dialogue
                },
                text: trim(l),
                character: Some(name),
            },
    )
}

proof fn lemma_speech_run(
    s: FountainView,
    lines: Seq<Seq<char>>,
    i: nat,
    j: nat,
    name: Seq<char>,
) -> (t: FountainView)
    requires
        i <= j <= lines.len(),
        s.in_dialogue,
        s.draft.character == Some(name),
        forall|k: int|
            i <= k < j ==> is_spoken(trim(#[trigger] lines[k])) || is_remark(trim(lines[k])),
    ensures
        fountain_run(s, lines, i) == fountain_run(t, lines, j),
        t.in_dialogue,
        t.draft.character == Some(name),
        is_same_scene(s.draft, t.draft),
        t.draft.elements == s.draft.elements + speech_of(
            lines.subrange(i as int, j as int),
            name,
        ),
    decreases j - i,
{
    reveal(Seq::filter);
    if i == j {
        assert(lines.subrange(i as int, j as int) =~= Seq::empty());
        assert(s.draft.elements + speech_of(lines.subrange(i as int, j as int), name)
            =~= s.draft.elements);
        s
    } else {
        let m = (j - 1) as nat;
        let u = lemma_speech_run(s, lines, i, m, name);
        let raw = lines[m as int];
        let spoken = spoken_at(lines, m as int + 1);
        let t = fountain_step(u, raw, spoken);
        let part = lines.subrange(i as int, j as int);
        assert(part.drop_last() =~= lines.subrange(i as int, m as int));
        assert(part.last() == raw);
        assert(fountain_run(u, lines, m) == fountain_run(t, lines, j));
        let before = speech_of(part.drop_last(), name);
        if is_remark(trim(raw)) {
            lemma_remark(u, raw, spoken);
            assert(speech_of(part, name) =~= before);
        } else {
            lemma_speech_goes_on(u, raw, spoken);
            let e = t.draft.elements.last();
            assert(speech_of(part, name) =~= before.push(e));
            assert(t.draft.elements =~= u.draft.elements.push(e));
            assert(t.draft.elements =~= s.draft.elements + speech_of(part, name));
        }
        t
    }
}

/// After a cue, every line up to the next blank line, heading or transition that is no remark is
/// dialogue or a parenthetical of the one whom the cue names, in order.
pub proof fn lemma_lines_after_cue(
    s: FountainView,
    lines: Seq<Seq<char>>,
    i: nat,
    j: nat,
    name: Seq<char>,
)
    requires
        i < j <= lines.len(),
        !s.in_dialogue,
        is_spoken(trim(lines[i as int])),
        character_cue(trim(lines[i as int]), spoken_at(lines, i as int + 1)) == Some(name),
        forall|k: int|
            i < k < j ==> is_spoken(trim(#[trigger] lines[k])) || is_remark(trim(lines[k])),
    ensures
        exists|t: FountainView|
            #![trigger fountain_run(t, lines, j)]
            {
                &&& fountain_run(s, lines, i) == fountain_run(t, lines, j)
                &&& t.in_dialogue && t.draft.character == Some(name)
                &&& is_same_scene(s.draft, t.draft)
                &&& t.draft.elements == s.draft.elements + seq![
                    ElementView {
                        kind: ScriptElementKind::Character,
                        text: name,
                        character: None,
                    },
                ] + speech_of(lines.subrange(i as int + 1, j as int), name)
            },
{
    let spoken = spoken_at(lines, i as int + 1);
    let c = fountain_step(s, lines[i as int], spoken);
    lemma_cue_or_action(s, lines[i as int], spoken);
    let cue = ElementView { kind: ScriptElementKind::Character, text: name, character: None };
    assert(c.draft.elements.last() == cue);
    assert(c.draft.elements =~= s.draft.elements.push(cue));
    assert(s.draft.elements.push(cue) =~= s.draft.elements + seq![cue]);
    let t = lemma_speech_run(c, lines, i + 1, j, name);
    assert(fountain_run(s, lines, i) == fountain_run(c, lines, i + 1));
    assert(fountain_run(s, lines, i) == fountain_run(t, lines, j));
}

/// A name is in upper case where it has a letter and none that is no capital.
pub proof fn lemma_upper_name(s: Seq<char>, i: int)
    requires
        0 <= i < s.len(),
    ensures
        is_letter(s[i]) && !is_capital(s[i]) ==> !is_upper_name(s),
        (forall|k: int| 0 <= k < s.len() ==> !is_letter(#[trigger] s[k])) ==> !is_upper_name(s),
        is_letter(s[i]) && (forall|k: int|
            0 <= k < s.len() ==> (is_letter(#[trigger] s[k]) ==> is_capital(s[k])))
            ==> is_upper_name(s),
{
}

/// The name of a cue is what stands before its first bracket.
pub proof fn lemma_cue_name(name: Seq<char>, rest: Seq<char>)
    requires
        !name.contains('('),
    ensures
        cue_name(name.push('(') + rest) == trim(name),
        cue_name(name) == trim(name),
{
    let line = name.push('(') + rest;
    assert forall|k: int| 0 <= k < name.len() implies line[k] != '(' by {
        assert(name.contains(name[k]));
    }
    crate::text::lemma_first_of_is(line, '(', name.len() as int);
    assert(line.subrange(0, name.len() as int) =~= name);
    assert forall|k: int| 0 <= k < name.len() implies name[k] != '(' by {
        assert(name.contains(name[k]));
    }
    crate::text::lemma_first_of_is(name, '(', name.len() as int);
    assert(name.subrange(0, name.len() as int) =~= name);
}

/// A line is spoken to where there is one behind it that is not blank.
pub proof fn lemma_spoken_at(lines: Seq<Seq<char>>, i: int)
    ensures
        spoken_at(lines, i) ==> 0 <= i < lines.len() && trim(lines[i]).len() > 0,
        0 <= i < lines.len() && trim(lines[i]).len() > 0 ==> spoken_at(lines, i),
{
}

/// What stands before a line does not change how the lines from it on are read.
pub proof fn lemma_lines_before_do_not_matter(
    s: FountainView,
    page: Seq<Seq<char>>,
    body: Seq<Seq<char>>,
    i: nat,
)
    requires
        i <= body.len(),
    ensures
        fountain_run(s, page + body, page.len() + i) == fountain_run(s, body, i),
    decreases body.len() - i,
{
    let all = page + body;
    if i < body.len() {
        let k = page.len() + i;
        assert(all[k as int] == body[i as int]);
        assert(spoken_at(all, k as int + 1) == spoken_at(body, i as int + 1)) by {
            if i + 1 < body.len() {
                assert(all[k as int + 1] == body[i as int + 1]);
            }
        }
        let t = fountain_step(s, body[i as int], spoken_at(body, i as int + 1));
        lemma_lines_before_do_not_matter(t, page, body, i + 1);
        assert(page.len() + (i + 1) == k + 1);
    }
}

/// A title page sets the title and nothing else: the scenes of a text behind a title page are those
/// of the text alone.
pub proof fn lemma_title_page_adds_no_scene(page: Seq<char>, body: Seq<char>, path: Seq<char>)
    requires
        !page.contains('\r'),
        !body.contains('\r'),
        ({
            let lines = split(page, '\n');
            &&& trim(lines[0]).contains(':')
            &&& trim(lines.last()).len() == 0
            &&& forall|k: int| 0 <= k < lines.len() - 1 ==> trim(#[trigger] lines[k]).len() > 0
        }),
        !trim(split(body, '\n')[0]).contains(':'),
    ensures
        fountain_of(page.push('\n') + body, path).scenes == fountain_of(body, path).scenes,
        fountain_of(body, path).title is None,
{
    let text = page.push('\n') + body;
    assert(!text.contains('\r')) by {
        if text.contains('\r') {
            let k = choose|k: int| 0 <= k < text.len() && text[k] == '\r';
            if k < page.len() {
                assert(page[k] == '\r');
            } else if k > page.len() {
                assert(body[k - page.len() - 1] == '\r');
            }
        }
    }
    lemma_plain_line_ends(text);
    lemma_plain_line_ends(body);
    crate::text::lemma_split_concat(page, body, '\n');
    crate::text::lemma_split_len(page, '\n');
    crate::text::lemma_split_len(body, '\n');
    let head = split(page, '\n');
    let rest = split(body, '\n');
    let lines = lines_of(text);
    assert(lines == head + rest);
    assert(lines[0] == head[0]);
    lemma_title_page(lines);
    let n = title_page(lines).1;
    assert(n == head.len()) by {
        if n < head.len() {
            assert(lines[n - 1] == head[n - 1]);
            assert(trim(head[n - 1]).len() > 0);
        }
        if n > head.len() {
            assert(lines[head.len() - 1] == head[head.len() - 1]);
            assert(trim(lines[head.len() - 1]).len() > 0);
        }
    }
    lemma_lines_before_do_not_matter(
        FountainView { draft: empty_draft(), in_dialogue: false },
        head,
        rest,
        0,
    );
}

} // verus!
