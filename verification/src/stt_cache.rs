//! Speech to text: which model is used, the cache of subtitles, and the making of subtitles from
//! what the model recognised.

use crate::digest::{digest_of, number_material, text_material, Digest};
use crate::ids::{fresh_id, is_uuid};
use crate::keyed::{StringMap, StringSet};
use crate::model::{SubtitleSegment, SubtitleWord};
use crate::paths::{join, join_path, user_dir, user_directory};
use crate::text::{
    begins, begins_with, chars_of, decimal, ends, ends_with, is_white, lemma_trim_ends,
    option_view, owned, push_decimal, trim, trimmed, trimmed_chars, views,
};
use vstd::prelude::*;
use vstd::string::*;
use vstd::utf8::*;

verus! {

// -------------------------------------------------------------------- models
/// The directory of downloaded models.
pub open spec fn model_dir(data_home: Option<Seq<char>>, home: Option<Seq<char>>) -> Seq<char> {
    join_path(
        join_path(user_dir(data_home, home, ""@, ".local/share"@), "ultimateslice"@),
        "models"@,
    )
}

/// The directory of downloaded models, from the environment.
pub fn stt_model_dir(data_home: &Option<String>, home: &Option<String>) -> (r: String)
    ensures
        r@ == model_dir(option_view(*data_home), option_view(*home)),
{
    join(&join(&user_directory(data_home, home, "", ".local/share"), "ultimateslice"), "models")
}

/// The directories in which models are searched, in order.
pub open spec fn search_dirs(
    exe_dir: Option<Seq<char>>,
    data_home: Option<Seq<char>>,
    home: Option<Seq<char>>,
) -> Seq<Seq<char>> {
    seq![
        match exe_dir {
            Some(d) => join_path(d, "data/models"@),
            None => ""@,
        },
        "data/models"@,
        "/app/share/ultimateslice/models"@,
        model_dir(data_home, home),
    ]
}

/// The directories in which models are searched, in order.
pub fn stt_search_dirs(exe_dir: &Option<String>, data_home: &Option<String>, home: &Option<String>) -> (r:
    Vec<String>)
    ensures
        views(r@) == search_dirs(option_view(*exe_dir), option_view(*data_home), option_view(*home)),
{
    let mut r: Vec<String> = Vec::new();
    match exe_dir {
        Some(d) => r.push(join(d, "data/models")),
        None => r.push(owned("")),
    }
    r.push(owned("data/models"));
    r.push(owned("/app/share/ultimateslice/models"));
    r.push(stt_model_dir(data_home, home));
    proof {
        assert(views(r@) =~= search_dirs(
            option_view(*exe_dir),
            option_view(*data_home),
            option_view(*home),
        ));
    }
    r
}

/// The sizes of models, best first.
pub open spec fn priorities() -> Seq<Seq<char>> {
    seq![
        "ggml-large-v3"@,
        "ggml-large-v2"@,
        "ggml-large-v1"@,
        "ggml-large"@,
        "ggml-medium.en"@,
        "ggml-medium"@,
        "ggml-small.en"@,
        "ggml-small"@,
        "ggml-base.en"@,
        "ggml-base"@,
        "ggml-tiny.en"@,
        "ggml-tiny"@,
    ]
}

fn model_priorities() -> (r: Vec<String>)
    ensures
        views(r@) == priorities(),
{
    let mut r: Vec<String> = Vec::new();
    r.push(owned("ggml-large-v3"));
    r.push(owned("ggml-large-v2"));
    r.push(owned("ggml-large-v1"));
    r.push(owned("ggml-large"));
    r.push(owned("ggml-medium.en"));
    r.push(owned("ggml-medium"));
    r.push(owned("ggml-small.en"));
    r.push(owned("ggml-small"));
    r.push(owned("ggml-base.en"));
    r.push(owned("ggml-base"));
    r.push(owned("ggml-tiny.en"));
    r.push(owned("ggml-tiny"));
    proof {
        assert(views(r@) =~= priorities());
    }
    r
}

/// Whether a file is a model, by its name.
pub open spec fn is_model(name: Seq<char>) -> bool {
    begins(name, "ggml-"@) && ends(name, ".bin"@)
}

/// The first of the files that is a model and whose name begins with `p`.
pub open spec fn first_model(files: Seq<Seq<char>>, p: Seq<char>) -> Option<Seq<char>>
    decreases files.len(),
{
    if files.len() == 0 {
        None
    } else if is_model(files[0]) && begins(files[0], p) {
        Some(files[0])
    } else {
        first_model(files.drop_first(), p)
    }
}

/// The best of the models by the sizes from the `n`th on, and else the first.
pub open spec fn best_from(files: Seq<Seq<char>>, sizes: Seq<Seq<char>>, n: nat) -> Option<Seq<char>>
    decreases sizes.len() - n,
{
    if n >= sizes.len() {
        first_model(files, "ggml-"@)
    } else {
        match first_model(files, sizes[n as int]) {
            Some(f) => Some(f),
            None => best_from(files, sizes, n + 1),
        }
    }
}

/// The best of the models among files.
pub open spec fn best_model(files: Seq<Seq<char>>) -> Option<Seq<char>> {
    best_from(files, priorities(), 0)
}

/// A directory that was searched, and the names of its files.
#[derive(Debug, Clone)]
pub struct ModelListing {
    pub dir: String,
    pub files: Vec<String>,
}

/// The best model in the first of the directories that has one.
pub open spec fn model_in(dirs: Seq<ModelListing>) -> Option<Seq<char>>
    decreases dirs.len(),
{
    if dirs.len() == 0 {
        None
    } else {
        match best_model(views(dirs[0].files@)) {
            Some(f) => Some(join_path(dirs[0].dir@, f)),
            None => model_in(dirs.drop_first()),
        }
    }
}

fn find_first_model(files: &Vec<String>, p: &str) -> (r: Option<String>)
    ensures
        option_view(r) == first_model(views(files@), p@),
{
    let ghost all = views(files@);
    let mut i: usize = 0;
    proof {
        assert(all.subrange(0, all.len() as int) =~= all);
    }
    while i < files.len()
        invariant
            i <= files@.len(),
            all == views(files@),
            first_model(all, p@) == first_model(all.subrange(i as int, all.len() as int), p@),
        decreases files.len() - i,
    {
        proof {
            let rest = all.subrange(i as int, all.len() as int);
            assert(rest[0] == files@[i as int]@);
            assert(rest.drop_first() =~= all.subrange(i + 1, all.len() as int));
        }
        let f: &String = &files[i];
        if begins_with(f, "ggml-") && ends_with(f, ".bin") && begins_with(f, p) {
            return Some(f.clone());
        }
        i = i + 1;
    }
    None
}

fn find_best_model(files: &Vec<String>) -> (r: Option<String>)
    ensures
        option_view(r) == best_model(views(files@)),
{
    let sizes: Vec<String> = model_priorities();
    let ghost all = views(files@);
    let mut n: usize = 0;
    while n < sizes.len()
        invariant
            n <= sizes@.len(),
            all == views(files@),
            views(sizes@) == priorities(),
            best_model(all) == best_from(all, priorities(), n as nat),
        decreases sizes.len() - n,
    {
        proof {
            assert(views(sizes@)[n as int] == sizes@[n as int]@);
        }
        if let Some(f) = find_first_model(files, &sizes[n]) {
            return Some(f);
        }
        n = n + 1;
    }
    proof {
        assert(views(sizes@).len() == sizes@.len());
    }
    find_first_model(files, "ggml-")
}

/// The best model in the first of the directories that has one.
pub fn find_stt_model_path(dirs: &Vec<ModelListing>) -> (r: Option<String>)
    ensures
        option_view(r) == model_in(dirs@),
{
    let mut i: usize = 0;
    proof {
        assert(dirs@.subrange(0, dirs@.len() as int) =~= dirs@);
    }
    while i < dirs.len()
        invariant
            i <= dirs@.len(),
            model_in(dirs@) == model_in(dirs@.subrange(i as int, dirs@.len() as int)),
        decreases dirs.len() - i,
    {
        proof {
            assert(dirs@.subrange(i as int, dirs@.len() as int).drop_first() =~= dirs@.subrange(
                i + 1,
                dirs@.len() as int,
            ));
        }
        if let Some(f) = find_best_model(&dirs[i].files) {
            return Some(join(&dirs[i].dir, &f));
        }
        i = i + 1;
    }
    None
}

// ---------------------------------------------------------------------- text
/// Whether no space goes before a character.
pub open spec fn joins_left(c: char) -> bool {
    c == '\'' || c == '\u{2019}' || c == ',' || c == '.' || c == '!' || c == '?' || c == ';' || c
        == ':' || c == ')' || c == ']'
}

/// The first `n` characters of a text with one space between words and none before punctuation,
/// and whether they end in a space.
pub open spec fn cleaned_upto(s: Seq<char>, n: nat) -> (Seq<char>, bool)
    decreases n,
{
    if n == 0 {
        (Seq::empty(), false)
    } else {
        let (done, space) = cleaned_upto(s, (n - 1) as nat);
        let c = s[n - 1];
        if c == ' ' {
            (done, true)
        } else if space && done.len() > 0 && !joins_left(c) {
            (done.push(' ').push(c), false)
        } else {
            (done.push(c), false)
        }
    }
}

/// A text with one space between words, none before punctuation and no white space at its ends.
pub open spec fn cleaned(s: Seq<char>) -> Seq<char> {
    cleaned_upto(trim(s), trim(s).len()).0
}

/// A text with one space between words, none before punctuation and no white space at its ends.
pub fn clean_whisper_text(text: &str) -> (r: String)
    ensures
        r@ == cleaned(text@),
{
    let chars: Vec<char> = trimmed_chars(&chars_of(text));
    let mut r = String::new();
    let mut space: bool = false;
    let mut empty: bool = true;
    let mut i: usize = 0;
    proof {
        assert(r@ =~= Seq::<char>::empty());
    }
    while i < chars.len()
        invariant
            i <= chars@.len(),
            chars@ == trim(text@),
            (r@, space) == cleaned_upto(chars@, i as nat),
            empty == (r@.len() == 0),
        decreases chars.len() - i,
    {
        let c: char = chars[i];
        if c == ' ' {
            space = true;
        } else {
            let joins: bool = c == '\'' || c == '\u{2019}' || c == ',' || c == '.' || c == '!' || c
                == '?' || c == ';' || c == ':' || c == ')' || c == ']';
            if space && !empty && !joins {
                r.push(' ');
            }
            space = false;
            r.push(c);
            empty = false;
        }
        i = i + 1;
    }
    r
}

proof fn lemma_cleaned_spaces(s: Seq<char>, n: nat)
    requires
        n <= s.len(),
    ensures
        ({
            let (r, space) = cleaned_upto(s, n);
            &&& r.len() > 0 ==> r[0] != ' ' && r.last() != ' '
            &&& forall|i: int|
                0 <= i < r.len() - 1 && r[i] == ' ' ==> (#[trigger] r[i + 1]) != ' ' && !joins_left(
                    r[i + 1],
                )
            &&& n > 0 && s[0] != ' ' ==> r.len() > 0 && r[0] == s[0]
            &&& n > 0 && s[n - 1] != ' ' ==> r.len() > 0 && r.last() == s[n - 1]
        }),
    decreases n,
{
    if n > 0 {
        lemma_cleaned_spaces(s, (n - 1) as nat);
    }
}

/// A cleaned text has no white space at its ends, no two spaces together, and none before
/// punctuation.
pub proof fn lemma_cleaned(s: Seq<char>)
    ensures
        ({
            let r = cleaned(s);
            &&& r.len() > 0 ==> !is_white(r[0]) && !is_white(r.last())
            &&& forall|i: int|
                0 <= i < r.len() - 1 && r[i] == ' ' ==> (#[trigger] r[i + 1]) != ' ' && !joins_left(
                    r[i + 1],
                )
        }),
{
    lemma_cleaned_spaces(trim(s), trim(s).len());
    lemma_trim_ends(s);
}

/// The characters of a text but for its spaces.
pub open spec fn without_spaces(s: Seq<char>) -> Seq<char>
    decreases s.len(),
{
    if s.len() == 0 {
        s
    } else if s.last() == ' ' {
        without_spaces(s.drop_last())
    } else {
        without_spaces(s.drop_last()).push(s.last())
    }
}

proof fn lemma_cleaned_keeps_upto(s: Seq<char>, n: nat)
    requires
        n <= s.len(),
    ensures
        without_spaces(cleaned_upto(s, n).0) == without_spaces(s.subrange(0, n as int)),
    decreases n,
{
    if n > 0 {
        lemma_cleaned_keeps_upto(s, (n - 1) as nat);
        let (done, space) = cleaned_upto(s, (n - 1) as nat);
        let c = s[n - 1];
        let front = s.subrange(0, n as int);
        assert(front.drop_last() =~= s.subrange(0, n - 1));
        assert(front.last() == c);
        assert(done.push(c).drop_last() =~= done);
        assert(done.push(' ').drop_last() =~= done);
        assert(done.push(' ').push(c).drop_last() =~= done.push(' '));
        assert(without_spaces(done.push(' ')) == without_spaces(done));
    } else {
        assert(s.subrange(0, 0) =~= cleaned_upto(s, 0).0);
    }
}

/// Cleaning loses nothing but white space at the ends and spaces: all other characters stay, in
/// order.
pub proof fn lemma_cleaned_keeps_characters(s: Seq<char>)
    ensures
        without_spaces(cleaned(s)) == without_spaces(trim(s)),
{
    lemma_cleaned_keeps_upto(trim(s), trim(s).len());
    assert(trim(s).subrange(0, trim(s).len() as int) =~= trim(s));
}

proof fn lemma_clean_stays_upto(r: Seq<char>, n: nat)
    requires
        n <= r.len(),
        r.len() > 0 ==> r[0] != ' ',
        forall|i: int|
            0 <= i < r.len() - 1 && r[i] == ' ' ==> (#[trigger] r[i + 1]) != ' ' && !joins_left(
                r[i + 1],
            ),
    ensures
        n > 0 && r[n - 1] == ' ' ==> cleaned_upto(r, n) == (r.subrange(0, n - 1), true),
        n == 0 || r[n - 1] != ' ' ==> cleaned_upto(r, n) == (r.subrange(0, n as int), false),
    decreases n,
{
    if n > 0 {
        lemma_clean_stays_upto(r, (n - 1) as nat);
        let c = r[n - 1];
        assert(r.subrange(0, n - 1).push(c) =~= r.subrange(0, n as int));
        if n > 1 {
            assert(r[(n - 2) + 1] == c);
            if r[n - 2] == ' ' {
                assert(n > 2);
                assert(r.subrange(0, n - 2).push(' ').push(c) =~= r.subrange(0, n as int));
            }
        }
    } else {
        assert(r.subrange(0, 0) =~= Seq::<char>::empty());
    }
}

/// A cleaned text stays as it is when it is cleaned again.
pub proof fn lemma_cleaned_stays(s: Seq<char>)
    ensures
        cleaned(cleaned(s)) == cleaned(s),
{
    let r = cleaned(s);
    lemma_cleaned(s);
    lemma_cleaned_spaces(trim(s), trim(s).len());
    assert(trim(r) == r);
    lemma_clean_stays_upto(r, r.len());
    assert(r.subrange(0, r.len() as int) =~= r);
}

// ------------------------------------------------------------------ segments
/// A token that the model recognised, with its times in hundredths of a second.
#[derive(Debug, Clone)]
pub struct RawToken {
    pub t0: i64,
    pub t1: i64,
    pub text: String,
}

/// A piece of speech that the model recognised, with its times in hundredths of a second.
#[derive(Debug, Clone)]
pub struct RawSegment {
    pub t0: i64,
    pub t1: i64,
    pub text: String,
    pub tokens: Vec<RawToken>,
}

/// A word with its times.
pub struct WordView {
    pub start: u64,
    pub end: u64,
    pub text: Seq<char>,
}

/// Hundredths of a second in nanoseconds.
pub open spec fn nanoseconds(t: i64) -> u64 {
    (t as u64).wrapping_mul(10_000_000)
}

/// Whether a character is punctuation of ASCII.
pub open spec fn is_punctuation(c: char) -> bool {
    ('!' <= c && c <= '/') || (':' <= c && c <= '@') || ('[' <= c && c <= '`') || ('{' <= c && c
        <= '~')
}

/// Whether a token is only punctuation.
pub open spec fn is_all_punctuation(s: Seq<char>) -> bool {
    forall|i: int| 0 <= i < s.len() ==> is_punctuation(#[trigger] s[i])
}

/// Whether a token is the end of a contraction: an apostrophe and little more.
pub open spec fn is_contraction(s: Seq<char>) -> bool {
    s.len() > 0 && (s[0] == '\'' || s[0] == '\u{2019}') && encode_utf8(s).len() <= 4
}

/// The words of the first `n` tokens. Special tokens are left out; punctuation and ends of
/// contractions go to the word before them.
pub open spec fn words_of(tokens: Seq<RawToken>, n: nat) -> Seq<WordView>
    decreases n,
{
    if n == 0 {
        Seq::empty()
    } else {
        let front = words_of(tokens, (n - 1) as nat);
        let t = tokens[n - 1];
        let text = trim(t.text@);
        if text.len() == 0 || text[0] == '[' {
            front
        } else if front.len() > 0 && (is_contraction(text) || is_all_punctuation(text)) {
            let last = front.last();
            front.update(
                front.len() - 1,
                WordView { start: last.start, end: nanoseconds(t.t1), text: last.text + text },
            )
        } else {
            front.push(WordView { start: nanoseconds(t.t0), end: nanoseconds(t.t1), text })
        }
    }
}

/// The words with their texts as characters.
pub open spec fn word_views(w: Seq<SubtitleWord>) -> Seq<WordView> {
    w.map_values(|x: SubtitleWord| WordView { start: x.start_ns, end: x.end_ns, text: x.text@ })
}

fn all_punctuation(s: &Vec<char>) -> (r: bool)
    ensures
        r == is_all_punctuation(s@),
{
    let mut i: usize = 0;
    while i < s.len()
        invariant
            i <= s@.len(),
            forall|k: int| 0 <= k < i ==> is_punctuation(#[trigger] s@[k]),
        decreases s.len() - i,
    {
        let c: char = s[i];
        let p: bool = ('!' <= c && c <= '/') || (':' <= c && c <= '@') || ('[' <= c && c <= '`')
            || ('{' <= c && c <= '~');
        if !p {
            proof {
                assert(!is_punctuation(s@[i as int]));
            }
            return false;
        }
        i = i + 1;
    }
    true
}

/// The words of tokens.
pub fn merge_tokens(tokens: &Vec<RawToken>) -> (r: Vec<SubtitleWord>)
    ensures
        word_views(r@) == words_of(tokens@, tokens@.len()),
{
    let mut words: Vec<SubtitleWord> = Vec::new();
    let mut i: usize = 0;
    proof {
        assert(word_views(words@) =~= Seq::empty());
    }
    while i < tokens.len()
        invariant
            i <= tokens@.len(),
            word_views(words@) == words_of(tokens@, i as nat),
        decreases tokens.len() - i,
    {
        let ghost before = words@;
        let text: String = trimmed(&tokens[i].text);
        let chars: Vec<char> = chars_of(&text);
        let start: u64 = (tokens[i].t0 as u64).wrapping_mul(10_000_000);
        let end: u64 = (tokens[i].t1 as u64).wrapping_mul(10_000_000);
        if !(chars.len() == 0 || chars[0] == '[') {
            let n: usize = words.len();
            let contraction: bool = (chars[0] == '\'' || chars[0] == '\u{2019}')
                && text.as_str().as_bytes().len() <= 4;
            proof {
                assert(word_views(before).len() == before.len());
            }
            if n > 0 && (contraction || all_punctuation(&chars)) {
                let mut joined: String = words[n - 1].text.clone();
                joined.append(&text);
                let word_start: u64 = words[n - 1].start_ns;
                words.set(n - 1, SubtitleWord { start_ns: word_start, end_ns: end, text: joined });
                proof {
                    let last = word_views(before).last();
                    assert(word_views(words@) =~= word_views(before).update(
                        n - 1,
                        WordView { start: last.start, end, text: last.text + text@ },
                    ));
                }
            } else {
                words.push(SubtitleWord { start_ns: start, end_ns: end, text });
                proof {
                    assert(word_views(words@) =~= word_views(before).push(
                        WordView { start, end, text: text@ },
                    ));
                }
            }
        }
        i = i + 1;
    }
    words
}

/// A subtitle without its identifier.
pub struct SpokenView {
    pub start: u64,
    pub end: u64,
    pub text: Seq<char>,
    pub words: Seq<WordView>,
}

/// A subtitle without its identifier.
pub open spec fn spoken_view(s: SubtitleSegment) -> SpokenView {
    SpokenView { start: s.start_ns, end: s.end_ns, text: s.text@, words: word_views(s.words@) }
}

/// The subtitles without their identifiers.
pub open spec fn spoken_views(s: Seq<SubtitleSegment>) -> Seq<SpokenView> {
    s.map_values(|x: SubtitleSegment| spoken_view(x))
}

/// A subtitle with its identifier.
pub struct SegmentView {
    pub id: Seq<char>,
    pub spoken: SpokenView,
}

/// A subtitle with its identifier.
pub open spec fn segment_view(s: SubtitleSegment) -> SegmentView {
    SegmentView { id: s.id@, spoken: spoken_view(s) }
}

/// The subtitles with their identifiers.
pub open spec fn segment_views(s: Seq<SubtitleSegment>) -> Seq<SegmentView> {
    s.map_values(|x: SubtitleSegment| segment_view(x))
}

/// The subtitles of the first `n` pieces of speech. Those without text are left out.
pub open spec fn segments_of(raw: Seq<RawSegment>, n: nat) -> Seq<SpokenView>
    decreases n,
{
    if n == 0 {
        Seq::empty()
    } else {
        let front = segments_of(raw, (n - 1) as nat);
        let s = raw[n - 1];
        if trim(s.text@).len() == 0 {
            front
        } else {
            front.push(
                SpokenView {
                    start: nanoseconds(s.t0),
                    end: nanoseconds(s.t1),
                    text: cleaned(s.text@),
                    words: words_of(s.tokens@, s.tokens@.len()),
                },
            )
        }
    }
}

/// The subtitles of what the model recognised, each with a fresh identifier.
pub fn build_segments(raw: &Vec<RawSegment>) -> (r: Vec<SubtitleSegment>)
    ensures
        spoken_views(r@) == segments_of(raw@, raw@.len()),
        forall|i: int| 0 <= i < r@.len() ==> is_uuid((#[trigger] r@[i]).id@),
        r@.len() == with_text(raw@).len(),
        forall|i: int|
            0 <= i < r@.len() && 0 <= with_text(raw@)[i].t0 && with_text(raw@)[i].t0 * 10_000_000
                <= u64::MAX ==> (#[trigger] r@[i]).start_ns == with_text(raw@)[i].t0 * 10_000_000,
        forall|i: int|
            0 <= i < r@.len() && 0 <= with_text(raw@)[i].t1 && with_text(raw@)[i].t1 * 10_000_000
                <= u64::MAX ==> (#[trigger] r@[i]).end_ns == with_text(raw@)[i].t1 * 10_000_000,
{
    proof {
        lemma_segments_upto(raw@, raw@.len());
        assert(raw@.subrange(0, raw@.len() as int) =~= raw@);
    }
    let mut r: Vec<SubtitleSegment> = Vec::new();
    let mut i: usize = 0;
    proof {
        assert(spoken_views(r@) =~= Seq::empty());
    }
    while i < raw.len()
        invariant
            i <= raw@.len(),
            spoken_views(r@) == segments_of(raw@, i as nat),
            forall|k: int| 0 <= k < r@.len() ==> is_uuid((#[trigger] r@[k]).id@),
        decreases raw.len() - i,
    {
        let ghost before = r@;
        let text: String = trimmed(&raw[i].text);
        if !text.as_str().is_empty() {
            let segment = SubtitleSegment {
                id: fresh_id(),
                start_ns: (raw[i].t0 as u64).wrapping_mul(10_000_000),
                end_ns: (raw[i].t1 as u64).wrapping_mul(10_000_000),
                text: clean_whisper_text(&raw[i].text),
                words: merge_tokens(&raw[i].tokens),
            };
            r.push(segment);
            proof {
                assert(spoken_views(r@) =~= spoken_views(before).push(spoken_view(segment)));
                assert forall|k: int| 0 <= k < r@.len() implies is_uuid(
                    (#[trigger] r@[k]).id@,
                ) by {
                    if k < before.len() {
                        assert(r@[k] == before[k]);
                    }
                }
            }
        }
        i = i + 1;
    }
    proof {
        assert forall|i: int|
            0 <= i < r@.len() && 0 <= with_text(raw@)[i].t0 && with_text(raw@)[i].t0 * 10_000_000
                <= u64::MAX implies (#[trigger] r@[i]).start_ns == with_text(raw@)[i].t0
            * 10_000_000 by {
            assert(spoken_views(r@)[i] == segments_of(raw@, raw@.len())[i]);
            lemma_nanoseconds(with_text(raw@)[i].t0);
        }
        assert forall|i: int|
            0 <= i < r@.len() && 0 <= with_text(raw@)[i].t1 && with_text(raw@)[i].t1 * 10_000_000
                <= u64::MAX implies (#[trigger] r@[i]).end_ns == with_text(raw@)[i].t1
            * 10_000_000 by {
            assert(spoken_views(r@)[i] == segments_of(raw@, raw@.len())[i]);
            lemma_nanoseconds(with_text(raw@)[i].t1);
        }
    }
    r
}

/// The pieces of speech that have a text.
pub open spec fn with_text(raw: Seq<RawSegment>) -> Seq<RawSegment> {
    raw.filter(|s: RawSegment| trim(s.text@).len() > 0)
}

/// The tokens that are said: special tokens and blanks are not.
pub open spec fn said(tokens: Seq<RawToken>) -> Seq<RawToken> {
    tokens.filter(|t: RawToken| trim(t.text@).len() > 0 && trim(t.text@)[0] != '[')
}

/// A time that can be counted in nanoseconds is so counted.
pub proof fn lemma_nanoseconds(t: i64)
    requires
        0 <= t,
        t * 10_000_000 <= u64::MAX,
    ensures
        nanoseconds(t) == t * 10_000_000,
{
}

proof fn lemma_segments_upto(raw: Seq<RawSegment>, n: nat)
    requires
        n <= raw.len(),
    ensures
        ({
            let pieces = with_text(raw.subrange(0, n as int));
            &&& segments_of(raw, n).len() == pieces.len()
            &&& forall|k: int| #![trigger segments_of(raw, n)[k]]
                0 <= k < pieces.len() ==> {
                    &&& segments_of(raw, n)[k].start == nanoseconds(pieces[k].t0)
                    &&& segments_of(raw, n)[k].end == nanoseconds(pieces[k].t1)
                    &&& segments_of(raw, n)[k].text == cleaned(pieces[k].text@)
                    &&& segments_of(raw, n)[k].words == words_of(
                        pieces[k].tokens@,
                        pieces[k].tokens@.len(),
                    )
                }
        }),
    decreases n,
{
    reveal(Seq::filter);
    if n > 0 {
        lemma_segments_upto(raw, (n - 1) as nat);
        assert(raw.subrange(0, n as int).drop_last() =~= raw.subrange(0, n - 1));
    }
}

/// There is a subtitle for each piece of speech that has a text, in order. It begins and ends when
/// the piece does, a hundredth of a second being ten million nanoseconds, so that what takes time
/// is shown for a time.
pub proof fn lemma_subtitles_are_timed(raw: Seq<RawSegment>, k: int)
    requires
        0 <= k < with_text(raw).len(),
        0 <= with_text(raw)[k].t0,
        0 <= with_text(raw)[k].t1,
        with_text(raw)[k].t0 * 10_000_000 <= u64::MAX,
        with_text(raw)[k].t1 * 10_000_000 <= u64::MAX,
    ensures
        ({
            let piece = with_text(raw)[k];
            let subtitle = segments_of(raw, raw.len())[k];
            &&& segments_of(raw, raw.len()).len() == with_text(raw).len()
            &&& subtitle.start == piece.t0 * 10_000_000
            &&& subtitle.end == piece.t1 * 10_000_000
            &&& piece.t0 < piece.t1 ==> subtitle.start < subtitle.end
        }),
{
    lemma_segments_upto(raw, raw.len());
    assert(raw.subrange(0, raw.len() as int) =~= raw);
    let subtitle = segments_of(raw, raw.len())[k];
    lemma_nanoseconds(with_text(raw)[k].t0);
    lemma_nanoseconds(with_text(raw)[k].t1);
}

/// A subtitle has the words of its own piece of speech, and its text cleaned.
pub proof fn lemma_subtitles_say_what_was_said(raw: Seq<RawSegment>, k: int)
    requires
        0 <= k < with_text(raw).len(),
    ensures
        segments_of(raw, raw.len())[k].text == cleaned(with_text(raw)[k].text@),
        segments_of(raw, raw.len())[k].words == words_of(
            with_text(raw)[k].tokens@,
            with_text(raw)[k].tokens@.len(),
        ),
{
    lemma_segments_upto(raw, raw.len());
    assert(raw.subrange(0, raw.len() as int) =~= raw);
    let subtitle = segments_of(raw, raw.len())[k];
}

proof fn lemma_words_upto(tokens: Seq<RawToken>, n: nat)
    requires
        n <= tokens.len(),
    ensures
        ({
            let words = words_of(tokens, n);
            let kept = said(tokens.subrange(0, n as int));
            &&& words.map_values(|w: WordView| w.text).flatten() == kept.map_values(
                |t: RawToken| trim(t.text@),
            ).flatten()
            &&& words.len() == 0 <==> kept.len() == 0
            &&& words.len() <= kept.len()
            &&& kept.len() > 0 ==> words[0].start == nanoseconds(kept[0].t0) && words.last().end
                == nanoseconds(kept.last().t1)
        }),
    decreases n,
{
    reveal(Seq::filter);
    let text = |w: WordView| w.text;
    let piece = |t: RawToken| trim(t.text@);
    let words = words_of(tokens, n);
    let kept = said(tokens.subrange(0, n as int));
    if n == 0 {
        assert(words.map_values(text) =~= Seq::empty());
        assert(kept.map_values(piece) =~= Seq::empty());
    } else {
        let front = words_of(tokens, (n - 1) as nat);
        let before = said(tokens.subrange(0, n - 1));
        lemma_words_upto(tokens, (n - 1) as nat);
        assert(tokens.subrange(0, n as int).drop_last() =~= tokens.subrange(0, n - 1));
        let t = tokens[n - 1];
        let said_now = trim(t.text@);
        if said_now.len() == 0 || said_now[0] == '[' {
        } else {
            assert(kept == before.push(t));
            assert(kept.map_values(piece) =~= before.map_values(piece).push(said_now));
            before.map_values(piece).lemma_flatten_push(said_now);
            if front.len() > 0 && (is_contraction(said_now) || is_all_punctuation(said_now)) {
                let last = front.last();
                let rest = front.drop_last();
                assert(front.map_values(text) =~= rest.map_values(text).push(last.text));
                rest.map_values(text).lemma_flatten_push(last.text);
                assert(words.map_values(text) =~= rest.map_values(text).push(last.text + said_now));
                rest.map_values(text).lemma_flatten_push(last.text + said_now);
                assert(words.map_values(text).flatten() =~= front.map_values(text).flatten()
                    + said_now);
            } else {
                assert(words.map_values(text) =~= front.map_values(text).push(said_now));
                front.map_values(text).lemma_flatten_push(said_now);
            }
        }
    }
}

/// The words of a piece of speech are all that was said, and nothing else: put together they are
/// its tokens put together. The first begins with the first token and the last ends with the last.
pub proof fn lemma_words_are_what_was_said(tokens: Seq<RawToken>)
    ensures
        ({
            let words = words_of(tokens, tokens.len());
            &&& words.map_values(|w: WordView| w.text).flatten() == said(tokens).map_values(
                |t: RawToken| trim(t.text@),
            ).flatten()
            &&& words.len() == 0 <==> said(tokens).len() == 0
            &&& said(tokens).len() > 0 ==> words[0].start == nanoseconds(said(tokens)[0].t0)
                && words.last().end == nanoseconds(said(tokens).last().t1)
        }),
{
    lemma_words_upto(tokens, tokens.len());
    assert(tokens.subrange(0, tokens.len() as int) =~= tokens);
}

/// Punctuation is what ASCII can show that is no letter, no digit and no space.
pub proof fn lemma_punctuation(c: char)
    ensures
        is_punctuation(c) <==> '!' <= c <= '~' && !('0' <= c <= '9') && !('A' <= c <= 'Z') && !('a'
            <= c <= 'z'),
{
}

/// Whether a token goes to the word before it: it is only punctuation, or an apostrophe and what
/// follows it, in at most four bytes.
pub open spec fn goes_to_word_before(t: RawToken) -> bool {
    let text = trim(t.text@);
    is_all_punctuation(text) || ((text[0] == '\'' || text[0] == '\u{2019}') && encode_utf8(
        text,
    ).len() <= 4)
}

/// A token that is said after others goes to the last word where it is punctuation or the end of a
/// contraction, which then ends with it; else it is a word of its own with its own times. The words
/// before are as they were.
pub proof fn lemma_next_token(tokens: Seq<RawToken>, t: RawToken)
    requires
        trim(t.text@).len() > 0,
        trim(t.text@)[0] != '[',
        said(tokens).len() > 0,
    ensures
        ({
            let before = words_of(tokens, tokens.len());
            let after = words_of(tokens.push(t), tokens.len() + 1);
            let joined = goes_to_word_before(t);
            &&& before.len() > 0
            &&& after.len() == before.len() + if joined {
                0int
            } else {
                1
            }
            &&& forall|k: int| 0 <= k < before.len() - 1 ==> #[trigger] after[k] == before[k]
            &&& after.last().end == nanoseconds(t.t1)
            &&& if joined {
                after.last().start == before.last().start && after.last().text == before.last().text
                    + trim(t.text@)
            } else {
                after[before.len() - 1] == before.last() && after.last().start == nanoseconds(t.t0)
                    && after.last().text == trim(t.text@)
            }
        }),
{
    lemma_words_are_what_was_said(tokens);
    lemma_words_of_front(tokens, tokens.push(t), tokens.len());
}

proof fn lemma_words_of_front(a: Seq<RawToken>, b: Seq<RawToken>, n: nat)
    requires
        n <= a.len(),
        n <= b.len(),
        forall|k: int| 0 <= k < n ==> a[k] == b[k],
    ensures
        words_of(a, n) == words_of(b, n),
    decreases n,
{
    if n > 0 {
        lemma_words_of_front(a, b, (n - 1) as nat);
    }
}

/// Why there are no subtitles.
#[derive(Debug)]
pub enum SttFailure {
    /// The model could not be loaded.
    Load(String),
    /// There is no sound in the source.
    Extract(String),
    /// The recogniser could not be set up.
    State(String),
    /// The recogniser failed.
    Inference(String),
    /// The program was built without a recogniser.
    NotCompiled,
}

impl SttFailure {
    /// The failure in words.
    pub fn message(&self) -> (r: String)
        ensures
            r@ == (match *self {
                SttFailure::Load(e) => "Failed to load whisper model: "@ + e@,
                SttFailure::Extract(path) => "Failed to extract audio from "@ + path@,
                SttFailure::State(e) => "Failed to create whisper state: "@ + e@,
                SttFailure::Inference(e) => "Whisper inference failed: "@ + e@,
                SttFailure::NotCompiled =>
                    "Speech-to-text feature not compiled. Rebuild with: cargo build --features speech-to-text"@,
            }),
    {
        match self {
            SttFailure::Load(e) => {
                let mut r = owned("Failed to load whisper model: ");
                r.append(e);
                r
            },
            SttFailure::Extract(path) => {
                let mut r = owned("Failed to extract audio from ");
                r.append(path);
                r
            },
            SttFailure::State(e) => {
                let mut r = owned("Failed to create whisper state: ");
                r.append(e);
                r
            },
            SttFailure::Inference(e) => {
                let mut r = owned("Whisper inference failed: ");
                r.append(e);
                r
            },
            SttFailure::NotCompiled => owned(
                "Speech-to-text feature not compiled. Rebuild with: cargo build --features speech-to-text",
            ),
        }
    }
}

/// The language that is set, if any: none where it is to be detected.
pub fn chosen_language(language: &str) -> (r: Option<String>)
    ensures
        match r {
            Some(l) => l@ == language@ && language@.len() > 0 && language@ != "auto"@,
            None => language@.len() == 0 || language@ == "auto"@,
        },
{
    if language.is_empty() || crate::text::same(language, "auto") {
        None
    } else {
        Some(owned(language))
    }
}

/// The address of a source.
pub fn source_uri(path: &str) -> (r: String)
    ensures
        r@ == (if begins(path@, "file://"@) {
            path@
        } else {
            "file://"@ + path@
        }),
{
    if begins_with(path, "file://") {
        owned(path)
    } else {
        let mut r = owned("file://");
        r.append(path);
        r
    }
}

/// What came of a job: the subtitles of what was recognised, or why there are none.
pub fn run_stt_job(cache_key: String, outcome: Result<Vec<RawSegment>, SttFailure>) -> (r:
    SttWorkerResult)
    ensures
        r.cache_key == cache_key,
        match outcome {
            Ok(raw) => {
                &&& r.success
                &&& r.error is None
                &&& spoken_views(r.segments@) == segments_of(raw@, raw@.len())
                &&& forall|i: int|
                    0 <= i < r.segments@.len() ==> is_uuid((#[trigger] r.segments@[i]).id@)
            },
            Err(_) => !r.success && r.segments@.len() == 0 && r.error is Some,
        },
        outcome matches Err(SttFailure::Extract(path)) ==> r.error->Some_0@
            == "Failed to extract audio from "@ + path@,
        outcome matches Err(SttFailure::Load(e)) ==> r.error->Some_0@
            == "Failed to load whisper model: "@ + e@,
        outcome matches Err(SttFailure::State(e)) ==> r.error->Some_0@
            == "Failed to create whisper state: "@ + e@,
        outcome matches Err(SttFailure::Inference(e)) ==> r.error->Some_0@
            == "Whisper inference failed: "@ + e@,
        outcome matches Err(SttFailure::NotCompiled) ==> r.error->Some_0@
            == "Speech-to-text feature not compiled. Rebuild with: cargo build --features speech-to-text"@,
{
    match outcome {
        Ok(raw) => SttWorkerResult {
            cache_key,
            segments: build_segments(&raw),
            success: true,
            error: None,
        },
        Err(f) => SttWorkerResult {
            cache_key,
            segments: Vec::new(),
            success: false,
            error: Some(f.message()),
        },
    }
}

// --------------------------------------------------------------------- cache
/// What came of a job.
#[derive(Debug)]
pub struct SttWorkerResult {
    pub cache_key: String,
    pub segments: Vec<SubtitleSegment>,
    pub success: bool,
    pub error: Option<String>,
}

/// A part of a source whose speech is to be recognised.
#[derive(Debug)]
pub struct SttJob {
    pub cache_key: String,
    pub source_path: String,
    pub source_in_ns: u64,
    pub source_out_ns: u64,
    pub model_path: String,
    pub language: String,
}

/// How far the jobs have come.
#[derive(Debug, Clone, Copy, PartialEq, Eq, Structural)]
pub struct SttProgress {
    pub total: usize,
    pub completed: usize,
    pub in_flight: bool,
}

/// The subtitles of a part of a source.
#[derive(Debug)]
pub struct SttPollResult {
    pub source_path: String,
    pub source_in_ns: u64,
    pub source_out_ns: u64,
    pub segments: Vec<SubtitleSegment>,
}

/// The part of a source that a key stands for.
#[derive(Debug)]
pub struct SttInfo {
    pub source_path: String,
    pub source_in_ns: u64,
    pub source_out_ns: u64,
}

/// The key of a part of a source in a language.
pub open spec fn stt_key(source: Seq<char>, from: u64, to: u64, language: Seq<char>) -> Seq<char> {
    "stt_"@ + decimal(digest_of(stt_material(source, from, to, language)) as nat)
}

/// What goes into the key of a part of a source in a language.
pub open spec fn stt_material(source: Seq<char>, from: u64, to: u64, language: Seq<char>) -> Seq<
    Seq<u8>,
> {
    text_material(source) + number_material(from as nat, 8) + number_material(to as nat, 8)
        + text_material(language)
}

/// The key of a part of a source in a language.
pub fn cache_key(source_path: &str, source_in_ns: u64, source_out_ns: u64, language: &str) -> (r: String)
    ensures
        r@ == stt_key(source_path@, source_in_ns, source_out_ns, language@),
{
    let mut d = Digest::new();
    d.add_text(source_path);
    d.add_number(source_in_ns);
    d.add_number(source_out_ns);
    d.add_text(language);
    proof {
        assert(d@ =~= text_material(source_path@) + number_material(source_in_ns as nat, 8)
            + number_material(source_out_ns as nat, 8) + text_material(language@));
    }
    let mut r = owned("stt_");
    push_decimal(&mut r, d.finish());
    r
}

/// The subtitles of a session.
pub struct SttCache {
    pub results: StringMap<Vec<SubtitleSegment>>,
    pub pending: StringSet,
    pub failed: StringSet,
    pub key_to_info: StringMap<SttInfo>,
    pub total_requested: usize,
    pub model_path: Option<String>,
    /// Whether the program was built with a recogniser.
    pub compiled: bool,
    /// Why the last job failed.
    pub last_error: Option<String>,
}

/// A part of a source.
pub struct InfoView {
    pub source: Seq<char>,
    pub from: u64,
    pub to: u64,
}

/// A part of a source.
pub open spec fn info_view(i: SttInfo) -> InfoView {
    InfoView { source: i.source_path@, from: i.source_in_ns, to: i.source_out_ns }
}

/// What a cache knows.
pub struct SttView {
    pub results: Map<Seq<char>, Seq<SegmentView>>,
    pub pending: Set<Seq<char>>,
    pub failed: Set<Seq<char>>,
    pub infos: Map<Seq<char>, InfoView>,
    pub total: nat,
    pub error: Option<Seq<char>>,
}

/// The subtitles under each key.
pub open spec fn result_views(m: Map<Seq<char>, Vec<SubtitleSegment>>) -> Map<
    Seq<char>,
    Seq<SegmentView>,
> {
    Map::new(|k: Seq<char>| m.dom().contains(k), |k: Seq<char>| segment_views(m[k]@))
}

/// The parts under each key.
pub open spec fn info_views(m: Map<Seq<char>, SttInfo>) -> Map<Seq<char>, InfoView> {
    Map::new(|k: Seq<char>| m.dom().contains(k), |k: Seq<char>| info_view(m[k]))
}

/// What is said where a failed job gave no reason.
pub open spec fn default_error() -> Seq<char> {
    "Subtitle generation failed. Check the log for details."@
}

/// What is known after a job came back.
pub open spec fn heard(s: SttView, r: SttWorkerResult) -> SttView {
    let t = SttView { pending: s.pending.remove(r.cache_key@), ..s };
    if r.success {
        SttView {
            infos: s.infos.remove(r.cache_key@),
            results: s.results.insert(r.cache_key@, segment_views(r.segments@)),
            ..t
        }
    } else {
        SttView {
            failed: s.failed.insert(r.cache_key@),
            error: match r.error {
                Some(e) => Some(e@),
                None => Some(default_error()),
            },
            ..t
        }
    }
}

/// What is known after several jobs came back.
pub open spec fn all_heard(s: SttView, done: Seq<SttWorkerResult>) -> SttView
    decreases done.len(),
{
    if done.len() == 0 {
        s
    } else {
        heard(all_heard(s, done.drop_last()), done.last())
    }
}

/// A part that was asked for once stays known, whatever comes back, so that nothing is transcribed
/// twice.
pub proof fn lemma_part_stays_known(s: SttView, done: Seq<SttWorkerResult>, key: Seq<char>)
    requires
        s.results.dom().contains(key) || s.pending.contains(key) || s.failed.contains(key),
    ensures
        ({
            let t = all_heard(s, done);
            t.results.dom().contains(key) || t.pending.contains(key) || t.failed.contains(key)
        }),
    decreases done.len(),
{
    if done.len() > 0 {
        lemma_part_stays_known(s, done.drop_last(), key);
    }
}

/// Subtitles of a part of a source.
pub struct HeardView {
    pub info: InfoView,
    pub segments: Seq<SegmentView>,
}

/// The part that is known of a key.
pub open spec fn part_of(s: SttView, key: Seq<char>) -> InfoView {
    if s.infos.dom().contains(key) {
        s.infos[key]
    } else {
        InfoView { source: Seq::empty(), from: 0, to: 0 }
    }
}

/// What is told of the jobs that came back and succeeded.
pub open spec fn told(s: SttView, done: Seq<SttWorkerResult>) -> Seq<HeardView>
    decreases done.len(),
{
    if done.len() == 0 {
        Seq::empty()
    } else {
        let front = told(s, done.drop_last());
        let r = done.last();
        if r.success {
            front.push(
                HeardView {
                    info: part_of(all_heard(s, done.drop_last()), r.cache_key@),
                    segments: segment_views(r.segments@),
                },
            )
        } else {
            front
        }
    }
}

/// The results of a poll as plain values.
pub open spec fn poll_views(p: Seq<SttPollResult>) -> Seq<HeardView> {
    p.map_values(
        |x: SttPollResult|
            HeardView {
                info: InfoView { source: x.source_path@, from: x.source_in_ns, to: x.source_out_ns },
                segments: segment_views(x.segments@),
            },
    )
}

fn copy_words(w: &Vec<SubtitleWord>) -> (r: Vec<SubtitleWord>)
    ensures
        word_views(r@) == word_views(w@),
{
    let mut r: Vec<SubtitleWord> = Vec::new();
    let mut i: usize = 0;
    while i < w.len()
        invariant
            i <= w@.len(),
            r@.len() == i,
            forall|k: int|
                0 <= k < i ==> (#[trigger] r@[k]).start_ns == w@[k].start_ns && r@[k].end_ns
                    == w@[k].end_ns && r@[k].text@ == w@[k].text@,
        decreases w.len() - i,
    {
        r.push(
            SubtitleWord {
                start_ns: w[i].start_ns,
                end_ns: w[i].end_ns,
                text: w[i].text.clone(),
            },
        );
        i = i + 1;
    }
    proof {
        assert(word_views(r@) =~= word_views(w@));
    }
    r
}

fn copy_segments(s: &Vec<SubtitleSegment>) -> (r: Vec<SubtitleSegment>)
    ensures
        segment_views(r@) == segment_views(s@),
{
    let mut r: Vec<SubtitleSegment> = Vec::new();
    let mut i: usize = 0;
    while i < s.len()
        invariant
            i <= s@.len(),
            r@.len() == i,
            forall|k: int| 0 <= k < i ==> segment_view(#[trigger] r@[k]) == segment_view(s@[k]),
        decreases s.len() - i,
    {
        r.push(
            SubtitleSegment {
                id: s[i].id.clone(),
                start_ns: s[i].start_ns,
                end_ns: s[i].end_ns,
                text: s[i].text.clone(),
                words: copy_words(&s[i].words),
            },
        );
        i = i + 1;
    }
    proof {
        assert(segment_views(r@) =~= segment_views(s@));
    }
    r
}

impl SttCache {
    pub open spec fn view(&self) -> SttView {
        SttView {
            results: result_views(self.results@),
            pending: self.pending@,
            failed: self.failed@,
            infos: info_views(self.key_to_info@),
            total: self.total_requested as nat,
            error: option_view(self.last_error),
        }
    }

    /// No key is both pending and settled.
    pub open spec fn wf(&self) -> bool {
        &&& self.results.wf()
        &&& self.pending.wf()
        &&& self.failed.wf()
        &&& self.key_to_info.wf()
        &&& self.pending@.disjoint(self.results@.dom())
        &&& self.pending@.disjoint(self.failed@)
    }

    /// An empty cache with a model, if one was found.
    pub fn new(model_path: Option<String>, compiled: bool) -> (r: SttCache)
        ensures
            r.wf(),
            r.model_path == model_path,
            r.compiled == compiled,
            r@ == (SttView {
                results: Map::empty(),
                pending: Set::empty(),
                failed: Set::empty(),
                infos: Map::empty(),
                total: 0,
                error: None,
            }),
    {
        let r = SttCache {
            results: StringMap::new(),
            pending: StringSet::new(),
            failed: StringSet::new(),
            key_to_info: StringMap::new(),
            total_requested: 0,
            model_path,
            compiled,
            last_error: None,
        };
        proof {
            assert(result_views(r.results@) =~= Map::<Seq<char>, Seq<SegmentView>>::empty());
            assert(info_views(r.key_to_info@) =~= Map::<Seq<char>, InfoView>::empty());
        }
        r
    }

    /// Whether there is a model.
    pub fn is_available(&self) -> (r: bool)
        ensures
            r == (self.model_path is Some),
    {
        self.model_path.is_some()
    }

    /// Whether the program was built with a recogniser.
    pub fn feature_enabled(&self) -> (r: bool)
        ensures
            r == self.compiled,
    {
        self.compiled
    }

    /// Takes the model that was found.
    pub fn refresh_model_path(&mut self, model_path: Option<String>)
        requires
            old(self).wf(),
        ensures
            final(self).wf(),
            final(self)@ == old(self)@,
            final(self).model_path == model_path,
            final(self).compiled == old(self).compiled,
    {
        self.model_path = model_path;
    }

    /// Asks for the subtitles of a part of a source. Nothing happens without a model, or where
    /// they are known, pending or failed; otherwise there is a job to do.
    pub fn request(&mut self, source_path: &str, source_in_ns: u64, source_out_ns: u64, language: &str) -> (r:
        Option<SttJob>)
        requires
            old(self).wf(),
            old(self).total_requested < usize::MAX,
        ensures
            final(self).wf(),
            final(self).model_path == old(self).model_path,
            final(self).compiled == old(self).compiled,
            ({
                let s = old(self)@;
                let key = stt_key(source_path@, source_in_ns, source_out_ns, language@);
                let idle = old(self).model_path is Some && !s.pending.contains(key)
                    && !s.failed.contains(key) && !s.results.dom().contains(key);
                &&& r is Some <==> idle
                &&& final(self)@ == (if idle {
                    SttView {
                        pending: s.pending.insert(key),
                        infos: s.infos.insert(
                            key,
                            InfoView { source: source_path@, from: source_in_ns, to: source_out_ns },
                        ),
                        total: s.total + 1,
                        error: None,
                        ..s
                    }
                } else {
                    s
                })
                &&& r matches Some(j) ==> {
                    &&& j.cache_key@ == key
                    &&& j.source_path@ == source_path@
                    &&& j.source_in_ns == source_in_ns
                    &&& j.source_out_ns == source_out_ns
                    &&& j.model_path@ == old(self).model_path->Some_0@
                    &&& j.language@ == language@
                }
            }),
    {
        let ghost s = self@;
        let model: String = match &self.model_path {
            Some(m) => m.clone(),
            None => {
                return None;
            },
        };
        let key = cache_key(source_path, source_in_ns, source_out_ns, language);
        if self.pending.contains(&key) || self.failed.contains(&key) || self.results.contains_key(
            &key,
        ) {
            return None;
        }
        self.last_error = None;
        self.total_requested = self.total_requested + 1;
        self.pending.insert(key.clone());
        let info = SttInfo { source_path: owned(source_path), source_in_ns, source_out_ns };
        self.key_to_info.insert(key.clone(), info);
        proof {
            assert(info_views(self.key_to_info@) =~= s.infos.insert(key@, info_view(info)));
        }
        Some(
            SttJob {
                cache_key: key,
                source_path: owned(source_path),
                source_in_ns,
                source_out_ns,
                model_path: model,
                language: owned(language),
            },
        )
    }

    fn absorb(&mut self, result: SttWorkerResult) -> (r: Option<SttPollResult>)
        requires
            old(self).wf(),
        ensures
            final(self).wf(),
            final(self).model_path == old(self).model_path,
            final(self).compiled == old(self).compiled,
            final(self)@ == heard(old(self)@, result),
            r is Some <==> result.success,
            r matches Some(p) ==> {
                &&& p.source_path@ == part_of(old(self)@, result.cache_key@).source
                &&& p.source_in_ns == part_of(old(self)@, result.cache_key@).from
                &&& p.source_out_ns == part_of(old(self)@, result.cache_key@).to
                &&& segment_views(p.segments@) == segment_views(result.segments@)
            },
    {
        let ghost s = self@;
        let ghost key = result.cache_key@;
        self.pending.remove(&result.cache_key);
        if result.success {
            let info: SttInfo = match self.key_to_info.remove(&result.cache_key) {
                Some(i) => i,
                None => {
                    let none = String::new();
                    proof {
                        assert(none@ =~= Seq::<char>::empty());
                    }
                    SttInfo { source_path: none, source_in_ns: 0, source_out_ns: 0 }
                },
            };
            let copy = copy_segments(&result.segments);
            self.results.insert(result.cache_key, copy);
            proof {
                assert(info_views(self.key_to_info@) =~= s.infos.remove(key));
                assert(result_views(self.results@) =~= s.results.insert(
                    key,
                    segment_views(result.segments@),
                ));
            }
            Some(
                SttPollResult {
                    source_path: info.source_path,
                    source_in_ns: info.source_in_ns,
                    source_out_ns: info.source_out_ns,
                    segments: result.segments,
                },
            )
        } else {
            self.failed.insert(result.cache_key);
            self.last_error = match result.error {
                Some(e) => Some(e),
                None => Some(owned("Subtitle generation failed. Check the log for details.")),
            };
            None
        }
    }

    /// Takes in jobs that came back, in order. Returns the subtitles of those that succeeded.
    pub fn poll(&mut self, done: Vec<SttWorkerResult>) -> (r: Vec<SttPollResult>)
        requires
            old(self).wf(),
        ensures
            final(self).wf(),
            final(self).model_path == old(self).model_path,
            final(self).compiled == old(self).compiled,
            final(self)@ == all_heard(old(self)@, done@),
            poll_views(r@) == told(old(self)@, done@),
    {
        let ghost all = done@;
        let ghost start = *self;
        let mut rest = done;
        let mut out: Vec<SttPollResult> = Vec::new();
        let ghost mut n: int = 0;
        proof {
            assert(all.subrange(0, 0) =~= Seq::empty());
            assert(poll_views(out@) =~= Seq::empty());
            assert(rest@ =~= all.subrange(0, all.len() as int));
        }
        while rest.len() > 0
            invariant
                self.wf(),
                self.model_path == start.model_path,
                self.compiled == start.compiled,
                0 <= n <= all.len(),
                rest@ == all.subrange(n, all.len() as int),
                self@ == all_heard(start@, all.subrange(0, n)),
                poll_views(out@) == told(start@, all.subrange(0, n)),
            decreases rest.len(),
        {
            let result = rest.remove(0);
            let ghost o = out@;
            proof {
                let next = all.subrange(0, n + 1);
                assert(result == all[n]);
                assert(rest@ =~= all.subrange(n + 1, all.len() as int));
                assert(next.drop_last() =~= all.subrange(0, n));
                assert(next.last() == result);
            }
            if let Some(p) = self.absorb(result) {
                out.push(p);
                proof {
                    let v = HeardView {
                        info: InfoView {
                            source: p.source_path@,
                            from: p.source_in_ns,
                            to: p.source_out_ns,
                        },
                        segments: segment_views(p.segments@),
                    };
                    assert(poll_views(out@) =~= poll_views(o).push(v));
                }
            }
            proof {
                n = n + 1;
            }
        }
        proof {
            assert(all.subrange(0, n) =~= all);
        }
        out
    }

    /// How far the jobs have come.
    pub fn progress(&self) -> (r: SttProgress)
        requires
            self.wf(),
        ensures
            r.total == self.total_requested,
            r.completed == self.results.names().len(),
            r.in_flight == (self@.pending != Set::<Seq<char>>::empty()),
    {
        SttProgress {
            total: self.total_requested,
            completed: self.results.len(),
            in_flight: !self.pending.is_empty(),
        }
    }
}

/// The first model of a size is a model of that size, and none before it is; there is none only
/// where no file is one.
pub proof fn lemma_first_model(files: Seq<Seq<char>>, p: Seq<char>)
    ensures
        match first_model(files, p) {
            Some(f) => is_model(f) && begins(f, p) && exists|k: int|
                0 <= k < files.len() && #[trigger] files[k] == f && forall|j: int|
                    0 <= j < k ==> !(is_model(#[trigger] files[j]) && begins(files[j], p)),
            None => forall|k: int|
                0 <= k < files.len() ==> !(is_model(#[trigger] files[k]) && begins(files[k], p)),
        },
    decreases files.len(),
{
    if files.len() > 0 && !(is_model(files[0]) && begins(files[0], p)) {
        let rest = files.drop_first();
        lemma_first_model(rest, p);
        match first_model(rest, p) {
            Some(f) => {
                let k = choose|k: int|
                    0 <= k < rest.len() && #[trigger] rest[k] == f && forall|j: int|
                        0 <= j < k ==> !(is_model(#[trigger] rest[j]) && begins(rest[j], p));
                assert(files[k + 1] == f);
                assert forall|j: int| 0 <= j < k + 1 implies !(is_model(#[trigger] files[j])
                    && begins(files[j], p)) by {
                    if j > 0 {
                        assert(rest[j - 1] == files[j]);
                    }
                }
            },
            None => {
                assert forall|k: int| 0 <= k < files.len() implies !(is_model(#[trigger] files[k])
                    && begins(files[k], p)) by {
                    if k > 0 {
                        assert(rest[k - 1] == files[k]);
                    }
                }
            },
        }
    }
}

/// The best model is of the first size of which there is any, or of no known size where there is
/// none.
pub proof fn lemma_best_from(files: Seq<Seq<char>>, sizes: Seq<Seq<char>>, n: nat)
    requires
        n <= sizes.len(),
    ensures
        match best_from(files, sizes, n) {
            Some(f) => is_model(f) && files.contains(f) && ((exists|k: int|
                n <= k < sizes.len() && begins(f, #[trigger] sizes[k]) && forall|j: int|
                    n <= j < k ==> first_model(files, #[trigger] sizes[j]) is None) || (forall|
                k: int,
            |
                n <= k < sizes.len() ==> first_model(files, #[trigger] sizes[k]) is None)),
            None => first_model(files, "ggml-"@) is None,
        },
    decreases sizes.len() - n,
{
    if n >= sizes.len() {
        lemma_first_model(files, "ggml-"@);
    } else {
        lemma_first_model(files, sizes[n as int]);
        if first_model(files, sizes[n as int]) is None {
            lemma_best_from(files, sizes, n + 1);
            if let Some(f) = best_from(files, sizes, n + 1) {
                if exists|k: int|
                    n + 1 <= k < sizes.len() && begins(f, #[trigger] sizes[k]) && forall|j: int|
                        n + 1 <= j < k ==> first_model(files, #[trigger] sizes[j]) is None {
                    let k = choose|k: int|
                        n + 1 <= k < sizes.len() && begins(f, #[trigger] sizes[k]) && forall|
                            j: int,
                        |
                            n + 1 <= j < k ==> first_model(files, #[trigger] sizes[j]) is None;
                    assert forall|j: int| n <= j < k implies first_model(
                        files,
                        #[trigger] sizes[j],
                    ) is None by {
                        assert(j == n || n + 1 <= j);
                    }
                    assert(begins(f, sizes[k]));
                } else {
                    assert forall|k: int| n <= k < sizes.len() implies first_model(
                        files,
                        #[trigger] sizes[k],
                    ) is None by {
                        assert(k == n || n + 1 <= k);
                    }
                }
            }
        } else {
            let f = first_model(files, sizes[n as int])->Some_0;
            assert(begins(f, sizes[n as int]));
        }
    }
}

/// The model comes from the first directory that has one.
pub proof fn lemma_model_in(dirs: Seq<ModelListing>)
    ensures
        match model_in(dirs) {
            Some(p) => exists|k: int|
                0 <= k < dirs.len() && best_model(views((#[trigger] dirs[k]).files@)) is Some && p
                    == join_path(dirs[k].dir@, best_model(views(dirs[k].files@))->Some_0)
                    && forall|j: int|
                    0 <= j < k ==> best_model(views((#[trigger] dirs[j]).files@)) is None,
            None => forall|k: int|
                0 <= k < dirs.len() ==> best_model(views((#[trigger] dirs[k]).files@)) is None,
        },
    decreases dirs.len(),
{
    if dirs.len() > 0 && best_model(views(dirs[0].files@)) is None {
        let rest = dirs.drop_first();
        lemma_model_in(rest);
        match model_in(rest) {
            Some(p) => {
                let k = choose|k: int|
                    0 <= k < rest.len() && best_model(views((#[trigger] rest[k]).files@)) is Some
                        && p == join_path(
                        rest[k].dir@,
                        best_model(views(rest[k].files@))->Some_0,
                    ) && forall|j: int|
                        0 <= j < k ==> best_model(views((#[trigger] rest[j]).files@)) is None;
                assert(dirs[k + 1] == rest[k]);
                assert forall|j: int| 0 <= j < k + 1 implies best_model(
                    views((#[trigger] dirs[j]).files@),
                ) is None by {
                    if j > 0 {
                        assert(rest[j - 1] == dirs[j]);
                    }
                }
            },
            None => {
                assert forall|k: int| 0 <= k < dirs.len() implies best_model(
                    views((#[trigger] dirs[k]).files@),
                ) is None by {
                    if k > 0 {
                        assert(rest[k - 1] == dirs[k]);
                    }
                }
            },
        }
    }
}

/// No blank stands before an apostrophe of either kind, before what ends a sentence or a part of
/// one, or before what closes a bracket; before anything else one may.
pub proof fn lemma_joins_left(c: char)
    ensures
        joins_left('\'') && joins_left('\u{2019}') && joins_left(',') && joins_left('.')
            && joins_left('!') && joins_left('?') && joins_left(';') && joins_left(':')
            && joins_left(')') && joins_left(']'),
        joins_left(c) && c != '\u{2019}' ==> is_punctuation(c) && c != '(' && c != '[' && c != '"'
            && c != '-' && c != '/' && c != '&',
{
}

} // verus!
