//! Transcript-to-script alignment.
//!
//! Scenes are ranked by a coarse similarity score, then each is aligned word by word with
//! Smith-Waterman to find which part of the transcript it covers. Regions that overlap a better
//! one are dropped, so one recording can map to several scenes.

use crate::model::SubtitleSegment;
use crate::numbers::Real;
use crate::order::{ints, order_by, order_by_keys, positions};
use crate::script::Script;
use crate::text::{
    chars_of, clone_all, distinct, join, joined, listed, string_of, views, without_repeats,
};
use crate::unicode::{is_letter_or_number, lowercase};
use vstd::prelude::*;

verus! {

/// A single clip-to-scene mapping.
#[derive(Debug, Clone)]
pub struct SceneMapping {
    /// Source path of the media clip.
    pub clip_source_path: String,
    /// Identifier of the scene.
    pub scene_id: String,
    /// Alignment confidence, from 0 to 1.
    pub confidence: Real,
    /// Where the matched part begins in the source file.
    pub source_in_ns: u64,
    /// Where the matched part ends in the source file.
    pub source_out_ns: u64,
    /// The portion of the transcript that matched.
    pub transcript_excerpt: String,
}

/// Full alignment result.
#[derive(Debug, Clone)]
pub struct AlignmentResult {
    /// Clip-to-scene mappings, sorted by scene order.
    pub mappings: Vec<SceneMapping>,
    /// Source paths that had no confident match.
    pub unmatched_clips: Vec<String>,
}

/// What an alignment is doing.
#[derive(Debug, Clone, Copy, PartialEq, Eq, Structural)]
pub enum AlignmentPhase {
    Transcribing,
    Aligning,
    Done,
}

/// How far an alignment is.
#[derive(Debug, Clone, Copy)]
pub struct AlignmentProgress {
    pub phase: AlignmentPhase,
    pub completed: usize,
    pub total: usize,
}

/// The part of a transcript that a scene covers.
#[derive(Debug, Clone, Copy, PartialEq, Eq, Structural)]
pub struct CandidateRegion {
    pub scene_idx: usize,
    pub confidence: Real,
    /// First word of the transcript that is covered.
    pub t_start: usize,
    /// Last word of the transcript that is covered.
    pub t_end: usize,
}

/// How similar a scene is to a transcript.
#[derive(Debug, Clone, Copy, PartialEq, Eq, Structural)]
pub struct SceneScore {
    /// Weighted similarity of the two sets of words.
    pub coarse: Real,
    /// That similarity blended with the word-by-word alignment.
    pub confidence: Real,
}

/// A recording and its transcript.
#[derive(Debug, Clone)]
pub struct Transcript {
    pub source_path: String,
    pub segments: Vec<SubtitleSegment>,
}

/// What a mapping says.
#[verifier::ext_equal]
pub struct MappingView {
    pub clip_source_path: Seq<char>,
    pub scene_id: Seq<char>,
    pub confidence: Real,
    pub source_in_ns: u64,
    pub source_out_ns: u64,
    pub transcript_excerpt: Seq<char>,
}

impl SceneMapping {
    pub open spec fn view(&self) -> MappingView {
        MappingView {
            clip_source_path: self.clip_source_path@,
            scene_id: self.scene_id@,
            confidence: self.confidence,
            source_in_ns: self.source_in_ns,
            source_out_ns: self.source_out_ns,
            transcript_excerpt: self.transcript_excerpt@,
        }
    }

    /// A copy.
    pub fn copied(&self) -> (r: SceneMapping)
        ensures
            r == *self,
    {
        SceneMapping {
            clip_source_path: self.clip_source_path.clone(),
            scene_id: self.scene_id.clone(),
            confidence: self.confidence,
            source_in_ns: self.source_in_ns,
            source_out_ns: self.source_out_ns,
            transcript_excerpt: self.transcript_excerpt.clone(),
        }
    }
}

/// What each mapping says.
pub open spec fn mappings_view(s: Seq<SceneMapping>) -> Seq<MappingView> {
    s.map_values(|m: SceneMapping| m@)
}

// -------------------------------------------------------------------- words
/// Whether a character is part of a word.
pub open spec fn is_word_char(c: char) -> bool {
    is_letter_or_number(c) || c == '\''
}

/// The words of `s` that have ended, and the one that has not.
pub open spec fn words_scan(s: Seq<char>) -> (Seq<Seq<char>>, Seq<char>)
    decreases s.len(),
{
    if s.len() == 0 {
        (Seq::empty(), Seq::empty())
    } else {
        let (done, open) = words_scan(s.drop_last());
        if is_word_char(s.last()) {
            (done, open.push(s.last()))
        } else if open.len() == 0 {
            (done, open)
        } else {
            (done.push(open), Seq::empty())
        }
    }
}

/// The longest runs of word characters in `s`.
pub open spec fn words_of(s: Seq<char>) -> Seq<Seq<char>> {
    let (done, open) = words_scan(s);
    if open.len() == 0 {
        done
    } else {
        done.push(open)
    }
}

/// The words of `s` in lower case.
pub open spec fn tokens_of(s: Seq<char>) -> Seq<Seq<char>> {
    words_of(s).map_values(|w: Seq<char>| lowercase(w))
}

fn push_token(tokens: &mut Vec<String>, word: &Vec<char>)
    ensures
        views(final(tokens)@) == views(old(tokens)@).push(lowercase(word@)),
{
    let ghost before = tokens@;
    tokens.push(string_of(word).to_lowercase());
    proof {
        assert(views(tokens@) =~= views(before).push(lowercase(word@)));
    }
}

/// The words of `text` in lower case.
pub fn tokenize(text: &str) -> (r: Vec<String>)
    ensures
        views(r@) == tokens_of(text@),
{
    let all: Vec<char> = chars_of(text);
    let ghost low = |w: Seq<char>| lowercase(w);
    let mut r: Vec<String> = Vec::new();
    let mut open: Vec<char> = Vec::new();
    let mut i: usize = 0;
    proof {
        assert(views(r@) =~= words_scan(all@.subrange(0, 0)).0.map_values(low));
    }
    while i < all.len()
        invariant
            i <= all@.len(),
            low == (|w: Seq<char>| lowercase(w)),
            open@ == words_scan(all@.subrange(0, i as int)).1,
            views(r@) == words_scan(all@.subrange(0, i as int)).0.map_values(low),
        decreases all.len() - i,
    {
        let ghost done = words_scan(all@.subrange(0, i as int)).0;
        proof {
            let next = all@.subrange(0, i + 1);
            assert(next.drop_last() =~= all@.subrange(0, i as int));
            assert(next.last() == all@[i as int]);
        }
        let c: char = all[i];
        if c.is_alphanumeric() || c == '\'' {
            open.push(c);
        } else if open.len() > 0 {
            push_token(&mut r, &open);
            proof {
                assert(done.push(open@).map_values(low) =~= done.map_values(low).push(
                    lowercase(open@),
                ));
            }
            open = Vec::new();
            proof {
                assert(open@ =~= Seq::<char>::empty());
            }
        }
        i = i + 1;
    }
    proof {
        assert(all@.subrange(0, i as int) =~= all@);
    }
    if open.len() > 0 {
        let ghost done = words_scan(all@).0;
        push_token(&mut r, &open);
        proof {
            assert(done.push(open@).map_values(low) =~= done.map_values(low).push(lowercase(open@)));
        }
    }
    r
}

/// The texts of the segments.
pub open spec fn segment_texts(s: Seq<SubtitleSegment>) -> Seq<Seq<char>> {
    s.map_values(|x: SubtitleSegment| x.text@)
}

/// The words of a transcript.
pub open spec fn transcript_tokens(s: Seq<SubtitleSegment>) -> Seq<Seq<char>> {
    tokens_of(lowercase(join(segment_texts(s), " "@)))
}

/// The words of a transcript.
pub fn transcript_words(segments: &Vec<SubtitleSegment>) -> (r: Vec<String>)
    ensures
        views(r@) == transcript_tokens(segments@),
{
    let mut texts: Vec<String> = Vec::new();
    let mut i: usize = 0;
    while i < segments.len()
        invariant
            i <= segments@.len(),
            views(texts@) == segment_texts(segments@).subrange(0, i as int),
        decreases segments.len() - i,
    {
        let ghost before = texts@;
        texts.push(segments[i].text.clone());
        proof {
            assert(views(texts@) =~= views(before).push(segments@[i as int].text@));
            assert(segment_texts(segments@).subrange(0, i + 1) =~= segment_texts(
                segments@,
            ).subrange(0, i as int).push(segments@[i as int].text@));
        }
        i = i + 1;
    }
    proof {
        assert(segment_texts(segments@).subrange(0, i as int) =~= segment_texts(segments@));
    }
    tokenize(&joined(&texts, " ").to_lowercase())
}

// ------------------------------------------------------------- Smith-Waterman
/// What a score stays below.
pub const SCORE_CAP: i32 = 0x7fff_ffff;

/// The best score of an alignment that ends with word `i` of `a` and word `j` of `b`, counted
/// from 1: 2 for a match, -1 for a mismatch or a gap, never below 0.
pub open spec fn cell(a: Seq<Seq<char>>, b: Seq<Seq<char>>, i: nat, j: nat) -> int
    decreases i, j,
{
    if i == 0 || j == 0 {
        0
    } else {
        let diag = cell(a, b, (i - 1) as nat, (j - 1) as nat) + (if a[i - 1] == b[j - 1] {
            2int
        } else {
            -1
        });
        let up = cell(a, b, (i - 1) as nat, j) - 1;
        let left = cell(a, b, i, (j - 1) as nat) - 1;
        let best = max3(diag, up, left);
        if best < 0 {
            0
        } else if best > SCORE_CAP {
            SCORE_CAP as int
        } else {
            best
        }
    }
}

/// The largest of three numbers.
pub open spec fn max3(x: int, y: int, z: int) -> int {
    let m = if x >= y {
        x
    } else {
        y
    };
    if m >= z {
        m
    } else {
        z
    }
}

/// The largest score in the first `i` rows and the first `j` cells of the row after them, with
/// the place where it occurs first.
pub open spec fn best_cell(a: Seq<Seq<char>>, b: Seq<Seq<char>>, i: nat, j: nat) -> (int, nat, nat)
    decreases i, j,
{
    if j == 0 {
        if i == 0 {
            (0, 0, 0)
        } else {
            best_cell(a, b, (i - 1) as nat, b.len())
        }
    } else {
        let before = best_cell(a, b, i, (j - 1) as nat);
        let v = cell(a, b, i + 1, j);
        if v > before.0 {
            (v, i + 1, j)
        } else {
            before
        }
    }
}

/// The score of an alignment that goes on with word `i` of `a` and word `j` of `b`, counted from 1,
/// as a pair.
pub open spec fn paired(a: Seq<Seq<char>>, b: Seq<Seq<char>>, i: nat, j: nat) -> int {
    let score = cell(a, b, (i - 1) as nat, (j - 1) as nat) + (if a[i - 1] == b[j - 1] {
        2int
    } else {
        -1
    });
    if score > SCORE_CAP {
        SCORE_CAP as int
    } else {
        score
    }
}

/// How many words of `a` stand before the best alignment that ends at `i` and `j`: each step back is
/// one that gave the score, a pair before a word of `a` alone before a word of `b` alone.
pub open spec fn traced(a: Seq<Seq<char>>, b: Seq<Seq<char>>, i: nat, j: nat) -> nat
    decreases i + j,
{
    if i > 0 && j > 0 && cell(a, b, i, j) > 0 {
        if cell(a, b, i, j) == paired(a, b, i, j) {
            traced(a, b, (i - 1) as nat, (j - 1) as nat)
        } else if cell(a, b, i, j) == cell(a, b, (i - 1) as nat, j) - 1 {
            traced(a, b, (i - 1) as nat, j)
        } else {
            traced(a, b, i, (j - 1) as nat)
        }
    } else {
        i
    }
}

/// The score of the best local alignment of `a` and `b`, and the first and last word of `a`
/// that it covers.
pub open spec fn local_alignment(a: Seq<Seq<char>>, b: Seq<Seq<char>>) -> (int, nat, nat) {
    let (score, i, j) = best_cell(a, b, a.len(), 0);
    (
        score,
        traced(a, b, i, j),
        if i > 0 {
            (i - 1) as nat
        } else {
            0
        },
    )
}

/// A row of scores, those of word `i` counted from 1.
spec fn row_holds(row: Vec<i32>, a: Seq<Seq<char>>, b: Seq<Seq<char>>, i: nat) -> bool {
    &&& row@.len() == b.len()
    &&& forall|j: int| 0 <= j < b.len() ==> #[trigger] row@[j] == cell(a, b, i, (j + 1) as nat)
}

/// The rows of scores that have been computed.
spec fn matrix_holds(rows: Seq<Vec<i32>>, a: Seq<Seq<char>>, b: Seq<Seq<char>>) -> bool {
    forall|i: int| 0 <= i < rows.len() ==> row_holds(#[trigger] rows[i], a, b, (i + 1) as nat)
}

fn cell_at(rows: &Vec<Vec<i32>>, i: usize, j: usize, a: Ghost<Seq<Seq<char>>>, b: Ghost<Seq<Seq<char>>>) -> (r: i32)
    requires
        matrix_holds(rows@, a@, b@),
        i <= rows@.len(),
        j <= b@.len(),
    ensures
        r == cell(a@, b@, i as nat, j as nat),
{
    if i == 0 || j == 0 {
        0
    } else {
        proof {
            assert(row_holds(rows@[i - 1], a@, b@, i as nat));
        }
        rows[i - 1][j - 1]
    }
}

/// A score after one more pair.
fn pair_score(before: i32, equal: bool) -> (r: i32)
    requires
        0 <= before <= SCORE_CAP,
    ensures
        r == (if !equal {
            before - 1
        } else if before + 2 > SCORE_CAP {
            SCORE_CAP as int
        } else {
            before + 2
        }),
{
    if !equal {
        before - 1
    } else if before > SCORE_CAP - 2 {
        SCORE_CAP
    } else {
        before + 2
    }
}

/// The score of the best local alignment of the words of a transcript with those of a scene, and
/// the first and last word of the transcript that it covers.
pub fn smith_waterman_align(transcript_words: &Vec<String>, scene_words: &Vec<String>) -> (r: (
    i32,
    usize,
    usize,
))
    ensures
        (r.0 as int, r.1 as nat, r.2 as nat) == local_alignment(
            views(transcript_words@),
            views(scene_words@),
        ),
        r.1 <= transcript_words.len(),
        r.0 > 0 ==> r.1 <= r.2 < transcript_words.len(),
        r.0 > 0 && below_cap(views(transcript_words@), views(scene_words@)) ==> exists|al: Alignment|
            #[trigger]
            al.covers(views(transcript_words@), views(scene_words@), r.1 as nat, r.2 as nat)
                && al.score(views(transcript_words@), views(scene_words@)) == r.0,
{
    let ghost a = views(transcript_words@);
    let ghost b = views(scene_words@);
    let m: usize = transcript_words.len();
    let n: usize = scene_words.len();
    let mut rows: Vec<Vec<i32>> = Vec::new();
    let mut max_score: i32 = 0;
    let mut max_i: usize = 0;
    let mut max_j: usize = 0;
    let mut i: usize = 0;
    while i < m
        invariant
            i <= m == a.len(),
            n == b.len(),
            m == transcript_words.len(),
            n == scene_words.len(),
            a == views(transcript_words@),
            b == views(scene_words@),
            rows@.len() == i,
            matrix_holds(rows@, a, b),
            (max_score as int, max_i as nat, max_j as nat) == best_cell(a, b, i as nat, 0),
            max_i <= i,
            max_j <= n,
            0 <= max_score,
            max_score as int == cell(a, b, max_i as nat, max_j as nat),
        decreases m - i,
    {
        let mut row: Vec<i32> = Vec::new();
        let mut j: usize = 0;
        while j < n
            invariant
                i < m == a.len(),
                j <= n == b.len(),
                m == transcript_words.len(),
                n == scene_words.len(),
                a == views(transcript_words@),
                b == views(scene_words@),
                rows@.len() == i,
                matrix_holds(rows@, a, b),
                row@.len() == j,
                forall|k: int| 0 <= k < j ==> #[trigger] row@[k] == cell(a, b, (i + 1) as nat, (k + 1) as nat),
                (max_score as int, max_i as nat, max_j as nat) == best_cell(a, b, i as nat, j as nat),
                max_i <= i + 1,
                max_j <= n,
                0 <= max_score,
                max_score as int == cell(a, b, max_i as nat, max_j as nat),
            decreases n - j,
        {
            let diag0: i32 = cell_at(&rows, i, j, Ghost(a), Ghost(b));
            let up0: i32 = cell_at(&rows, i, j + 1, Ghost(a), Ghost(b));
            let left0: i32 = if j == 0 {
                0
            } else {
                row[j - 1]
            };
            proof {
                lemma_cell_bounds(a, b, i as nat, j as nat);
                lemma_cell_bounds(a, b, i as nat, (j + 1) as nat);
                lemma_cell_bounds(a, b, (i + 1) as nat, j as nat);
                assert(a[i as int] == transcript_words@[i as int]@);
                assert(b[j as int] == scene_words@[j as int]@);
                if j > 0 {
                    assert(row@[j - 1] == cell(a, b, (i + 1) as nat, j as nat));
                }
            }
            let diag: i32 = pair_score(diag0, transcript_words[i] == scene_words[j]);
            let up: i32 = up0 - 1;
            let left: i32 = left0 - 1;
            let mut v: i32 = 0;
            if diag > v {
                v = diag;
            }
            if up > v {
                v = up;
            }
            if left > v {
                v = left;
            }
            row.push(v);
            proof {
                assert(v as int == cell(a, b, (i + 1) as nat, (j + 1) as nat));
            }
            if v > max_score {
                max_score = v;
                max_i = i + 1;
                max_j = j + 1;
            }
            j = j + 1;
        }
        let ghost new_row = row;
        rows.push(row);
        proof {
            assert(row_holds(new_row, a, b, (i + 1) as nat));
            assert(best_cell(a, b, (i + 1) as nat, 0) == best_cell(a, b, i as nat, n as nat));
        }
        i = i + 1;
    }
    let mut ti: usize = max_i;
    let mut tj: usize = max_j;
    let end: usize = if max_i > 0 {
        max_i - 1
    } else {
        0
    };
    proof {
        lemma_traced(a, b, max_i as nat, max_j as nat);
    }
    loop
        invariant_except_break
            ti <= max_i <= rows@.len() == m,
            m == transcript_words.len(),
            tj <= max_j <= n == b.len(),
            n == scene_words.len(),
            a == views(transcript_words@),
            b == views(scene_words@),
            matrix_holds(rows@, a, b),
            traced(a, b, max_i as nat, max_j as nat) == traced(a, b, ti as nat, tj as nat),
        ensures
            ti <= max_i,
            ti as nat == traced(a, b, max_i as nat, max_j as nat),
        decreases ti + tj,
    {
        let here: i32 = cell_at(&rows, ti, tj, Ghost(a), Ghost(b));
        if !(ti > 0 && tj > 0 && here > 0) {
            break;
        }
        let diag0: i32 = cell_at(&rows, ti - 1, tj - 1, Ghost(a), Ghost(b));
        let up: i32 = cell_at(&rows, ti - 1, tj, Ghost(a), Ghost(b));
        proof {
            lemma_cell_bounds(a, b, (ti - 1) as nat, (tj - 1) as nat);
            lemma_cell_bounds(a, b, (ti - 1) as nat, tj as nat);
            assert(a[ti - 1] == transcript_words@[ti - 1]@);
            assert(b[tj - 1] == scene_words@[tj - 1]@);
        }
        let diag: i32 = pair_score(diag0, transcript_words[ti - 1] == scene_words[tj - 1]);
        if here == diag {
            ti = ti - 1;
            tj = tj - 1;
        } else if here == up - 1 {
            ti = ti - 1;
        } else {
            tj = tj - 1;
        }
    }
    proof {
        if max_score > 0 && below_cap(a, b) {
            lemma_alignment_covers_its_words(a, b);
        }
    }
    (max_score, ti, end)
}

/// A score lies between 0 and twice the number of words on either side.
pub proof fn lemma_cell_bounds(a: Seq<Seq<char>>, b: Seq<Seq<char>>, i: nat, j: nat)
    ensures
        0 <= cell(a, b, i, j) <= SCORE_CAP,
        cell(a, b, i, j) <= 2 * i,
        cell(a, b, i, j) <= 2 * j,
    decreases i, j,
{
    if i > 0 && j > 0 {
        lemma_cell_bounds(a, b, (i - 1) as nat, (j - 1) as nat);
        lemma_cell_bounds(a, b, (i - 1) as nat, j);
        lemma_cell_bounds(a, b, i, (j - 1) as nat);
    }
}

/// An alignment with a positive score covers at least one word.
pub proof fn lemma_traced(a: Seq<Seq<char>>, b: Seq<Seq<char>>, i: nat, j: nat)
    ensures
        traced(a, b, i, j) <= i,
        i > 0 && j > 0 && cell(a, b, i, j) > 0 ==> traced(a, b, i, j) < i,
    decreases i + j,
{
    if i > 0 && j > 0 && cell(a, b, i, j) > 0 {
        lemma_traced(a, b, (i - 1) as nat, (j - 1) as nat);
        lemma_traced(a, b, (i - 1) as nat, j);
        lemma_traced(a, b, i, (j - 1) as nat);
        lemma_cell_bounds(a, b, i, (j - 1) as nat);
        if j == 1 {
            assert(cell(a, b, i, 0) == 0);
        }
    }
}

proof fn lemma_best_is_cell(a: Seq<Seq<char>>, b: Seq<Seq<char>>, i: nat, j: nat)
    requires
        j <= b.len(),
    ensures
        ({
            let t = best_cell(a, b, i, j);
            &&& t.0 == cell(a, b, t.1, t.2)
            &&& t.1 <= i + 1
            &&& t.2 <= b.len()
            &&& t.0 >= 0
            &&& j == 0 ==> t.1 <= i
            &&& t.0 > 0 ==> t.1 > 0 && t.2 > 0
        }),
        forall|x: nat, y: nat|
            1 <= y <= b.len() && 1 <= x && (x <= i || (x == i + 1 && y <= j)) ==> #[trigger] cell(
                a,
                b,
                x,
                y,
            ) <= best_cell(a, b, i, j).0,
    decreases i, j,
{
    if j == 0 {
        if i > 0 {
            lemma_best_is_cell(a, b, (i - 1) as nat, b.len());
        }
    } else {
        lemma_best_is_cell(a, b, i, (j - 1) as nat);
        lemma_cell_bounds(a, b, i + 1, j);
    }
}

/// The score is the largest of all, over every pair of places where an alignment can end.
pub proof fn lemma_score_is_largest(a: Seq<Seq<char>>, b: Seq<Seq<char>>, i: nat, j: nat)
    requires
        i <= a.len(),
        j <= b.len(),
    ensures
        cell(a, b, i, j) <= local_alignment(a, b).0,
        0 <= local_alignment(a, b).0 <= SCORE_CAP,
{
    lemma_best_is_cell(a, b, a.len(), 0);
    let t = best_cell(a, b, a.len(), 0);
    lemma_cell_bounds(a, b, t.1, t.2);
}

/// The score is at most twice the number of words on either side.
pub proof fn lemma_score_bounds(a: Seq<Seq<char>>, b: Seq<Seq<char>>)
    ensures
        0 <= local_alignment(a, b).0,
        local_alignment(a, b).0 <= 2 * a.len(),
        local_alignment(a, b).0 <= 2 * b.len(),
{
    lemma_best_is_cell(a, b, a.len(), 0);
    let t = best_cell(a, b, a.len(), 0);
    lemma_cell_bounds(a, b, t.1, t.2);
}

/// One step of an alignment: a word on each side, a word on the first side alone, or a word on the
/// second side alone.
pub enum AlignmentStep {
    Both,
    First,
    Second,
}

/// An alignment of a block of words with another: how many words stand before each block, and the
/// steps through the two.
pub struct Alignment {
    pub before: (nat, nat),
    pub steps: Seq<AlignmentStep>,
}

impl Alignment {
    /// The alignment without its last step.
    pub open spec fn shorter(self) -> Alignment {
        Alignment { before: self.before, steps: self.steps.drop_last() }
    }

    /// How many words of each side are behind after the steps.
    pub open spec fn end(self) -> (nat, nat)
        decreases self.steps.len(),
    {
        if self.steps.len() == 0 {
            self.before
        } else {
            let e = self.shorter().end();
            match self.steps.last() {
                AlignmentStep::Both => (e.0 + 1, e.1 + 1),
                AlignmentStep::First => (e.0 + 1, e.1),
                AlignmentStep::Second => (e.0, e.1 + 1),
            }
        }
    }

    /// Whether this aligns words of `a` with words of `b`.
    pub open spec fn fits(self, a: Seq<Seq<char>>, b: Seq<Seq<char>>) -> bool {
        self.end().0 <= a.len() && self.end().1 <= b.len()
    }

    /// The score: 2 for each pair of equal words, -1 for each pair of others and each word alone.
    pub open spec fn score(self, a: Seq<Seq<char>>, b: Seq<Seq<char>>) -> int
        decreases self.steps.len(),
    {
        if self.steps.len() == 0 {
            0
        } else {
            let e = self.end();
            let equal = self.steps.last() is Both && a[e.0 - 1] == b[e.1 - 1];
            self.shorter().score(a, b) + (if equal {
                2int
            } else {
                -1
            })
        }
    }

    /// Whether this aligns words `first` to `last` of `a` with words of `b`.
    pub open spec fn covers(
        self,
        a: Seq<Seq<char>>,
        b: Seq<Seq<char>>,
        first: nat,
        last: nat,
    ) -> bool {
        self.fits(a, b) && self.before.0 == first && self.end().0 == last + 1
    }

    /// The alignment with one more step.
    pub open spec fn then_step(self, s: AlignmentStep) -> Alignment {
        Alignment { before: self.before, steps: self.steps.push(s) }
    }
}

/// Whether no score of words of `a` and `b` reaches the cap.
pub open spec fn below_cap(a: Seq<Seq<char>>, b: Seq<Seq<char>>) -> bool {
    2 * a.len() <= SCORE_CAP || 2 * b.len() <= SCORE_CAP
}

proof fn lemma_alignment_within_cell(al: Alignment, a: Seq<Seq<char>>, b: Seq<Seq<char>>)
    requires
        al.fits(a, b),
        below_cap(a, b),
    ensures
        al.score(a, b) <= cell(a, b, al.end().0, al.end().1),
    decreases al.steps.len(),
{
    let (i, j) = al.end();
    lemma_cell_bounds(a, b, i, j);
    if al.steps.len() > 0 {
        lemma_alignment_within_cell(al.shorter(), a, b);
        if i > 0 && j > 0 {
            lemma_cell_bounds(a, b, (i - 1) as nat, (j - 1) as nat);
            lemma_cell_bounds(a, b, (i - 1) as nat, j);
            lemma_cell_bounds(a, b, i, (j - 1) as nat);
        }
    }
}

proof fn lemma_step_added(al: Alignment, s: AlignmentStep)
    ensures
        al.then_step(s).shorter() == al,
        al.then_step(s).steps.last() == s,
        al.then_step(s).steps.len() == al.steps.len() + 1,
{
    assert(al.then_step(s).steps.drop_last() =~= al.steps);
}

/// The alignment that is traced from a cell, whose score the cell holds.
proof fn best_alignment(a: Seq<Seq<char>>, b: Seq<Seq<char>>, i: nat, j: nat) -> (r: Alignment)
    requires
        i <= a.len(),
        j <= b.len(),
        below_cap(a, b),
    ensures
        r.before.0 == traced(a, b, i, j),
        r.end() == (i, j),
        r.score(a, b) == cell(a, b, i, j),
    decreases i, j,
{
    if cell(a, b, i, j) == 0 {
        Alignment { before: (i, j), steps: Seq::empty() }
    } else {
        lemma_cell_bounds(a, b, i, j);
        lemma_cell_bounds(a, b, (i - 1) as nat, (j - 1) as nat);
        lemma_cell_bounds(a, b, (i - 1) as nat, j);
        lemma_cell_bounds(a, b, i, (j - 1) as nat);
        if cell(a, b, i, j) == paired(a, b, i, j) {
            let r = best_alignment(a, b, (i - 1) as nat, (j - 1) as nat);
            lemma_step_added(r, AlignmentStep::Both);
            r.then_step(AlignmentStep::Both)
        } else if cell(a, b, i, j) == cell(a, b, (i - 1) as nat, j) - 1 {
            let r = best_alignment(a, b, (i - 1) as nat, j);
            lemma_step_added(r, AlignmentStep::First);
            r.then_step(AlignmentStep::First)
        } else {
            let r = best_alignment(a, b, i, (j - 1) as nat);
            lemma_step_added(r, AlignmentStep::Second);
            r.then_step(AlignmentStep::Second)
        }
    }
}

/// The score is that of the best alignment of a block of the one side with a block of the other: no
/// alignment has a higher score, and one has this score. The cap bounds the number of words on one of
/// the sides.
pub proof fn lemma_no_alignment_is_better(a: Seq<Seq<char>>, b: Seq<Seq<char>>)
    requires
        2 * a.len() <= SCORE_CAP || 2 * b.len() <= SCORE_CAP,
    ensures
        forall|al: Alignment| #[trigger]
            al.fits(a, b) ==> al.score(a, b) <= local_alignment(a, b).0,
        exists|al: Alignment| #[trigger]
            al.fits(a, b) && al.score(a, b) == local_alignment(a, b).0,
{
    assert forall|al: Alignment| #[trigger] al.fits(a, b) implies al.score(a, b)
        <= local_alignment(a, b).0 by {
        lemma_alignment_within_cell(al, a, b);
        lemma_score_is_largest(a, b, al.end().0, al.end().1);
    }
    lemma_best_is_cell(a, b, a.len(), 0);
    let t = best_cell(a, b, a.len(), 0);
    let al = best_alignment(a, b, t.1, t.2);
    assert(al.fits(a, b) && al.score(a, b) == local_alignment(a, b).0);
}

/// The words that are reported are those of an alignment with the score that is reported: the best
/// one begins with the first of them and ends with the last.
pub proof fn lemma_alignment_covers_its_words(a: Seq<Seq<char>>, b: Seq<Seq<char>>)
    requires
        2 * a.len() <= SCORE_CAP || 2 * b.len() <= SCORE_CAP,
        local_alignment(a, b).0 > 0,
    ensures
        exists|al: Alignment| #[trigger]
            al.covers(a, b, local_alignment(a, b).1, local_alignment(a, b).2) && al.score(a, b)
                == local_alignment(a, b).0,
{
    lemma_best_is_cell(a, b, a.len(), 0);
    let t = best_cell(a, b, a.len(), 0);
    let al = best_alignment(a, b, t.1, t.2);
    assert(al.covers(a, b, local_alignment(a, b).1, local_alignment(a, b).2));
}

proof fn lemma_traced_word_matches(a: Seq<Seq<char>>, b: Seq<Seq<char>>, i: nat, j: nat) -> (k: int)
    requires
        i <= a.len(),
        j <= b.len(),
        cell(a, b, i, j) > 0,
    ensures
        0 <= k < b.len(),
        traced(a, b, i, j) < a.len(),
        a[traced(a, b, i, j) as int] == b[k],
    decreases i + j,
{
    lemma_cell_bounds(a, b, (i - 1) as nat, (j - 1) as nat);
    if cell(a, b, i, j) == paired(a, b, i, j) {
        if cell(a, b, (i - 1) as nat, (j - 1) as nat) == 0 {
            assert(traced(a, b, (i - 1) as nat, (j - 1) as nat) == i - 1);
            j - 1
        } else {
            lemma_traced_word_matches(a, b, (i - 1) as nat, (j - 1) as nat)
        }
    } else if cell(a, b, i, j) == cell(a, b, (i - 1) as nat, j) - 1 {
        lemma_traced_word_matches(a, b, (i - 1) as nat, j)
    } else {
        lemma_traced_word_matches(a, b, i, (j - 1) as nat)
    }
}

/// The first and the last word that are reported are words of the other side.
pub proof fn lemma_reported_words_match(a: Seq<Seq<char>>, b: Seq<Seq<char>>)
    requires
        local_alignment(a, b).0 > 0,
    ensures
        local_alignment(a, b).1 <= local_alignment(a, b).2 < a.len(),
        b.contains(a[local_alignment(a, b).1 as int]),
        b.contains(a[local_alignment(a, b).2 as int]),
{
    lemma_best_is_cell(a, b, a.len(), 0);
    let (score, i, j) = best_cell(a, b, a.len(), 0);
    lemma_traced(a, b, i, j);
    let k = lemma_traced_word_matches(a, b, i, j);
    assert(b[k] == a[traced(a, b, i, j) as int]);
    lemma_score_is_largest(a, b, (i - 1) as nat, (j - 1) as nat);
    lemma_score_is_largest(a, b, (i - 1) as nat, j);
    lemma_score_is_largest(a, b, i, (j - 1) as nat);
    assert(a[i - 1] == b[j - 1]);
}

proof fn lemma_cell_swapped(a: Seq<Seq<char>>, b: Seq<Seq<char>>, i: nat, j: nat)
    ensures
        cell(a, b, i, j) == cell(b, a, j, i),
    decreases i, j,
{
    if i > 0 && j > 0 {
        lemma_cell_swapped(a, b, (i - 1) as nat, (j - 1) as nat);
        lemma_cell_swapped(a, b, (i - 1) as nat, j);
        lemma_cell_swapped(a, b, i, (j - 1) as nat);
    }
}

/// The score does not depend on which side comes first.
pub proof fn lemma_score_is_symmetric(a: Seq<Seq<char>>, b: Seq<Seq<char>>)
    ensures
        local_alignment(a, b).0 == local_alignment(b, a).0,
{
    lemma_best_is_cell(a, b, a.len(), 0);
    lemma_best_is_cell(b, a, b.len(), 0);
    let t = best_cell(a, b, a.len(), 0);
    let u = best_cell(b, a, b.len(), 0);
    lemma_cell_swapped(a, b, t.1, t.2);
    lemma_cell_swapped(b, a, u.1, u.2);
    lemma_score_is_largest(b, a, t.2, t.1);
    lemma_score_is_largest(a, b, u.2, u.1);
}

/// The score is positive exactly where the two sides share a word.
pub proof fn lemma_score_positive(a: Seq<Seq<char>>, b: Seq<Seq<char>>)
    ensures
        local_alignment(a, b).0 > 0 <==> exists|i: int, j: int|
            0 <= i < a.len() && 0 <= j < b.len() && #[trigger] a[i] == #[trigger] b[j],
{
    let shared = exists|i: int, j: int|
        0 <= i < a.len() && 0 <= j < b.len() && #[trigger] a[i] == #[trigger] b[j];
    if shared {
        let (i, j) = choose|i: int, j: int|
            0 <= i < a.len() && 0 <= j < b.len() && #[trigger] a[i] == #[trigger] b[j];
        lemma_cell_bounds(a, b, i as nat, j as nat);
        lemma_cell_bounds(a, b, i as nat, (j + 1) as nat);
        lemma_cell_bounds(a, b, (i + 1) as nat, j as nat);
        assert(cell(a, b, (i + 1) as nat, (j + 1) as nat) > 0);
        lemma_score_is_largest(a, b, (i + 1) as nat, (j + 1) as nat);
    } else {
        let t = best_cell(a, b, a.len(), 0);
        lemma_best_is_cell(a, b, a.len(), 0);
        lemma_cell_zero(a, b, t.1, t.2);
    }
}

proof fn lemma_cell_zero(a: Seq<Seq<char>>, b: Seq<Seq<char>>, i: nat, j: nat)
    requires
        i <= a.len(),
        j <= b.len(),
        !exists|x: int, y: int|
            0 <= x < a.len() && 0 <= y < b.len() && #[trigger] a[x] == #[trigger] b[y],
    ensures
        cell(a, b, i, j) == 0,
    decreases i, j,
{
    if i > 0 && j > 0 {
        lemma_cell_zero(a, b, (i - 1) as nat, (j - 1) as nat);
        lemma_cell_zero(a, b, (i - 1) as nat, j);
        lemma_cell_zero(a, b, i, (j - 1) as nat);
        assert(a[i - 1] != b[j - 1]);
    }
}

proof fn lemma_cell_same(a: Seq<Seq<char>>, i: nat)
    requires
        i <= a.len(),
        2 * i <= SCORE_CAP,
    ensures
        cell(a, a, i, i) == 2 * i,
    decreases i,
{
    if i > 0 {
        lemma_cell_same(a, (i - 1) as nat);
        lemma_cell_bounds(a, a, i, i);
        lemma_cell_bounds(a, a, (i - 1) as nat, i);
        lemma_cell_bounds(a, a, i, (i - 1) as nat);
    }
}

/// A transcript aligned with itself scores 2 for each word.
pub proof fn lemma_score_of_same(a: Seq<Seq<char>>)
    requires
        2 * a.len() <= SCORE_CAP,
    ensures
        local_alignment(a, a).0 == 2 * a.len(),
{
    lemma_cell_same(a, a.len());
    lemma_score_is_largest(a, a, a.len(), a.len());
    lemma_best_is_cell(a, a, a.len(), 0);
    let t = best_cell(a, a, a.len(), 0);
    lemma_cell_bounds(a, a, t.1, t.2);
}

// ------------------------------------------------------------------- regions
/// The region of a transcript that a scene covers, where the scene is similar enough.
pub open spec fn candidate_of(
    words: Seq<Seq<char>>,
    scene: Seq<Seq<char>>,
    index: int,
    score: SceneScore,
    threshold: Real,
    cutoff: Real,
) -> Option<CandidateRegion> {
    let (fine, start, end) = local_alignment(words, scene);
    if score.coarse.is_less(cutoff) || fine == 0 || !threshold.is_less(score.confidence) {
        None
    } else {
        Some(
            CandidateRegion {
                scene_idx: index as usize,
                confidence: score.confidence,
                t_start: start as usize,
                t_end: end as usize,
            },
        )
    }
}

/// The regions of the scenes at the first `n` places of `rank`.
pub open spec fn candidates_upto(
    words: Seq<Seq<char>>,
    scenes: Seq<Seq<Seq<char>>>,
    scores: Seq<SceneScore>,
    threshold: Real,
    cutoff: Real,
    rank: Seq<int>,
    n: nat,
) -> Seq<CandidateRegion>
    decreases n,
{
    if n == 0 {
        Seq::empty()
    } else {
        let front = candidates_upto(words, scenes, scores, threshold, cutoff, rank, (n - 1) as nat);
        let s = rank[n - 1];
        match candidate_of(words, scenes[s], s, scores[s], threshold, cutoff) {
            Some(c) => front.push(c),
            None => front,
        }
    }
}

/// Sort keys that put large numbers first.
pub open spec fn descending(r: Real) -> int {
    u64::MAX - r.place()
}

/// The scenes by descending coarse score.
pub open spec fn ranking(scores: Seq<SceneScore>) -> Seq<int> {
    order_by(scores.map_values(|s: SceneScore| descending(s.coarse)))
}

/// The regions of the scenes that are similar enough, by descending confidence.
pub open spec fn candidates_of(
    words: Seq<Seq<char>>,
    scenes: Seq<Seq<Seq<char>>>,
    scores: Seq<SceneScore>,
    threshold: Real,
    cutoff: Real,
) -> Seq<CandidateRegion> {
    let found = candidates_upto(
        words,
        scenes,
        scores,
        threshold,
        cutoff,
        ranking(scores),
        scores.len(),
    );
    picked(found, order_by(found.map_values(|c: CandidateRegion| descending(c.confidence))))
}

/// The elements of `s` at the places `order`.
pub open spec fn picked<T>(s: Seq<T>, order: Seq<int>) -> Seq<T> {
    order.map_values(|i: int| s[i])
}

/// Whether two regions share a word.
pub open spec fn overlap(a: CandidateRegion, b: CandidateRegion) -> bool {
    a.t_start <= b.t_end && a.t_end >= b.t_start
}

/// The regions that overlap none of those taken before them.
pub open spec fn greedy(candidates: Seq<CandidateRegion>) -> Seq<CandidateRegion>
    decreases candidates.len(),
{
    if candidates.len() == 0 {
        Seq::empty()
    } else {
        let taken = greedy(candidates.drop_last());
        let c = candidates.last();
        if exists|k: int| 0 <= k < taken.len() && overlap(c, #[trigger] taken[k]) {
            taken
        } else {
            taken.push(c)
        }
    }
}

/// The regions that stay, in transcript order.
pub open spec fn resolved(candidates: Seq<CandidateRegion>) -> Seq<CandidateRegion> {
    let taken = greedy(candidates);
    picked(taken, order_by(taken.map_values(|c: CandidateRegion| c.t_start as int)))
}

fn pick_regions(s: &Vec<CandidateRegion>, order: &Vec<usize>) -> (r: Vec<CandidateRegion>)
    requires
        forall|i: int| 0 <= i < order@.len() ==> #[trigger] order@[i] < s@.len(),
    ensures
        r@ == picked(s@, positions(order@)),
{
    let mut r: Vec<CandidateRegion> = Vec::new();
    let mut i: usize = 0;
    while i < order.len()
        invariant
            i <= order@.len(),
            forall|i: int| 0 <= i < order@.len() ==> #[trigger] order@[i] < s@.len(),
            r@.len() == i,
            forall|k: int| 0 <= k < i ==> #[trigger] r@[k] == s@[order@[k] as int],
        decreases order.len() - i,
    {
        r.push(s[order[i]]);
        i = i + 1;
    }
    proof {
        assert(r@ =~= picked(s@, positions(order@)));
    }
    r
}

/// Greedy interval scheduling: takes each region that overlaps none taken before it, and gives
/// those taken in transcript order. The regions come best first.
pub fn resolve_overlapping_regions(candidates: &Vec<CandidateRegion>) -> (r: Vec<CandidateRegion>)
    ensures
        r@ == resolved(candidates@),
{
    let mut taken: Vec<CandidateRegion> = Vec::new();
    let mut i: usize = 0;
    proof {
        assert(candidates@.subrange(0, 0) =~= Seq::<CandidateRegion>::empty());
    }
    while i < candidates.len()
        invariant
            i <= candidates@.len(),
            taken@ == greedy(candidates@.subrange(0, i as int)),
        decreases candidates.len() - i,
    {
        let c: CandidateRegion = candidates[i];
        let mut clash: bool = false;
        let mut k: usize = 0;
        while k < taken.len()
            invariant
                k <= taken@.len(),
                clash == exists|x: int| 0 <= x < k && overlap(c, #[trigger] taken@[x]),
            decreases taken.len() - k,
        {
            if c.t_start <= taken[k].t_end && c.t_end >= taken[k].t_start {
                clash = true;
                proof {
                    assert(overlap(c, taken@[k as int]));
                }
            }
            k = k + 1;
        }
        proof {
            let next = candidates@.subrange(0, i + 1);
            assert(next.drop_last() =~= candidates@.subrange(0, i as int));
            assert(next.last() == c);
        }
        if !clash {
            taken.push(c);
        }
        i = i + 1;
    }
    proof {
        assert(candidates@.subrange(0, i as int) =~= candidates@);
    }
    let mut keys: Vec<u64> = Vec::new();
    let mut k: usize = 0;
    while k < taken.len()
        invariant
            k <= taken@.len(),
            keys@.len() == k,
            forall|x: int| 0 <= x < k ==> #[trigger] keys@[x] == taken@[x].t_start,
        decreases taken.len() - k,
    {
        keys.push(taken[k].t_start as u64);
        k = k + 1;
    }
    let order = order_by_keys(&keys);
    proof {
        assert(ints(keys@) =~= taken@.map_values(|c: CandidateRegion| c.t_start as int));
    }
    pick_regions(&taken, &order)
}

/// Each region that stays was a candidate.
pub proof fn lemma_greedy_from(candidates: Seq<CandidateRegion>, k: int)
    requires
        0 <= k < greedy(candidates).len(),
    ensures
        candidates.contains(greedy(candidates)[k]),
    decreases candidates.len(),
{
    if candidates.len() > 0 {
        let front = candidates.drop_last();
        if k < greedy(front).len() {
            lemma_greedy_from(front, k);
            let x = choose|x: int| 0 <= x < front.len() && front[x] == greedy(front)[k];
            assert(candidates[x] == greedy(candidates)[k]);
        } else {
            assert(candidates[candidates.len() - 1] == greedy(candidates)[k]);
        }
    }
}

proof fn lemma_greedy_apart(candidates: Seq<CandidateRegion>)
    ensures
        forall|a: int, b: int|
            0 <= a < b < greedy(candidates).len() ==> !overlap(
                #[trigger] greedy(candidates)[a],
                #[trigger] greedy(candidates)[b],
            ),
    decreases candidates.len(),
{
    if candidates.len() > 0 {
        lemma_greedy_apart(candidates.drop_last());
        let taken = greedy(candidates.drop_last());
        let all = greedy(candidates);
        assert forall|a: int, b: int| 0 <= a < b < all.len() implies !overlap(
            #[trigger] all[a],
            #[trigger] all[b],
        ) by {
            if b < taken.len() {
                assert(all[a] == taken[a] && all[b] == taken[b]);
            } else {
                assert(all[a] == taken[a]);
                assert(!overlap(candidates.last(), taken[a]));
            }
        }
    }
}

/// No two of the regions that stay overlap, and they follow one another in the transcript, each
/// beginning after the one before it where regions do not run backwards.
pub proof fn lemma_resolved_apart(candidates: Seq<CandidateRegion>, a: int, b: int)
    requires
        0 <= a < b < resolved(candidates).len(),
    ensures
        !overlap(resolved(candidates)[a], resolved(candidates)[b]),
        resolved(candidates)[a].t_start <= resolved(candidates)[b].t_start,
{
    let taken = greedy(candidates);
    let keys = taken.map_values(|c: CandidateRegion| c.t_start as int);
    crate::order::lemma_order_by(keys);
    lemma_greedy_apart(candidates);
    let x = order_by(keys)[a];
    let y = order_by(keys)[b];
    assert(x != y);
    assert(resolved(candidates)[a] == taken[x]);
    assert(resolved(candidates)[b] == taken[y]);
    if x < y {
        assert(!overlap(taken[x], taken[y]));
    } else {
        assert(!overlap(taken[y], taken[x]));
    }
}

/// The best candidate always stays.
pub proof fn lemma_best_stays(candidates: Seq<CandidateRegion>)
    requires
        candidates.len() > 0,
    ensures
        greedy(candidates).len() > 0,
        greedy(candidates)[0] == candidates[0],
    decreases candidates.len(),
{
    if candidates.len() > 1 {
        lemma_best_stays(candidates.drop_last());
    } else {
        assert(greedy(candidates.drop_last()).len() == 0);
    }
}

// ---------------------------------------------------------------------- time
/// The times of the words of a segment; a segment without words is one word.
pub open spec fn word_times(s: SubtitleSegment) -> Seq<(u64, u64)> {
    if s.words@.len() == 0 {
        seq![(s.start_ns, s.end_ns)]
    } else {
        s.words@.map_values(|w: crate::model::SubtitleWord| (w.start_ns, w.end_ns))
    }
}

/// The times of all words.
pub open spec fn flat_times(segments: Seq<SubtitleSegment>) -> Seq<(u64, u64)>
    decreases segments.len(),
{
    if segments.len() == 0 {
        Seq::empty()
    } else {
        flat_times(segments.drop_last()) + word_times(segments.last())
    }
}

/// When word `start` begins and word `end` ends; beyond the last word, the last word counts.
pub open spec fn times_of(segments: Seq<SubtitleSegment>, start: nat, end: nat) -> (u64, u64) {
    let flat = flat_times(segments);
    if flat.len() == 0 {
        (0, 0)
    } else {
        (
            if start < flat.len() {
                flat[start as int].0
            } else {
                flat.last().0
            },
            if end < flat.len() {
                flat[end as int].1
            } else {
                flat.last().1
            },
        )
    }
}

/// When word `start_word_idx` begins and word `end_word_idx` ends.
pub fn word_indices_to_timestamps(
    segments: &Vec<SubtitleSegment>,
    start_word_idx: usize,
    end_word_idx: usize,
) -> (r: (u64, u64))
    ensures
        r == times_of(segments@, start_word_idx as nat, end_word_idx as nat),
        all_have_words(segments@) ==> ({
            let words = segments@.map_values(|s: SubtitleSegment| s.words@).flatten();
            &&& start_word_idx < words.len() ==> r.0 == words[start_word_idx as int].start_ns
            &&& end_word_idx < words.len() ==> r.1 == words[end_word_idx as int].end_ns
        }),
{
    let mut flat: Vec<(u64, u64)> = Vec::new();
    let mut i: usize = 0;
    proof {
        assert(flat@ =~= flat_times(segments@.subrange(0, 0)));
    }
    while i < segments.len()
        invariant
            i <= segments@.len(),
            flat@ == flat_times(segments@.subrange(0, i as int)),
        decreases segments.len() - i,
    {
        let ghost before = flat@;
        let seg: &SubtitleSegment = &segments[i];
        if seg.words.len() == 0 {
            flat.push((seg.start_ns, seg.end_ns));
        } else {
            let mut k: usize = 0;
            while k < seg.words.len()
                invariant
                    k <= seg.words@.len(),
                    seg == &segments@[i as int],
                    i < segments@.len(),
                    seg.words@.len() > 0,
                    flat@ == before + word_times(*seg).subrange(0, k as int),
                decreases seg.words.len() - k,
            {
                flat.push((seg.words[k].start_ns, seg.words[k].end_ns));
                proof {
                    assert(flat@ =~= before + word_times(*seg).subrange(0, k + 1));
                }
                k = k + 1;
            }
        }
        proof {
            let next = segments@.subrange(0, i + 1);
            assert(next.drop_last() =~= segments@.subrange(0, i as int));
            assert(flat@ =~= before + word_times(segments@[i as int]));
        }
        i = i + 1;
    }
    proof {
        assert(segments@.subrange(0, i as int) =~= segments@);
        if all_have_words(segments@) {
            lemma_times_are_of_words(segments@, start_word_idx as nat, end_word_idx as nat);
        }
    }
    if flat.len() == 0 {
        return (0, 0);
    }
    let last: (u64, u64) = flat[flat.len() - 1];
    let start: u64 = if start_word_idx < flat.len() {
        flat[start_word_idx].0
    } else {
        last.0
    };
    let end: u64 = if end_word_idx < flat.len() {
        flat[end_word_idx].1
    } else {
        last.1
    };
    (start, end)
}

/// Whether every segment has words.
pub open spec fn all_have_words(segments: Seq<SubtitleSegment>) -> bool {
    forall|i: int| 0 <= i < segments.len() ==> (#[trigger] segments[i]).words@.len() > 0
}

proof fn lemma_flat_times_of_words(segments: Seq<SubtitleSegment>)
    requires
        all_have_words(segments),
    ensures
        flat_times(segments).len() == segments.map_values(
            |s: SubtitleSegment| s.words@,
        ).flatten().len(),
        forall|k: int|
            0 <= k < flat_times(segments).len() ==> #[trigger] flat_times(segments)[k] == ({
                let w = segments.map_values(|s: SubtitleSegment| s.words@).flatten()[k];
                (w.start_ns, w.end_ns)
            }),
    decreases segments.len(),
{
    let lists = segments.map_values(|s: SubtitleSegment| s.words@);
    lists.lemma_flatten_and_flatten_alt_are_equivalent();
    if segments.len() > 0 {
        let front = segments.drop_last();
        let fronts = front.map_values(|s: SubtitleSegment| s.words@);
        assert(all_have_words(front)) by {
            assert forall|i: int| 0 <= i < front.len() implies (
            #[trigger] front[i]).words@.len() > 0 by {
                assert(front[i] == segments[i]);
            }
        }
        lemma_flat_times_of_words(front);
        fronts.lemma_flatten_and_flatten_alt_are_equivalent();
        assert(lists.drop_last() =~= fronts);
        assert(segments[segments.len() - 1].words@.len() > 0);
        assert(lists.last() == segments.last().words@);
    }
}

/// Where every segment has words, a range of words begins when its first word begins and ends when
/// its last word ends, however the words are spread over segments. Behind the last word, the last
/// word counts.
pub proof fn lemma_times_are_of_words(segments: Seq<SubtitleSegment>, start: nat, end: nat)
    requires
        all_have_words(segments),
    ensures
        ({
            let words = segments.map_values(|s: SubtitleSegment| s.words@).flatten();
            &&& start < words.len() ==> times_of(segments, start, end).0
                == words[start as int].start_ns
            &&& end < words.len() ==> times_of(segments, start, end).1 == words[end as int].end_ns
            &&& 0 < words.len() <= start ==> times_of(segments, start, end).0
                == words.last().start_ns
            &&& 0 < words.len() <= end ==> times_of(segments, start, end).1 == words.last().end_ns
        }),
{
    lemma_flat_times_of_words(segments);
}

/// The words of one segment have their own times, not those of the segment.
pub proof fn lemma_times_in_one_segment(s: SubtitleSegment, start: nat, end: nat)
    requires
        start <= end < s.words@.len(),
    ensures
        times_of(seq![s], start, end) == (
            s.words@[start as int].start_ns,
            s.words@[end as int].end_ns,
        ),
{
    assert(seq![s].drop_last() =~= Seq::empty());
    assert(flat_times(seq![s].drop_last()) =~= Seq::empty());
    assert(flat_times(seq![s]) =~= word_times(s));
}

/// A segment without words counts as one word, which has the times of the segment; the words after
/// it are counted on.
pub proof fn lemma_times_without_words(
    before: Seq<SubtitleSegment>,
    s: SubtitleSegment,
    after: Seq<SubtitleSegment>,
)
    requires
        all_have_words(before),
        s.words@.len() == 0,
    ensures
        ({
            let n = before.map_values(|s: SubtitleSegment| s.words@).flatten().len();
            times_of(before + seq![s] + after, n, n) == (s.start_ns, s.end_ns)
        }),
{
    let n = before.map_values(|s: SubtitleSegment| s.words@).flatten().len();
    lemma_flat_times_of_words(before);
    let upto = before + seq![s];
    assert(upto.drop_last() =~= before);
    assert(flat_times(upto) =~= flat_times(before) + seq![(s.start_ns, s.end_ns)]);
    lemma_flat_times_prefix(upto, after);
}

/// What follows does not change the times of the words before it.
proof fn lemma_flat_times_prefix(before: Seq<SubtitleSegment>, after: Seq<SubtitleSegment>)
    ensures
        flat_times(before).len() <= flat_times(before + after).len(),
        forall|k: int|
            0 <= k < flat_times(before).len() ==> #[trigger] flat_times(before + after)[k]
                == flat_times(before)[k],
    decreases after.len(),
{
    if after.len() == 0 {
        assert(before + after =~= before);
    } else {
        lemma_flat_times_prefix(before, after.drop_last());
        assert((before + after).drop_last() =~= before + after.drop_last());
    }
}

// -------------------------------------------------------------- coarse terms
/// A word of a scene or of a transcript, as the coarse similarity weighs it.
#[derive(Debug, Clone, Copy, PartialEq, Eq, Structural)]
pub struct CoarseTerm {
    /// In how many scenes the word occurs.
    pub document_frequency: usize,
    /// Whether the word is the name of a character.
    pub is_character: bool,
    /// Whether both the scene and the transcript have the word.
    pub shared: bool,
}

/// In how many of the first `n` scenes `word` occurs.
pub open spec fn frequency_upto(scenes: Seq<Seq<Seq<char>>>, word: Seq<char>, n: nat) -> nat
    decreases n,
{
    if n == 0 {
        0
    } else {
        frequency_upto(scenes, word, (n - 1) as nat) + (if scenes[n - 1].contains(word) {
            1nat
        } else {
            0
        })
    }
}

/// The term of a word.
pub open spec fn term_of(
    scenes: Seq<Seq<Seq<char>>>,
    scene: int,
    words: Seq<Seq<char>>,
    characters: Seq<Seq<char>>,
    word: Seq<char>,
) -> CoarseTerm {
    CoarseTerm {
        document_frequency: frequency_upto(scenes, word, scenes.len()) as usize,
        is_character: characters.contains(word),
        shared: scenes[scene].contains(word) && words.contains(word),
    }
}

/// The terms of the words that the scene or the transcript has.
pub open spec fn terms_of(
    scenes: Seq<Seq<Seq<char>>>,
    scene: int,
    words: Seq<Seq<char>>,
    characters: Seq<Seq<char>>,
) -> Seq<CoarseTerm> {
    distinct(scenes[scene] + words).map_values(
        |w: Seq<char>| term_of(scenes, scene, words, characters, w),
    )
}

/// Lists of texts as sequences of sequences.
pub open spec fn lists_view(s: Seq<Vec<String>>) -> Seq<Seq<Seq<char>>> {
    s.map_values(|v: Vec<String>| views(v@))
}

fn frequency(scenes: &Vec<Vec<String>>, word: &str) -> (r: usize)
    ensures
        r == frequency_upto(lists_view(scenes@), word@, scenes@.len()),
{
    let mut r: usize = 0;
    let mut n: usize = 0;
    while n < scenes.len()
        invariant
            n <= scenes@.len(),
            r <= n,
            r == frequency_upto(lists_view(scenes@), word@, n as nat),
        decreases scenes.len() - n,
    {
        proof {
            assert(lists_view(scenes@)[n as int] == views(scenes@[n as int]@));
        }
        if listed(&scenes[n], word) {
            r = r + 1;
        }
        n = n + 1;
    }
    r
}

/// The terms that the coarse similarity of a scene and a transcript is made of.
pub fn coarse_terms(
    scenes: &Vec<Vec<String>>,
    scene: usize,
    words: &Vec<String>,
    characters: &Vec<String>,
) -> (r: Vec<CoarseTerm>)
    requires
        scene < scenes@.len(),
    ensures
        r@ == terms_of(lists_view(scenes@), scene as int, views(words@), views(characters@)),
{
    let mut both: Vec<String> = clone_all(&scenes[scene]);
    let mut rest: Vec<String> = clone_all(words);
    both.append(&mut rest);
    let ghost lists = lists_view(scenes@);
    proof {
        assert(lists[scene as int] == views(scenes@[scene as int]@));
        assert(views(both@) =~= lists[scene as int] + views(words@));
    }
    let each = without_repeats(&both);
    let mut r: Vec<CoarseTerm> = Vec::new();
    let mut i: usize = 0;
    while i < each.len()
        invariant
            i <= each@.len(),
            lists == lists_view(scenes@),
            scene < scenes@.len(),
            lists[scene as int] == views(scenes@[scene as int]@),
            r@.len() == i,
            forall|k: int|
                0 <= k < i ==> #[trigger] r@[k] == term_of(
                    lists,
                    scene as int,
                    views(words@),
                    views(characters@),
                    views(each@)[k],
                ),
        decreases each.len() - i,
    {
        let word: &String = &each[i];
        proof {
            assert(views(each@)[i as int] == word@);
        }
        r.push(
            CoarseTerm {
                document_frequency: frequency(scenes, word),
                is_character: listed(characters, word),
                shared: listed(&scenes[scene], word) && listed(words, word),
            },
        );
        i = i + 1;
    }
    proof {
        assert(r@ =~= terms_of(lists, scene as int, views(words@), views(characters@)));
    }
    r
}

/// The names of the characters that speak in the first `n` elements, in lower case.
pub open spec fn speakers_upto(elements: Seq<crate::script::ScriptElement>, n: nat) -> Seq<Seq<char>>
    decreases n,
{
    if n == 0 {
        Seq::empty()
    } else {
        let front = speakers_upto(elements, (n - 1) as nat);
        match elements[n - 1].character {
            Some(c) => front.push(lowercase(c@)),
            None => front,
        }
    }
}

/// The names of the characters that speak in the first `n` scenes, in lower case.
pub open spec fn characters_upto(script: Script, n: nat) -> Seq<Seq<char>>
    decreases n,
{
    if n == 0 {
        Seq::empty()
    } else {
        let e = script.scenes@[n - 1].elements@;
        characters_upto(script, (n - 1) as nat) + speakers_upto(e, e.len())
    }
}

/// The names of the characters of a script in lower case, each once.
pub fn character_names(script: &Script) -> (r: Vec<String>)
    ensures
        views(r@) == distinct(characters_upto(*script, script.scenes@.len())),
{
    let mut all: Vec<String> = Vec::new();
    let mut n: usize = 0;
    proof {
        assert(views(all@) =~= Seq::empty());
    }
    while n < script.scenes.len()
        invariant
            n <= script.scenes@.len(),
            views(all@) == characters_upto(*script, n as nat),
        decreases script.scenes.len() - n,
    {
        let ghost before = views(all@);
        let elements = &script.scenes[n].elements;
        let mut k: usize = 0;
        proof {
            assert(before + Seq::<Seq<char>>::empty() =~= before);
        }
        while k < elements.len()
            invariant
                n < script.scenes@.len(),
                elements == &script.scenes@[n as int].elements,
                k <= elements@.len(),
                views(all@) == before + speakers_upto(elements@, k as nat),
            decreases elements.len() - k,
        {
            if let Some(c) = &elements[k].character {
                let ghost ab = all@;
                all.push(c.to_lowercase());
                proof {
                    assert(views(all@) =~= views(ab).push(lowercase(c@)));
                    assert(before + speakers_upto(elements@, k as nat).push(lowercase(c@)) =~= (
                    before + speakers_upto(elements@, k as nat)).push(lowercase(c@)));
                }
            }
            k = k + 1;
        }
        n = n + 1;
    }
    without_repeats(&all)
}

// ----------------------------------------------------------------- alignment
/// The words of each scene.
pub open spec fn scene_tokens(script: Script) -> Seq<Seq<Seq<char>>> {
    script.scenes@.map_values(|s: crate::script::Scene| tokens_of(s.full_text@))
}

/// The identifier of each scene.
pub open spec fn scene_ids(script: Script) -> Seq<Seq<char>> {
    script.scenes@.map_values(|s: crate::script::Scene| s.id@)
}

/// The mapping of a region.
pub open spec fn mapping_of(
    script: Script,
    transcript: Transcript,
    region: CandidateRegion,
) -> MappingView {
    let words = transcript_tokens(transcript.segments@);
    let times = times_of(transcript.segments@, region.t_start as nat, region.t_end as nat);
    MappingView {
        clip_source_path: transcript.source_path@,
        scene_id: scene_ids(script)[region.scene_idx as int],
        confidence: region.confidence,
        source_in_ns: times.0,
        source_out_ns: times.1,
        transcript_excerpt: join(words.subrange(region.t_start as int, region.t_end + 1), " "@),
    }
}

/// The regions of one transcript that stay.
pub open spec fn regions_of(
    script: Script,
    transcript: Transcript,
    scores: Seq<SceneScore>,
    threshold: Real,
    cutoff: Real,
) -> Seq<CandidateRegion> {
    let words = transcript_tokens(transcript.segments@);
    if words.len() == 0 {
        Seq::empty()
    } else {
        resolved(candidates_of(words, scene_tokens(script), scores, threshold, cutoff))
    }
}

/// The mappings of the first `n` transcripts, in transcript order.
pub open spec fn mappings_upto(
    script: Script,
    transcripts: Seq<Transcript>,
    scores: Seq<Seq<SceneScore>>,
    threshold: Real,
    cutoff: Real,
    n: nat,
) -> Seq<MappingView>
    decreases n,
{
    if n == 0 {
        Seq::empty()
    } else {
        let t = transcripts[n - 1];
        mappings_upto(script, transcripts, scores, threshold, cutoff, (n - 1) as nat) + regions_of(
            script,
            t,
            scores[n - 1],
            threshold,
            cutoff,
        ).map_values(|r: CandidateRegion| mapping_of(script, t, r))
    }
}

/// The paths of those of the first `n` transcripts that match no scene.
pub open spec fn unmatched_upto(
    script: Script,
    transcripts: Seq<Transcript>,
    scores: Seq<Seq<SceneScore>>,
    threshold: Real,
    cutoff: Real,
    n: nat,
) -> Seq<Seq<char>>
    decreases n,
{
    if n == 0 {
        Seq::empty()
    } else {
        let t = transcripts[n - 1];
        let front = unmatched_upto(script, transcripts, scores, threshold, cutoff, (n - 1) as nat);
        if regions_of(script, t, scores[n - 1], threshold, cutoff).len() == 0 {
            front.push(t.source_path@)
        } else {
            front
        }
    }
}

/// The place of the last scene with identifier `id` in the script, or the largest number where
/// there is none.
pub open spec fn scene_place(ids: Seq<Seq<char>>, id: Seq<char>) -> int
    decreases ids.len(),
{
    if ids.len() == 0 {
        usize::MAX as int
    } else if ids.last() == id {
        ids.len() - 1
    } else {
        scene_place(ids.drop_last(), id)
    }
}

/// Mappings in the order of their scenes.
pub open spec fn in_scene_order(script: Script, mappings: Seq<MappingView>) -> Seq<MappingView> {
    picked(
        mappings,
        order_by(mappings.map_values(|m: MappingView| scene_place(scene_ids(script), m.scene_id))),
    )
}

/// Mappings come in the order of their scenes.
pub proof fn lemma_mappings_follow_scenes(script: Script, mappings: Seq<MappingView>, a: int, b: int)
    requires
        0 <= a < b < in_scene_order(script, mappings).len(),
    ensures
        scene_place(scene_ids(script), in_scene_order(script, mappings)[a].scene_id) <= scene_place(
            scene_ids(script),
            in_scene_order(script, mappings)[b].scene_id,
        ),
{
    let keys = mappings.map_values(|m: MappingView| scene_place(scene_ids(script), m.scene_id));
    crate::order::lemma_order_by(keys);
    let o = order_by(keys);
    assert(in_scene_order(script, mappings)[a] == mappings[o[a]]);
    assert(in_scene_order(script, mappings)[b] == mappings[o[b]]);
    assert(keys[o[a]] <= keys[o[b]]);
}

/// Sorting by scene loses no mapping.
pub proof fn lemma_no_mapping_is_lost(script: Script, mappings: Seq<MappingView>, m: MappingView)
    requires
        mappings.contains(m),
    ensures
        in_scene_order(script, mappings).contains(m),
{
    let keys = mappings.map_values(|m: MappingView| scene_place(scene_ids(script), m.scene_id));
    crate::order::lemma_order_by(keys);
    let o = order_by(keys);
    let i = choose|i: int| 0 <= i < mappings.len() && mappings[i] == m;
    assert(o.contains(i));
    let k = choose|k: int| 0 <= k < o.len() && o[k] == i;
    assert(in_scene_order(script, mappings)[k] == m);
}

/// Every clip is accounted for: it has a mapping, or it is listed as unmatched.
pub proof fn lemma_every_clip_is_accounted_for(
    script: Script,
    transcripts: Seq<Transcript>,
    scores: Seq<Seq<SceneScore>>,
    threshold: Real,
    cutoff: Real,
    n: nat,
    i: int,
)
    requires
        0 <= i < n <= transcripts.len(),
    ensures
        ({
            let path = transcripts[i].source_path@;
            let mappings = mappings_upto(script, transcripts, scores, threshold, cutoff, n);
            let unmatched = unmatched_upto(script, transcripts, scores, threshold, cutoff, n);
            unmatched.contains(path) || exists|k: int|
                0 <= k < mappings.len() && (#[trigger] mappings[k]).clip_source_path == path
        }),
    decreases n,
{
    let path = transcripts[i].source_path@;
    let t = transcripts[n - 1];
    let front = mappings_upto(script, transcripts, scores, threshold, cutoff, (n - 1) as nat);
    let all = mappings_upto(script, transcripts, scores, threshold, cutoff, n);
    let others = unmatched_upto(script, transcripts, scores, threshold, cutoff, (n - 1) as nat);
    let unmatched = unmatched_upto(script, transcripts, scores, threshold, cutoff, n);
    let regions = regions_of(script, t, scores[n - 1], threshold, cutoff);
    if i == n - 1 {
        if regions.len() == 0 {
            assert(unmatched[others.len() as int] == path);
        } else {
            assert(all[front.len() as int] == mapping_of(script, t, regions[0]));
        }
    } else {
        lemma_every_clip_is_accounted_for(
            script,
            transcripts,
            scores,
            threshold,
            cutoff,
            (n - 1) as nat,
            i,
        );
        if others.contains(path) {
            let k = choose|k: int| 0 <= k < others.len() && others[k] == path;
            assert(unmatched[k] == path);
        } else {
            let k = choose|k: int|
                0 <= k < front.len() && (#[trigger] front[k]).clip_source_path == path;
            assert(all[k] == front[k]);
        }
    }
}

proof fn lemma_candidates_confident(
    words: Seq<Seq<char>>,
    scenes: Seq<Seq<Seq<char>>>,
    scores: Seq<SceneScore>,
    threshold: Real,
    cutoff: Real,
    rank: Seq<int>,
    n: nat,
    k: int,
)
    requires
        0 <= k < candidates_upto(words, scenes, scores, threshold, cutoff, rank, n).len(),
    ensures
        threshold.is_less(
            candidates_upto(words, scenes, scores, threshold, cutoff, rank, n)[k].confidence,
        ),
    decreases n,
{
    if n > 0 {
        let front = candidates_upto(words, scenes, scores, threshold, cutoff, rank, (n - 1) as nat);
        if k < front.len() {
            lemma_candidates_confident(
                words,
                scenes,
                scores,
                threshold,
                cutoff,
                rank,
                (n - 1) as nat,
                k,
            );
        }
    }
}

/// A clip is matched to a scene only with a confidence above the threshold.
pub proof fn lemma_matches_are_confident(
    script: Script,
    transcript: Transcript,
    scores: Seq<SceneScore>,
    threshold: Real,
    cutoff: Real,
    k: int,
)
    requires
        0 <= k < regions_of(script, transcript, scores, threshold, cutoff).len(),
    ensures
        threshold.is_less(
            regions_of(script, transcript, scores, threshold, cutoff)[k].confidence,
        ),
{
    let words = transcript_tokens(transcript.segments@);
    let scenes = scene_tokens(script);
    let rank = ranking(scores);
    let found = candidates_upto(words, scenes, scores, threshold, cutoff, rank, scores.len());
    let by = found.map_values(|c: CandidateRegion| descending(c.confidence));
    crate::order::lemma_order_by(by);
    let candidates = candidates_of(words, scenes, scores, threshold, cutoff);
    let taken = greedy(candidates);
    let starts = taken.map_values(|c: CandidateRegion| c.t_start as int);
    crate::order::lemma_order_by(starts);
    let x = order_by(starts)[k];
    lemma_greedy_from(candidates, x);
    let y = choose|y: int| 0 <= y < candidates.len() && candidates[y] == taken[x];
    let z = order_by(by)[y];
    assert(candidates[y] == found[z]);
    lemma_candidates_confident(
        words,
        scenes,
        scores,
        threshold,
        cutoff,
        rank,
        scores.len(),
        z,
    );
}

/// The rows of scores.
pub open spec fn score_rows(scores: Seq<Vec<SceneScore>>) -> Seq<Seq<SceneScore>> {
    scores.map_values(|v: Vec<SceneScore>| v@)
}

/// There is a score for each transcript and scene.
pub open spec fn scores_fit(
    script: Script,
    transcripts: Seq<Transcript>,
    scores: Seq<Vec<SceneScore>>,
) -> bool {
    &&& scores.len() == transcripts.len()
    &&& forall|i: int| 0 <= i < scores.len() ==> (#[trigger] scores[i])@.len() == script.scenes@.len()
}

fn find_regions(
    script: &Script,
    scene_words: &Vec<Vec<String>>,
    words: &Vec<String>,
    scores: &Vec<SceneScore>,
    threshold: Real,
    cutoff: Real,
) -> (r: Vec<CandidateRegion>)
    requires
        scores@.len() == script.scenes@.len() == scene_words@.len(),
        scene_words@.map_values(|v: Vec<String>| views(v@)) == scene_tokens(*script),
    ensures
        r@ == resolved(
            candidates_of(views(words@), scene_tokens(*script), scores@, threshold, cutoff),
        ),
        forall|k: int| 0 <= k < r@.len() ==> ({
            let c = #[trigger] r@[k];
            c.scene_idx < script.scenes.len() && c.t_start <= c.t_end < words.len()
        }),
{
    let ghost tokens = scene_tokens(*script);
    let ghost w = views(words@);
    let mut keys: Vec<u64> = Vec::new();
    let mut i: usize = 0;
    while i < scores.len()
        invariant
            i <= scores@.len(),
            keys@.len() == i,
            forall|x: int| 0 <= x < i ==> #[trigger] keys@[x] == descending(scores@[x].coarse),
        decreases scores.len() - i,
    {
        keys.push(u64::MAX - scores[i].coarse.rank());
        i = i + 1;
    }
    let rank = order_by_keys(&keys);
    proof {
        assert(ints(keys@) =~= scores@.map_values(|s: SceneScore| descending(s.coarse)));
    }
    let ghost order = positions(rank@);
    let mut found: Vec<CandidateRegion> = Vec::new();
    let mut n: usize = 0;
    while n < rank.len()
        invariant
            n <= rank@.len() == scores@.len(),
            scores@.len() == script.scenes@.len() == scene_words@.len(),
            scene_words@.map_values(|v: Vec<String>| views(v@)) == tokens,
            tokens == scene_tokens(*script),
            w == views(words@),
            order == positions(rank@),
            forall|a: int| 0 <= a < rank@.len() ==> #[trigger] rank@[a] < scores@.len(),
            found@ == candidates_upto(w, tokens, scores@, threshold, cutoff, order, n as nat),
            forall|k: int| 0 <= k < found@.len() ==> ({
                let c = #[trigger] found@[k];
                c.scene_idx < script.scenes.len() && c.t_start <= c.t_end < words.len()
            }),
        decreases rank.len() - n,
    {
        let s: usize = rank[n];
        proof {
            assert(order[n as int] == s as int);
            assert(tokens[s as int] == views(scene_words@[s as int]@));
        }
        let (fine, start, end) = smith_waterman_align(words, &scene_words[s]);
        let score: SceneScore = scores[s];
        proof {
            lemma_score_is_largest(w, tokens[s as int], 0, 0);
        }
        if !score.coarse.less(cutoff) && fine != 0 && threshold.less(score.confidence) {
            found.push(
                CandidateRegion {
                    scene_idx: s,
                    confidence: score.confidence,
                    t_start: start,
                    t_end: end,
                },
            );
        }
        n = n + 1;
    }
    let mut keys2: Vec<u64> = Vec::new();
    let mut k: usize = 0;
    while k < found.len()
        invariant
            k <= found@.len(),
            keys2@.len() == k,
            forall|x: int| 0 <= x < k ==> #[trigger] keys2@[x] == descending(found@[x].confidence),
        decreases found.len() - k,
    {
        keys2.push(u64::MAX - found[k].confidence.rank());
        k = k + 1;
    }
    let by_confidence = order_by_keys(&keys2);
    proof {
        assert(ints(keys2@) =~= found@.map_values(
            |c: CandidateRegion| descending(c.confidence),
        ));
    }
    let sorted = pick_regions(&found, &by_confidence);
    let r = resolve_overlapping_regions(&sorted);
    proof {
        assert(sorted@ == candidates_of(w, tokens, scores@, threshold, cutoff));
        assert forall|k: int| 0 <= k < r@.len() implies ({
            let c = #[trigger] r@[k];
            c.scene_idx < script.scenes.len() && c.t_start <= c.t_end < words.len()
        }) by {
            let taken = greedy(sorted@);
            let keys3 = taken.map_values(|c: CandidateRegion| c.t_start as int);
            crate::order::lemma_order_by(keys3);
            let x = order_by(keys3)[k];
            assert(r@[k] == taken[x]);
            lemma_greedy_from(sorted@, x);
            let y = choose|y: int| 0 <= y < sorted@.len() && sorted@[y] == taken[x];
            assert(sorted@[y] == found@[by_confidence@[y] as int]);
        }
    }
    r
}

/// Aligns clip transcripts against a screenplay.
///
/// `scores` gives, for each transcript, how similar each scene is. Scenes whose coarse score is
/// below `coarse_cutoff`, or whose confidence does not exceed `confidence_threshold`, do not
/// match; a clip that matches no scene is listed as unmatched.
pub fn align_transcripts_to_script(
    script: &Script,
    transcripts: &Vec<Transcript>,
    scores: &Vec<Vec<SceneScore>>,
    confidence_threshold: Real,
    coarse_cutoff: Real,
) -> (r: AlignmentResult)
    requires
        scores_fit(*script, transcripts@, scores@),
    ensures
        mappings_view(r.mappings@) == in_scene_order(
            *script,
            mappings_upto(
                *script,
                transcripts@,
                score_rows(scores@),
                confidence_threshold,
                coarse_cutoff,
                transcripts@.len(),
            ),
        ),
        views(r.unmatched_clips@) == unmatched_upto(
            *script,
            transcripts@,
            score_rows(scores@),
            confidence_threshold,
            coarse_cutoff,
            transcripts@.len(),
        ),
{
    let ghost rows = score_rows(scores@);
    let mut scene_words: Vec<Vec<String>> = Vec::new();
    let mut i: usize = 0;
    let ghost f = |v: Vec<String>| views(v@);
    while i < script.scenes.len()
        invariant
            i <= script.scenes@.len(),
            f == (|v: Vec<String>| views(v@)),
            scene_words@.map_values(f) == scene_tokens(*script).subrange(0, i as int),
        decreases script.scenes.len() - i,
    {
        let ghost before = scene_words@;
        let t = tokenize(&script.scenes[i].full_text);
        let ghost tv = views(t@);
        scene_words.push(t);
        proof {
            assert(scene_words@.map_values(f) =~= before.map_values(f).push(tv));
            assert(scene_tokens(*script).subrange(0, i + 1) =~= scene_tokens(*script).subrange(
                0,
                i as int,
            ).push(tv));
        }
        i = i + 1;
    }
    proof {
        assert(scene_tokens(*script).subrange(0, i as int) =~= scene_tokens(*script));
        assert(scene_words@.len() == scene_words@.map_values(f).len());
    }
    let mut mappings: Vec<SceneMapping> = Vec::new();
    let mut unmatched: Vec<String> = Vec::new();
    let mut n: usize = 0;
    proof {
        assert(mappings_view(mappings@) =~= Seq::empty());
        assert(views(unmatched@) =~= Seq::empty());
    }
    while n < transcripts.len()
        invariant
            n <= transcripts@.len(),
            scores_fit(*script, transcripts@, scores@),
            rows == score_rows(scores@),
            scene_words@.len() == script.scenes@.len(),
            scene_words@.map_values(|v: Vec<String>| views(v@)) == scene_tokens(*script),
            mappings_view(mappings@) == mappings_upto(
                *script,
                transcripts@,
                rows,
                confidence_threshold,
                coarse_cutoff,
                n as nat,
            ),
            views(unmatched@) == unmatched_upto(
                *script,
                transcripts@,
                rows,
                confidence_threshold,
                coarse_cutoff,
                n as nat,
            ),
        decreases transcripts.len() - n,
    {
        let t: &Transcript = &transcripts[n];
        let words = transcript_words(&t.segments);
        let ghost expected = regions_of(
            *script,
            *t,
            rows[n as int],
            confidence_threshold,
            coarse_cutoff,
        );
        proof {
            assert(rows[n as int] == scores@[n as int]@);
        }
        let regions = if words.len() == 0 {
            Vec::new()
        } else {
            find_regions(
                script,
                &scene_words,
                &words,
                &scores[n],
                confidence_threshold,
                coarse_cutoff,
            )
        };
        proof {
            assert(views(words@).len() == words@.len());
            assert(regions@ =~= expected);
        }
        if regions.len() == 0 {
            let ghost before = unmatched@;
            unmatched.push(t.source_path.clone());
            proof {
                assert(views(unmatched@) =~= views(before).push(t.source_path@));
                assert(expected.map_values(|r: CandidateRegion| mapping_of(*script, *t, r)) =~= Seq::empty());
                assert(mappings_view(mappings@) + Seq::<MappingView>::empty() =~= mappings_view(mappings@));
            }
        } else {
            let ghost before = mappings_view(mappings@);
            let ghost g = |r: CandidateRegion| mapping_of(*script, *t, r);
            let mut k: usize = 0;
            proof {
                assert(before + expected.subrange(0, 0).map_values(g) =~= before);
            }
            while k < regions.len()
                invariant
                    k <= regions@.len(),
                    n < transcripts@.len(),
                    t == &transcripts@[n as int],
                    regions@ == expected,
                    g == (|r: CandidateRegion| mapping_of(*script, *t, r)),
                    views(words@) == transcript_tokens(t.segments@),
                    forall|k: int| 0 <= k < regions@.len() ==> ({
                        let c = #[trigger] regions@[k];
                        c.scene_idx < script.scenes.len() && c.t_start <= c.t_end < words.len()
                    }),
                    mappings_view(mappings@) == before + expected.subrange(0, k as int).map_values(g),
                decreases regions.len() - k,
            {
                let c: CandidateRegion = regions[k];
                let (from, to) = word_indices_to_timestamps(&t.segments, c.t_start, c.t_end);
                let mut excerpt: Vec<String> = Vec::new();
                let mut x: usize = c.t_start;
                while x <= c.t_end
                    invariant
                        c.t_start <= x <= c.t_end + 1,
                        c.t_end < words.len(),
                        views(excerpt@) == views(words@).subrange(c.t_start as int, x as int),
                    decreases c.t_end + 1 - x,
                {
                    let ghost eb = excerpt@;
                    excerpt.push(words[x].clone());
                    proof {
                        assert(views(excerpt@) =~= views(eb).push(words@[x as int]@));
                        assert(views(words@).subrange(c.t_start as int, x + 1) =~= views(
                            words@,
                        ).subrange(c.t_start as int, x as int).push(views(words@)[x as int]));
                    }
                    x = x + 1;
                }
                let m = SceneMapping {
                    clip_source_path: t.source_path.clone(),
                    scene_id: script.scenes[c.scene_idx].id.clone(),
                    confidence: c.confidence,
                    source_in_ns: from,
                    source_out_ns: to,
                    transcript_excerpt: joined(&excerpt, " "),
                };
                let ghost mv = m@;
                let ghost mb = mappings@;
                mappings.push(m);
                proof {
                    assert(mv == mapping_of(*script, *t, c));
                    assert(mappings_view(mappings@) =~= mappings_view(mb).push(mv));
                    assert(expected.subrange(0, k + 1).map_values(g) =~= expected.subrange(
                        0,
                        k as int,
                    ).map_values(g).push(g(expected[k as int])));
                    assert(mappings_view(mappings@) =~= before + expected.subrange(0, k + 1).map_values(g));
                }
                k = k + 1;
            }
            proof {
                assert(expected.subrange(0, k as int) =~= expected);
            }
        }
        n = n + 1;
    }
    let sorted = sort_by_scene(script, &mappings);
    AlignmentResult { mappings: sorted, unmatched_clips: unmatched }
}

fn sort_by_scene(script: &Script, mappings: &Vec<SceneMapping>) -> (r: Vec<SceneMapping>)
    ensures
        mappings_view(r@) == in_scene_order(*script, mappings_view(mappings@)),
{
    let ghost ids = scene_ids(*script);
    let mut keys: Vec<u64> = Vec::new();
    let mut i: usize = 0;
    while i < mappings.len()
        invariant
            i <= mappings@.len(),
            ids == scene_ids(*script),
            keys@.len() == i,
            forall|x: int| 0 <= x < i ==> #[trigger] keys@[x] == scene_place(ids, mappings@[x].scene_id@),
        decreases mappings.len() - i,
    {
        let place: usize = find_scene(script, &mappings[i].scene_id);
        keys.push(place as u64);
        i = i + 1;
    }
    let order = order_by_keys(&keys);
    let ghost mv = mappings_view(mappings@);
    proof {
        assert(ints(keys@) =~= mv.map_values(|m: MappingView| scene_place(ids, m.scene_id)));
    }
    let mut r: Vec<SceneMapping> = Vec::new();
    let mut k: usize = 0;
    while k < order.len()
        invariant
            k <= order@.len() == mappings@.len(),
            forall|a: int| 0 <= a < order@.len() ==> #[trigger] order@[a] < mappings@.len(),
            r@.len() == k,
            forall|x: int| 0 <= x < k ==> #[trigger] r@[x] == mappings@[order@[x] as int],
        decreases order.len() - k,
    {
        r.push(mappings[order[k]].copied());
        k = k + 1;
    }
    proof {
        assert(mappings_view(r@) =~= picked(mv, positions(order@)));
    }
    r
}

fn find_scene(script: &Script, id: &str) -> (r: usize)
    ensures
        r == scene_place(scene_ids(*script), id@),
{
    let ghost ids = scene_ids(*script);
    let mut n: usize = script.scenes.len();
    proof {
        assert(ids.subrange(0, n as int) =~= ids);
    }
    while n > 0
        invariant
            n <= script.scenes@.len(),
            ids == scene_ids(*script),
            scene_place(ids, id@) == scene_place(ids.subrange(0, n as int), id@),
        decreases n,
    {
        proof {
            assert(ids.subrange(0, n as int).drop_last() =~= ids.subrange(0, n - 1));
            assert(ids.subrange(0, n as int).last() == script.scenes@[n - 1].id@);
        }
        if crate::text::same(&script.scenes[n - 1].id, id) {
            return n - 1;
        }
        n = n - 1;
    }
    usize::MAX
}

/// Larger values have smaller keys, so that they come first.
pub proof fn lemma_descending(a: Real, b: Real)
    requires
        a.is_number(),
        b.is_number(),
    ensures
        a.is_less(b) <==> descending(b) < descending(a),
{
}

/// The terms of a scene and a transcript are one for each word that either has: how many scenes have
/// it, whether it is the name of a character, and whether both have it.
pub proof fn lemma_terms(
    scenes: Seq<Seq<Seq<char>>>,
    scene: int,
    words: Seq<Seq<char>>,
    characters: Seq<Seq<char>>,
    i: int,
)
    requires
        0 <= scene < scenes.len(),
        scenes.len() <= usize::MAX,
        0 <= i < terms_of(scenes, scene, words, characters).len(),
    ensures
        ({
            let w = distinct(scenes[scene] + words)[i];
            let t = terms_of(scenes, scene, words, characters)[i];
            &&& scenes[scene].contains(w) || words.contains(w)
            &&& t.is_character <==> characters.contains(w)
            &&& t.shared <==> scenes[scene].contains(w) && words.contains(w)
            &&& t.document_frequency == scenes.filter(|s: Seq<Seq<char>>| s.contains(w)).len()
        }),
{
    let all = scenes[scene] + words;
    let w = distinct(all)[i];
    crate::text::lemma_distinct(all);
    assert(distinct(all)[i] == w);
    assert(distinct(all).contains(w));
    assert(all.contains(w));
    let k = choose|k: int| 0 <= k < all.len() && all[k] == w;
    assert(all[k] == w);
    if k < scenes[scene].len() {
        assert(scenes[scene][k] == w);
    } else {
        assert(words[k - scenes[scene].len()] == w);
    }
    crate::alignment_sources::lemma_frequency(scenes, w);
    lemma_frequency_bound(scenes, w, scenes.len());
}

proof fn lemma_frequency_bound(scenes: Seq<Seq<Seq<char>>>, word: Seq<char>, n: nat)
    ensures
        frequency_upto(scenes, word, n) <= n,
    decreases n,
{
    if n > 0 {
        lemma_frequency_bound(scenes, word, (n - 1) as nat);
    }
}

/// Words are made of letters, numbers and apostrophes, and of nothing else.
pub proof fn lemma_word_chars(c: char)
    ensures
        is_letter_or_number(c) ==> is_word_char(c),
        is_word_char('\''),
        !is_letter_or_number(c) && c != '\'' ==> !is_word_char(c),
{
}

/// The words of a transcript are those of its texts with blanks between them, in lower case; those
/// of a scene are those of its whole text.
pub proof fn lemma_transcript_text(segments: Seq<SubtitleSegment>, s: SubtitleSegment)
    ensures
        transcript_tokens(seq![s]) == tokens_of(lowercase(s.text@)),
        segments.len() > 0 ==> transcript_tokens(segments.push(s)) == tokens_of(
            lowercase(join(segment_texts(segments), " "@) + " "@ + s.text@),
        ),
{
    assert(segment_texts(seq![s]) =~= seq![s.text@]);
    assert(segment_texts(segments.push(s)).drop_last() =~= segment_texts(segments));
    assert(segment_texts(segments.push(s)).last() == s.text@);
}

/// Each scene is matched by its own words and named by its own identifier.
pub proof fn lemma_scenes_in_order(script: Script, i: int)
    requires
        0 <= i < script.scenes@.len(),
    ensures
        scene_tokens(script).len() == script.scenes@.len(),
        scene_tokens(script)[i] == tokens_of(script.scenes@[i].full_text@),
        scene_ids(script)[i] == script.scenes@[i].id@,
{
}

} // verus!
