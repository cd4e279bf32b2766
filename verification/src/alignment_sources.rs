//! What the mappings of an alignment say of the transcripts and scenes that they come from.

use crate::model::{SubtitleSegment, SubtitleWord};
use crate::numbers::Real;
use crate::order::{lemma_order_by, order_by};
use crate::script::{Script, ScriptElement};
use crate::script_align::{
    all_have_words, candidates_of, candidates_upto, characters_upto, descending, frequency_upto,
    greedy, in_scene_order, is_word_char, lemma_greedy_from, lemma_times_are_of_words,
    local_alignment, mapping_of, mappings_upto, overlap, ranking, regions_of, resolved,
    scene_place, scene_tokens, speakers_upto, tokens_of, transcript_tokens, unmatched_upto,
    words_of, words_scan, CandidateRegion, MappingView, SceneScore, Transcript,
};
use crate::text::join;
use crate::unicode::lowercase;
use vstd::prelude::*;

verus! {

// --------------------------------------------------------------------- words
proof fn lemma_scan_after(a: Seq<char>, sep: char, b: Seq<char>)
    requires
        !is_word_char(sep),
    ensures
        words_scan(a.push(sep) + b).0 == words_of(a) + words_scan(b).0,
        words_scan(a.push(sep) + b).1 == words_scan(b).1,
    decreases b.len(),
{
    let s = a.push(sep) + b;
    if b.len() == 0 {
        assert(s =~= a.push(sep));
        assert(s.drop_last() =~= a);
        assert(words_of(a) + words_scan(b).0 =~= words_of(a));
    } else {
        lemma_scan_after(a, sep, b.drop_last());
        assert(s.drop_last() =~= a.push(sep) + b.drop_last());
        assert(words_scan(s).0 =~= words_of(a) + words_scan(b).0);
    }
}

/// What is no part of a word parts words: the words on both sides of it are those of the two sides.
pub proof fn lemma_words_apart(a: Seq<char>, sep: char, b: Seq<char>)
    requires
        !is_word_char(sep),
    ensures
        words_of(a.push(sep) + b) == words_of(a) + words_of(b),
        tokens_of(a.push(sep) + b) == tokens_of(a) + tokens_of(b),
{
    lemma_scan_after(a, sep, b);
    assert(words_of(a.push(sep) + b) =~= words_of(a) + words_of(b));
    assert(tokens_of(a.push(sep) + b) =~= tokens_of(a) + tokens_of(b));
}

proof fn lemma_one_word_open(w: Seq<char>)
    requires
        forall|i: int| 0 <= i < w.len() ==> is_word_char(#[trigger] w[i]),
    ensures
        words_scan(w).0.len() == 0,
        words_scan(w).1 == w,
    decreases w.len(),
{
    if w.len() > 0 {
        assert forall|i: int| 0 <= i < w.len() - 1 implies is_word_char(
            #[trigger] w.drop_last()[i],
        ) by {
            assert(w.drop_last()[i] == w[i]);
        }
        lemma_one_word_open(w.drop_last());
        assert(is_word_char(w[w.len() - 1]));
        assert(w.drop_last().push(w.last()) =~= w);
    }
}

/// A text that is all word characters is one word, and a blank text has none.
pub proof fn lemma_one_word(w: Seq<char>)
    requires
        forall|i: int| 0 <= i < w.len() ==> is_word_char(#[trigger] w[i]),
    ensures
        w.len() > 0 ==> tokens_of(w) == seq![lowercase(w)],
        w.len() == 0 ==> tokens_of(w).len() == 0,
{
    lemma_one_word_open(w);
    if w.len() > 0 {
        assert(words_of(w) =~= seq![w]);
        assert(tokens_of(w) =~= seq![lowercase(w)]);
    }
}

// ------------------------------------------------------------------- regions
/// Two regions overlap where they have a word in common.
pub proof fn lemma_overlap_is_common_word(a: CandidateRegion, b: CandidateRegion)
    requires
        a.t_start <= a.t_end,
        b.t_start <= b.t_end,
    ensures
        overlap(a, b) <==> exists|w: int|
            #![trigger is_in_region(w, a)]
            is_in_region(w, a) && is_in_region(w, b),
{
    if overlap(a, b) {
        let w: int = if a.t_start >= b.t_start {
            a.t_start as int
        } else {
            b.t_start as int
        };
        assert(is_in_region(w, a) && is_in_region(w, b));
    }
}

/// Whether a word of a transcript lies in a region.
pub open spec fn is_in_region(w: int, r: CandidateRegion) -> bool {
    r.t_start <= w <= r.t_end
}

/// A candidate that does not stay overlaps one that stays and that came before it, so is no worse.
pub proof fn lemma_what_goes_is_in_the_way(candidates: Seq<CandidateRegion>, i: int)
    requires
        0 <= i < candidates.len(),
        !greedy(candidates).contains(candidates[i]),
    ensures
        exists|j: int|
            0 <= j < i && overlap(candidates[i], #[trigger] candidates[j]) && greedy(
                candidates,
            ).contains(candidates[j]),
    decreases candidates.len(),
{
    let front = candidates.drop_last();
    let taken = greedy(front);
    let all = greedy(candidates);
    assert forall|c: CandidateRegion| #[trigger] taken.contains(c) implies all.contains(c) by {
        let k = choose|k: int| 0 <= k < taken.len() && taken[k] == c;
        assert(all[k] == c);
    }
    if i < front.len() {
        assert(front[i] == candidates[i]);
        lemma_what_goes_is_in_the_way(front, i);
        let j = choose|j: int|
            0 <= j < i && overlap(front[i], #[trigger] front[j]) && greedy(front).contains(
                front[j],
            );
        assert(candidates[j] == front[j]);
    } else {
        if forall|k: int| 0 <= k < taken.len() ==> !overlap(candidates[i], #[trigger] taken[k]) {
            assert(all[taken.len() as int] == candidates[i]);
        }
        let k = choose|k: int| 0 <= k < taken.len() && overlap(candidates[i], #[trigger] taken[k]);
        lemma_greedy_from(front, k);
        let j = choose|j: int| 0 <= j < front.len() && front[j] == taken[k];
        assert(candidates[j] == taken[k]);
        assert(taken.contains(taken[k]));
    }
}

/// The regions that stay are the ones that were taken, in another order.
pub proof fn lemma_resolved_is_taken(candidates: Seq<CandidateRegion>, c: CandidateRegion)
    ensures
        resolved(candidates).contains(c) <==> greedy(candidates).contains(c),
        resolved(candidates).len() == greedy(candidates).len(),
{
    let taken = greedy(candidates);
    let keys = taken.map_values(|c: CandidateRegion| c.t_start as int);
    lemma_order_by(keys);
    let order = order_by(keys);
    let r = resolved(candidates);
    if r.contains(c) {
        let k = choose|k: int| 0 <= k < r.len() && r[k] == c;
        assert(taken[order[k]] == c);
    }
    if taken.contains(c) {
        let k = choose|k: int| 0 <= k < taken.len() && taken[k] == c;
        assert(order.contains(k));
        let a = choose|a: int| 0 <= a < order.len() && order[a] == k;
        assert(r[a] == c);
    }
}

/// Whether a region is the part of a transcript that aligns best with the scene at `s`, which is
/// similar enough.
pub open spec fn is_region_of(
    words: Seq<Seq<char>>,
    scenes: Seq<Seq<Seq<char>>>,
    scores: Seq<SceneScore>,
    threshold: Real,
    cutoff: Real,
    s: int,
    c: CandidateRegion,
) -> bool {
    &&& c.scene_idx == s
    &&& c.confidence == scores[s].confidence
    &&& !scores[s].coarse.is_less(cutoff)
    &&& threshold.is_less(scores[s].confidence)
    &&& local_alignment(words, scenes[s]).0 != 0
    &&& c.t_start == local_alignment(words, scenes[s]).1 as usize
    &&& c.t_end == local_alignment(words, scenes[s]).2 as usize
}

proof fn lemma_candidates_upto(
    words: Seq<Seq<char>>,
    scenes: Seq<Seq<Seq<char>>>,
    scores: Seq<SceneScore>,
    threshold: Real,
    cutoff: Real,
    rank: Seq<int>,
    n: nat,
    c: CandidateRegion,
)
    requires
        n <= rank.len(),
        forall|k: int| 0 <= k < rank.len() ==> 0 <= #[trigger] rank[k] <= usize::MAX,
    ensures
        candidates_upto(words, scenes, scores, threshold, cutoff, rank, n).contains(c) <==> exists|
            k: int,
        |
            0 <= k < n && is_region_of(
                words,
                scenes,
                scores,
                threshold,
                cutoff,
                #[trigger] rank[k],
                c,
            ),
    decreases n,
{
    let all = candidates_upto(words, scenes, scores, threshold, cutoff, rank, n);
    if n > 0 {
        let front = candidates_upto(words, scenes, scores, threshold, cutoff, rank, (n - 1) as nat);
        lemma_candidates_upto(
            words,
            scenes,
            scores,
            threshold,
            cutoff,
            rank,
            (n - 1) as nat,
            c,
        );
        let s = rank[n - 1];
        if front.contains(c) {
            let k = choose|k: int| 0 <= k < front.len() && front[k] == c;
            assert(all[k] == c);
        }
        if is_region_of(words, scenes, scores, threshold, cutoff, s, c) {
            assert(all.last() == c);
            assert(all[all.len() - 1] == c);
        }
        if all.contains(c) && !front.contains(c) {
            let k = choose|k: int| 0 <= k < all.len() && all[k] == c;
            if k < front.len() {
                assert(front[k] == c);
            } else {
                assert(is_region_of(words, scenes, scores, threshold, cutoff, rank[n - 1], c));
            }
        }
        if exists|k: int|
            0 <= k < n && is_region_of(
                words,
                scenes,
                scores,
                threshold,
                cutoff,
                #[trigger] rank[k],
                c,
            ) {
            let k = choose|k: int|
                0 <= k < n && is_region_of(
                    words,
                    scenes,
                    scores,
                    threshold,
                    cutoff,
                    #[trigger] rank[k],
                    c,
                );
            assert(k < n - 1 || k == n - 1);
        }
    }
}

/// Every scene that is similar enough has a candidate region, the part of the transcript that aligns
/// best with it, and no other scene has one. The most confident come first.
pub proof fn lemma_candidates_are_similar_scenes(
    words: Seq<Seq<char>>,
    scenes: Seq<Seq<Seq<char>>>,
    scores: Seq<SceneScore>,
    threshold: Real,
    cutoff: Real,
    c: CandidateRegion,
)
    requires
        scores.len() <= usize::MAX,
    ensures
        candidates_of(words, scenes, scores, threshold, cutoff).contains(c) <==> c.scene_idx
            < scores.len() && is_region_of(
            words,
            scenes,
            scores,
            threshold,
            cutoff,
            c.scene_idx as int,
            c,
        ),
        forall|i: int, j: int|
            0 <= i < j < candidates_of(words, scenes, scores, threshold, cutoff).len()
                ==> descending(
                (#[trigger] candidates_of(words, scenes, scores, threshold, cutoff)[i]).confidence,
            ) <= descending(
                (#[trigger] candidates_of(words, scenes, scores, threshold, cutoff)[j]).confidence,
            ),
{
    let ranks = scores.map_values(|s: SceneScore| descending(s.coarse));
    let rank = ranking(scores);
    lemma_order_by(ranks);
    let found = candidates_upto(words, scenes, scores, threshold, cutoff, rank, scores.len());
    lemma_candidates_upto(words, scenes, scores, threshold, cutoff, rank, scores.len(), c);
    let keys = found.map_values(|c: CandidateRegion| descending(c.confidence));
    let order = order_by(keys);
    let r = candidates_of(words, scenes, scores, threshold, cutoff);
    lemma_order_by(keys);
    if r.contains(c) {
        let k = choose|k: int| 0 <= k < r.len() && r[k] == c;
        assert(found[order[k]] == c);
        assert(found.contains(c));
    }
    if found.contains(c) {
        let k = choose|k: int| 0 <= k < found.len() && found[k] == c;
        assert(order.contains(k));
        let a = choose|a: int| 0 <= a < order.len() && order[a] == k;
        assert(r[a] == c);
    }
    if c.scene_idx < scores.len() {
        assert(rank.contains(c.scene_idx as int));
        let k = choose|k: int| 0 <= k < rank.len() && rank[k] == c.scene_idx;
        assert(rank[k] == c.scene_idx);
    }
    assert forall|i: int, j: int| 0 <= i < j < r.len() implies descending(
        (#[trigger] r[i]).confidence,
    ) <= descending((#[trigger] r[j]).confidence) by {
        assert(r[i] == found[order[i]] && r[j] == found[order[j]]);
    }
}

// ------------------------------------------------------------------ mappings
/// The words of a transcript with their times.
pub open spec fn timed_words(segments: Seq<SubtitleSegment>) -> Seq<SubtitleWord> {
    segments.map_values(|s: SubtitleSegment| s.words@).flatten()
}

/// Whether a mapping says of a transcript that a region of it is a scene: it names the recording and
/// the scene, gives the confidence and the words, and goes from when the first word begins to when
/// the last ends.
pub open spec fn tells_of(
    m: MappingView,
    script: Script,
    t: Transcript,
    c: CandidateRegion,
) -> bool {
    &&& m.clip_source_path == t.source_path@
    &&& m.scene_id == script.scenes@[c.scene_idx as int].id@
    &&& m.confidence == c.confidence
    &&& m.transcript_excerpt == join(
        transcript_tokens(t.segments@).subrange(c.t_start as int, c.t_end + 1),
        " "@,
    )
    &&& all_have_words(t.segments@) && c.t_start < timed_words(t.segments@).len()
        ==> m.source_in_ns == timed_words(t.segments@)[c.t_start as int].start_ns
    &&& all_have_words(t.segments@) && c.t_end < timed_words(t.segments@).len() ==> m.source_out_ns
        == timed_words(t.segments@)[c.t_end as int].end_ns
}

proof fn lemma_mapping_tells(script: Script, t: Transcript, c: CandidateRegion)
    requires
        c.scene_idx < script.scenes@.len(),
    ensures
        tells_of(mapping_of(script, t, c), script, t, c),
{
    if all_have_words(t.segments@) {
        lemma_times_are_of_words(t.segments@, c.t_start as nat, c.t_end as nat);
    }
}

proof fn lemma_regions_name_scenes(
    script: Script,
    t: Transcript,
    scores: Seq<SceneScore>,
    threshold: Real,
    cutoff: Real,
    c: CandidateRegion,
)
    requires
        scores.len() <= usize::MAX,
        regions_of(script, t, scores, threshold, cutoff).contains(c),
    ensures
        c.scene_idx < scores.len(),
        is_region_of(
            transcript_tokens(t.segments@),
            scene_tokens(script),
            scores,
            threshold,
            cutoff,
            c.scene_idx as int,
            c,
        ),
{
    let words = transcript_tokens(t.segments@);
    let candidates = candidates_of(words, scene_tokens(script), scores, threshold, cutoff);
    lemma_resolved_is_taken(candidates, c);
    let k = choose|k: int| 0 <= k < greedy(candidates).len() && greedy(candidates)[k] == c;
    lemma_greedy_from(candidates, k);
    lemma_candidates_are_similar_scenes(
        words,
        scene_tokens(script),
        scores,
        threshold,
        cutoff,
        c,
    );
}

/// Every mapping tells of a region of one of the transcripts that is similar enough to the scene
/// that it names.
pub proof fn lemma_mappings_tell_of_regions(
    script: Script,
    transcripts: Seq<Transcript>,
    scores: Seq<Seq<SceneScore>>,
    threshold: Real,
    cutoff: Real,
    n: nat,
    k: int,
)
    requires
        n <= transcripts.len(),
        scores.len() == transcripts.len(),
        forall|i: int|
            0 <= i < scores.len() ==> (#[trigger] scores[i]).len() == script.scenes@.len(),
        script.scenes@.len() <= usize::MAX,
        0 <= k < mappings_upto(script, transcripts, scores, threshold, cutoff, n).len(),
    ensures
        exists|i: int, c: CandidateRegion|
            0 <= i < n && c.scene_idx < script.scenes@.len() && tells_of(
                mappings_upto(script, transcripts, scores, threshold, cutoff, n)[k],
                script,
                transcripts[i],
                c,
            ) && #[trigger] is_region_of(
                transcript_tokens(transcripts[i].segments@),
                scene_tokens(script),
                scores[i],
                threshold,
                cutoff,
                c.scene_idx as int,
                c,
            ),
    decreases n,
{
    let front = mappings_upto(script, transcripts, scores, threshold, cutoff, (n - 1) as nat);
    let all = mappings_upto(script, transcripts, scores, threshold, cutoff, n);
    if k < front.len() {
        lemma_mappings_tell_of_regions(
            script,
            transcripts,
            scores,
            threshold,
            cutoff,
            (n - 1) as nat,
            k,
        );
        assert(all[k] == front[k]);
    } else {
        let t = transcripts[n - 1];
        assert(scores[n - 1].len() == script.scenes@.len());
        let regions = regions_of(script, t, scores[n - 1], threshold, cutoff);
        let c = regions[k - front.len()];
        assert(all[k] == mapping_of(script, t, c));
        assert(regions.contains(c));
        lemma_regions_name_scenes(script, t, scores[n - 1], threshold, cutoff, c);
        lemma_mapping_tells(script, t, c);
    }
}

proof fn lemma_mappings_of_transcript(
    script: Script,
    transcripts: Seq<Transcript>,
    scores: Seq<Seq<SceneScore>>,
    threshold: Real,
    cutoff: Real,
    n: nat,
    i: int,
    c: CandidateRegion,
)
    requires
        0 <= i < n <= transcripts.len(),
        regions_of(script, transcripts[i], scores[i], threshold, cutoff).contains(c),
    ensures
        mappings_upto(script, transcripts, scores, threshold, cutoff, n).contains(
            mapping_of(script, transcripts[i], c),
        ),
    decreases n,
{
    let front = mappings_upto(script, transcripts, scores, threshold, cutoff, (n - 1) as nat);
    let all = mappings_upto(script, transcripts, scores, threshold, cutoff, n);
    let m = mapping_of(script, transcripts[i], c);
    if i < n - 1 {
        lemma_mappings_of_transcript(
            script,
            transcripts,
            scores,
            threshold,
            cutoff,
            (n - 1) as nat,
            i,
            c,
        );
        let k = choose|k: int| 0 <= k < front.len() && front[k] == m;
        assert(all[k] == m);
    } else {
        let regions = regions_of(script, transcripts[i], scores[i], threshold, cutoff);
        let k = choose|k: int| 0 <= k < regions.len() && regions[k] == c;
        assert(all[front.len() + k] == m);
    }
}

/// A scene that is similar enough to a transcript is told of, unless a part of the transcript that
/// it shares is told of as another scene, with no less confidence.
pub proof fn lemma_similar_scenes_are_told_of(
    script: Script,
    transcripts: Seq<Transcript>,
    scores: Seq<Seq<SceneScore>>,
    threshold: Real,
    cutoff: Real,
    i: int,
    c: CandidateRegion,
)
    requires
        0 <= i < transcripts.len(),
        scores.len() == transcripts.len(),
        scores[i].len() == script.scenes@.len(),
        script.scenes@.len() <= usize::MAX,
        c.scene_idx < script.scenes@.len(),
        transcript_tokens(transcripts[i].segments@).len() > 0,
        is_region_of(
            transcript_tokens(transcripts[i].segments@),
            scene_tokens(script),
            scores[i],
            threshold,
            cutoff,
            c.scene_idx as int,
            c,
        ),
    ensures
        ({
            let all = mappings_upto(
                script,
                transcripts,
                scores,
                threshold,
                cutoff,
                transcripts.len(),
            );
            exists|d: CandidateRegion, m: MappingView|
                #![trigger all.contains(m), tells_of(m, script, transcripts[i], d)]
                all.contains(m) && tells_of(m, script, transcripts[i], d) && (d == c || (overlap(
                    c,
                    d,
                ) && descending(d.confidence) <= descending(c.confidence)))
        }),
{
    let words = transcript_tokens(transcripts[i].segments@);
    let scenes = scene_tokens(script);
    let candidates = candidates_of(words, scenes, scores[i], threshold, cutoff);
    let all = mappings_upto(script, transcripts, scores, threshold, cutoff, transcripts.len());
    let t = transcripts[i];
    lemma_candidates_are_similar_scenes(words, scenes, scores[i], threshold, cutoff, c);
    let x = choose|x: int| 0 <= x < candidates.len() && candidates[x] == c;
    let d = if greedy(candidates).contains(c) {
        c
    } else {
        lemma_what_goes_is_in_the_way(candidates, x);
        let j = choose|j: int|
            0 <= j < x && overlap(candidates[x], #[trigger] candidates[j]) && greedy(
                candidates,
            ).contains(candidates[j]);
        candidates[j]
    };
    lemma_resolved_is_taken(candidates, d);
    assert(regions_of(script, t, scores[i], threshold, cutoff).contains(d));
    lemma_regions_name_scenes(script, t, scores[i], threshold, cutoff, d);
    lemma_mapping_tells(script, t, d);
    lemma_mappings_of_transcript(
        script,
        transcripts,
        scores,
        threshold,
        cutoff,
        transcripts.len(),
        i,
        d,
    );
    assert(all.contains(mapping_of(script, t, d)));
}

/// Putting mappings in the order of the scenes adds none.
pub proof fn lemma_scene_order_adds_none(
    script: Script,
    mappings: Seq<MappingView>,
    m: MappingView,
)
    requires
        in_scene_order(script, mappings).contains(m),
    ensures
        mappings.contains(m),
        in_scene_order(script, mappings).len() == mappings.len(),
{
    let keys = mappings.map_values(
        |m: MappingView| scene_place(crate::script_align::scene_ids(script), m.scene_id),
    );
    lemma_order_by(keys);
    let r = in_scene_order(script, mappings);
    let k = choose|k: int| 0 <= k < r.len() && r[k] == m;
    assert(mappings[order_by(keys)[k]] == m);
}

/// The place of a scene is where its identifier stands, the last time it does.
pub proof fn lemma_scene_place(ids: Seq<Seq<char>>, k: int)
    requires
        0 <= k < ids.len(),
        forall|j: int| k < j < ids.len() ==> ids[j] != ids[k],
    ensures
        scene_place(ids, ids[k]) == k,
    decreases ids.len(),
{
    if k < ids.len() - 1 {
        assert(ids.last() == ids[ids.len() - 1]);
        assert forall|j: int| k < j < ids.len() - 1 implies ids.drop_last()[j]
            != ids.drop_last()[k] by {
            assert(ids[j] != ids[k]);
        }
        lemma_scene_place(ids.drop_last(), k);
    }
}

/// A recording is listed as unmatched only where it matches no scene.
pub proof fn lemma_unmatched_match_nothing(
    script: Script,
    transcripts: Seq<Transcript>,
    scores: Seq<Seq<SceneScore>>,
    threshold: Real,
    cutoff: Real,
    n: nat,
    path: Seq<char>,
)
    requires
        n <= transcripts.len(),
        unmatched_upto(script, transcripts, scores, threshold, cutoff, n).contains(path),
        forall|i: int, j: int|
            0 <= i < j < transcripts.len() ==> (#[trigger] transcripts[i]).source_path@ != (
            #[trigger] transcripts[j]).source_path@,
    ensures
        forall|k: int|
            0 <= k < mappings_upto(script, transcripts, scores, threshold, cutoff, n).len() ==> (
            #[trigger] mappings_upto(
                script,
                transcripts,
                scores,
                threshold,
                cutoff,
                n,
            )[k]).clip_source_path != path,
        exists|i: int| 0 <= i < n && (#[trigger] transcripts[i]).source_path@ == path,
    decreases n,
{
    if n > 0 {
        let m = (n - 1) as nat;
        let t = transcripts[n - 1];
        let front = mappings_upto(script, transcripts, scores, threshold, cutoff, m);
        let all = mappings_upto(script, transcripts, scores, threshold, cutoff, n);
        let others = unmatched_upto(script, transcripts, scores, threshold, cutoff, m);
        let listed = unmatched_upto(script, transcripts, scores, threshold, cutoff, n);
        let regions = regions_of(script, t, scores[n - 1], threshold, cutoff);
        if others.contains(path) {
            lemma_unmatched_match_nothing(
                script,
                transcripts,
                scores,
                threshold,
                cutoff,
                m,
                path,
            );
            let i = choose|i: int| 0 <= i < m && (#[trigger] transcripts[i]).source_path@ == path;
            assert(transcripts[i].source_path@ != transcripts[n - 1].source_path@);
            assert forall|k: int| 0 <= k < all.len() implies (#[trigger] all[k]).clip_source_path
                != path by {
                if k < front.len() {
                    assert(all[k] == front[k]);
                } else {
                    assert(all[k] == mapping_of(script, t, regions[k - front.len()]));
                }
            }
        } else {
            let x = choose|x: int| 0 <= x < listed.len() && listed[x] == path;
            if x < others.len() {
                assert(others[x] == path);
            }
            assert(regions.len() == 0 && t.source_path@ == path);
            assert(all =~= front);
            lemma_mappings_have_paths(script, transcripts, scores, threshold, cutoff, m);
            assert(transcripts[n - 1].source_path@ == path);
        }
    }
}

proof fn lemma_mappings_have_paths(
    script: Script,
    transcripts: Seq<Transcript>,
    scores: Seq<Seq<SceneScore>>,
    threshold: Real,
    cutoff: Real,
    n: nat,
)
    requires
        n < transcripts.len(),
        forall|i: int, j: int|
            0 <= i < j < transcripts.len() ==> (#[trigger] transcripts[i]).source_path@ != (
            #[trigger] transcripts[j]).source_path@,
    ensures
        forall|k: int, j: int|
            0 <= k < mappings_upto(script, transcripts, scores, threshold, cutoff, n).len() && n
                <= j < transcripts.len() ==> (#[trigger] mappings_upto(
                script,
                transcripts,
                scores,
                threshold,
                cutoff,
                n,
            )[k]).clip_source_path != (#[trigger] transcripts[j]).source_path@,
    decreases n,
{
    if n > 0 {
        let front = mappings_upto(script, transcripts, scores, threshold, cutoff, (n - 1) as nat);
        let all = mappings_upto(script, transcripts, scores, threshold, cutoff, n);
        let t = transcripts[n - 1];
        let regions = regions_of(script, t, scores[n - 1], threshold, cutoff);
        lemma_mappings_have_paths(script, transcripts, scores, threshold, cutoff, (n - 1) as nat);
        assert forall|k: int, j: int|
            0 <= k < all.len() && n <= j < transcripts.len() implies (
        #[trigger] all[k]).clip_source_path != (#[trigger] transcripts[j]).source_path@ by {
            if k < front.len() {
                assert(all[k] == front[k]);
            } else {
                assert(all[k] == mapping_of(script, t, regions[k - front.len()]));
                assert(transcripts[n - 1].source_path@ != transcripts[j].source_path@);
            }
        }
    }
}

// -------------------------------------------------------------- coarse terms
/// The frequency of a word is the number of scenes that have it.
pub proof fn lemma_frequency(scenes: Seq<Seq<Seq<char>>>, word: Seq<char>)
    ensures
        frequency_upto(scenes, word, scenes.len()) == scenes.filter(
            |s: Seq<Seq<char>>| s.contains(word),
        ).len(),
{
    lemma_frequency_upto(scenes, word, scenes.len());
    assert(scenes.subrange(0, scenes.len() as int) =~= scenes);
}

proof fn lemma_frequency_upto(scenes: Seq<Seq<Seq<char>>>, word: Seq<char>, n: nat)
    requires
        n <= scenes.len(),
    ensures
        frequency_upto(scenes, word, n) == scenes.subrange(0, n as int).filter(
            |s: Seq<Seq<char>>| s.contains(word),
        ).len(),
    decreases n,
{
    reveal(Seq::filter);
    if n > 0 {
        lemma_frequency_upto(scenes, word, (n - 1) as nat);
        assert(scenes.subrange(0, n as int).drop_last() =~= scenes.subrange(0, n - 1));
    }
}

/// Whether an element is spoken by one whose name in lower case is `name`.
pub open spec fn is_spoken_by(e: ScriptElement, name: Seq<char>) -> bool {
    e.character matches Some(c) && lowercase(c@) == name
}

proof fn lemma_speakers(elements: Seq<ScriptElement>, n: nat, name: Seq<char>)
    requires
        n <= elements.len(),
    ensures
        speakers_upto(elements, n).contains(name) <==> exists|k: int|
            0 <= k < n && is_spoken_by(#[trigger] elements[k], name),
    decreases n,
{
    if n > 0 {
        let front = speakers_upto(elements, (n - 1) as nat);
        let all = speakers_upto(elements, n);
        lemma_speakers(elements, (n - 1) as nat, name);
        if front.contains(name) {
            let k = choose|k: int| 0 <= k < front.len() && front[k] == name;
            assert(all[k] == name);
        }
        if is_spoken_by(elements[n - 1], name) {
            assert(all[all.len() - 1] == name);
        }
        if all.contains(name) && !front.contains(name) {
            let k = choose|k: int| 0 <= k < all.len() && all[k] == name;
            if k < front.len() {
                assert(front[k] == name);
            }
            assert(is_spoken_by(elements[n - 1], name));
        }
        if exists|k: int| 0 <= k < n && is_spoken_by(#[trigger] elements[k], name) {
            let k = choose|k: int| 0 <= k < n && is_spoken_by(#[trigger] elements[k], name);
            assert(k < n - 1 || k == n - 1);
        }
    }
}

/// The characters of a script are those who speak in one of its scenes.
pub proof fn lemma_characters(script: Script, n: nat, name: Seq<char>)
    requires
        n <= script.scenes@.len(),
    ensures
        characters_upto(script, n).contains(name) <==> exists|s: int, k: int|
            #![trigger script.scenes@[s].elements@[k]]
            0 <= s < n && 0 <= k < script.scenes@[s].elements@.len() && is_spoken_by(
                script.scenes@[s].elements@[k],
                name,
            ),
    decreases n,
{
    if n > 0 {
        let e = script.scenes@[n - 1].elements@;
        let front = characters_upto(script, (n - 1) as nat);
        let own = speakers_upto(e, e.len());
        let all = characters_upto(script, n);
        lemma_characters(script, (n - 1) as nat, name);
        lemma_speakers(e, e.len(), name);
        if front.contains(name) {
            let k = choose|k: int| 0 <= k < front.len() && front[k] == name;
            assert(all[k] == name);
        }
        if own.contains(name) {
            let k = choose|k: int| 0 <= k < own.len() && own[k] == name;
            assert(all[front.len() + k] == name);
            let x = choose|x: int| 0 <= x < e.len() && is_spoken_by(#[trigger] e[x], name);
            assert(is_spoken_by(script.scenes@[n - 1].elements@[x], name));
        }
        if all.contains(name) {
            let k = choose|k: int| 0 <= k < all.len() && all[k] == name;
            if k < front.len() {
                assert(front[k] == name);
            } else {
                assert(own[k - front.len()] == name);
            }
        }
        if exists|s: int, k: int|
            #![trigger script.scenes@[s].elements@[k]]
            0 <= s < n && 0 <= k < script.scenes@[s].elements@.len() && is_spoken_by(
                script.scenes@[s].elements@[k],
                name,
            ) {
            let (s, k) = choose|s: int, k: int|
                #![trigger script.scenes@[s].elements@[k]]
                0 <= s < n && 0 <= k < script.scenes@[s].elements@.len() && is_spoken_by(
                    script.scenes@[s].elements@[k],
                    name,
                );
            if s == n - 1 {
                assert(is_spoken_by(e[k], name));
            }
        }
    }
}

} // verus!
