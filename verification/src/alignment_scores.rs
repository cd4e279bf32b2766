//! What the score of an alignment says of the words on both sides.

use crate::script_align::{
    below_cap, lemma_alignment_covers_its_words, lemma_no_alignment_is_better, lemma_score_bounds,
    local_alignment, Alignment, AlignmentStep,
};
use vstd::prelude::*;

verus! {

/// How many steps pair equal words.
spec fn pairs(al: Alignment, a: Seq<Seq<char>>, b: Seq<Seq<char>>) -> nat
    decreases al.steps.len(),
{
    if al.steps.len() == 0 {
        0
    } else {
        let e = al.end();
        pairs(al.shorter(), a, b) + (if al.steps.last() is Both && a[e.0 - 1] == b[e.1 - 1] {
            1nat
        } else {
            0
        })
    }
}

proof fn lemma_pairs(al: Alignment, a: Seq<Seq<char>>, b: Seq<Seq<char>>)
    ensures
        al.score(a, b) == 2 * pairs(al, a, b) - (al.steps.len() - pairs(al, a, b)),
        pairs(al, a, b) <= al.steps.len(),
        al.before.0 + pairs(al, a, b) <= al.end().0,
        al.before.1 + pairs(al, a, b) <= al.end().1,
        al.before.0 <= al.end().0,
        al.before.1 <= al.end().1,
    decreases al.steps.len(),
{
    if al.steps.len() > 0 {
        lemma_pairs(al.shorter(), a, b);
    }
}

/// Where every step pairs equal words, the two blocks are the same.
proof fn lemma_all_pairs(al: Alignment, a: Seq<Seq<char>>, b: Seq<Seq<char>>, k: int)
    requires
        pairs(al, a, b) == al.steps.len(),
        0 <= k < al.steps.len(),
    ensures
        a[al.before.0 + k] == b[al.before.1 + k],
        al.end() == (al.before.0 + al.steps.len(), al.before.1 + al.steps.len()),
    decreases al.steps.len(),
{
    lemma_pairs(al.shorter(), a, b);
    if al.steps.len() == 1 {
        assert(al.shorter().steps.len() == 0);
        assert(al.shorter().end() == al.before);
    } else if k < al.steps.len() - 1 {
        lemma_all_pairs(al.shorter(), a, b, k);
    } else {
        lemma_all_pairs(al.shorter(), a, b, 0);
    }
}

/// A scene has its full score, 2 for each of its words, only where its words stand in the transcript
/// as they are, one after the other.
pub proof fn lemma_full_score_is_verbatim(a: Seq<Seq<char>>, b: Seq<Seq<char>>)
    requires
        below_cap(a, b),
        b.len() > 0,
        local_alignment(a, b).0 == 2 * b.len(),
    ensures
        exists|i: int|
            0 <= i && i + b.len() <= a.len() && #[trigger] a.subrange(i, i + b.len()) == b,
{
    lemma_alignment_covers_its_words(a, b);
    let (score, first, last) = local_alignment(a, b);
    let al = choose|al: Alignment| #[trigger]
        al.covers(a, b, first, last) && al.score(a, b) == score;
    lemma_pairs(al, a, b);
    assert(pairs(al, a, b) == b.len());
    assert(al.steps.len() == b.len());
    lemma_all_pairs(al, a, b, 0);
    let i = al.before.0 as int;
    assert(al.before.1 == 0);
    assert forall|k: int| 0 <= k < b.len() implies a[i + k] == b[k] by {
        lemma_all_pairs(al, a, b, k);
    }
    assert(a.subrange(i, i + b.len()) =~= b);
}

/// The alignment with `n` more pairs.
spec fn with_pairs(al: Alignment, n: nat) -> Alignment
    decreases n,
{
    if n == 0 {
        al
    } else {
        with_pairs(al, (n - 1) as nat).then_step(AlignmentStep::Both)
    }
}

proof fn lemma_step(al: Alignment, s: AlignmentStep)
    ensures
        al.then_step(s).shorter() == al,
        al.then_step(s).steps.last() == s,
{
    assert(al.then_step(s).steps.drop_last() =~= al.steps);
}

proof fn lemma_with_pairs(al: Alignment, n: nat, a: Seq<Seq<char>>, b: Seq<Seq<char>>)
    requires
        forall|k: int|
            0 <= k < n ==> #[trigger] a[al.end().0 as int + k] == b[al.end().1 as int + k],
    ensures
        with_pairs(al, n).end() == (al.end().0 + n, al.end().1 + n),
        with_pairs(al, n).score(a, b) == al.score(a, b) + 2 * n,
    decreases n,
{
    if n > 0 {
        let m = (n - 1) as nat;
        lemma_with_pairs(al, m, a, b);
        lemma_step(with_pairs(al, m), AlignmentStep::Both);
        assert(a[al.end().0 as int + m as int] == b[al.end().1 as int + m as int]);
    }
}

/// A scene whose words stand in the transcript one after the other has its full score.
pub proof fn lemma_verbatim_scores_full(a: Seq<Seq<char>>, b: Seq<Seq<char>>, i: int)
    requires
        below_cap(a, b),
        0 <= i,
        i + b.len() <= a.len(),
        a.subrange(i, i + b.len()) == b,
    ensures
        local_alignment(a, b).0 == 2 * b.len(),
{
    let start = Alignment { before: (i as nat, 0), steps: Seq::empty() };
    assert(start.end() == (i as nat, 0nat));
    assert forall|k: int| 0 <= k < b.len() implies #[trigger] a[start.end().0 as int + k]
        == b[start.end().1 as int + k] by {
        assert(a.subrange(i, i + b.len())[k] == a[i + k]);
    }
    lemma_with_pairs(start, b.len(), a, b);
    lemma_no_alignment_is_better(a, b);
    let al = with_pairs(start, b.len());
    assert(al.fits(a, b));
    assert(al.score(a, b) == 2 * b.len());
    lemma_score_bounds(a, b);
}

/// A word that was added, left out or changed costs one: what stands on both sides of it still
/// counts.
pub proof fn lemma_one_change_costs_one(
    x: Seq<Seq<char>>,
    w: Seq<char>,
    v: Seq<char>,
    y: Seq<Seq<char>>,
)
    requires
        2 * (x.len() + y.len() + 1) <= 0x7fff_ffff,
    ensures
        local_alignment(x.push(w) + y, x + y).0 >= 2 * (x.len() + y.len()) - 1,
        local_alignment(x + y, x.push(w) + y).0 >= 2 * (x.len() + y.len()) - 1,
        local_alignment(x.push(w) + y, x.push(v) + y).0 >= 2 * (x.len() + y.len()) - 1,
{
    lemma_change(x.push(w) + y, x + y, x, y, AlignmentStep::First);
    lemma_change(x + y, x.push(w) + y, x, y, AlignmentStep::Second);
    lemma_change(x.push(w) + y, x.push(v) + y, x, y, AlignmentStep::Both);
}

proof fn lemma_change(
    a: Seq<Seq<char>>,
    b: Seq<Seq<char>>,
    x: Seq<Seq<char>>,
    y: Seq<Seq<char>>,
    s: AlignmentStep,
)
    requires
        2 * (x.len() + y.len() + 1) <= 0x7fff_ffff,
        a.len() == x.len() + y.len() + if s is Second {
            0int
        } else {
            1
        },
        b.len() == x.len() + y.len() + if s is First {
            0int
        } else {
            1
        },
        forall|k: int| 0 <= k < x.len() ==> #[trigger] a[k] == b[k],
        forall|k: int|
            0 <= k < y.len() ==> #[trigger] y[k] == a[a.len() - y.len() + k] && y[k] == b[b.len()
                - y.len() + k],
    ensures
        local_alignment(a, b).0 >= 2 * (x.len() + y.len()) - 1,
{
    let start = Alignment { before: (0, 0), steps: Seq::empty() };
    assert(start.end() == (0nat, 0nat));
    assert forall|k: int| 0 <= k < x.len() implies #[trigger] a[start.end().0 as int + k]
        == b[start.end().1 as int + k] by {
        assert(a[k] == b[k]);
    }
    lemma_with_pairs(start, x.len(), a, b);
    let one = with_pairs(start, x.len());
    let two = one.then_step(s);
    lemma_step(one, s);
    assert(two.score(a, b) >= 2 * x.len() - 1);
    assert forall|k: int| 0 <= k < y.len() implies #[trigger] a[two.end().0 as int + k]
        == b[two.end().1 as int + k] by {
        assert(y[k] == a[a.len() - y.len() + k] && y[k] == b[b.len() - y.len() + k]);
    }
    lemma_with_pairs(two, y.len(), a, b);
    let al = with_pairs(two, y.len());
    lemma_no_alignment_is_better(a, b);
    assert(al.fits(a, b));
}

} // verus!
