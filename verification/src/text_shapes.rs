//! What trimming, joining, escaping and writing numbers do to texts.

use crate::text::{
    ascii_lower, ascii_upper, before, decimal, digit_char, escaped, fixed_digits,
    is_white, join, lemma_decimal, lemma_trim_ends, number, replace_char, signed_decimal, trim,
    trim_end, trim_start, };
use vstd::prelude::*;

verus! {

// ------------------------------------------------------------------ trimming
proof fn lemma_trim_start_is_end(s: Seq<char>) -> (a: int)
    ensures
        0 <= a <= s.len(),
        trim_start(s) == s.subrange(a, s.len() as int),
        forall|k: int| 0 <= k < a ==> is_white(#[trigger] s[k]),
    decreases s.len(),
{
    if s.len() > 0 && is_white(s[0]) {
        let rest = s.drop_first();
        let a = lemma_trim_start_is_end(rest);
        assert(rest.subrange(a, rest.len() as int) =~= s.subrange(a + 1, s.len() as int));
        assert forall|k: int| 0 <= k < a + 1 implies is_white(#[trigger] s[k]) by {
            if k > 0 {
                assert(rest[k - 1] == s[k]);
            }
        }
        a + 1
    } else {
        assert(s =~= s.subrange(0, s.len() as int));
        0
    }
}

proof fn lemma_trim_end_is_front(s: Seq<char>) -> (b: int)
    ensures
        0 <= b <= s.len(),
        trim_end(s) == s.subrange(0, b),
        forall|k: int| b <= k < s.len() ==> is_white(#[trigger] s[k]),
    decreases s.len(),
{
    if s.len() > 0 && is_white(s.last()) {
        let front = s.drop_last();
        let b = lemma_trim_end_is_front(front);
        assert(front.subrange(0, b) =~= s.subrange(0, b));
        assert forall|k: int| b <= k < s.len() implies is_white(#[trigger] s[k]) by {
            if k < front.len() {
                assert(front[k] == s[k]);
            }
        }
        b
    } else {
        assert(s =~= s.subrange(0, s.len() as int));
        s.len() as int
    }
}

/// Trimming takes off white space at the ends and nothing else: what is left stands in the text, all
/// before and behind it is white, and its own ends are not.
pub proof fn lemma_trim_is_middle(s: Seq<char>)
    ensures
        exists|a: int, b: int|
            #![trigger s.subrange(a, b)]
            0 <= a <= b <= s.len() && trim(s) == s.subrange(a, b) && (forall|k: int|
                0 <= k < a ==> is_white(#[trigger] s[k])) && (forall|k: int|
                b <= k < s.len() ==> is_white(#[trigger] s[k])),
        trim(s).len() > 0 ==> !is_white(trim(s)[0]) && !is_white(trim(s).last()),
        trim(s).len() == 0 <==> forall|k: int| 0 <= k < s.len() ==> is_white(#[trigger] s[k]),
{
    let a = lemma_trim_start_is_end(s);
    let t = trim_start(s);
    let b = lemma_trim_end_is_front(t);
    lemma_trim_ends(s);
    assert(t.subrange(0, b) =~= s.subrange(a, a + b));
    assert forall|k: int| a + b <= k < s.len() implies is_white(#[trigger] s[k]) by {
        assert(t[k - a] == s[k]);
    }
    if trim(s).len() == 0 {
        assert forall|k: int| 0 <= k < s.len() implies is_white(#[trigger] s[k]) by {
            assert(k < a || a + b <= k);
        }
    } else {
        assert(trim(s)[0] == s[a]);
        assert(!is_white(s[a]));
    }
}

/// White space of ASCII is the blank and the five characters from tab to carriage return.
pub proof fn lemma_ascii_white(c: char)
    requires
        (c as u32) < 0x80,
    ensures
        is_white(c) <==> c == ' ' || c == '\t' || c == '\n' || c == '\r' || (c as u32) == 11 || (
        c as u32) == 12,
{
    assert((' ' as u32) == 32 && ('\t' as u32) == 9 && ('\n' as u32) == 10 && ('\r' as u32) == 13);
}

// ------------------------------------------------------------------- letters
/// Only ASCII letters have another case, and going there and back changes nothing.
pub proof fn lemma_ascii_cases(c: char)
    ensures
        'A' <= c <= 'Z' ==> 'a' <= ascii_lower(c) <= 'z' && ascii_upper(ascii_lower(c)) == c,
        'a' <= c <= 'z' ==> 'A' <= ascii_upper(c) <= 'Z' && ascii_lower(ascii_upper(c)) == c,
        !('A' <= c <= 'Z') ==> ascii_lower(c) == c,
        !('a' <= c <= 'z') ==> ascii_upper(c) == c,
        ascii_lower(ascii_lower(c)) == ascii_lower(c),
{
}

// -------------------------------------------------------------- putting together
/// Joined texts are the texts in order, each but the first behind the separator.
pub proof fn lemma_join(parts: Seq<Seq<char>>, x: Seq<char>, sep: Seq<char>)
    ensures
        join(Seq::<Seq<char>>::empty(), sep).len() == 0,
        join(seq![x], sep) == x,
        parts.len() > 0 ==> join(parts.push(x), sep) == join(parts, sep) + sep + x,
{
    assert(parts.push(x).drop_last() =~= parts);
}

/// Replacing goes character by character.
pub proof fn lemma_replace_char(a: Seq<char>, b: Seq<char>, c: char, by: Seq<char>)
    ensures
        replace_char(a + b, c, by) == replace_char(a, c, by) + replace_char(b, c, by),
        replace_char(seq![c], c, by) == by,
        forall|x: char| x != c ==> #[trigger] replace_char(seq![x], c, by) == seq![x],
    decreases b.len(),
{
    assert(seq![c].drop_last() =~= Seq::empty());
    assert(replace_char(seq![c].drop_last(), c, by) =~= Seq::empty());
    assert(replace_char(seq![c], c, by) =~= by);
    assert forall|x: char| x != c implies #[trigger] replace_char(seq![x], c, by) == seq![x] by {
        assert(seq![x].drop_last() =~= Seq::empty());
        assert(replace_char(seq![x].drop_last(), c, by) =~= Seq::empty());
        assert(replace_char(seq![x], c, by) =~= seq![x]);
    }
    if b.len() == 0 {
        assert(a + b =~= a);
        assert(replace_char(a, c, by) + replace_char(b, c, by) =~= replace_char(a, c, by));
    } else {
        lemma_replace_char(a, b.drop_last(), c, by);
        assert((a + b).drop_last() =~= a + b.drop_last());
        assert(replace_char(a + b, c, by) =~= replace_char(a, c, by) + replace_char(b, c, by));
    }
}

/// Escaping goes character by character: a special one gets a backslash before it, any other stays.
pub proof fn lemma_escaped(a: Seq<char>, b: Seq<char>, special: Seq<char>)
    ensures
        escaped(a + b, special) == escaped(a, special) + escaped(b, special),
        forall|x: char| #[trigger]
            escaped(seq![x], special) == (if special.contains(x) {
                seq!['\\', x]
            } else {
                seq![x]
            }),
    decreases b.len(),
{
    assert forall|x: char| #[trigger]
        escaped(seq![x], special) == (if special.contains(x) {
            seq!['\\', x]
        } else {
            seq![x]
        }) by {
        assert(seq![x].drop_last() =~= Seq::empty());
        assert(escaped(seq![x].drop_last(), special) =~= Seq::empty());
        if special.contains(x) {
            assert(escaped(seq![x], special) =~= seq!['\\', x]);
        } else {
            assert(escaped(seq![x], special) =~= seq![x]);
        }
    }
    if b.len() == 0 {
        assert(a + b =~= a);
        assert(escaped(a, special) + escaped(b, special) =~= escaped(a, special));
    } else {
        lemma_escaped(a, b.drop_last(), special);
        assert((a + b).drop_last() =~= a + b.drop_last());
        assert(escaped(a + b, special) =~= escaped(a, special) + escaped(b, special));
    }
}

// ------------------------------------------------------------------- numbers
/// Different numbers are written differently.
pub proof fn lemma_decimals_told_apart(a: nat, b: nat)
    requires
        decimal(a) == decimal(b),
    ensures
        a == b,
{
    lemma_decimal(a);
    lemma_decimal(b);
}

/// A number that is written in decimal is read as that number where it is not too large, with or
/// without a plus sign.
pub proof fn lemma_number_reads_back(n: nat, max: nat)
    ensures
        number(decimal(n), max) == (if n <= max {
            Some(n)
        } else {
            None::<nat>
        }),
        number(seq!['+'] + decimal(n), max) == number(decimal(n), max),
{
    lemma_decimal(n);
    let s = seq!['+'] + decimal(n);
    assert(s.subrange(1, s.len() as int) =~= decimal(n));
}

/// A number below zero has a minus sign before its digits.
pub proof fn lemma_signed_decimal(n: nat)
    requires
        n > 0,
    ensures
        signed_decimal(-(n as int)) == seq!['-'] + decimal(n),
        signed_decimal(n as int) == decimal(n),
        signed_decimal(0) == decimal(0),
{
}

/// A number of fixed width has as many digits as asked for; the last one is the remainder, and those
/// before it are the quotient.
pub proof fn lemma_fixed_digits(n: nat, base: nat, width: nat)
    requires
        2 <= base <= 16,
    ensures
        fixed_digits(n, base, width).len() == width,
        width > 0 ==> fixed_digits(n, base, width).last() == digit_char(n % base),
        width > 0 ==> fixed_digits(n, base, width).drop_last() == fixed_digits(
            n / base,
            base,
            (width - 1) as nat,
        ),
    decreases width,
{
    if width > 0 {
        lemma_fixed_digits(n / base, base, (width - 1) as nat);
        assert(fixed_digits(n, base, width).drop_last() =~= fixed_digits(
            n / base,
            base,
            (width - 1) as nat,
        ));
    }
}

/// Digits below ten are `0` to `9`, those above are `a` to `f`.
pub proof fn lemma_digit_char(d: nat)
    requires
        d < 16,
    ensures
        d < 10 ==> '0' <= digit_char(d) <= '9' && digit_char(d) as nat - '0' as nat == d,
        d >= 10 ==> 'a' <= digit_char(d) <= 'f' && digit_char(d) as nat - 'a' as nat == d - 10,
{
}

// --------------------------------------------------------------------- order
/// Texts are ordered by the first character in which they differ; one that ends there comes first.
pub proof fn lemma_before(p: Seq<char>, a: Seq<char>, b: Seq<char>)
    ensures
        before(p + a, p + b) == before(a, b),
        !before(a, a),
        b.len() > 0 ==> before(a, a + b),
        a.len() > 0 && b.len() > 0 && a[0] < b[0] ==> before(a, b) && !before(b, a),
    decreases p.len(), a.len(),
{
    if p.len() > 0 {
        let q = p.drop_first();
        lemma_before(q, a, b);
        assert((p + a).drop_first() =~= q + a);
        assert((p + b).drop_first() =~= q + b);
        assert((p + a)[0] == p[0] && (p + b)[0] == p[0]);
    } else {
        assert(p + a =~= a);
        assert(p + b =~= b);
        if a.len() > 0 {
            lemma_before(p, a.drop_first(), b);
            assert((a + b).drop_first() =~= a.drop_first() + b);
        } else {
            assert(a + b =~= b);
        }
    }
}

} // verus!
