//! Cutting texts at patterns, and numbers in hexadecimal.

use crate::text::{
    chars_of, ends, first_index, first_of, fixed_digits, digit_char, found_at, lemma_first_of,
    occurs_at, sub_chars,
};
use vstd::prelude::*;

verus! {

/// The last place at or before `n` where `p` occurs in `s`.
pub open spec fn last_match(s: Seq<char>, p: Seq<char>, n: int) -> Option<int>
    decreases n + 1,
{
    if n < 0 {
        None
    } else if occurs_at(s, p, n) {
        Some(n)
    } else {
        last_match(s, p, n - 1)
    }
}

/// What stands before and after the last `p` in `s`.
pub open spec fn cut_last(s: Seq<char>, p: Seq<char>) -> Option<(Seq<char>, Seq<char>)> {
    match last_match(s, p, s.len() as int) {
        Some(i) => Some((s.subrange(0, i), s.subrange(i + p.len(), s.len() as int))),
        None => None,
    }
}

/// What stands before and after the first `c` in `s`.
pub open spec fn cut_first(s: Seq<char>, c: char) -> Option<(Seq<char>, Seq<char>)> {
    let i = first_of(s, c);
    if i < s.len() {
        Some((s.subrange(0, i), s.subrange(i + 1, s.len() as int)))
    } else {
        None
    }
}

/// `s` without the `p` at its end.
pub open spec fn without_end(s: Seq<char>, p: Seq<char>) -> Option<Seq<char>> {
    if ends(s, p) {
        Some(s.subrange(0, s.len() - p.len()))
    } else {
        None
    }
}

/// A place where `p` occurs, with none after it, is the last one.
pub proof fn lemma_last_match(s: Seq<char>, p: Seq<char>, i: int, n: int)
    requires
        0 <= i <= n,
        occurs_at(s, p, i),
        forall|k: int| i < k <= n ==> !#[trigger] occurs_at(s, p, k),
    ensures
        last_match(s, p, n) == Some(i),
    decreases n - i,
{
    if i < n {
        lemma_last_match(s, p, i, n - 1);
    }
}

/// A place found by `last_match` is one where the pattern occurs.
pub proof fn lemma_last_match_occurs(s: Seq<char>, p: Seq<char>, n: int)
    ensures
        last_match(s, p, n) matches Some(i) ==> 0 <= i <= n && occurs_at(s, p, i),
    decreases n + 1,
{
    if n >= 0 && !occurs_at(s, p, n) {
        lemma_last_match_occurs(s, p, n - 1);
    }
}

/// Cuts `s` at the last `p`.
pub fn cut_at_last(s: &Vec<char>, p: &str) -> (r: Option<(Vec<char>, Vec<char>)>)
    ensures
        match r {
            Some(c) => cut_last(s@, p@) == Some((c.0@, c.1@)),
            None => cut_last(s@, p@) is None,
        },
{
    let pat: Vec<char> = chars_of(p);
    let mut n: usize = s.len();
    loop
        invariant
            n <= s@.len(),
            pat@ == p@,
            last_match(s@, p@, s@.len() as int) == last_match(s@, p@, n as int),
        decreases n,
    {
        if found_at(s, &pat, n) {
            proof {
                assert(n + pat.len() <= s.len());
            }
            let head: Vec<char> = sub_chars(s, 0, n);
            let tail: Vec<char> = sub_chars(s, n + pat.len(), s.len());
            return Some((head, tail));
        }
        if n == 0 {
            return None;
        }
        n = n - 1;
    }
}

/// Cuts `s` at the first `c`.
pub fn cut_at_first(s: &Vec<char>, c: char) -> (r: Option<(Vec<char>, Vec<char>)>)
    ensures
        match r {
            Some(x) => cut_first(s@, c) == Some((x.0@, x.1@)),
            None => cut_first(s@, c) is None,
        },
{
    proof {
        lemma_first_of(s@, c);
    }
    match first_index(s, c) {
        Some(i) => Some((sub_chars(s, 0, i), sub_chars(s, i + 1, s.len()))),
        None => None,
    }
}

/// `s` without the `p` at its end.
pub fn strip_end(s: &Vec<char>, p: &str) -> (r: Option<Vec<char>>)
    ensures
        match r {
            Some(c) => without_end(s@, p@) == Some(c@),
            None => without_end(s@, p@) is None,
        },
{
    let pat: Vec<char> = chars_of(p);
    if pat.len() > s.len() || !found_at(s, &pat, s.len() - pat.len()) {
        return None;
    }
    Some(sub_chars(s, 0, s.len() - pat.len()))
}

// --------------------------------------------------------------- hexadecimal
/// The value of a hexadecimal digit in either case.
pub open spec fn hex_value(c: char) -> Option<nat> {
    if '0' <= c && c <= '9' {
        Some((c as nat - 48) as nat)
    } else if 'a' <= c && c <= 'f' {
        Some((c as nat - 87) as nat)
    } else if 'A' <= c && c <= 'F' {
        Some((c as nat - 55) as nat)
    } else {
        None
    }
}

/// The value of hexadecimal digits.
pub open spec fn hex_digits(s: Seq<char>) -> Option<nat>
    decreases s.len(),
{
    if s.len() == 0 {
        Some(0)
    } else {
        match (hex_digits(s.drop_last()), hex_value(s.last())) {
            (Some(n), Some(d)) => Some(n * 16 + d),
            _ => None,
        }
    }
}

/// The number below 2^64 that `s` writes in hexadecimal, an optional plus sign before its digits.
pub open spec fn hex_number(s: Seq<char>) -> Option<nat> {
    let d = crate::text::unsigned_part(s);
    match hex_digits(d) {
        Some(n) => if d.len() > 0 && n <= u64::MAX {
            Some(n)
        } else {
            None
        },
        None => None,
    }
}

proof fn lemma_hex_grows(s: Seq<char>, i: int)
    requires
        0 <= i <= s.len(),
        hex_digits(s) is Some,
    ensures
        hex_digits(s.subrange(0, i)) is Some,
        hex_digits(s.subrange(0, i))->Some_0 <= hex_digits(s)->Some_0,
    decreases s.len(),
{
    if i == s.len() {
        assert(s.subrange(0, i) =~= s);
    } else {
        assert(s.subrange(0, i) =~= s.drop_last().subrange(0, i));
        lemma_hex_grows(s.drop_last(), i);
    }
}

/// The number that the characters write in hexadecimal.
pub fn parse_hex(s: &Vec<char>) -> (r: Option<u64>)
    ensures
        match r {
            Some(n) => hex_number(s@) == Some(n as nat),
            None => hex_number(s@) is None,
        },
{
    let start: usize = if s.len() > 0 && s[0] == '+' {
        1
    } else {
        0
    };
    let ghost d = crate::text::unsigned_part(s@);
    proof {
        assert(d =~= s@.subrange(start as int, s@.len() as int));
    }
    if start == s.len() {
        return None;
    }
    let mut n: u64 = 0;
    let mut i: usize = start;
    while i < s.len()
        invariant
            start <= i <= s@.len(),
            d == s@.subrange(start as int, s@.len() as int),
            d == crate::text::unsigned_part(s@),
            hex_digits(d.subrange(0, i - start)) == Some(n as nat),
        decreases s.len() - i,
    {
        let c: char = s[i];
        let ghost next = d.subrange(0, i - start + 1);
        proof {
            assert(next.drop_last() =~= d.subrange(0, i - start));
            assert(next.last() == c);
            if hex_digits(d) is Some {
                lemma_hex_grows(d, i - start + 1);
            }
        }
        let v: u64 = if '0' <= c && c <= '9' {
            (c as u32 - 48) as u64
        } else if 'a' <= c && c <= 'f' {
            (c as u32 - 87) as u64
        } else if 'A' <= c && c <= 'F' {
            (c as u32 - 55) as u64
        } else {
            return None;
        };
        if n > 0x0fff_ffff_ffff_ffff {
            return None;
        }
        n = n * 16 + v;
        i = i + 1;
    }
    proof {
        assert(d.subrange(0, i - start) =~= d);
    }
    Some(n)
}

/// The digit characters of hexadecimal have their values.
pub proof fn lemma_hex_value(d: nat)
    requires
        d < 16,
    ensures
        hex_value(digit_char(d)) == Some(d),
        digit_char(d) != '+',
        digit_char(d) != '-',
        digit_char(d) != '/',
        digit_char(d) != '.',
{
}

/// Digits written with a fixed width read back as the number.
pub proof fn lemma_fixed_hex(n: nat, width: nat)
    requires
        n < vstd::arithmetic::power::pow(16, width),
    ensures
        fixed_digits(n, 16, width).len() == width,
        hex_digits(fixed_digits(n, 16, width)) == Some(n),
        forall|i: int|
            0 <= i < width ==> {
                let c = #[trigger] fixed_digits(n, 16, width)[i];
                c != '+' && c != '-' && c != '/' && c != '.'
            },
    decreases width,
{
    vstd::arithmetic::power::lemma_pow0(16);
    if width > 0 {
        let m = n / 16;
        let w = (width - 1) as nat;
        assert(m < vstd::arithmetic::power::pow(16, w)) by {
            reveal(vstd::arithmetic::power::pow);
        }
        lemma_fixed_hex(m, w);
        lemma_hex_value(n % 16);
        let all = fixed_digits(n, 16, width);
        assert(all.drop_last() =~= fixed_digits(m, 16, w));
        assert(all.last() == digit_char(n % 16));
        assert forall|i: int| 0 <= i < width implies {
            let c = #[trigger] all[i];
            c != '+' && c != '-' && c != '/' && c != '.'
        } by {
            if i < w {
                assert(all[i] == fixed_digits(m, 16, w)[i]);
            }
        }
    }
}

/// Sixteen hexadecimal digits read back as the number.
pub proof fn lemma_hex16(n: u64)
    ensures
        crate::digest::hex16(n).len() == 16,
        hex_number(crate::digest::hex16(n)) == Some(n as nat),
        forall|i: int|
            0 <= i < 16 ==> {
                let c = #[trigger] crate::digest::hex16(n)[i];
                c != '+' && c != '-' && c != '/' && c != '.'
            },
{
    assert(vstd::arithmetic::power::pow(16, 16) == 0x1_0000_0000_0000_0000) by {
        reveal_with_fuel(vstd::arithmetic::power::pow, 17);
    }
    lemma_fixed_hex(n as nat, 16);
    let h = crate::digest::hex16(n);
    assert(h[0] != '+');
}

/// A text that is cut falls into what stands before the cut, what was cut out, and what stands
/// behind it: at the last place where the pattern occurs.
pub proof fn lemma_cut_last(s: Seq<char>, p: Seq<char>)
    requires
        p.len() > 0,
    ensures
        cut_last(s, p) matches Some((a, b)) ==> s == a + p + b && forall|i: int|
            a.len() < i ==> !#[trigger] occurs_at(s, p, i),
        cut_last(s, p) is None ==> forall|i: int| !#[trigger] occurs_at(s, p, i),
{
    lemma_last_match_is_last(s, p, s.len() as int);
    match last_match(s, p, s.len() as int) {
        Some(i) => {
            let a = s.subrange(0, i);
            let b = s.subrange(i + p.len(), s.len() as int);
            assert(s =~= a + s.subrange(i, i + p.len()) + b);
            assert forall|k: int| a.len() < k implies !#[trigger] occurs_at(s, p, k) by {
                if k <= s.len() {
                }
            }
        },
        None => {
            assert forall|k: int| !#[trigger] occurs_at(s, p, k) by {
                if 0 <= k && k <= s.len() {
                }
            }
        },
    }
}

proof fn lemma_last_match_is_last(s: Seq<char>, p: Seq<char>, n: int)
    ensures
        match last_match(s, p, n) {
            Some(i) => 0 <= i <= n && occurs_at(s, p, i) && forall|k: int|
                i < k <= n ==> !#[trigger] occurs_at(s, p, k),
            None => forall|k: int| 0 <= k <= n ==> !#[trigger] occurs_at(s, p, k),
        },
    decreases n + 1,
{
    if n >= 0 && !occurs_at(s, p, n) {
        lemma_last_match_is_last(s, p, n - 1);
    }
}

/// A text is cut at the first place where the character stands.
pub proof fn lemma_cut_first(s: Seq<char>, c: char)
    ensures
        cut_first(s, c) matches Some((a, b)) ==> s == a.push(c) + b && !a.contains(c),
        cut_first(s, c) is None <==> !s.contains(c),
{
    crate::text::lemma_first_of(s, c);
    let i = first_of(s, c);
    if i < s.len() {
        let a = s.subrange(0, i);
        let b = s.subrange(i + 1, s.len() as int);
        assert(s =~= a.push(c) + b);
        assert forall|k: int| 0 <= k < a.len() implies a[k] != c by {
            assert(s[k] != c);
        }
    }
}

/// Taking an ending off leaves what stood before it.
pub proof fn lemma_without_end(s: Seq<char>, p: Seq<char>)
    ensures
        without_end(s + p, p) == Some(s),
        without_end(s, p) matches Some(a) ==> s == a + p,
{
    let w = s + p;
    assert(w.subrange(w.len() - p.len(), w.len() as int) =~= p);
    assert(w.subrange(0, w.len() - p.len()) =~= s);
    if ends(s, p) {
        let a = s.subrange(0, s.len() - p.len());
        assert(s =~= a + s.subrange(s.len() - p.len(), s.len() as int));
    }
}

} // verus!
