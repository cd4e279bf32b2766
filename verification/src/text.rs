//! Text as sequences of characters: trimming, splitting, joining, searching and
//! number formatting, each stated over `Seq<char>`.

use vstd::prelude::*;
use vstd::std_specs::iter::IteratorSpec;
use vstd::string::*;

verus! {

/// `String::push` of std appends one character to the end.
pub assume_specification[ String::push ](s: &mut String, c: char)
    ensures
        final(s)@ == old(s)@.push(c),
;

// ---------------------------------------------------------------- characters
/// The characters with the Unicode property `White_Space`.
pub open spec fn is_white(c: char) -> bool {
    let n = c as u32;
    ||| 0x09 <= n <= 0x0d
    ||| n == 0x20
    ||| n == 0x85
    ||| n == 0xa0
    ||| n == 0x1680
    ||| 0x2000 <= n <= 0x200a
    ||| n == 0x2028
    ||| n == 0x2029
    ||| n == 0x202f
    ||| n == 0x205f
    ||| n == 0x3000
}

/// Whether `c` is white space.
pub fn white(c: char) -> (r: bool)
    ensures
        r == is_white(c),
{
    let n: u32 = c as u32;
    (0x09 <= n && n <= 0x0d) || n == 0x20 || n == 0x85 || n == 0xa0 || n == 0x1680 || (0x2000 <= n
        && n <= 0x200a) || n == 0x2028 || n == 0x2029 || n == 0x202f || n == 0x205f || n == 0x3000
}

/// Whether `c` is one of `0` to `9`.
pub open spec fn is_digit(c: char) -> bool {
    '0' <= c && c <= '9'
}

/// The lower-case form of an ASCII letter; every other character is itself.
pub open spec fn ascii_lower(c: char) -> char {
    if 'A' <= c && c <= 'Z' {
        (c as u8 + 32) as char
    } else {
        c
    }
}

/// `ascii_lower` of one character.
pub fn to_ascii_lower(c: char) -> (r: char)
    ensures
        r == ascii_lower(c),
{
    if 'A' <= c && c <= 'Z' {
        (c as u8 + 32) as char
    } else {
        c
    }
}

/// The characters of `s` with every ASCII letter in lower case.
pub open spec fn ascii_lower_all(s: Seq<char>) -> Seq<char> {
    s.map_values(|c: char| ascii_lower(c))
}

/// The upper-case form of an ASCII letter; every other character is itself.
pub open spec fn ascii_upper(c: char) -> char {
    if 'a' <= c && c <= 'z' {
        (c as u8 - 32) as char
    } else {
        c
    }
}

/// The characters of `s` with every ASCII letter in upper case.
pub open spec fn ascii_upper_all(s: Seq<char>) -> Seq<char> {
    s.map_values(|c: char| ascii_upper(c))
}

/// `s` with every ASCII letter in lower case.
pub fn lower_ascii(s: &str) -> (r: String)
    ensures
        r@ == ascii_lower_all(s@),
{
    let all: Vec<char> = chars_of(s);
    let mut r = String::new();
    let mut i: usize = 0;
    while i < all.len()
        invariant
            i <= all@.len(),
            r@ == ascii_lower_all(all@.subrange(0, i as int)),
        decreases all.len() - i,
    {
        r.push(to_ascii_lower(all[i]));
        proof {
            assert(ascii_lower_all(all@.subrange(0, i + 1)) =~= ascii_lower_all(
                all@.subrange(0, i as int),
            ).push(ascii_lower(all@[i as int])));
        }
        i = i + 1;
    }
    proof {
        assert(all@.subrange(0, i as int) =~= all@);
    }
    r
}

/// `s` with every ASCII letter in upper case.
pub fn upper_ascii(s: &str) -> (r: String)
    ensures
        r@ == ascii_upper_all(s@),
{
    let all: Vec<char> = chars_of(s);
    let mut r = String::new();
    let mut i: usize = 0;
    while i < all.len()
        invariant
            i <= all@.len(),
            r@ == ascii_upper_all(all@.subrange(0, i as int)),
        decreases all.len() - i,
    {
        let c: char = all[i];
        r.push(
            if 'a' <= c && c <= 'z' {
                (c as u8 - 32) as char
            } else {
                c
            },
        );
        proof {
            assert(ascii_upper_all(all@.subrange(0, i + 1)) =~= ascii_upper_all(
                all@.subrange(0, i as int),
            ).push(ascii_upper(all@[i as int])));
        }
        i = i + 1;
    }
    proof {
        assert(all@.subrange(0, i as int) =~= all@);
    }
    r
}

// ------------------------------------------------------- between str and Vec
/// A `String` with the characters of `s`.
pub fn owned(s: &str) -> (r: String)
    ensures
        r@ == s@,
{
    s.to_owned()
}

/// The characters of `s`, in order.
pub fn chars_of(s: &str) -> (r: Vec<char>)
    ensures
        r@ == s@,
{
    let n: usize = s.unicode_len();
    let mut r: Vec<char> = Vec::with_capacity(n);
    let mut it = s.chars();
    let ghost all = s@;
    let mut i: usize = 0;
    while i < n
        invariant
            i <= n,
            n == all.len(),
            r@ == all.subrange(0, i as int),
            it.obeys_prophetic_iter_laws(),
            it.remaining() == all.subrange(i as int, n as int),
        decreases n - i,
    {
        match it.next() {
            Some(c) => {
                r.push(c);
            },
            None => {},
        }
        i = i + 1;
    }
    r
}


/// The characters `from..to` of `s` as a `String`.
pub fn slice(s: &Vec<char>, from: usize, to: usize) -> (r: String)
    requires
        from <= to <= s@.len(),
    ensures
        r@ == s@.subrange(from as int, to as int),
{
    let mut r = String::new();
    let mut i: usize = from;
    while i < to
        invariant
            from <= i <= to <= s@.len(),
            r@ == s@.subrange(from as int, i as int),
        decreases to - i,
    {
        r.push(s[i]);
        proof {
            assert(s@.subrange(from as int, i as int).push(s@[i as int]) =~= s@.subrange(
                from as int,
                i + 1,
            ));
        }
        i = i + 1;
    }
    r
}

/// All characters of `s` as a `String`.
pub fn string_of(s: &Vec<char>) -> (r: String)
    ensures
        r@ == s@,
{
    let r = slice(s, 0, s.len());
    proof {
        assert(s@.subrange(0, s@.len() as int) =~= s@);
    }
    r
}

/// Whether two texts hold the same characters.
pub fn same(a: &str, b: &str) -> (r: bool)
    ensures
        r == (a@ == b@),
{
    let x: Vec<char> = chars_of(a);
    let y: Vec<char> = chars_of(b);
    same_chars(&x, &y)
}

/// Whether two character vectors hold the same characters.
pub fn same_chars(a: &Vec<char>, b: &Vec<char>) -> (r: bool)
    ensures
        r == (a@ == b@),
{
    if a.len() != b.len() {
        return false;
    }
    let mut i: usize = 0;
    while i < a.len()
        invariant
            i <= a.len() == b.len(),
            forall|k: int| 0 <= k < i ==> a@[k] == b@[k],
        decreases a.len() - i,
    {
        if a[i] != b[i] {
            return false;
        }
        i = i + 1;
    }
    proof {
        assert(a@ =~= b@);
    }
    true
}

/// Whether two optional texts hold the same characters.
pub fn same_option(a: &Option<String>, b: &Option<String>) -> (r: bool)
    ensures
        r == (option_view(*a) == option_view(*b)),
{
    match (a, b) {
        (None, None) => true,
        (Some(x), Some(y)) => same(x, y),
        _ => false,
    }
}

/// The characters of an optional text.
pub open spec fn option_view(s: Option<String>) -> Option<Seq<char>> {
    match s {
        Some(t) => Some(t@),
        None => None,
    }
}

/// The characters of each text.
pub open spec fn views(s: Seq<String>) -> Seq<Seq<char>> {
    s.map_values(|t: String| t@)
}

/// A copy of an optional text.
pub fn clone_option(s: &Option<String>) -> (r: Option<String>)
    ensures
        r == *s,
        option_view(r) == option_view(*s),
{
    match s {
        Some(t) => Some(t.clone()),
        None => None,
    }
}

/// A copy of a list of texts.
pub fn clone_all(s: &Vec<String>) -> (r: Vec<String>)
    ensures
        r@ == s@,
        views(r@) == views(s@),
{
    let mut r: Vec<String> = Vec::with_capacity(s.len());
    let mut i: usize = 0;
    while i < s.len()
        invariant
            i <= s.len(),
            r@ == s@.subrange(0, i as int),
        decreases s.len() - i,
    {
        r.push(s[i].clone());
        i = i + 1;
    }
    proof {
        assert(r@ =~= s@);
    }
    r
}

/// Whether one of `list` is the text `s`.
pub fn listed(list: &Vec<String>, s: &str) -> (r: bool)
    ensures
        r == views(list@).contains(s@),
{
    let mut i: usize = 0;
    while i < list.len()
        invariant
            i <= list.len(),
            forall|k: int| 0 <= k < i ==> views(list@)[k] != s@,
        decreases list.len() - i,
    {
        if same(&list[i], s) {
            proof {
                assert(views(list@)[i as int] == s@);
            }
            return true;
        }
        i = i + 1;
    }
    false
}

/// The texts of `s` without repetitions, each where it first occurs.
pub open spec fn distinct(s: Seq<Seq<char>>) -> Seq<Seq<char>>
    decreases s.len(),
{
    if s.len() == 0 {
        Seq::empty()
    } else {
        let front = distinct(s.drop_last());
        if front.contains(s.last()) {
            front
        } else {
            front.push(s.last())
        }
    }
}

/// The texts without repetitions, each where it first occurs.
pub fn without_repeats(s: &Vec<String>) -> (r: Vec<String>)
    ensures
        views(r@) == distinct(views(s@)),
{
    let ghost v = views(s@);
    let mut r: Vec<String> = Vec::new();
    let mut i: usize = 0;
    proof {
        assert(views(r@) =~= distinct(v.subrange(0, 0)));
    }
    while i < s.len()
        invariant
            i <= s@.len(),
            v == views(s@),
            views(r@) == distinct(v.subrange(0, i as int)),
        decreases s.len() - i,
    {
        let ghost before = r@;
        proof {
            assert(v.subrange(0, i + 1).drop_last() =~= v.subrange(0, i as int));
            assert(v.subrange(0, i + 1).last() == s@[i as int]@);
        }
        if !listed(&r, &s[i]) {
            r.push(s[i].clone());
            proof {
                assert(views(r@) =~= views(before).push(s@[i as int]@));
            }
        }
        i = i + 1;
    }
    proof {
        assert(v.subrange(0, i as int) =~= v);
    }
    r
}

/// `distinct` keeps every text and repeats none.
pub proof fn lemma_distinct(s: Seq<Seq<char>>)
    ensures
        distinct(s).no_duplicates(),
        forall|x: Seq<char>| distinct(s).contains(x) <==> s.contains(x),
    decreases s.len(),
{
    if s.len() > 0 {
        let front = distinct(s.drop_last());
        lemma_distinct(s.drop_last());
        assert forall|x: Seq<char>| distinct(s).contains(x) <==> s.contains(x) by {
            if s.contains(x) && x != s.last() {
                let k = choose|k: int| 0 <= k < s.len() && s[k] == x;
                assert(s.drop_last()[k] == x);
            }
            if s.drop_last().contains(x) {
                let k = choose|k: int| 0 <= k < s.len() - 1 && s.drop_last()[k] == x;
                assert(s[k] == x);
            }
            if front.contains(x) {
                let k = choose|k: int| 0 <= k < front.len() && front[k] == x;
                assert(distinct(s)[k] == x);
            }
            if !front.contains(s.last()) {
                assert(distinct(s)[front.len() as int] == s.last());
            }
            assert(s[s.len() - 1] == s.last());
            if distinct(s).contains(x) {
                let k = choose|k: int| 0 <= k < distinct(s).len() && distinct(s)[k] == x;
                if k < front.len() {
                    assert(front[k] == x);
                }
            }
        }
    }
}

// ------------------------------------------------------------------ trimming
/// `s` without the white space at its front.
pub open spec fn trim_start(s: Seq<char>) -> Seq<char>
    decreases s.len(),
{
    if s.len() > 0 && is_white(s[0]) {
        trim_start(s.drop_first())
    } else {
        s
    }
}

/// `s` without the white space at its end.
pub open spec fn trim_end(s: Seq<char>) -> Seq<char>
    decreases s.len(),
{
    if s.len() > 0 && is_white(s.last()) {
        trim_end(s.drop_last())
    } else {
        s
    }
}

/// `s` without the white space at either end.
pub open spec fn trim(s: Seq<char>) -> Seq<char> {
    trim_end(trim_start(s))
}

proof fn lemma_trim_start(s: Seq<char>)
    ensures
        trim_start(s).len() > 0 ==> !is_white(trim_start(s)[0]),
    decreases s.len(),
{
    if s.len() > 0 && is_white(s[0]) {
        lemma_trim_start(s.drop_first());
    }
}

proof fn lemma_trim_end(s: Seq<char>)
    ensures
        trim_end(s).len() <= s.len(),
        trim_end(s).len() > 0 ==> trim_end(s)[0] == s[0] && !is_white(trim_end(s).last()),
    decreases s.len(),
{
    if s.len() > 0 && is_white(s.last()) {
        lemma_trim_end(s.drop_last());
    }
}

/// A trimmed text has no white space at its ends.
pub proof fn lemma_trim_ends(s: Seq<char>)
    ensures
        trim(s).len() > 0 ==> !is_white(trim(s)[0]) && !is_white(trim(s).last()),
{
    lemma_trim_start(s);
    lemma_trim_end(trim_start(s));
}

/// A trimmed text stays as it is when it is trimmed again.
pub proof fn lemma_trim_again(s: Seq<char>)
    ensures
        trim(trim(s)) == trim(s),
{
    lemma_trim_ends(s);
}

/// `trim` of the characters of a vector.
pub fn trimmed_chars(s: &Vec<char>) -> (r: Vec<char>)
    ensures
        r@ == trim(s@),
{
    let n: usize = s.len();
    let mut from: usize = 0;
    proof {
        assert(s@.subrange(0, n as int) =~= s@);
    }
    while from < n && white(s[from])
        invariant
            from <= n == s@.len(),
            trim_start(s@) == trim_start(s@.subrange(from as int, n as int)),
        decreases n - from,
    {
        proof {
            assert(s@.subrange(from as int, n as int).drop_first() =~= s@.subrange(
                from + 1,
                n as int,
            ));
        }
        from = from + 1;
    }
    let ghost front = s@.subrange(from as int, n as int);
    let mut to: usize = n;
    while from < to && white(s[to - 1])
        invariant
            from <= to <= n == s@.len(),
            trim_end(front) == trim_end(s@.subrange(from as int, to as int)),
        decreases to,
    {
        proof {
            assert(s@.subrange(from as int, to as int).drop_last() =~= s@.subrange(
                from as int,
                to - 1,
            ));
        }
        to = to - 1;
    }
    sub_chars(s, from, to)
}

/// The characters `from..to` of `s`.
pub fn sub_chars(s: &Vec<char>, from: usize, to: usize) -> (r: Vec<char>)
    requires
        from <= to <= s@.len(),
    ensures
        r@ == s@.subrange(from as int, to as int),
{
    let mut r: Vec<char> = Vec::with_capacity(to - from);
    let mut i: usize = from;
    while i < to
        invariant
            from <= i <= to <= s@.len(),
            r@ == s@.subrange(from as int, i as int),
        decreases to - i,
    {
        r.push(s[i]);
        i = i + 1;
    }
    r
}

/// `s` without the white space at either end.
pub fn trimmed(s: &str) -> (r: String)
    ensures
        r@ == trim(s@),
{
    let c: Vec<char> = chars_of(s);
    let t: Vec<char> = trimmed_chars(&c);
    string_of(&t)
}

/// Whether `s` holds nothing but white space.
pub fn blank(s: &str) -> (r: bool)
    ensures
        r == (trim(s@).len() == 0),
{
    let c: Vec<char> = chars_of(s);
    let t: Vec<char> = trimmed_chars(&c);
    t.len() == 0
}

// ----------------------------------------------------------------- searching
/// Whether `s` begins with `p`.
pub open spec fn begins(s: Seq<char>, p: Seq<char>) -> bool {
    p.len() <= s.len() && s.subrange(0, p.len() as int) == p
}

/// Whether `s` ends with `p`.
pub open spec fn ends(s: Seq<char>, p: Seq<char>) -> bool {
    p.len() <= s.len() && s.subrange(s.len() - p.len(), s.len() as int) == p
}

/// Whether `p` occurs in `s`.
pub open spec fn occurs(s: Seq<char>, p: Seq<char>) -> bool {
    exists|i: int| #[trigger] occurs_at(s, p, i)
}

/// Whether `p` occurs in `s` at position `i`.
pub open spec fn occurs_at(s: Seq<char>, p: Seq<char>, i: int) -> bool {
    0 <= i && i + p.len() <= s.len() && s.subrange(i, i + p.len()) == p
}

/// Whether `p` occurs in `s` at `i`.
pub fn found_at(s: &Vec<char>, p: &Vec<char>, i: usize) -> (r: bool)
    ensures
        r == occurs_at(s@, p@, i as int),
{
    if i > s.len() || p.len() > s.len() - i {
        return false;
    }
    let mut k: usize = 0;
    while k < p.len()
        invariant
            k <= p.len(),
            i + p.len() <= s.len(),
            forall|j: int| 0 <= j < k ==> s@[i + j] == p@[j],
        decreases p.len() - k,
    {
        if s[i + k] != p[k] {
            proof {
                assert(s@.subrange(i as int, i + p.len())[k as int] == s@[i + k]);
            }
            return false;
        }
        k = k + 1;
    }
    proof {
        assert(s@.subrange(i as int, i + p.len()) =~= p@);
    }
    true
}

/// Whether `s` begins with `p`.
pub fn begins_with(s: &str, p: &str) -> (r: bool)
    ensures
        r == begins(s@, p@),
{
    let a: Vec<char> = chars_of(s);
    let b: Vec<char> = chars_of(p);
    found_at(&a, &b, 0)
}

/// Whether `s` ends with `p`.
pub fn ends_with(s: &str, p: &str) -> (r: bool)
    ensures
        r == ends(s@, p@),
{
    let a: Vec<char> = chars_of(s);
    let b: Vec<char> = chars_of(p);
    if b.len() > a.len() {
        return false;
    }
    found_at(&a, &b, a.len() - b.len())
}

/// Whether `p` occurs in `s`.
pub fn has(s: &str, p: &str) -> (r: bool)
    ensures
        r == occurs(s@, p@),
{
    let a: Vec<char> = chars_of(s);
    let b: Vec<char> = chars_of(p);
    let mut i: usize = 0;
    while i < a.len()
        invariant
            i <= a.len(),
            a@ == s@,
            b@ == p@,
            forall|k: int| 0 <= k < i ==> !#[trigger] occurs_at(a@, b@, k),
        decreases a.len() - i,
    {
        if found_at(&a, &b, i) {
            return true;
        }
        i = i + 1;
    }
    let last: bool = found_at(&a, &b, a.len());
    proof {
        if !last {
            assert forall|k: int| !#[trigger] occurs_at(a@, b@, k) by {
                if a@.len() < k {
                    assert(k + b@.len() > a@.len());
                }
            }
        }
    }
    last
}

/// Whether the character `c` occurs in `s`.
pub fn has_char(s: &Vec<char>, c: char) -> (r: bool)
    ensures
        r == s@.contains(c),
{
    proof {
        lemma_first_of(s@, c);
    }
    first_index(s, c).is_some()
}

/// The position of the first `c` in `s`, or the length of `s` where there is none.
pub open spec fn first_of(s: Seq<char>, c: char) -> int
    decreases s.len(),
{
    if s.len() == 0 {
        0
    } else if s[0] == c {
        0
    } else {
        1 + first_of(s.drop_first(), c)
    }
}

/// What `first_of` finds: nothing before it is `c`, and it is `c` unless it is the end.
pub proof fn lemma_first_of(s: Seq<char>, c: char)
    ensures
        0 <= first_of(s, c) <= s.len(),
        first_of(s, c) < s.len() ==> s[first_of(s, c)] == c,
        forall|k: int| 0 <= k < first_of(s, c) ==> s[k] != c,
        first_of(s, c) < s.len() <==> s.contains(c),
    decreases s.len(),
{
    if s.len() > 0 && s[0] != c {
        lemma_first_of(s.drop_first(), c);
        assert forall|k: int| 0 <= k < first_of(s, c) implies s[k] != c by {
            if k > 0 {
                assert(s.drop_first()[k - 1] == s[k]);
            }
        }
    }
    if s.contains(c) {
        let k = choose|k: int| 0 <= k < s.len() && s[k] == c;
        assert(first_of(s, c) <= k);
    }
    if first_of(s, c) < s.len() {
        assert(s[first_of(s, c)] == c);
    }
}

/// `first_of` is the only position that is a `c` with no `c` before it.
pub proof fn lemma_first_of_is(s: Seq<char>, c: char, i: int)
    requires
        0 <= i <= s.len(),
        i < s.len() ==> s[i] == c,
        forall|k: int| 0 <= k < i ==> s[k] != c,
    ensures
        first_of(s, c) == i,
{
    lemma_first_of(s, c);
}

/// The position of the first `c`, if there is one.
pub fn first_index(s: &Vec<char>, c: char) -> (r: Option<usize>)
    ensures
        match r {
            Some(i) => i < s.len() && i == first_of(s@, c),
            None => first_of(s@, c) == s@.len(),
        },
{
    let mut i: usize = 0;
    while i < s.len()
        invariant
            i <= s.len(),
            forall|k: int| 0 <= k < i ==> s@[k] != c,
        decreases s.len() - i,
    {
        if s[i] == c {
            proof {
                lemma_first_of_is(s@, c, i as int);
            }
            return Some(i);
        }
        i = i + 1;
    }
    proof {
        lemma_first_of_is(s@, c, i as int);
    }
    None
}

/// The position of the last `c` in `s`, or -1 where there is none.
pub open spec fn last_of(s: Seq<char>, c: char) -> int
    decreases s.len(),
{
    if s.len() == 0 {
        -1
    } else if s.last() == c {
        s.len() - 1
    } else {
        last_of(s.drop_last(), c)
    }
}

/// The last position lies within the text.
pub proof fn lemma_last_of(s: Seq<char>, c: char)
    ensures
        -1 <= last_of(s, c) < s.len(),
        last_of(s, c) >= 0 ==> s[last_of(s, c)] == c,
    decreases s.len(),
{
    if s.len() > 0 && s.last() != c {
        lemma_last_of(s.drop_last(), c);
    }
}

/// The position of the last `c`, if there is one.
pub fn last_index(s: &Vec<char>, c: char) -> (r: Option<usize>)
    ensures
        match r {
            Some(i) => i < s.len() && i == last_of(s@, c) && s@[i as int] == c,
            None => last_of(s@, c) == -1,
        },
{
    let mut n: usize = s.len();
    proof {
        assert(s@.subrange(0, n as int) =~= s@);
    }
    while n > 0
        invariant
            n <= s@.len(),
            last_of(s@, c) == last_of(s@.subrange(0, n as int), c),
        decreases n,
    {
        proof {
            assert(s@.subrange(0, n as int).drop_last() =~= s@.subrange(0, n - 1));
        }
        if s[n - 1] == c {
            return Some(n - 1);
        }
        n = n - 1;
    }
    None
}

// ------------------------------------------------------ splitting and joining
/// The pieces of `s` between the occurrences of `c`: one more than there are `c` in `s`.
pub open spec fn split(s: Seq<char>, c: char) -> Seq<Seq<char>>
    decreases s.len(),
{
    if s.len() == 0 {
        seq![Seq::<char>::empty()]
    } else if s.last() == c {
        split(s.drop_last(), c).push(Seq::<char>::empty())
    } else {
        let front = split(s.drop_last(), c);
        front.update(front.len() - 1, front.last().push(s.last()))
    }
}

/// A split has at least one piece.
pub proof fn lemma_split_len(s: Seq<char>, c: char)
    ensures
        split(s, c).len() >= 1,
    decreases s.len(),
{
    if s.len() > 0 {
        lemma_split_len(s.drop_last(), c);
    }
}

/// The pieces of two texts with a separator between them are the pieces of both.
pub proof fn lemma_split_concat(a: Seq<char>, b: Seq<char>, c: char)
    ensures
        split(a.push(c) + b, c) == split(a, c) + split(b, c),
    decreases b.len(),
{
    let whole = a.push(c) + b;
    if b.len() == 0 {
        assert(whole =~= a.push(c));
        assert(whole.drop_last() =~= a);
        assert(split(whole, c) =~= split(a, c) + split(b, c));
    } else {
        lemma_split_concat(a, b.drop_last(), c);
        lemma_split_len(b.drop_last(), c);
        assert(whole.drop_last() =~= a.push(c) + b.drop_last());
        assert(whole.last() == b.last());
        assert(split(whole, c) =~= split(a, c) + split(b, c));
    }
}

/// A text without the separator goes to the end of the last piece.
pub proof fn lemma_split_append(s: Seq<char>, x: Seq<char>, c: char)
    requires
        !x.contains(c),
    ensures
        split(s + x, c) == split(s, c).update(
            split(s, c).len() - 1,
            split(s, c).last() + x,
        ),
    decreases x.len(),
{
    lemma_split_len(s, c);
    let p = split(s, c);
    if x.len() == 0 {
        assert(s + x =~= s);
        assert(p.last() + x =~= p.last());
        assert(p.update(p.len() - 1, p.last()) =~= p);
    } else {
        let front = x.drop_last();
        assert(x[x.len() - 1] != c);
        assert(!front.contains(c)) by {
            if front.contains(c) {
                let k = choose|k: int| 0 <= k < front.len() && front[k] == c;
                assert(x[k] == c);
            }
        }
        lemma_split_append(s, front, c);
        assert((s + x).drop_last() =~= s + front);
        assert((s + x).last() == x.last());
        assert((p.last() + front).push(x.last()) =~= p.last() + x);
        assert(split(s + x, c) =~= p.update(p.len() - 1, p.last() + x));
    }
}

/// A text without the separator is one piece.
pub proof fn lemma_split_whole(s: Seq<char>, c: char)
    requires
        !s.contains(c),
    ensures
        split(s, c) == seq![s],
    decreases s.len(),
{
    if s.len() == 0 {
        assert(s =~= Seq::<char>::empty());
    } else {
        assert(s[s.len() - 1] != c);
        let front = s.drop_last();
        assert(!front.contains(c)) by {
            if front.contains(c) {
                let k = choose|k: int| 0 <= k < front.len() && front[k] == c;
                assert(s[k] == c);
            }
        }
        lemma_split_whole(front, c);
        assert(front.push(s.last()) =~= s);
        assert(split(s, c) =~= seq![s]);
    }
}

/// No piece has the separator in it.
pub proof fn lemma_pieces_plain(s: Seq<char>, c: char, i: int)
    requires
        0 <= i < split(s, c).len(),
    ensures
        !split(s, c)[i].contains(c),
    decreases s.len(),
{
    if s.len() > 0 {
        let front = split(s.drop_last(), c);
        lemma_split_len(s.drop_last(), c);
        if i < front.len() {
            lemma_pieces_plain(s.drop_last(), c, i);
            if s.last() != c && i == front.len() - 1 {
                let p = front[i].push(s.last());
                assert(split(s, c)[i] == p);
                if p.contains(c) {
                    let k = choose|k: int| 0 <= k < p.len() && p[k] == c;
                    assert(front[i][k] == c);
                }
            }
        }
    }
}

/// The pieces of `s` between the occurrences of `c`.
pub fn split_chars(s: &Vec<char>, c: char) -> (r: Vec<Vec<char>>)
    ensures
        r@.map_values(|p: Vec<char>| p@) == split(s@, c),
{
    let mut r: Vec<Vec<char>> = Vec::new();
    let mut piece: Vec<char> = Vec::new();
    let mut i: usize = 0;
    let ghost f = |p: Vec<char>| p@;
    while i < s.len()
        invariant
            i <= s.len(),
            f == (|p: Vec<char>| p@),
            r@.map_values(f).push(piece@) == split(s@.subrange(0, i as int), c),
        decreases s.len() - i,
    {
        let ghost before = s@.subrange(0, i as int);
        let ghost after = s@.subrange(0, i + 1);
        let ghost done = r@;
        let ghost open = piece@;
        proof {
            assert(after.drop_last() =~= before);
            assert(after.last() == s@[i as int]);
        }
        if s[i] == c {
            r.push(piece);
            piece = Vec::new();
            proof {
                assert(r@.map_values(f) =~= done.map_values(f).push(open));
                assert(piece@ =~= Seq::<char>::empty());
            }
        } else {
            piece.push(s[i]);
            proof {
                let front = done.map_values(f).push(open);
                assert(front.last() =~= open);
                assert(front.update(front.len() - 1, open.push(s@[i as int])) =~= done.map_values(
                    f,
                ).push(piece@));
            }
        }
        i = i + 1;
    }
    let ghost done = r@;
    let ghost open = piece@;
    r.push(piece);
    proof {
        assert(s@.subrange(0, i as int) =~= s@);
        assert(r@.map_values(f) =~= done.map_values(f).push(open));
    }
    r
}

/// The pieces of `s` between the occurrences of `c`.
pub fn split_on(s: &str, c: char) -> (r: Vec<String>)
    ensures
        views(r@) == split(s@, c),
{
    let all: Vec<char> = chars_of(s);
    let pieces: Vec<Vec<char>> = split_chars(&all, c);
    let ghost p = pieces@.map_values(|p: Vec<char>| p@);
    let mut r: Vec<String> = Vec::new();
    let mut i: usize = 0;
    while i < pieces.len()
        invariant
            i <= pieces.len(),
            p == pieces@.map_values(|p: Vec<char>| p@),
            views(r@) == p.subrange(0, i as int),
        decreases pieces.len() - i,
    {
        let ghost done = r@;
        r.push(string_of(&pieces[i]));
        proof {
            assert(views(r@) =~= views(done).push(pieces@[i as int]@));
            assert(p.subrange(0, i + 1) =~= p.subrange(0, i as int).push(p[i as int]));
        }
        i = i + 1;
    }
    proof {
        assert(p.subrange(0, i as int) =~= p);
    }
    r
}

/// The parts one after the other, with `sep` between neighbours.
pub open spec fn join(parts: Seq<Seq<char>>, sep: Seq<char>) -> Seq<char>
    decreases parts.len(),
{
    if parts.len() == 0 {
        Seq::empty()
    } else if parts.len() == 1 {
        parts[0]
    } else {
        join(parts.drop_last(), sep) + sep + parts.last()
    }
}

/// The parts one after the other, with `sep` between neighbours.
pub fn joined(parts: &Vec<String>, sep: &str) -> (r: String)
    ensures
        r@ == join(views(parts@), sep@),
{
    let mut r = String::new();
    let mut i: usize = 0;
    let ghost v = views(parts@);
    while i < parts.len()
        invariant
            i <= parts.len(),
            v == views(parts@),
            r@ == join(v.subrange(0, i as int), sep@),
        decreases parts.len() - i,
    {
        if i > 0 {
            r.append(sep);
        }
        r.append(&parts[i]);
        proof {
            let next = v.subrange(0, i + 1);
            assert(next.drop_last() =~= v.subrange(0, i as int));
            assert(next.last() == parts@[i as int]@);
            if i == 0 {
                assert(r@ =~= parts@[0]@);
            }
        }
        i = i + 1;
    }
    proof {
        assert(v.subrange(0, i as int) =~= v);
    }
    r
}

/// Joining the pieces of a text gives the text back.
pub proof fn lemma_join_split(s: Seq<char>, c: char)
    ensures
        join(split(s, c), seq![c]) == s,
    decreases s.len(),
{
    let p = split(s, c);
    lemma_split_len(s, c);
    if s.len() == 0 {
        assert(p[0] =~= s);
    } else {
        let front = s.drop_last();
        let q = split(front, c);
        lemma_split_len(front, c);
        lemma_join_split(front, c);
        if s.last() == c {
            assert(p.drop_last() =~= q);
            assert(front + seq![c] + Seq::<char>::empty() =~= s);
        } else if q.len() == 1 {
            assert(q.last().push(s.last()) =~= s);
        } else {
            assert(p.drop_last() =~= q.drop_last());
            let head = join(q.drop_last(), seq![c]) + seq![c];
            assert(head + q.last().push(s.last()) =~= (head + q.last()).push(s.last()));
            assert(front.push(s.last()) =~= s);
        }
    }
}

/// `s` with every `c` replaced by `by`.
pub open spec fn replace_char(s: Seq<char>, c: char, by: Seq<char>) -> Seq<char>
    decreases s.len(),
{
    if s.len() == 0 {
        Seq::empty()
    } else {
        let front = replace_char(s.drop_last(), c, by);
        if s.last() == c {
            front + by
        } else {
            front.push(s.last())
        }
    }
}

/// `s` with every `c` replaced by `by`.
pub fn replaced(s: &str, c: char, by: &str) -> (r: String)
    ensures
        r@ == replace_char(s@, c, by@),
{
    let all: Vec<char> = chars_of(s);
    let mut r = String::new();
    let mut i: usize = 0;
    while i < all.len()
        invariant
            i <= all.len(),
            r@ == replace_char(all@.subrange(0, i as int), c, by@),
        decreases all.len() - i,
    {
        proof {
            assert(all@.subrange(0, i + 1).drop_last() =~= all@.subrange(0, i as int));
        }
        if all[i] == c {
            r.append(by);
        } else {
            r.push(all[i]);
        }
        i = i + 1;
    }
    proof {
        assert(all@.subrange(0, i as int) =~= all@);
    }
    r
}

/// `s` with a backslash before each of its characters that is among `special`.
pub open spec fn escaped(s: Seq<char>, special: Seq<char>) -> Seq<char>
    decreases s.len(),
{
    if s.len() == 0 {
        Seq::empty()
    } else {
        let front = escaped(s.drop_last(), special);
        if special.contains(s.last()) {
            front.push('\\').push(s.last())
        } else {
            front.push(s.last())
        }
    }
}

/// `s` with a backslash before each of its characters that is among `special`.
pub fn escape(s: &str, special: &str) -> (r: String)
    ensures
        r@ == escaped(s@, special@),
{
    let all: Vec<char> = chars_of(s);
    let marks: Vec<char> = chars_of(special);
    let mut r = String::new();
    let mut i: usize = 0;
    while i < all.len()
        invariant
            i <= all@.len(),
            marks@ == special@,
            r@ == escaped(all@.subrange(0, i as int), special@),
        decreases all.len() - i,
    {
        proof {
            assert(all@.subrange(0, i + 1).drop_last() =~= all@.subrange(0, i as int));
        }
        if has_char(&marks, all[i]) {
            r.push('\\');
        }
        r.push(all[i]);
        i = i + 1;
    }
    proof {
        assert(all@.subrange(0, i as int) =~= all@);
    }
    r
}

// ------------------------------------------------------------------- numbers
/// The character of a digit below sixteen, in lower case.
pub open spec fn digit_char(d: nat) -> char {
    if d < 10 {
        (48 + d) as char
    } else {
        (87 + d) as char
    }
}

/// The character of a digit below sixteen, in lower case.
pub fn digit(d: u64) -> (r: char)
    requires
        d < 16,
    ensures
        r == digit_char(d as nat),
{
    if d < 10 {
        (48 + d as u8) as char
    } else {
        (87 + d as u8) as char
    }
}

/// `n` in decimal, without leading zeros.
pub open spec fn decimal(n: nat) -> Seq<char>
    decreases n,
{
    if n < 10 {
        seq![digit_char(n)]
    } else {
        decimal(n / 10).push(digit_char(n % 10))
    }
}

/// `n` in decimal, with a minus sign where it is negative.
pub open spec fn signed_decimal(n: int) -> Seq<char> {
    if n < 0 {
        seq!['-'] + decimal((-n) as nat)
    } else {
        decimal(n as nat)
    }
}

/// Numbers in decimal hold digits only, and read back as the number.
pub proof fn lemma_decimal(n: nat)
    ensures
        all_digits(decimal(n)),
        value_of(decimal(n)) == n,
        unsigned_part(decimal(n)) == decimal(n),
    decreases n,
{
    let d = decimal(n);
    if n < 10 {
        assert(d.drop_last() =~= Seq::empty());
        assert(value_of(d.drop_last()) == 0);
        assert(d.last() as nat == 48 + n);
    } else {
        lemma_decimal(n / 10);
        assert(d.drop_last() =~= decimal(n / 10));
        assert forall|i: int| 0 <= i < d.len() implies is_digit(#[trigger] d[i]) by {
            if i < d.len() - 1 {
                assert(d[i] == decimal(n / 10)[i]);
            }
        }
        assert(d.last() as nat == 48 + n % 10);
    }
    assert(is_digit(d[0]));
}

/// Appends `n` in decimal.
pub fn push_decimal(s: &mut String, n: u64)
    ensures
        final(s)@ == old(s)@ + decimal(n as nat),
    decreases n,
{
    let ghost before = s@;
    if n >= 10 {
        push_decimal(s, n / 10);
    }
    s.push(digit(n % 10));
    proof {
        assert(s@ =~= before + decimal(n as nat));
    }
}

/// Appends `n` in decimal.
pub fn push_wide(s: &mut String, n: u128)
    ensures
        final(s)@ == old(s)@ + decimal(n as nat),
    decreases n,
{
    let ghost before = s@;
    if n >= 10 {
        push_wide(s, n / 10);
    }
    s.push(digit((n % 10) as u64));
    proof {
        assert(s@ =~= before + decimal(n as nat));
    }
}

/// Appends `n` in decimal, with a minus sign where it is negative.
pub fn push_signed(s: &mut String, n: i64)
    ensures
        final(s)@ == old(s)@ + signed_decimal(n as int),
{
    let ghost before = s@;
    if n < 0 {
        s.push('-');
        if n == i64::MIN {
            push_decimal(s, 9_223_372_036_854_775_808);
        } else {
            push_decimal(s, (-n) as u64);
        }
        proof {
            assert(s@ =~= before + (seq!['-'] + decimal((-n) as nat)));
        }
    } else {
        push_decimal(s, n as u64);
    }
}

/// `n` in decimal.
pub fn decimal_text(n: u64) -> (r: String)
    ensures
        r@ == decimal(n as nat),
{
    let mut s = String::new();
    push_decimal(&mut s, n);
    proof {
        assert(s@ =~= decimal(n as nat));
    }
    s
}

/// The last `width` digits of `n` in base `base`, with leading zeros.
pub open spec fn fixed_digits(n: nat, base: nat, width: nat) -> Seq<char>
    decreases width,
{
    if width == 0 {
        Seq::empty()
    } else {
        fixed_digits(n / base, base, (width - 1) as nat).push(digit_char(n % base))
    }
}

/// Appends the last `width` digits of `n` in base `base`, with leading zeros.
pub fn push_fixed(s: &mut String, n: u64, base: u64, width: u64)
    requires
        2 <= base <= 16,
    ensures
        final(s)@ == old(s)@ + fixed_digits(n as nat, base as nat, width as nat),
    decreases width,
{
    let ghost before = s@;
    if width > 0 {
        push_fixed(s, n / base, base, width - 1);
        s.push(digit(n % base));
    }
    proof {
        assert(s@ =~= before + fixed_digits(n as nat, base as nat, width as nat));
    }
}

/// The value of the digits `s` in decimal.
pub open spec fn value_of(s: Seq<char>) -> nat
    decreases s.len(),
{
    if s.len() == 0 {
        0
    } else {
        value_of(s.drop_last()) * 10 + (s.last() as nat - 48) as nat
    }
}

/// Whether `s` is one or more decimal digits.
pub open spec fn all_digits(s: Seq<char>) -> bool {
    s.len() > 0 && forall|i: int| 0 <= i < s.len() ==> is_digit(#[trigger] s[i])
}

/// `s` without one leading plus sign.
pub open spec fn unsigned_part(s: Seq<char>) -> Seq<char> {
    if s.len() > 0 && s[0] == '+' {
        s.subrange(1, s.len() as int)
    } else {
        s
    }
}

/// The number that `s` writes in decimal, an optional plus sign before its digits, where it
/// is at most `max`.
pub open spec fn number(s: Seq<char>, max: nat) -> Option<nat> {
    let d = unsigned_part(s);
    if all_digits(d) && value_of(d) <= max {
        Some(value_of(d))
    } else {
        None
    }
}

proof fn lemma_value_grows(s: Seq<char>, i: int)
    requires
        0 <= i <= s.len(),
        all_digits(s),
    ensures
        value_of(s.subrange(0, i)) <= value_of(s),
    decreases s.len(),
{
    if i == s.len() {
        assert(s.subrange(0, i) =~= s);
    } else {
        let front = s.drop_last();
        assert(s.subrange(0, i) =~= front.subrange(0, i));
        if front.len() > 0 {
            assert forall|k: int| 0 <= k < front.len() implies is_digit(#[trigger] front[k]) by {
                assert(front[k] == s[k]);
            }
            lemma_value_grows(front, i);
        } else {
            assert(front.subrange(0, i) =~= front);
        }
    }
}

/// The number that the characters write in decimal, where it fits a `u64`.
pub fn parse_number(s: &Vec<char>) -> (r: Option<u64>)
    ensures
        match r {
            Some(n) => number(s@, u64::MAX as nat) == Some(n as nat),
            None => number(s@, u64::MAX as nat) is None,
        },
{
    let start: usize = if s.len() > 0 && s[0] == '+' {
        1
    } else {
        0
    };
    let ghost d = unsigned_part(s@);
    proof {
        assert(d =~= s@.subrange(start as int, s@.len() as int));
    }
    if start == s.len() {
        return None;
    }
    let mut n: u64 = 0;
    let mut i: usize = start;
    while i < s.len()
        invariant
            start <= i <= s@.len(),
            d == s@.subrange(start as int, s@.len() as int),
            d == unsigned_part(s@),
            d.len() > 0,
            forall|k: int| 0 <= k < i - start ==> is_digit(#[trigger] d[k]),
            n == value_of(d.subrange(0, i - start)),
        decreases s.len() - i,
    {
        let c: char = s[i];
        proof {
            assert(d[i - start] == c);
        }
        if !('0' <= c && c <= '9') {
            return None;
        }
        let ghost next = d.subrange(0, i - start + 1);
        proof {
            assert(next.drop_last() =~= d.subrange(0, i - start));
            assert(next.last() == c);
        }
        let v: u64 = (c as u32 - 48) as u64;
        if n > (u64::MAX - v) / 10 {
            proof {
                if all_digits(d) {
                    lemma_value_grows(d, i - start + 1);
                    assert(n * 10 + v > u64::MAX);
                }
            }
            return None;
        }
        n = n * 10 + v;
        i = i + 1;
    }
    proof {
        assert(d.subrange(0, i - start) =~= d);
    }
    Some(n)
}

// --------------------------------------------------------------------- order
/// Whether `a` comes before `b` in the order of code points, character by character.
pub open spec fn before(a: Seq<char>, b: Seq<char>) -> bool
    decreases a.len(),
{
    if b.len() == 0 {
        false
    } else if a.len() == 0 {
        true
    } else if a[0] == b[0] {
        before(a.drop_first(), b.drop_first())
    } else {
        a[0] < b[0]
    }
}

/// Whether `a` comes before `b`.
pub fn comes_before(a: &str, b: &str) -> (r: bool)
    ensures
        r == before(a@, b@),
{
    let x: Vec<char> = chars_of(a);
    let y: Vec<char> = chars_of(b);
    let mut i: usize = 0;
    proof {
        assert(x@.subrange(0, x@.len() as int) =~= x@);
        assert(y@.subrange(0, y@.len() as int) =~= y@);
    }
    while i < x.len() && i < y.len() && x[i] == y[i]
        invariant
            i <= x@.len(),
            i <= y@.len(),
            before(x@, y@) == before(
                x@.subrange(i as int, x@.len() as int),
                y@.subrange(i as int, y@.len() as int),
            ),
        decreases x.len() - i,
    {
        proof {
            assert(x@.subrange(i as int, x@.len() as int).drop_first() =~= x@.subrange(
                i + 1,
                x@.len() as int,
            ));
            assert(y@.subrange(i as int, y@.len() as int).drop_first() =~= y@.subrange(
                i + 1,
                y@.len() as int,
            ));
        }
        i = i + 1;
    }
    if i >= y.len() {
        false
    } else if i >= x.len() {
        true
    } else {
        x[i] < y[i]
    }
}

/// No text comes before itself, and of two different texts one comes before the other.
pub proof fn lemma_before_total(a: Seq<char>, b: Seq<char>)
    ensures
        !before(a, a),
        a != b ==> before(a, b) || before(b, a),
        !(before(a, b) && before(b, a)),
    decreases a.len(),
{
    if a.len() > 0 && b.len() > 0 {
        lemma_before_total(a.drop_first(), b.drop_first());
        if a[0] == b[0] && a.drop_first() == b.drop_first() {
            assert(a =~= seq![a[0]] + a.drop_first());
            assert(b =~= seq![b[0]] + b.drop_first());
        }
    } else if a.len() > 0 {
        lemma_before_total(a.drop_first(), a.drop_first());
    } else if b.len() == 0 {
        assert(a =~= b);
    }
}

/// The order of texts is transitive.
pub proof fn lemma_before_transitive(a: Seq<char>, b: Seq<char>, c: Seq<char>)
    requires
        before(a, b),
        before(b, c),
    ensures
        before(a, c),
    decreases a.len(),
{
    if a.len() > 0 && b.len() > 0 && c.len() > 0 && a[0] == b[0] && b[0] == c[0] {
        lemma_before_transitive(a.drop_first(), b.drop_first(), c.drop_first());
    }
}

/// Sorted texts with `x` put in behind those that do not come after it.
pub open spec fn put_in(s: Seq<Seq<char>>, x: Seq<char>) -> Seq<Seq<char>>
    decreases s.len(),
{
    if s.len() == 0 || !before(x, s.last()) {
        s.push(x)
    } else {
        put_in(s.drop_last(), x).push(s.last())
    }
}

/// The texts in ascending order.
pub open spec fn sorted(s: Seq<Seq<char>>) -> Seq<Seq<char>>
    decreases s.len(),
{
    if s.len() == 0 {
        Seq::empty()
    } else {
        put_in(sorted(s.drop_last()), s.last())
    }
}

/// Whether texts stand in ascending order.
pub open spec fn is_sorted(s: Seq<Seq<char>>) -> bool {
    forall|i: int, j: int| 0 <= i < j < s.len() ==> !before(#[trigger] s[j], #[trigger] s[i])
}

proof fn lemma_put_in(s: Seq<Seq<char>>, x: Seq<char>)
    requires
        is_sorted(s),
    ensures
        is_sorted(put_in(s, x)),
        put_in(s, x).len() == s.len() + 1,
        put_in(s, x).to_multiset() =~= s.to_multiset().insert(x),
    decreases s.len(),
{
    broadcast use vstd::seq_lib::group_to_multiset_ensures;

    if s.len() == 0 || !before(x, s.last()) {
        let r = s.push(x);
        assert forall|i: int, j: int| 0 <= i < j < r.len() implies !before(
            #[trigger] r[j],
            #[trigger] r[i],
        ) by {
            if j == s.len() {
                let last = s.last();
                lemma_before_total(x, s[i]);
                lemma_before_total(last, x);
                if i < s.len() - 1 && before(x, s[i]) {
                    lemma_before_total(s[i], last);
                    assert(!before(last, s[i]));
                    if s[i] == last {
                    } else {
                        lemma_before_transitive(x, s[i], last);
                    }
                }
            }
        }
    } else {
        let front = s.drop_last();
        lemma_put_in(front, x);
        let mid = put_in(front, x);
        let r = mid.push(s.last());
        assert(s =~= front.push(s.last()));
        assert forall|i: int, j: int| 0 <= i < j < r.len() implies !before(
            #[trigger] r[j],
            #[trigger] r[i],
        ) by {
            if j == mid.len() {
                lemma_put_in_member(front, x, i);
                lemma_before_total(x, s.last());
                if mid[i] != x {
                    let k = choose|k: int| 0 <= k < front.len() && front[k] == mid[i];
                    assert(s[k] == mid[i]);
                    assert(!before(s[s.len() - 1], s[k]));
                }
            }
        }
    }
}

proof fn lemma_put_in_member(s: Seq<Seq<char>>, x: Seq<char>, i: int)
    requires
        0 <= i < put_in(s, x).len(),
    ensures
        put_in(s, x)[i] == x || s.contains(put_in(s, x)[i]),
    decreases s.len(),
{
    if s.len() == 0 || !before(x, s.last()) {
        if i < s.len() {
            assert(s[i] == put_in(s, x)[i]);
        }
    } else {
        let front = s.drop_last();
        if i < put_in(front, x).len() {
            lemma_put_in_member(front, x, i);
            if front.contains(put_in(front, x)[i]) {
                let k = choose|k: int| 0 <= k < front.len() && front[k] == put_in(front, x)[i];
                assert(s[k] == put_in(s, x)[i]);
            }
        } else {
            assert(s[s.len() - 1] == put_in(s, x)[i]);
        }
    }
}

/// `sorted` is in ascending order and has the same texts as often.
pub proof fn lemma_sorted(s: Seq<Seq<char>>)
    ensures
        is_sorted(sorted(s)),
        sorted(s).len() == s.len(),
        sorted(s).to_multiset() =~= s.to_multiset(),
    decreases s.len(),
{
    broadcast use vstd::seq_lib::group_to_multiset_ensures;

    if s.len() > 0 {
        lemma_sorted(s.drop_last());
        lemma_put_in(sorted(s.drop_last()), s.last());
        assert(s =~= s.drop_last().push(s.last()));
    }
}

fn insert_sorted(s: &mut Vec<String>, x: String)
    ensures
        views(final(s)@) == put_in(views(old(s)@), x@),
{
    let ghost all = views(s@);
    let ghost xv = x@;
    let n: usize = s.len();
    let mut p: usize = n;
    proof {
        assert(all.subrange(0, n as int) =~= all);
        assert(all.subrange(n as int, n as int) =~= Seq::empty());
        assert(put_in(all, xv) =~= put_in(all.subrange(0, n as int), xv) + all.subrange(
            n as int,
            n as int,
        ));
    }
    while p > 0 && comes_before(&x, &s[p - 1])
        invariant
            p <= n == s@.len(),
            all == views(s@),
            xv == x@,
            put_in(all, xv) == put_in(all.subrange(0, p as int), xv) + all.subrange(
                p as int,
                n as int,
            ),
        decreases p,
    {
        proof {
            let here = all.subrange(0, p as int);
            assert(here.drop_last() =~= all.subrange(0, p - 1));
            assert(here.last() == s@[p - 1]@);
            assert(put_in(all.subrange(0, p - 1), xv).push(here.last()) + all.subrange(
                p as int,
                n as int,
            ) =~= put_in(all.subrange(0, p - 1), xv) + all.subrange(p - 1, n as int));
        }
        p = p - 1;
    }
    proof {
        let here = all.subrange(0, p as int);
        if p > 0 {
            assert(here.last() == s@[p - 1]@);
        }
        assert(put_in(here, xv) == here.push(xv));
    }
    let ghost before = s@;
    s.insert(p, x);
    proof {
        assert(views(s@) =~= all.subrange(0, p as int).push(xv) + all.subrange(p as int, n as int));
    }
}

/// The texts in ascending order.
pub fn in_order(s: &Vec<String>) -> (r: Vec<String>)
    ensures
        views(r@) == sorted(views(s@)),
{
    let ghost v = views(s@);
    let mut r: Vec<String> = Vec::new();
    let mut i: usize = 0;
    proof {
        assert(views(r@) =~= sorted(v.subrange(0, 0)));
    }
    while i < s.len()
        invariant
            i <= s@.len(),
            v == views(s@),
            views(r@) == sorted(v.subrange(0, i as int)),
        decreases s.len() - i,
    {
        proof {
            assert(v.subrange(0, i + 1).drop_last() =~= v.subrange(0, i as int));
            assert(v.subrange(0, i + 1).last() == s@[i as int]@);
        }
        insert_sorted(&mut r, s[i].clone());
        i = i + 1;
    }
    proof {
        assert(v.subrange(0, i as int) =~= v);
    }
    r
}

} // verus!
