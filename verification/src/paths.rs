//! Unix paths as text.

use crate::text::{
    chars_of, last_index, last_of, lemma_split_concat, lemma_split_len, lemma_split_whole,
    option_view, owned, same_chars, slice, split, split_chars, string_of, sub_chars,
};
use vstd::prelude::*;
use vstd::string::*;

verus! {

/// `base` with `rel` below it: `rel` itself where it is absolute, and otherwise the two with one
/// separator between them. An empty base adds none.
pub open spec fn join_path(base: Seq<char>, rel: Seq<char>) -> Seq<char> {
    if rel.len() > 0 && rel[0] == '/' {
        rel
    } else if base.len() == 0 || base.last() == '/' {
        base + rel
    } else {
        base.push('/') + rel
    }
}

/// `rel` below `base`.
pub fn join(base: &str, rel: &str) -> (r: String)
    ensures
        r@ == join_path(base@, rel@),
{
    let b: Vec<char> = chars_of(base);
    let x: Vec<char> = chars_of(rel);
    if x.len() > 0 && x[0] == '/' {
        return owned(rel);
    }
    let mut r = owned(base);
    if !(b.len() == 0 || b[b.len() - 1] == '/') {
        r.push('/');
    }
    r.append(rel);
    r
}

/// Whether a piece between separators names no component.
pub open spec fn is_void_piece(p: Seq<char>) -> bool {
    p.len() == 0 || p == seq!['.']
}

/// The last of the pieces that names a component.
pub open spec fn last_component(pieces: Seq<Seq<char>>) -> Option<Seq<char>>
    decreases pieces.len(),
{
    if pieces.len() == 0 {
        None
    } else if is_void_piece(pieces.last()) {
        last_component(pieces.drop_last())
    } else {
        Some(pieces.last())
    }
}

/// The file name of a path: its last component, unless that is the parent directory.
pub open spec fn name_of(path: Seq<char>) -> Option<Seq<char>> {
    match last_component(split(path, '/')) {
        Some(n) => if n == seq!['.', '.'] {
            None
        } else {
            Some(n)
        },
        None => None,
    }
}

/// A file name without its extension: the part before the last dot that is not its first
/// character.
pub open spec fn without_extension(name: Seq<char>) -> Seq<char> {
    let dot = last_of(name, '.');
    if dot > 0 {
        name.subrange(0, dot)
    } else {
        name
    }
}

/// The file name of a path without its extension.
pub open spec fn stem_of(path: Seq<char>) -> Option<Seq<char>> {
    match name_of(path) {
        Some(n) => Some(without_extension(n)),
        None => None,
    }
}

/// The extension of the file name of a path.
pub open spec fn extension_of(path: Seq<char>) -> Option<Seq<char>> {
    match name_of(path) {
        Some(n) => if last_of(n, '.') > 0 {
            Some(n.subrange(last_of(n, '.') + 1, n.len() as int))
        } else {
            None
        },
        None => None,
    }
}

fn name_chars(path: &str) -> (r: Option<Vec<char>>)
    ensures
        match r {
            Some(n) => name_of(path@) == Some(n@),
            None => name_of(path@) is None,
        },
{
    let all: Vec<char> = chars_of(path);
    let pieces: Vec<Vec<char>> = split_chars(&all, '/');
    let ghost p = pieces@.map_values(|p: Vec<char>| p@);
    let mut n: usize = pieces.len();
    proof {
        assert(p.subrange(0, n as int) =~= p);
    }
    while n > 0
        invariant
            n <= pieces@.len(),
            p == pieces@.map_values(|p: Vec<char>| p@),
            p == split(path@, '/'),
            last_component(p) == last_component(p.subrange(0, n as int)),
        decreases n,
    {
        let piece: &Vec<char> = &pieces[n - 1];
        proof {
            assert(p.subrange(0, n as int).drop_last() =~= p.subrange(0, n - 1));
            assert(p.subrange(0, n as int).last() == piece@);
        }
        let void: bool = piece.len() == 0 || (piece.len() == 1 && piece[0] == '.');
        proof {
            if piece@.len() == 1 {
                assert(piece@ =~= seq![piece@[0]]);
            }
        }
        if !void {
            if piece.len() == 2 && piece[0] == '.' && piece[1] == '.' {
                proof {
                    assert(piece@ =~= seq!['.', '.']);
                }
                return None;
            }
            proof {
                if piece@ == seq!['.', '.'] {
                    assert(piece@[0] == '.' && piece@[1] == '.');
                }
                if piece@ == seq!['.'] {
                    assert(piece@[0] == '.');
                }
            }
            let r: Vec<char> = sub_chars(piece, 0, piece.len());
            proof {
                assert(r@ =~= piece@);
            }
            return Some(r);
        }
        n = n - 1;
    }
    None
}

/// The file name of a path.
pub fn file_name(path: &str) -> (r: Option<String>)
    ensures
        option_view(r) == name_of(path@),
{
    match name_chars(path) {
        Some(n) => Some(string_of(&n)),
        None => None,
    }
}

/// The file name of a path without its extension.
pub fn file_stem(path: &str) -> (r: Option<String>)
    ensures
        option_view(r) == stem_of(path@),
{
    match name_chars(path) {
        Some(n) => {
            if let Some(dot) = last_index(&n, '.') {
                if dot > 0 {
                    return Some(slice(&n, 0, dot));
                }
            }
            Some(string_of(&n))
        },
        None => None,
    }
}

/// The extension of the file name of a path.
pub fn extension(path: &str) -> (r: Option<String>)
    ensures
        option_view(r) == extension_of(path@),
{
    match name_chars(path) {
        Some(n) => {
            if let Some(dot) = last_index(&n, '.') {
                if dot > 0 {
                    return Some(slice(&n, dot + 1, n.len()));
                }
            }
            None
        },
        None => None,
    }
}

/// `s` without the separators at its end; a lone root stays.
pub open spec fn without_trailing_separators(s: Seq<char>) -> Seq<char>
    decreases s.len(),
{
    if s.len() > 1 && s.last() == '/' {
        without_trailing_separators(s.drop_last())
    } else {
        s
    }
}

/// The directory part of a path without `.` components: what stands before its last component,
/// empty for a bare file name.
pub open spec fn parent_of(path: Seq<char>) -> Seq<char> {
    let whole = without_trailing_separators(path);
    let cut = last_of(whole, '/');
    without_trailing_separators(whole.subrange(0, cut + 1))
}

fn strip_separators(s: &Vec<char>) -> (r: Vec<char>)
    ensures
        r@ == without_trailing_separators(s@),
{
    let mut n: usize = s.len();
    proof {
        assert(s@.subrange(0, n as int) =~= s@);
    }
    while n > 1 && s[n - 1] == '/'
        invariant
            n <= s@.len(),
            without_trailing_separators(s@) == without_trailing_separators(
                s@.subrange(0, n as int),
            ),
        decreases n,
    {
        proof {
            assert(s@.subrange(0, n as int).drop_last() =~= s@.subrange(0, n - 1));
        }
        n = n - 1;
    }
    sub_chars(s, 0, n)
}

/// The directory part of a path.
pub fn parent(path: &str) -> (r: String)
    ensures
        r@ == parent_of(path@),
{
    let all: Vec<char> = chars_of(path);
    let whole: Vec<char> = strip_separators(&all);
    let end: usize = match last_index(&whole, '/') {
        Some(i) => i + 1,
        None => 0,
    };
    let dir: Vec<char> = strip_separators(&sub_chars(&whole, 0, end));
    string_of(&dir)
}

/// Whether a path has a parent: it names a component, or begins at the current directory.
pub open spec fn has_parent(path: Seq<char>) -> bool {
    last_component(split(path, '/')) is Some || split(path, '/')[0] == seq!['.']
}

/// The directory part of a path that has a parent.
pub open spec fn parent_dir(path: Seq<char>) -> Option<Seq<char>> {
    if has_parent(path) {
        Some(parent_of(path))
    } else {
        None
    }
}

/// The pieces that name a component.
pub open spec fn named(pieces: Seq<Seq<char>>) -> Seq<Seq<char>>
    decreases pieces.len(),
{
    if pieces.len() == 0 {
        Seq::empty()
    } else if is_void_piece(pieces.last()) {
        named(pieces.drop_last())
    } else {
        named(pieces.drop_last()).push(pieces.last())
    }
}

/// What a path begins with besides named components: the root, or the current directory.
pub open spec fn lead(path: Seq<char>) -> Seq<Seq<char>> {
    if path.len() > 0 && path[0] == '/' {
        seq![seq!['/']]
    } else if split(path, '/')[0] == seq!['.'] {
        seq![seq!['.']]
    } else {
        Seq::empty()
    }
}

/// The components of a path.
pub open spec fn components(path: Seq<char>) -> Seq<Seq<char>> {
    lead(path) + named(split(path, '/'))
}

/// Whether a path is `root` or lies below it: its components begin with those of `root`.
pub open spec fn is_within(path: Seq<char>, root: Seq<char>) -> bool {
    let p = components(path);
    let r = components(root);
    r.len() <= p.len() && p.subrange(0, r.len() as int) == r
}

/// The components of a path.
pub fn path_components(path: &str) -> (r: Vec<Vec<char>>)
    ensures
        r@.map_values(|p: Vec<char>| p@) == components(path@),
{
    let all: Vec<char> = chars_of(path);
    let pieces: Vec<Vec<char>> = split_chars(&all, '/');
    let ghost f = |p: Vec<char>| p@;
    let ghost p = pieces@.map_values(f);
    let mut r: Vec<Vec<char>> = Vec::new();
    proof {
        lemma_split_len(path@, '/');
        assert(p[0] == pieces@[0]@);
        assert(p[0] == seq!['.'] <==> p[0].len() == 1 && p[0][0] == '.') by {
            if p[0].len() == 1 && p[0][0] == '.' {
                assert(p[0] =~= seq!['.']);
            }
        }
    }
    if all.len() > 0 && all[0] == '/' {
        let mut root: Vec<char> = Vec::new();
        root.push('/');
        proof {
            assert(root@ =~= seq!['/']);
        }
        r.push(root);
    } else if pieces[0].len() == 1 && pieces[0][0] == '.' {
        let mut here: Vec<char> = Vec::new();
        here.push('.');
        proof {
            assert(here@ =~= seq!['.']);
        }
        r.push(here);
    }
    proof {
        assert(r@.map_values(f) =~= lead(path@));
        assert(p.subrange(0, 0) =~= Seq::empty());
        assert(lead(path@) + named(p.subrange(0, 0)) =~= lead(path@));
    }
    let mut i: usize = 0;
    while i < pieces.len()
        invariant
            i <= pieces@.len(),
            f == (|p: Vec<char>| p@),
            p == pieces@.map_values(f),
            r@.map_values(f) == lead(path@) + named(p.subrange(0, i as int)),
        decreases pieces.len() - i,
    {
        let piece: &Vec<char> = &pieces[i];
        let ghost done = r@;
        let ghost next = p.subrange(0, i + 1);
        proof {
            assert(next.drop_last() =~= p.subrange(0, i as int));
            assert(next.last() == piece@);
            if piece@.len() == 1 && piece@[0] == '.' {
                assert(piece@ =~= seq!['.']);
            }
        }
        if !(piece.len() == 0 || (piece.len() == 1 && piece[0] == '.')) {
            let copy: Vec<char> = sub_chars(piece, 0, piece.len());
            proof {
                assert(copy@ =~= piece@);
            }
            r.push(copy);
            proof {
                assert(r@.map_values(f) =~= done.map_values(f).push(piece@));
                assert(r@.map_values(f) =~= lead(path@) + named(next));
            }
        }
        i = i + 1;
    }
    proof {
        assert(p.subrange(0, i as int) =~= p);
    }
    r
}

/// Whether a path is `root` or lies below it.
pub fn within(path: &str, root: &str) -> (r: bool)
    ensures
        r == is_within(path@, root@),
{
    let p: Vec<Vec<char>> = path_components(path);
    let q: Vec<Vec<char>> = path_components(root);
    let ghost f = |p: Vec<char>| p@;
    let ghost pv = p@.map_values(f);
    let ghost qv = q@.map_values(f);
    if q.len() > p.len() {
        return false;
    }
    let mut i: usize = 0;
    while i < q.len()
        invariant
            i <= q@.len() <= p@.len(),
            pv == p@.map_values(|p: Vec<char>| p@),
            qv == q@.map_values(|p: Vec<char>| p@),
            pv == components(path@),
            qv == components(root@),
            forall|k: int| 0 <= k < i ==> pv[k] == qv[k],
        decreases q.len() - i,
    {
        if !same_chars(&p[i], &q[i]) {
            proof {
                assert(pv.subrange(0, qv.len() as int)[i as int] == pv[i as int]);
            }
            return false;
        }
        proof {
            assert(pv[i as int] == qv[i as int]);
        }
        i = i + 1;
    }
    proof {
        assert(pv.subrange(0, qv.len() as int) =~= qv);
    }
    true
}

/// The directory part of a path, if it has a parent.
pub fn parent_directory(path: &str) -> (r: Option<String>)
    ensures
        option_view(r) == parent_dir(path@),
{
    let all: Vec<char> = chars_of(path);
    let pieces: Vec<Vec<char>> = split_chars(&all, '/');
    let ghost p = pieces@.map_values(|p: Vec<char>| p@);
    let mut n: usize = pieces.len();
    let mut some: bool = false;
    proof {
        lemma_split_len(path@, '/');
        assert(p.subrange(0, n as int) =~= p);
        assert(p[0] == pieces@[0]@);
        assert(p[0] == seq!['.'] <==> p[0].len() == 1 && p[0][0] == '.') by {
            if p[0].len() == 1 && p[0][0] == '.' {
                assert(p[0] =~= seq!['.']);
            }
        }
    }
    if pieces[0].len() == 1 && pieces[0][0] == '.' {
        return Some(parent(path));
    }
    while n > 0 && !some
        invariant
            n <= pieces@.len(),
            p == pieces@.map_values(|p: Vec<char>| p@),
            some ==> last_component(p) is Some,
            !some ==> last_component(p) == last_component(p.subrange(0, n as int)),
        decreases n + (if some { 0int } else { 1int }),
    {
        let piece: &Vec<char> = &pieces[n - 1];
        proof {
            assert(p.subrange(0, n as int).drop_last() =~= p.subrange(0, n - 1));
            assert(p.subrange(0, n as int).last() == piece@);
            if piece@.len() == 1 && piece@[0] == '.' {
                assert(piece@ =~= seq!['.']);
            }
        }
        if piece.len() == 0 || (piece.len() == 1 && piece[0] == '.') {
            n = n - 1;
        } else {
            some = true;
        }
    }
    if some {
        Some(parent(path))
    } else {
        None
    }
}

proof fn lemma_named_concat(a: Seq<Seq<char>>, b: Seq<Seq<char>>)
    ensures
        named(a + b) == named(a) + named(b),
    decreases b.len(),
{
    if b.len() == 0 {
        assert(a + b =~= a);
        assert(named(a) + named(b) =~= named(a));
    } else {
        lemma_named_concat(a, b.drop_last());
        assert((a + b).drop_last() =~= a + b.drop_last());
        assert((a + b).last() == b.last());
        assert(named(a + b) =~= named(a) + named(b));
    }
}

/// What is joined below a root lies within it.
pub proof fn lemma_joined_within(root: Seq<char>, rel: Seq<char>)
    requires
        root.len() > 0,
        !(rel.len() > 0 && rel[0] == '/'),
    ensures
        is_within(join_path(root, rel), root),
{
    let base = if root.last() == '/' {
        root.drop_last()
    } else {
        root
    };
    let whole = join_path(root, rel);
    assert(whole =~= base.push('/') + rel);
    lemma_split_concat(base, rel, '/');
    lemma_split_len(base, '/');
    lemma_named_concat(split(base, '/'), split(rel, '/'));
    if root.last() == '/' {
        assert(root =~= base.push('/') + Seq::<char>::empty());
        lemma_split_concat(base, Seq::empty(), '/');
        lemma_named_concat(split(base, '/'), split(Seq::<char>::empty(), '/'));
        let one = seq![Seq::<char>::empty()];
        assert(one.drop_last() =~= Seq::empty());
        assert(is_void_piece(one.last()));
        assert(named(one) == named(one.drop_last()));
        assert(split(Seq::<char>::empty(), '/') =~= one);
        assert(named(split(root, '/')) =~= named(split(base, '/')));
    }
    assert(split(whole, '/')[0] == split(base, '/')[0]);
    assert(split(root, '/')[0] == split(base, '/')[0]);
    assert(whole[0] == root[0]);
    assert(lead(whole) == lead(root));
    let r = components(root);
    assert(components(whole).subrange(0, r.len() as int) =~= r);
}

/// A name joined below a directory is the file name of the path.
pub proof fn lemma_name_of_joined(dir: Seq<char>, name: Seq<char>)
    requires
        name.len() > 0,
        !name.contains('/'),
        name != seq!['.'],
        name != seq!['.', '.'],
    ensures
        name_of(join_path(dir, name)) == Some(name),
{
    let whole = join_path(dir, name);
    assert(name[0] != '/');
    lemma_split_whole(name, '/');
    if dir.len() == 0 {
        assert(whole =~= name);
    } else {
        let base = if dir.last() == '/' {
            dir.drop_last()
        } else {
            dir
        };
        assert(whole =~= base.push('/') + name);
        lemma_split_concat(base, name, '/');
    }
    assert(split(whole, '/').last() == name);
}

/// The directory `name` of this program below a base directory from the environment, or below
/// `fallback` in the home directory where the base is not set.
pub open spec fn user_dir(
    base: Option<Seq<char>>,
    home: Option<Seq<char>>,
    no_home: Seq<char>,
    fallback: Seq<char>,
) -> Seq<char> {
    match base {
        Some(b) => b,
        None => join_path(
            match home {
                Some(h) => h,
                None => no_home,
            },
            fallback,
        ),
    }
}

/// `user_dir` for environment variables that have been read.
pub fn user_directory(
    base: &Option<String>,
    home: &Option<String>,
    no_home: &str,
    fallback: &str,
) -> (r: String)
    ensures
        r@ == user_dir(option_view(*base), option_view(*home), no_home@, fallback@),
{
    match base {
        Some(b) => b.clone(),
        None => match home {
            Some(h) => join(h, fallback),
            None => join(no_home, fallback),
        },
    }
}

/// A name falls into its stem and its extension, with a dot between them; without an extension the
/// stem is the whole name. An extension has no dot, and a stem is never empty.
pub proof fn lemma_stem_and_extension(path: Seq<char>)
    ensures
        stem_of(path) is Some <==> name_of(path) is Some,
        extension_of(path) matches Some(e) ==> name_of(path) matches Some(n) && stem_of(
            path,
        ) matches Some(s) && s.len() > 0 && n == s.push('.') + e && !e.contains('.'),
        extension_of(path) is None ==> stem_of(path) == name_of(path),
        extension_of(path) is None && name_of(path) is Some ==> forall|k: int|
            0 < k < name_of(path)->Some_0.len() ==> #[trigger] name_of(path)->Some_0[k] != '.',
{
    if let Some(n) = name_of(path) {
        let dot = last_of(n, '.');
        lemma_last_is_last(n, '.');
        if dot > 0 {
            let s = n.subrange(0, dot);
            let e = n.subrange(dot + 1, n.len() as int);
            assert(n =~= s.push('.') + e);
            assert forall|k: int| 0 <= k < e.len() implies e[k] != '.' by {
                assert(n[dot + 1 + k] != '.');
            }
        }
    }
}

proof fn lemma_last_is_last(s: Seq<char>, c: char)
    ensures
        -1 <= last_of(s, c) < s.len(),
        last_of(s, c) >= 0 ==> s[last_of(s, c)] == c,
        forall|k: int| last_of(s, c) < k < s.len() ==> #[trigger] s[k] != c,
    decreases s.len(),
{
    if s.len() > 0 && s.last() != c {
        lemma_last_is_last(s.drop_last(), c);
        assert forall|k: int| last_of(s, c) < k < s.len() implies #[trigger] s[k] != c by {
            if k < s.len() - 1 {
                assert(s.drop_last()[k] == s[k]);
            }
        }
    }
}

/// A path below a directory is the directory, a separator and the path; an absolute one stands alone.
pub proof fn lemma_join_path(base: Seq<char>, rel: Seq<char>)
    ensures
        rel.len() > 0 && rel[0] == '/' ==> join_path(base, rel) == rel,
        rel.len() > 0 && rel[0] != '/' && base.len() > 0 && base.last() != '/' ==> join_path(
            base,
            rel,
        ) == base + seq!['/'] + rel,
        rel.len() > 0 && rel[0] != '/' && base.len() > 0 && base.last() == '/' ==> join_path(
            base,
            rel,
        ) == base + rel,
        join_path(Seq::empty(), rel) == rel,
{
    assert(base.push('/') + rel =~= base + seq!['/'] + rel);
    assert(Seq::<char>::empty() + rel =~= rel);
}

/// The directory of a file is the one that its name was joined below.
pub proof fn lemma_parent_of_joined(dir: Seq<char>, name: Seq<char>)
    requires
        dir.len() > 0,
        dir.last() != '/',
        name.len() > 0,
        !name.contains('/'),
        !is_void_piece(name),
    ensures
        parent_dir(join_path(dir, name)) == Some(dir),
{
    let p = join_path(dir, name);
    assert(name.contains(name[0]));
    assert(name.contains(name[name.len() - 1]));
    assert(p == dir.push('/') + name);
    crate::text::lemma_split_concat(dir, name, '/');
    crate::text::lemma_split_whole(name, '/');
    let pieces = split(p, '/');
    assert(pieces.last() == name);
    assert(last_component(pieces) == Some(name));
    assert(without_trailing_separators(p) == p);
    lemma_last_is_last(p, '/');
    let cut = last_of(p, '/');
    assert(p[dir.len() as int] == '/');
    assert forall|k: int| dir.len() < k < p.len() implies p[k] != '/' by {
        assert(p[k] == name[k - dir.len() - 1]);
        assert(name.contains(name[k - dir.len() - 1]));
    }
    assert(cut == dir.len());
    let whole = p.subrange(0, cut + 1);
    assert(whole =~= dir.push('/'));
    assert(whole.drop_last() =~= dir);
    assert(without_trailing_separators(dir) == dir);
    assert(without_trailing_separators(whole) == dir);
}

/// A directory that is set counts; else the fallback below the home directory does.
pub proof fn lemma_user_dir(base: Seq<char>, home: Seq<char>, no_home: Seq<char>, fallback: Seq<char>)
    ensures
        user_dir(Some(base), Some(home), no_home, fallback) == base,
        user_dir(Some(base), None, no_home, fallback) == base,
        user_dir(None, Some(home), no_home, fallback) == join_path(home, fallback),
        user_dir(None, None, no_home, fallback) == join_path(no_home, fallback),
{
}

} // verus!
