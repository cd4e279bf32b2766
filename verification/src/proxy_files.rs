//! Files that belong to proxies: records of the sources they were made from, the index of owned
//! files, and which files a clean-up takes away.

use crate::digest::{digest_text, text_digest};
use crate::paths::{is_within, join, join_path, within};
use crate::pieces::{cut_at_first, cut_first};
use crate::project_health::ProxySidecarUsage;
use crate::proxy_names::{
    alongside_proxy_path_for, chars_in, is_artifact, is_proxy_cache_artifact_name,
    legacy_alongside_proxy_path_for, legacy_local_proxy_path_for, legacy_name, local_proxy_path_for,
    placed, proxy_source_hash_from_name, sidecar_dir, sidecar_proxy_dir_for, source_digest_in,
    variant_name, Variant,
};
use crate::text::{
    chars_of, decimal, distinct, ends, ends_with, has, in_order, is_digit, lemma_decimal,
    lemma_split_append, lemma_split_concat, lemma_split_len, lemma_split_whole, listed, number,
    occurs, option_view, owned, parse_number, push_decimal, same, sorted, split, split_chars,
    split_on, string_of, sub_chars, trim, trim_end, trim_start, trimmed, views, without_repeats,
};
use vstd::prelude::*;
use vstd::string::*;

verus! {

// ---------------------------------------------------------- source records
/// Size and time of change of a source file.
#[derive(Clone, Copy, Debug, PartialEq, Eq, Structural)]
pub struct SourceSignature {
    pub len: u64,
    pub modified_secs: u64,
    pub modified_nanos: u32,
}

/// The path of the record of a proxy's source.
pub fn proxy_source_signature_path(proxy_path: &str) -> (r: String)
    ensures
        r@ == proxy_path@ + ".source-meta"@,
{
    let mut r = owned(proxy_path);
    r.append(".source-meta");
    r
}

/// The record of a source: its numbers with bars between them, on one line.
pub open spec fn record_of(s: SourceSignature) -> Seq<char> {
    decimal(s.len as nat) + "|"@ + decimal(s.modified_secs as nat) + "|"@ + decimal(
        s.modified_nanos as nat,
    ) + "\n"@
}

/// The record of a source.
pub fn signature_record(s: &SourceSignature) -> (r: String)
    ensures
        r@ == record_of(*s),
{
    let mut r = String::new();
    push_decimal(&mut r, s.len);
    proof {
        assert(r@ =~= decimal(s.len as nat));
    }
    r.append("|");
    push_decimal(&mut r, s.modified_secs);
    r.append("|");
    push_decimal(&mut r, s.modified_nanos as u64);
    r.append("\n");
    r
}

/// The source that a record describes: its first three fields, each a number.
pub open spec fn recorded(payload: Seq<char>) -> Option<SourceSignature> {
    let parts = split(trim(payload), '|');
    if parts.len() < 3 {
        None
    } else {
        match (
            number(parts[0], u64::MAX as nat),
            number(parts[1], u64::MAX as nat),
            number(parts[2], u32::MAX as nat),
        ) {
            (Some(a), Some(b), Some(c)) => Some(
                SourceSignature { len: a as u64, modified_secs: b as u64, modified_nanos: c as u32 },
            ),
            _ => None,
        }
    }
}

/// Reads the record of a source.
pub fn read_signature_record(payload: &str) -> (r: Option<SourceSignature>)
    ensures
        r == recorded(payload@),
{
    let text: String = trimmed(payload);
    let parts: Vec<String> = split_on(&text, '|');
    proof {
        assert(parts@.len() == views(parts@).len());
    }
    if parts.len() < 3 {
        return None;
    }
    proof {
        assert(views(parts@)[0] == parts@[0]@);
        assert(views(parts@)[1] == parts@[1]@);
        assert(views(parts@)[2] == parts@[2]@);
    }
    let a = parse_number(&chars_of(&parts[0]));
    let b = parse_number(&chars_of(&parts[1]));
    let c = parse_number(&chars_of(&parts[2]));
    if let (Some(len), Some(modified_secs), Some(nanos)) = (a, b, c) {
        if nanos <= 0xffff_ffff {
            return Some(SourceSignature { len, modified_secs, modified_nanos: nanos as u32 });
        }
    }
    None
}

/// A record reads back as the source that it was written for.
pub proof fn lemma_record_reads_back(s: SourceSignature)
    ensures
        recorded(record_of(s)) == Some(s),
{
    reveal_strlit("|");
    reveal_strlit("\n");
    let a = decimal(s.len as nat);
    let b = decimal(s.modified_secs as nat);
    let c = decimal(s.modified_nanos as nat);
    lemma_decimal(s.len as nat);
    lemma_decimal(s.modified_secs as nat);
    lemma_decimal(s.modified_nanos as nat);
    let text = record_of(s);
    let line = a.push('|') + (b.push('|') + c);
    assert(text =~= line.push('\n'));
    assert(is_digit(a[0]));
    assert(text[0] == a[0]);
    assert(trim_start(text) == text);
    assert(text.drop_last() =~= line);
    assert(is_digit(c[c.len() - 1]));
    assert(line.last() == c.last());
    assert(trim_end(line) == line);
    assert(trim(text) == line);
    assert(!a.contains('|') && !b.contains('|') && !c.contains('|')) by {
        assert(forall|i: int| 0 <= i < a.len() ==> is_digit(#[trigger] a[i]));
        assert(forall|i: int| 0 <= i < b.len() ==> is_digit(#[trigger] b[i]));
        assert(forall|i: int| 0 <= i < c.len() ==> is_digit(#[trigger] c[i]));
    }
    lemma_split_concat(a, b.push('|') + c, '|');
    lemma_split_concat(b, c, '|');
    lemma_split_whole(a, '|');
    lemma_split_whole(b, '|');
    lemma_split_whole(c, '|');
    let parts = split(line, '|');
    assert(parts[0] == a);
    assert(parts[1] == b);
    assert(parts[2] == c);
}

/// Whether a proxy still belongs to its source. Where the source cannot be read it does. Where
/// there is a record the source must be as recorded, and otherwise the proxy must not be older.
pub open spec fn is_current(
    source: Option<SourceSignature>,
    stored: Option<SourceSignature>,
    proxy_modified: Option<(u64, u32)>,
) -> bool {
    match source {
        None => true,
        Some(now) => match stored {
            Some(s) => s == now,
            None => match proxy_modified {
                None => true,
                Some(m) => now.modified_secs < m.0 || (now.modified_secs == m.0
                    && now.modified_nanos <= m.1),
            },
        },
    }
}

/// Whether a proxy still belongs to its source.
pub fn proxy_matches_current_source(
    source: Option<SourceSignature>,
    stored: Option<SourceSignature>,
    proxy_modified: Option<(u64, u32)>,
) -> (r: bool)
    ensures
        r == is_current(source, stored, proxy_modified),
{
    match source {
        None => true,
        Some(now) => match stored {
            Some(s) => s == now,
            None => match proxy_modified {
                None => true,
                Some(m) => now.modified_secs < m.0 || (now.modified_secs == m.0
                    && now.modified_nanos <= m.1),
            },
        },
    }
}

/// What a probe of a file's duration gave: whether it ran, whether it succeeded, and whether the
/// duration that it printed is a finite number above zero.
#[derive(Clone, Copy, Debug, PartialEq, Eq, Structural)]
pub struct DurationProbe {
    pub ran: bool,
    pub succeeded: bool,
    pub positive: bool,
}

/// Whether a proxy file is complete: it is there and not empty, and where it can be probed, it
/// has a duration.
pub fn proxy_file_is_ready(len: Option<u64>, probe: Option<DurationProbe>) -> (r: bool)
    ensures
        r == (len matches Some(n) && n > 0 && (probe matches Some(p) ==> p.ran && p.succeeded
            && p.positive)),
{
    match len {
        None => false,
        Some(n) => if n == 0 {
            false
        } else {
            match probe {
                None => true,
                Some(p) => p.ran && p.succeeded && p.positive,
            }
        },
    }
}

// ------------------------------------------------------------- owned files
/// A file that this program has made, and when.
#[derive(Clone, Debug)]
pub struct OwnedEntry {
    pub created_at: u64,
    pub path: String,
}

/// The entries with their paths as characters.
pub open spec fn entry_views(entries: Seq<OwnedEntry>) -> Seq<(nat, Seq<char>)> {
    entries.map_values(|e: OwnedEntry| (e.created_at as nat, e.path@))
}

/// The path of the index of owned files.
pub fn ownership_index_path(root: &str) -> (r: String)
    ensures
        r@ == join_path(root@, "ownership-index-v1.txt"@),
{
    join(root, "ownership-index-v1.txt")
}

/// The line of an entry.
pub open spec fn entry_line(e: (nat, Seq<char>)) -> Seq<char> {
    decimal(e.0) + "|"@ + e.1
}

/// The index of owned files: one line for each entry.
pub open spec fn index_text(entries: Seq<(nat, Seq<char>)>) -> Seq<char>
    decreases entries.len(),
{
    if entries.len() == 0 {
        Seq::empty()
    } else {
        index_text(entries.drop_last()) + entry_line(entries.last()) + "\n"@
    }
}

/// The index of owned files.
pub fn owned_entries_text(entries: &Vec<OwnedEntry>) -> (r: String)
    ensures
        r@ == index_text(entry_views(entries@)),
{
    let ghost all = entry_views(entries@);
    let mut r = String::new();
    let mut i: usize = 0;
    proof {
        assert(all.subrange(0, 0) =~= Seq::empty());
    }
    while i < entries.len()
        invariant
            i <= entries@.len(),
            all == entry_views(entries@),
            r@ == index_text(all.subrange(0, i as int)),
        decreases entries.len() - i,
    {
        let ghost before = r@;
        push_decimal(&mut r, entries[i].created_at);
        r.append("|");
        r.append(&entries[i].path);
        r.append("\n");
        proof {
            let next = all.subrange(0, i + 1);
            assert(next.drop_last() =~= all.subrange(0, i as int));
            assert(next.last() == all[i as int]);
            assert(r@ =~= before + entry_line(all[i as int]) + "\n"@);
        }
        i = i + 1;
    }
    proof {
        assert(all.subrange(0, i as int) =~= all);
    }
    r
}

/// The piece at `i` as a line: without the carriage return before a line feed.
pub open spec fn line_at(pieces: Seq<Seq<char>>, i: int) -> Seq<char> {
    let p = pieces[i];
    if i < pieces.len() - 1 && p.len() > 0 && p.last() == '\r' {
        p.drop_last()
    } else {
        p
    }
}

/// The entry on a line.
pub open spec fn entry_on(line: Seq<char>) -> Option<(nat, Seq<char>)> {
    match cut_first(line, '|') {
        Some(c) => match number(c.0, u64::MAX as nat) {
            Some(n) => Some((n, c.1)),
            None => None,
        },
        None => None,
    }
}

/// The entries on the first `n` lines.
pub open spec fn entries_on(pieces: Seq<Seq<char>>, n: nat) -> Seq<(nat, Seq<char>)>
    decreases n,
{
    if n == 0 {
        Seq::empty()
    } else {
        let front = entries_on(pieces, (n - 1) as nat);
        match entry_on(line_at(pieces, n - 1)) {
            Some(e) => front.push(e),
            None => front,
        }
    }
}

/// The entries of an index. Lines that hold none are left out.
pub open spec fn index_entries(data: Seq<char>) -> Seq<(nat, Seq<char>)> {
    let pieces = split(data, '\n');
    entries_on(pieces, pieces.len())
}

/// Reads the index of owned files.
pub fn read_owned_entries(data: &str) -> (r: Vec<OwnedEntry>)
    ensures
        entry_views(r@) == index_entries(data@),
{
    let all: Vec<char> = chars_of(data);
    let pieces: Vec<Vec<char>> = split_chars(&all, '\n');
    let ghost p = pieces@.map_values(|p: Vec<char>| p@);
    let mut r: Vec<OwnedEntry> = Vec::new();
    let mut i: usize = 0;
    proof {
        assert(entry_views(r@) =~= entries_on(p, 0));
    }
    while i < pieces.len()
        invariant
            i <= pieces@.len(),
            p == pieces@.map_values(|p: Vec<char>| p@),
            entry_views(r@) == entries_on(p, i as nat),
        decreases pieces.len() - i,
    {
        let piece: &Vec<char> = &pieces[i];
        let n: usize = piece.len();
        let end: usize = if i < pieces.len() - 1 && n > 0 && piece[n - 1] == '\r' {
            n - 1
        } else {
            n
        };
        let line: Vec<char> = sub_chars(piece, 0, end);
        proof {
            assert(p[i as int] == piece@);
            assert(line@ =~= line_at(p, i as int));
        }
        if let Some(c) = cut_at_first(&line, '|') {
            if let Some(created_at) = parse_number(&c.0) {
                let ghost before = r@;
                r.push(OwnedEntry { created_at, path: string_of(&c.1) });
                proof {
                    assert(entry_views(r@) =~= entry_views(before).push(
                        (created_at as nat, c.1@),
                    ));
                }
            }
        }
        i = i + 1;
    }
    r
}

proof fn lemma_line_reads_back(e: (nat, Seq<char>))
    requires
        e.0 <= u64::MAX,
    ensures
        entry_on(entry_line(e)) == Some(e),
{
    reveal_strlit("|");
    let d = decimal(e.0);
    lemma_decimal(e.0);
    let line = entry_line(e);
    let n = d.len() as int;
    assert(line[n] == '|');
    assert forall|k: int| 0 <= k < n implies line[k] != '|' by {
        assert(line[k] == d[k]);
        assert(is_digit(d[k]));
    }
    crate::text::lemma_first_of_is(line, '|', n);
    assert(line.subrange(0, n) =~= d);
    assert(line.subrange(n + 1, line.len() as int) =~= e.1);
}

proof fn lemma_line_is_one(e: (nat, Seq<char>))
    requires
        !e.1.contains('\n'),
    ensures
        !entry_line(e).contains('\n'),
{
    reveal_strlit("|");
    lemma_decimal(e.0);
    let line = entry_line(e);
    let d = decimal(e.0);
    if line.contains('\n') {
        let k = choose|k: int| 0 <= k < line.len() && line[k] == '\n';
        if k < d.len() {
            assert(is_digit(d[k]));
        } else if k > d.len() {
            assert(e.1[k - d.len() - 1] == '\n');
        }
    }
}

/// The pieces of an index: the lines of its entries, and nothing after the last.
proof fn lemma_index_pieces(entries: Seq<(nat, Seq<char>)>)
    requires
        forall|i: int| 0 <= i < entries.len() ==> !(#[trigger] entries[i]).1.contains('\n'),
    ensures
        split(index_text(entries), '\n') == entries.map_values(
            |e: (nat, Seq<char>)| entry_line(e),
        ).push(Seq::<char>::empty()),
    decreases entries.len(),
{
    let f = |e: (nat, Seq<char>)| entry_line(e);
    let pieces = split(index_text(entries), '\n');
    if entries.len() == 0 {
        assert(pieces =~= entries.map_values(f).push(Seq::<char>::empty()));
    } else {
        reveal_strlit("\n");
        let front = entries.drop_last();
        let e = entries.last();
        assert(entries[entries.len() - 1] == e);
        assert forall|i: int| 0 <= i < front.len() implies !(#[trigger] front[i]).1.contains(
            '\n',
        ) by {
            assert(front[i] == entries[i]);
        }
        lemma_index_pieces(front);
        let before = index_text(front);
        let line = entry_line(e);
        lemma_line_is_one(e);
        lemma_split_append(before, line, '\n');
        lemma_split_len(before, '\n');
        let text = index_text(entries);
        assert(text =~= (before + line).push('\n'));
        assert(text.drop_last() =~= before + line);
        assert(Seq::<char>::empty() + line =~= line);
        assert(split(before + line, '\n') =~= front.map_values(f).push(line));
        assert(entries.map_values(f) =~= front.map_values(f).push(line));
        assert(pieces =~= entries.map_values(f).push(Seq::<char>::empty()));
    }
}

proof fn lemma_entries_on(entries: Seq<(nat, Seq<char>)>, pieces: Seq<Seq<char>>, n: nat)
    requires
        n <= entries.len(),
        pieces.len() == entries.len() + 1,
        forall|i: int|
            0 <= i < entries.len() ==> {
                &&& #[trigger] pieces[i] == entry_line(entries[i])
                &&& entries[i].0 <= u64::MAX
                &&& !(entries[i].1.len() > 0 && entries[i].1.last() == '\r')
            },
    ensures
        entries_on(pieces, n) == entries.subrange(0, n as int),
    decreases n,
{
    if n == 0 {
        assert(entries.subrange(0, 0) =~= Seq::empty());
    } else {
        lemma_entries_on(entries, pieces, (n - 1) as nat);
        reveal_strlit("|");
        let e = entries[n - 1];
        assert(pieces[n - 1] == entry_line(e));
        lemma_line_reads_back(e);
        let line = entry_line(e);
        assert(line.last() != '\r') by {
            if e.1.len() > 0 {
                assert(line.last() == e.1.last());
            } else {
                assert(line.last() == '|');
            }
        }
        assert(entries.subrange(0, n as int) =~= entries.subrange(0, n - 1).push(e));
    }
}

/// An index reads back as the entries that it was written for, where their paths hold no line
/// ends.
pub proof fn lemma_index_reads_back(entries: Seq<OwnedEntry>)
    requires
        forall|i: int|
            0 <= i < entries.len() ==> !(#[trigger] entries[i]).path@.contains('\n') && !(
            entries[i].path@.len() > 0 && entries[i].path@.last() == '\r'),
    ensures
        index_entries(index_text(entry_views(entries))) == entry_views(entries),
{
    let v = entry_views(entries);
    assert forall|i: int| 0 <= i < v.len() implies !(#[trigger] v[i]).1.contains('\n') by {
        assert(v[i].1 == entries[i].path@);
    }
    lemma_index_pieces(v);
    let pieces = split(index_text(v), '\n');
    assert forall|i: int| 0 <= i < v.len() implies {
        &&& #[trigger] pieces[i] == entry_line(v[i])
        &&& v[i].0 <= u64::MAX
        &&& !(v[i].1.len() > 0 && v[i].1.last() == '\r')
    } by {
        assert(v[i].1 == entries[i].path@);
    }
    lemma_entries_on(v, pieces, v.len());
    assert(v.subrange(0, v.len() as int) =~= v);
    assert(line_at(pieces, v.len() as int) =~= Seq::<char>::empty());
    assert(crate::text::first_of(Seq::<char>::empty(), '|') == 0);
    assert(entry_on(Seq::<char>::empty()) is None);
}

/// Whether one of the entries has this path.
pub open spec fn has_entry(entries: Seq<OwnedEntry>, path: Seq<char>) -> bool {
    exists|i: int| 0 <= i < entries.len() && (#[trigger] entries[i]).path@ == path
}

/// Adds a file below the root to the index, unless it is there. Says whether it was added.
pub fn append_owned_entry(entries: &mut Vec<OwnedEntry>, root: &str, path: &str, now: u64) -> (r: bool)
    ensures
        r == (is_within(path@, root@) && !has_entry(old(entries)@, path@)),
        !r ==> final(entries)@ == old(entries)@,
        r ==> entry_views(final(entries)@) == entry_views(old(entries)@).push((now as nat, path@)),
{
    if !within(path, root) {
        return false;
    }
    let ghost before = entries@;
    let mut i: usize = 0;
    while i < entries.len()
        invariant
            i <= entries@.len(),
            entries@ == before,
            forall|k: int| 0 <= k < i ==> (#[trigger] before[k]).path@ != path@,
        decreases entries.len() - i,
    {
        if same(&entries[i].path, path) {
            proof {
                assert(before[i as int].path@ == path@);
            }
            return false;
        }
        i = i + 1;
    }
    entries.push(OwnedEntry { created_at: now, path: owned(path) });
    proof {
        assert(entry_views(entries@) =~= entry_views(before).push((now as nat, path@)));
    }
    true
}

/// The entries whose paths are not among those removed.
pub open spec fn kept_entries(
    entries: Seq<(nat, Seq<char>)>,
    removed: Seq<Seq<char>>,
) -> Seq<(nat, Seq<char>)>
    decreases entries.len(),
{
    if entries.len() == 0 {
        Seq::empty()
    } else {
        let front = kept_entries(entries.drop_last(), removed);
        if removed.contains(entries.last().1) {
            front
        } else {
            front.push(entries.last())
        }
    }
}

/// Takes removed files out of the index.
pub fn remove_owned_entries(entries: &Vec<OwnedEntry>, removed: &Vec<String>) -> (r: Vec<OwnedEntry>)
    ensures
        entry_views(r@) == kept_entries(entry_views(entries@), views(removed@)),
{
    let ghost all = entry_views(entries@);
    let mut r: Vec<OwnedEntry> = Vec::new();
    let mut i: usize = 0;
    proof {
        assert(all.subrange(0, 0) =~= Seq::empty());
        assert(entry_views(r@) =~= Seq::empty());
    }
    while i < entries.len()
        invariant
            i <= entries@.len(),
            all == entry_views(entries@),
            entry_views(r@) == kept_entries(all.subrange(0, i as int), views(removed@)),
        decreases entries.len() - i,
    {
        let ghost before = r@;
        proof {
            let next = all.subrange(0, i + 1);
            assert(next.drop_last() =~= all.subrange(0, i as int));
            assert(next.last() == (entries@[i as int].created_at as nat, entries@[i as int].path@));
        }
        if !listed(removed, &entries[i].path) {
            r.push(
                OwnedEntry { created_at: entries[i].created_at, path: entries[i].path.clone() },
            );
            proof {
                assert(entry_views(r@) =~= entry_views(before).push(all[i as int]));
            }
        }
        i = i + 1;
    }
    proof {
        assert(all.subrange(0, i as int) =~= all);
    }
    r
}

/// Whether an entry is older than it may be and lies below the root.
pub open spec fn is_stale(e: (nat, Seq<char>), root: Seq<char>, now: u64, max_age: u64) -> bool {
    now - e.0 > max_age && is_within(e.1, root)
}

/// The entries that stay when old ones go: those that are not stale and still there.
pub open spec fn fresh_entries(
    entries: Seq<(nat, Seq<char>)>,
    root: Seq<char>,
    now: u64,
    max_age: u64,
    present: Seq<Seq<char>>,
) -> Seq<(nat, Seq<char>)>
    decreases entries.len(),
{
    if entries.len() == 0 {
        Seq::empty()
    } else {
        let front = fresh_entries(entries.drop_last(), root, now, max_age, present);
        let e = entries.last();
        if !is_stale(e, root, now, max_age) && present.contains(e.1) {
            front.push(e)
        } else {
            front
        }
    }
}

/// The paths of the stale entries.
pub open spec fn stale_paths(
    entries: Seq<(nat, Seq<char>)>,
    root: Seq<char>,
    now: u64,
    max_age: u64,
) -> Seq<Seq<char>>
    decreases entries.len(),
{
    if entries.len() == 0 {
        Seq::empty()
    } else {
        let front = stale_paths(entries.drop_last(), root, now, max_age);
        let e = entries.last();
        if is_stale(e, root, now, max_age) {
            front.push(e.1)
        } else {
            front
        }
    }
}

/// What pruning leaves in the index, and the files that it takes away with their records.
pub struct Pruned {
    pub kept: Vec<OwnedEntry>,
    pub removed: Vec<String>,
}

/// Prunes old files. `present` lists the paths in the index that exist.
pub fn prune_stale_owned_entries(
    entries: &Vec<OwnedEntry>,
    root: &str,
    now: u64,
    max_age_secs: u64,
    present: &Vec<String>,
) -> (r: Pruned)
    ensures
        entry_views(r.kept@) == fresh_entries(
            entry_views(entries@),
            root@,
            now,
            max_age_secs,
            views(present@),
        ),
        views(r.removed@) == stale_paths(entry_views(entries@), root@, now, max_age_secs),
{
    let ghost all = entry_views(entries@);
    let ghost here = views(present@);
    let mut kept: Vec<OwnedEntry> = Vec::new();
    let mut removed: Vec<String> = Vec::new();
    let mut i: usize = 0;
    proof {
        assert(all.subrange(0, 0) =~= Seq::empty());
        assert(entry_views(kept@) =~= Seq::empty());
        assert(views(removed@) =~= Seq::empty());
    }
    while i < entries.len()
        invariant
            i <= entries@.len(),
            all == entry_views(entries@),
            here == views(present@),
            entry_views(kept@) == fresh_entries(
                all.subrange(0, i as int),
                root@,
                now,
                max_age_secs,
                here,
            ),
            views(removed@) == stale_paths(all.subrange(0, i as int), root@, now, max_age_secs),
        decreases entries.len() - i,
    {
        let ghost k0 = kept@;
        let ghost r0 = removed@;
        let e: &OwnedEntry = &entries[i];
        proof {
            let next = all.subrange(0, i + 1);
            assert(next.drop_last() =~= all.subrange(0, i as int));
            assert(next.last() == (e.created_at as nat, e.path@));
        }
        let age: u64 = if now >= e.created_at {
            now - e.created_at
        } else {
            0
        };
        if age > max_age_secs && within(&e.path, root) {
            removed.push(e.path.clone());
            proof {
                assert(views(removed@) =~= views(r0).push(e.path@));
            }
        } else if listed(present, &e.path) {
            kept.push(OwnedEntry { created_at: e.created_at, path: e.path.clone() });
            proof {
                assert(entry_views(kept@) =~= entry_views(k0).push(all[i as int]));
            }
        }
        i = i + 1;
    }
    proof {
        assert(all.subrange(0, i as int) =~= all);
    }
    Pruned { kept, removed }
}

// ------------------------------------------------------------- directories
/// A file that was found in a cache directory, and whether it is a complete proxy.
#[derive(Clone, Debug)]
pub struct FoundFile {
    pub name: String,
    pub is_dir: bool,
    pub len: Option<u64>,
    pub ready: bool,
}

/// Whether a number is in a list.
pub fn has_number(list: &Vec<u64>, n: u64) -> (r: bool)
    ensures
        r == list@.contains(n),
{
    let mut i: usize = 0;
    while i < list.len()
        invariant
            i <= list@.len(),
            forall|k: int| 0 <= k < i ==> list@[k] != n,
        decreases list.len() - i,
    {
        if list[i] == n {
            return true;
        }
        i = i + 1;
    }
    false
}

/// Whether a file name holds the digest of one of the sources.
pub open spec fn names_source(name: Seq<char>, digests: Seq<u64>) -> bool {
    match source_digest_in(name) {
        Some(n) => digests.contains(n as u64),
        None => false,
    }
}

/// Whether a file name holds the digest of one of the sources.
pub fn matches_source(name: &str, digests: &Vec<u64>) -> (r: bool)
    ensures
        r == names_source(name@, digests@),
{
    match proxy_source_hash_from_name(name) {
        Some(n) => has_number(digests, n),
        None => false,
    }
}

/// Whether a found file is an artifact of one of the sources.
pub open spec fn is_relevant(f: FoundFile, digests: Seq<u64>) -> bool {
    !f.is_dir && is_artifact(f.name@) && names_source(f.name@, digests)
}

/// Whether a found file is an artifact of one of the sources.
pub fn relevant(f: &FoundFile, digests: &Vec<u64>) -> (r: bool)
    ensures
        r == is_relevant(*f, digests@),
{
    !f.is_dir && is_proxy_cache_artifact_name(&f.name) && matches_source(&f.name, digests)
}

/// The number of artifacts whose size is known.
pub open spec fn artifact_count(files: Seq<FoundFile>, digests: Seq<u64>) -> nat
    decreases files.len(),
{
    if files.len() == 0 {
        0
    } else {
        artifact_count(files.drop_last(), digests) + (if is_relevant(files.last(), digests)
            && files.last().len is Some {
            1nat
        } else {
            0nat
        })
    }
}

/// The sum of two sizes, capped at the largest number.
pub open spec fn capped_sum(a: nat, b: nat) -> nat {
    if a + b > u64::MAX {
        u64::MAX as nat
    } else {
        a + b
    }
}

/// The size of the artifacts, capped at the largest number.
pub open spec fn artifact_size(files: Seq<FoundFile>, digests: Seq<u64>) -> nat
    decreases files.len(),
{
    if files.len() == 0 {
        0
    } else {
        let front = artifact_size(files.drop_last(), digests);
        match files.last().len {
            Some(n) => if is_relevant(files.last(), digests) {
                capped_sum(front, n as nat)
            } else {
                front
            },
            None => front,
        }
    }
}

/// The number and the size of the artifacts in a directory.
pub fn proxy_cache_artifact_usage_for_dir(files: &Vec<FoundFile>, digests: &Vec<u64>) -> (r: (
    usize,
    u64,
))
    ensures
        r.0 == artifact_count(files@, digests@),
        r.1 == artifact_size(files@, digests@),
        r.0 <= files@.len(),
{
    let mut count: usize = 0;
    let mut size: u64 = 0;
    let mut i: usize = 0;
    proof {
        assert(files@.subrange(0, 0) =~= Seq::empty());
    }
    while i < files.len()
        invariant
            i <= files@.len(),
            count <= i,
            count == artifact_count(files@.subrange(0, i as int), digests@),
            size == artifact_size(files@.subrange(0, i as int), digests@),
        decreases files.len() - i,
    {
        proof {
            let next = files@.subrange(0, i + 1);
            assert(next.drop_last() =~= files@.subrange(0, i as int));
            assert(next.last() == files@[i as int]);
        }
        if relevant(&files[i], digests) {
            if let Some(n) = files[i].len {
                count = count + 1;
                size = if size > u64::MAX - n {
                    u64::MAX
                } else {
                    size + n
                };
            }
        }
        i = i + 1;
    }
    proof {
        assert(files@.subrange(0, i as int) =~= files@);
    }
    (count, size)
}

/// The cache directories beside the sources, one for each source that has a path.
pub open spec fn side_dirs(sources: Seq<Seq<char>>) -> Seq<Seq<char>>
    decreases sources.len(),
{
    if sources.len() == 0 {
        Seq::empty()
    } else {
        let front = side_dirs(sources.drop_last());
        match sidecar_dir(sources.last()) {
            Some(d) => if sources.last().len() > 0 {
                front.push(d)
            } else {
                front
            },
            None => front,
        }
    }
}

/// The digests of the sources that have a path.
pub open spec fn source_digests(sources: Seq<Seq<char>>) -> Seq<u64>
    decreases sources.len(),
{
    if sources.len() == 0 {
        Seq::empty()
    } else if sources.last().len() > 0 {
        source_digests(sources.drop_last()).push(text_digest(sources.last()))
    } else {
        source_digests(sources.drop_last())
    }
}

/// A path in a form whose order by characters is the order by components.
pub open spec fn order_key(path: Seq<char>) -> Seq<char> {
    crate::text::replace_char(path, '/', "\0"@)
}

/// The path of a form for ordering.
pub open spec fn key_path(key: Seq<char>) -> Seq<char> {
    crate::text::replace_char(key, '\0', "/"@)
}

/// Directories without repetitions, ordered by components.
pub open spec fn ordered_dirs(dirs: Seq<Seq<char>>) -> Seq<Seq<char>> {
    sorted(distinct(dirs.map_values(|d: Seq<char>| order_key(d)))).map_values(
        |k: Seq<char>| key_path(k),
    )
}

/// The cache directories beside the sources, in order, and the digests of the sources.
pub fn collect_sidecar_proxy_dirs_and_source_hashes(source_paths: &Vec<String>) -> (r: (
    Vec<String>,
    Vec<u64>,
))
    ensures
        views(r.0@) == ordered_dirs(side_dirs(views(source_paths@))),
        r.1@ == source_digests(views(source_paths@)),
{
    let ghost all = views(source_paths@);
    let ghost f = |d: Seq<char>| order_key(d);
    let ghost g = |k: Seq<char>| key_path(k);
    let mut keys: Vec<String> = Vec::new();
    let mut digests: Vec<u64> = Vec::new();
    let mut i: usize = 0;
    proof {
        assert(all.subrange(0, 0) =~= Seq::empty());
        assert(views(keys@) =~= side_dirs(all.subrange(0, 0)).map_values(f));
        assert(digests@ =~= source_digests(all.subrange(0, 0)));
    }
    while i < source_paths.len()
        invariant
            i <= source_paths@.len(),
            all == views(source_paths@),
            f == (|d: Seq<char>| order_key(d)),
            views(keys@) == side_dirs(all.subrange(0, i as int)).map_values(f),
            digests@ == source_digests(all.subrange(0, i as int)),
        decreases source_paths.len() - i,
    {
        let path: &String = &source_paths[i];
        let ghost k0 = keys@;
        let ghost before = side_dirs(all.subrange(0, i as int));
        proof {
            let next = all.subrange(0, i + 1);
            assert(next.drop_last() =~= all.subrange(0, i as int));
            assert(next.last() == path@);
        }
        if !path.as_str().is_empty() {
            digests.push(digest_text(path));
            if let Some(dir) = sidecar_proxy_dir_for(path) {
                keys.push(crate::text::replaced(&dir, '/', "\0"));
                proof {
                    assert(views(keys@) =~= views(k0).push(order_key(dir@)));
                    assert(before.push(dir@).map_values(f) =~= before.map_values(f).push(
                        order_key(dir@),
                    ));
                }
            }
        }
        i = i + 1;
    }
    proof {
        assert(all.subrange(0, i as int) =~= all);
    }
    let sorted_keys: Vec<String> = in_order(&without_repeats(&keys));
    let ghost ks = views(sorted_keys@);
    let mut dirs: Vec<String> = Vec::new();
    let mut j: usize = 0;
    proof {
        assert(views(dirs@) =~= ks.subrange(0, 0).map_values(g));
    }
    while j < sorted_keys.len()
        invariant
            j <= sorted_keys@.len(),
            ks == views(sorted_keys@),
            g == (|k: Seq<char>| key_path(k)),
            views(dirs@) == ks.subrange(0, j as int).map_values(g),
        decreases sorted_keys.len() - j,
    {
        let ghost d0 = dirs@;
        dirs.push(crate::text::replaced(&sorted_keys[j], '\0', "/"));
        proof {
            assert(views(dirs@) =~= views(d0).push(key_path(ks[j as int])));
            assert(ks.subrange(0, j + 1).map_values(g) =~= ks.subrange(0, j as int).map_values(
                g,
            ).push(key_path(ks[j as int])));
        }
        j = j + 1;
    }
    proof {
        assert(ks.subrange(0, j as int) =~= ks);
    }
    (dirs, digests)
}

/// A cache directory beside sources as it was found.
#[derive(Clone, Debug)]
pub struct SidecarListing {
    pub dir: String,
    pub exists: bool,
    pub files: Vec<FoundFile>,
}

/// What was found at a directory.
pub open spec fn listing_at(listings: Seq<SidecarListing>, dir: Seq<char>) -> Option<SidecarListing>
    decreases listings.len(),
{
    if listings.len() == 0 {
        None
    } else if listings[0].dir@ == dir {
        Some(listings[0])
    } else {
        listing_at(listings.drop_first(), dir)
    }
}

/// What was found at a directory.
fn find_listing<'a>(listings: &'a Vec<SidecarListing>, dir: &str) -> (r: Option<&'a SidecarListing>)
    ensures
        match r {
            Some(l) => listing_at(listings@, dir@) == Some(*l),
            None => listing_at(listings@, dir@) is None,
        },
{
    let mut i: usize = 0;
    proof {
        assert(listings@.subrange(0, listings@.len() as int) =~= listings@);
    }
    while i < listings.len()
        invariant
            i <= listings@.len(),
            listing_at(listings@, dir@) == listing_at(
                listings@.subrange(i as int, listings@.len() as int),
                dir@,
            ),
        decreases listings.len() - i,
    {
        proof {
            assert(listings@.subrange(i as int, listings@.len() as int).drop_first()
                =~= listings@.subrange(i + 1, listings@.len() as int));
        }
        if same(&listings[i].dir, dir) {
            return Some(&listings[i]);
        }
        i = i + 1;
    }
    None
}

/// Which of the directories exist.
pub open spec fn existing_dirs(dirs: Seq<Seq<char>>, listings: Seq<SidecarListing>) -> Seq<Seq<char>>
    decreases dirs.len(),
{
    if dirs.len() == 0 {
        Seq::empty()
    } else {
        let front = existing_dirs(dirs.drop_last(), listings);
        match listing_at(listings, dirs.last()) {
            Some(l) => if l.exists {
                front.push(dirs.last())
            } else {
                front
            },
            None => front,
        }
    }
}

/// The number of artifacts in all of the directories.
pub open spec fn count_in_all(
    dirs: Seq<Seq<char>>,
    listings: Seq<SidecarListing>,
    digests: Seq<u64>,
) -> nat
    decreases dirs.len(),
{
    if dirs.len() == 0 {
        0
    } else {
        count_in_all(dirs.drop_last(), listings, digests) + (match listing_at(
            listings,
            dirs.last(),
        ) {
            Some(l) => artifact_count(l.files@, digests),
            None => 0,
        })
    }
}

/// The size of the artifacts in all of the directories.
pub open spec fn size_in_all(
    dirs: Seq<Seq<char>>,
    listings: Seq<SidecarListing>,
    digests: Seq<u64>,
) -> nat
    decreases dirs.len(),
{
    if dirs.len() == 0 {
        0
    } else {
        size_in_all(dirs.drop_last(), listings, digests) + (match listing_at(
            listings,
            dirs.last(),
        ) {
            Some(l) => artifact_size(l.files@, digests),
            None => 0,
        })
    }
}

proof fn lemma_totals_grow(
    dirs: Seq<Seq<char>>,
    listings: Seq<SidecarListing>,
    digests: Seq<u64>,
    n: int,
)
    requires
        0 <= n <= dirs.len(),
    ensures
        count_in_all(dirs.subrange(0, n), listings, digests) <= count_in_all(
            dirs,
            listings,
            digests,
        ),
        size_in_all(dirs.subrange(0, n), listings, digests) <= size_in_all(dirs, listings, digests),
    decreases dirs.len(),
{
    if n == dirs.len() {
        assert(dirs.subrange(0, n) =~= dirs);
    } else {
        assert(dirs.subrange(0, n) =~= dirs.drop_last().subrange(0, n));
        lemma_totals_grow(dirs.drop_last(), listings, digests, n);
    }
}

/// What the proxies beside the sources take up. `listings` tells what was found in their cache
/// directories.
pub fn sidecar_proxy_usage_for_sources(
    source_paths: &Vec<String>,
    listings: &Vec<SidecarListing>,
) -> (r: ProxySidecarUsage)
    requires
        ({
            let dirs = ordered_dirs(side_dirs(views(source_paths@)));
            let digests = source_digests(views(source_paths@));
            &&& count_in_all(dirs, listings@, digests) <= usize::MAX
            &&& size_in_all(dirs, listings@, digests) <= u64::MAX
        }),
    ensures
        ({
            let dirs = ordered_dirs(side_dirs(views(source_paths@)));
            let digests = source_digests(views(source_paths@));
            &&& views(r.directories@) == existing_dirs(dirs, listings@)
            &&& r.file_count == count_in_all(dirs, listings@, digests)
            &&& r.size_bytes == size_in_all(dirs, listings@, digests)
        }),
{
    let (dirs, digests) = collect_sidecar_proxy_dirs_and_source_hashes(source_paths);
    let ghost all = views(dirs@);
    let mut directories: Vec<String> = Vec::new();
    let mut file_count: usize = 0;
    let mut size_bytes: u64 = 0;
    let mut i: usize = 0;
    proof {
        assert(all.subrange(0, 0) =~= Seq::empty());
        assert(views(directories@) =~= Seq::empty());
    }
    while i < dirs.len()
        invariant
            i <= dirs@.len(),
            all == views(dirs@),
            count_in_all(all, listings@, digests@) <= usize::MAX,
            size_in_all(all, listings@, digests@) <= u64::MAX,
            views(directories@) == existing_dirs(all.subrange(0, i as int), listings@),
            file_count == count_in_all(all.subrange(0, i as int), listings@, digests@),
            size_bytes == size_in_all(all.subrange(0, i as int), listings@, digests@),
        decreases dirs.len() - i,
    {
        let ghost d0 = directories@;
        proof {
            let next = all.subrange(0, i + 1);
            assert(next.drop_last() =~= all.subrange(0, i as int));
            assert(next.last() == dirs@[i as int]@);
            lemma_totals_grow(all, listings@, digests@, i + 1);
        }
        if let Some(l) = find_listing(listings, &dirs[i]) {
            let (n, size) = proxy_cache_artifact_usage_for_dir(&l.files, &digests);
            file_count = file_count + n;
            size_bytes = size_bytes + size;
            if l.exists {
                directories.push(dirs[i].clone());
                proof {
                    assert(views(directories@) =~= views(d0).push(dirs@[i as int]@));
                }
            }
        }
        i = i + 1;
    }
    proof {
        assert(all.subrange(0, i as int) =~= all);
    }
    ProxySidecarUsage { directories, file_count, size_bytes }
}

/// The paths of the artifacts of the sources in a directory.
pub open spec fn purged(dir: Seq<char>, files: Seq<FoundFile>, digests: Seq<u64>) -> Seq<Seq<char>>
    decreases files.len(),
{
    if files.len() == 0 {
        Seq::empty()
    } else {
        let front = purged(dir, files.drop_last(), digests);
        if is_relevant(files.last(), digests) {
            front.push(join_path(dir, files.last().name@))
        } else {
            front
        }
    }
}

/// The files that a purge of a directory takes away.
pub fn purge_proxy_cache_artifacts_for_dir(
    dir: &str,
    files: &Vec<FoundFile>,
    digests: &Vec<u64>,
) -> (r: Vec<String>)
    ensures
        views(r@) == purged(dir@, files@, digests@),
{
    let mut r: Vec<String> = Vec::new();
    let mut i: usize = 0;
    proof {
        assert(files@.subrange(0, 0) =~= Seq::empty());
        assert(views(r@) =~= Seq::empty());
    }
    while i < files.len()
        invariant
            i <= files@.len(),
            views(r@) == purged(dir@, files@.subrange(0, i as int), digests@),
        decreases files.len() - i,
    {
        let ghost r0 = r@;
        proof {
            let next = files@.subrange(0, i + 1);
            assert(next.drop_last() =~= files@.subrange(0, i as int));
            assert(next.last() == files@[i as int]);
        }
        if relevant(&files[i], digests) {
            r.push(join(dir, &files[i].name));
            proof {
                assert(views(r@) =~= views(r0).push(join_path(dir@, files@[i as int].name@)));
            }
        }
        i = i + 1;
    }
    proof {
        assert(files@.subrange(0, i as int) =~= files@);
    }
    r
}

/// The artifacts of the sources in all of the directories.
pub open spec fn purged_in_all(
    dirs: Seq<Seq<char>>,
    listings: Seq<SidecarListing>,
    digests: Seq<u64>,
) -> Seq<Seq<char>>
    decreases dirs.len(),
{
    if dirs.len() == 0 {
        Seq::empty()
    } else {
        purged_in_all(dirs.drop_last(), listings, digests) + (match listing_at(
            listings,
            dirs.last(),
        ) {
            Some(l) => purged(dirs.last(), l.files@, digests),
            None => Seq::empty(),
        })
    }
}

/// What the proxies beside the sources take up, and the files that a purge of them takes away.
pub fn purge_sidecar_proxy_cache_for_sources(
    source_paths: &Vec<String>,
    listings: &Vec<SidecarListing>,
) -> (r: (ProxySidecarUsage, Vec<String>))
    requires
        ({
            let dirs = ordered_dirs(side_dirs(views(source_paths@)));
            let digests = source_digests(views(source_paths@));
            &&& count_in_all(dirs, listings@, digests) <= usize::MAX
            &&& size_in_all(dirs, listings@, digests) <= u64::MAX
        }),
    ensures
        ({
            let dirs = ordered_dirs(side_dirs(views(source_paths@)));
            let digests = source_digests(views(source_paths@));
            &&& views(r.0.directories@) == existing_dirs(dirs, listings@)
            &&& r.0.file_count == count_in_all(dirs, listings@, digests)
            &&& r.0.size_bytes == size_in_all(dirs, listings@, digests)
            &&& views(r.1@) == purged_in_all(dirs, listings@, digests)
        }),
{
    let usage = sidecar_proxy_usage_for_sources(source_paths, listings);
    let (dirs, digests) = collect_sidecar_proxy_dirs_and_source_hashes(source_paths);
    let ghost all = views(dirs@);
    let mut files: Vec<String> = Vec::new();
    let mut i: usize = 0;
    proof {
        assert(all.subrange(0, 0) =~= Seq::empty());
        assert(views(files@) =~= Seq::empty());
    }
    while i < dirs.len()
        invariant
            i <= dirs@.len(),
            all == views(dirs@),
            views(files@) == purged_in_all(all.subrange(0, i as int), listings@, digests@),
        decreases dirs.len() - i,
    {
        let ghost f0 = files@;
        proof {
            let next = all.subrange(0, i + 1);
            assert(next.drop_last() =~= all.subrange(0, i as int));
            assert(next.last() == dirs@[i as int]@);
        }
        if let Some(l) = find_listing(listings, &dirs[i]) {
            let mut more = purge_proxy_cache_artifacts_for_dir(&dirs[i], &l.files, &digests);
            let ghost m = more@;
            files.append(&mut more);
            proof {
                assert(views(files@) =~= views(f0) + views(m));
            }
        } else {
            proof {
                assert(views(files@) =~= views(f0) + Seq::<Seq<char>>::empty());
            }
        }
        i = i + 1;
    }
    proof {
        assert(all.subrange(0, i as int) =~= all);
    }
    (usage, files)
}

/// Every file that a purge takes away is an artifact of one of the sources.
pub proof fn lemma_purge_takes_only_artifacts(
    dir: Seq<char>,
    files: Seq<FoundFile>,
    digests: Seq<u64>,
    k: int,
)
    requires
        0 <= k < purged(dir, files, digests).len(),
    ensures
        exists|i: int|
            0 <= i < files.len() && is_relevant(#[trigger] files[i], digests) && purged(
                dir,
                files,
                digests,
            )[k] == join_path(dir, files[i].name@),
    decreases files.len(),
{
    if files.len() > 0 {
        let front = purged(dir, files.drop_last(), digests);
        if k < front.len() {
            lemma_purge_takes_only_artifacts(dir, files.drop_last(), digests, k);
            let i = choose|i: int|
                0 <= i < files.drop_last().len() && is_relevant(
                    #[trigger] files.drop_last()[i],
                    digests,
                ) && front[k] == join_path(dir, files.drop_last()[i].name@);
            assert(files[i] == files.drop_last()[i]);
        } else {
            assert(files[files.len() - 1] == files.last());
        }
    }
}

/// A file that a clean-up takes away, and whether the record of its source goes too.
#[derive(Clone, Debug)]
pub struct Removal {
    pub path: String,
    pub with_record: bool,
}

/// The removals with their paths as characters.
pub open spec fn removal_views(r: Seq<Removal>) -> Seq<(Seq<char>, bool)> {
    r.map_values(|x: Removal| (x.path@, x.with_record))
}

/// Whether and how a clean-up takes a file of the sources away: unfinished files go, and proxies
/// that are incomplete or not wanted. Every other file stays.
pub open spec fn taken(
    dir: Seq<char>,
    f: FoundFile,
    desired: Seq<Seq<char>>,
    digests: Seq<u64>,
) -> Option<(Seq<char>, bool)> {
    let path = join_path(dir, f.name@);
    if !is_relevant(f, digests) {
        None
    } else if ends(f.name@, ".partial"@) {
        Some((path, false))
    } else if !ends(f.name@, ".mp4"@) {
        None
    } else if !f.ready || !desired.contains(path) {
        Some((path, true))
    } else {
        None
    }
}

/// What a clean-up takes away.
pub open spec fn cleaned(
    dir: Seq<char>,
    files: Seq<FoundFile>,
    desired: Seq<Seq<char>>,
    digests: Seq<u64>,
) -> Seq<(Seq<char>, bool)>
    decreases files.len(),
{
    if files.len() == 0 {
        Seq::empty()
    } else {
        let front = cleaned(dir, files.drop_last(), desired, digests);
        match taken(dir, files.last(), desired, digests) {
            Some(t) => front.push(t),
            None => front,
        }
    }
}

fn take_away(dir: &str, f: &FoundFile, desired: &Vec<String>, digests: &Vec<u64>) -> (r: Option<
    Removal,
>)
    ensures
        match r {
            Some(x) => taken(dir@, *f, views(desired@), digests@) == Some((x.path@, x.with_record)),
            None => taken(dir@, *f, views(desired@), digests@) is None,
        },
{
    if !relevant(f, digests) {
        return None;
    }
    let path = join(dir, &f.name);
    if ends_with(&f.name, ".partial") {
        return Some(Removal { path, with_record: false });
    }
    if !ends_with(&f.name, ".mp4") {
        return None;
    }
    if !f.ready || !listed(desired, &path) {
        Some(Removal { path, with_record: true })
    } else {
        None
    }
}

/// What a clean-up of a directory takes away.
pub fn cleanup_proxy_dir_variants(
    dir: &str,
    files: &Vec<FoundFile>,
    desired: &Vec<String>,
    digests: &Vec<u64>,
) -> (r: Vec<Removal>)
    ensures
        removal_views(r@) == cleaned(dir@, files@, views(desired@), digests@),
{
    let mut r: Vec<Removal> = Vec::new();
    let mut i: usize = 0;
    proof {
        assert(files@.subrange(0, 0) =~= Seq::empty());
        assert(removal_views(r@) =~= Seq::empty());
    }
    while i < files.len()
        invariant
            i <= files@.len(),
            removal_views(r@) == cleaned(
                dir@,
                files@.subrange(0, i as int),
                views(desired@),
                digests@,
            ),
        decreases files.len() - i,
    {
        let ghost r0 = r@;
        proof {
            let next = files@.subrange(0, i + 1);
            assert(next.drop_last() =~= files@.subrange(0, i as int));
            assert(next.last() == files@[i as int]);
        }
        if let Some(x) = take_away(dir, &files[i], desired, digests) {
            r.push(x);
            proof {
                assert(removal_views(r@) =~= removal_views(r0).push((x.path@, x.with_record)));
            }
        }
        i = i + 1;
    }
    proof {
        assert(files@.subrange(0, i as int) =~= files@);
    }
    r
}

/// A clean-up takes away no complete proxy that is wanted, and nothing that is no artifact of one
/// of the sources given.
pub proof fn lemma_cleanup_spares(
    dir: Seq<char>,
    f: FoundFile,
    desired: Seq<Seq<char>>,
    digests: Seq<u64>,
)
    requires
        (f.ready && desired.contains(join_path(dir, f.name@)) && !ends(f.name@, ".partial"@))
            || !is_relevant(f, digests),
    ensures
        taken(dir, f, desired, digests) is None,
{
}

/// Whatever a clean-up takes away was found in the directory.
pub proof fn lemma_cleaned_was_found(
    dir: Seq<char>,
    files: Seq<FoundFile>,
    desired: Seq<Seq<char>>,
    digests: Seq<u64>,
    i: int,
)
    requires
        0 <= i < cleaned(dir, files, desired, digests).len(),
    ensures
        exists|k: int|
            0 <= k < files.len() && taken(dir, #[trigger] files[k], desired, digests) == Some(
                cleaned(dir, files, desired, digests)[i],
            ),
    decreases files.len(),
{
    let front = cleaned(dir, files.drop_last(), desired, digests);
    if i < front.len() {
        lemma_cleaned_was_found(dir, files.drop_last(), desired, digests, i);
        let k = choose|k: int|
            0 <= k < files.drop_last().len() && taken(
                dir,
                #[trigger] files.drop_last()[k],
                desired,
                digests,
            ) == Some(front[i]);
        assert(files[k] == files.drop_last()[k]);
    } else {
        assert(files[files.len() - 1] == files.last());
    }
}

// ---------------------------------------------------------------- candidates
/// The paths where a proxy may lie already, in the order in which they are tried.
pub fn candidate_proxy_paths(v: &Variant, local_root: &str) -> (r: Vec<Option<String>>)
    ensures
        r@.len() == 4,
        option_view(r@[0]) == placed(Some(local_root@), variant_name(v@)),
        option_view(r@[1]) == placed(sidecar_dir(v.source_path@), variant_name(v@)),
        option_view(r@[2]) == placed(
            Some(local_root@),
            legacy_name(v.source_path@, v.scale, chars_in(v.lut_path)),
        ),
        option_view(r@[3]) == placed(
            sidecar_dir(v.source_path@),
            legacy_name(v.source_path@, v.scale, chars_in(v.lut_path)),
        ),
{
    let mut r: Vec<Option<String>> = Vec::new();
    r.push(local_proxy_path_for(v, local_root));
    r.push(alongside_proxy_path_for(v));
    r.push(legacy_local_proxy_path_for(v.source_path, v.scale, v.lut_path, local_root));
    r.push(legacy_alongside_proxy_path_for(v.source_path, v.scale, v.lut_path));
    r
}

/// A path where a proxy may lie, and what was found there.
#[derive(Clone, Debug)]
pub struct Candidate {
    pub path: String,
    pub ready: bool,
    pub current: bool,
}

/// The first candidate that is complete and belongs to its source as it is.
pub open spec fn first_usable(c: Seq<Candidate>) -> Option<Seq<char>>
    decreases c.len(),
{
    if c.len() == 0 {
        None
    } else if c[0].ready && c[0].current {
        Some(c[0].path@)
    } else {
        first_usable(c.drop_first())
    }
}

/// The first candidate that is complete and belongs to its source as it is.
pub fn existing_proxy_path_for(candidates: &Vec<Candidate>) -> (r: Option<String>)
    ensures
        option_view(r) == first_usable(candidates@),
{
    let mut i: usize = 0;
    proof {
        assert(candidates@.subrange(0, candidates@.len() as int) =~= candidates@);
    }
    while i < candidates.len()
        invariant
            i <= candidates@.len(),
            first_usable(candidates@) == first_usable(
                candidates@.subrange(i as int, candidates@.len() as int),
            ),
        decreases candidates.len() - i,
    {
        proof {
            assert(candidates@.subrange(i as int, candidates@.len() as int).drop_first()
                =~= candidates@.subrange(i + 1, candidates@.len() as int));
        }
        if candidates[i].ready && candidates[i].current {
            return Some(candidates[i].path.clone());
        }
        i = i + 1;
    }
    None
}

/// The managed cache directory, from the environment.
pub open spec fn managed_root(cache_home: Option<Seq<char>>) -> Seq<char> {
    match cache_home {
        Some(v) => if v.len() > 0 {
            join_path(join_path(v, "ultimateslice"@), "proxies"@)
        } else {
            "/tmp/ultimateslice/proxies"@
        },
        None => "/tmp/ultimateslice/proxies"@,
    }
}

/// The managed cache directory, from the environment.
pub fn local_proxy_cache_dir(cache_home: &Option<String>) -> (r: String)
    ensures
        r@ == managed_root(option_view(*cache_home)),
{
    if let Some(v) = cache_home {
        if !v.as_str().is_empty() {
            return join(&join(v, "ultimateslice"), "proxies");
        }
    }
    owned("/tmp/ultimateslice/proxies")
}

/// A proxy is current where its record tells of the source as it is now. Without a record it is
/// where the source was not changed after it; without a source it always is.
pub proof fn lemma_current(now: SourceSignature, stored: SourceSignature, modified: (u64, u32))
    ensures
        is_current(None, Some(stored), Some(modified)),
        is_current(Some(now), Some(stored), Some(modified)) <==> now.len == stored.len
            && now.modified_secs == stored.modified_secs && now.modified_nanos
            == stored.modified_nanos,
        is_current(Some(now), None, Some(modified)) <==> now.modified_secs * 0x1_0000_0000
            + now.modified_nanos <= modified.0 * 0x1_0000_0000 + modified.1,
        is_current(Some(now), None, None),
{
}

/// The entries that are kept are those whose files were not removed, in order.
pub proof fn lemma_kept_entries(entries: Seq<(nat, Seq<char>)>, removed: Seq<Seq<char>>)
    ensures
        kept_entries(entries, removed) == entries.filter(
            |e: (nat, Seq<char>)| !removed.contains(e.1),
        ),
    decreases entries.len(),
{
    reveal(Seq::filter);
    if entries.len() > 0 {
        lemma_kept_entries(entries.drop_last(), removed);
    }
}

/// Stale are files within the root that are older than allowed.
pub proof fn lemma_stale(e: (nat, Seq<char>), root: Seq<char>, now: u64, max_age: u64)
    ensures
        is_stale(e, root, now, max_age) <==> is_within(e.1, root) && e.0 + max_age < now,
{
}

/// The stale files are those of the entries that are stale, and what stays fresh are the others
/// whose files are there.
pub proof fn lemma_stale_and_fresh(
    entries: Seq<(nat, Seq<char>)>,
    root: Seq<char>,
    now: u64,
    max_age: u64,
    present: Seq<Seq<char>>,
)
    ensures
        stale_paths(entries, root, now, max_age) == entries.filter(
            |e: (nat, Seq<char>)| is_stale(e, root, now, max_age),
        ).map_values(|e: (nat, Seq<char>)| e.1),
        fresh_entries(entries, root, now, max_age, present) == entries.filter(
            |e: (nat, Seq<char>)| !is_stale(e, root, now, max_age) && present.contains(e.1),
        ),
    decreases entries.len(),
{
    reveal(Seq::filter);
    let stale = |e: (nat, Seq<char>)| is_stale(e, root, now, max_age);
    let path = |e: (nat, Seq<char>)| e.1;
    if entries.len() > 0 {
        lemma_stale_and_fresh(entries.drop_last(), root, now, max_age, present);
        assert(stale_paths(entries, root, now, max_age) =~= entries.filter(stale).map_values(path));
    } else {
        assert(stale_paths(entries, root, now, max_age) =~= entries.filter(stale).map_values(path));
    }
}

/// The artifacts that count are the files of the sources whose size is known.
pub proof fn lemma_artifact_count(files: Seq<FoundFile>, digests: Seq<u64>)
    ensures
        artifact_count(files, digests) == files.filter(
            |f: FoundFile| is_relevant(f, digests) && f.len is Some,
        ).len(),
    decreases files.len(),
{
    reveal(Seq::filter);
    if files.len() > 0 {
        lemma_artifact_count(files.drop_last(), digests);
    }
}

/// Each artifact adds its size to that of the others, up to the largest number.
pub proof fn lemma_artifact_size(files: Seq<FoundFile>, f: FoundFile, digests: Seq<u64>)
    ensures
        f.len is None || !is_relevant(f, digests) ==> artifact_size(files.push(f), digests)
            == artifact_size(files, digests),
        f.len matches Some(n) ==> (is_relevant(f, digests) && artifact_size(files, digests) + n
            <= u64::MAX ==> artifact_size(files.push(f), digests) == artifact_size(files, digests)
            + n),
{
    assert(files.push(f).drop_last() =~= files);
}

/// A purge takes away every artifact of the sources that is in the directory, and nothing else.
pub proof fn lemma_purged(dir: Seq<char>, files: Seq<FoundFile>, digests: Seq<u64>)
    ensures
        purged(dir, files, digests) == files.filter(
            |f: FoundFile| is_relevant(f, digests),
        ).map_values(|f: FoundFile| join_path(dir, f.name@)),
    decreases files.len(),
{
    reveal(Seq::filter);
    let own = |f: FoundFile| is_relevant(f, digests);
    let path = |f: FoundFile| join_path(dir, f.name@);
    if files.len() > 0 {
        lemma_purged(dir, files.drop_last(), digests);
        assert(purged(dir, files, digests) =~= files.filter(own).map_values(path));
    } else {
        assert(purged(dir, files, digests) =~= files.filter(own).map_values(path));
    }
}

/// A clean-up takes away what is unfinished, what is not whole and what is not wanted of the
/// artifacts of the sources; a whole proxy that is wanted stays.
pub proof fn lemma_taken(dir: Seq<char>, f: FoundFile, desired: Seq<Seq<char>>, digests: Seq<u64>)
    ensures
        !is_relevant(f, digests) ==> taken(dir, f, desired, digests) is None,
        is_relevant(f, digests) && ends(f.name@, ".partial"@) ==> taken(dir, f, desired, digests)
            == Some((join_path(dir, f.name@), false)),
        is_relevant(f, digests) && ends(f.name@, ".mp4"@) && !ends(f.name@, ".partial"@) ==> (taken(
            dir,
            f,
            desired,
            digests,
        ) is None <==> f.ready && desired.contains(join_path(dir, f.name@))),
        taken(dir, f, desired, digests) matches Some(t) ==> t.0 == join_path(dir, f.name@),
{
}

/// The first candidate that is ready and current is used; there is none only where none is both.
pub proof fn lemma_first_usable(c: Seq<Candidate>)
    ensures
        match first_usable(c) {
            Some(p) => exists|k: int|
                0 <= k < c.len() && (#[trigger] c[k]).path@ == p && c[k].ready && c[k].current
                    && forall|j: int|
                    0 <= j < k ==> !((#[trigger] c[j]).ready && c[j].current),
            None => forall|k: int| 0 <= k < c.len() ==> !((#[trigger] c[k]).ready && c[k].current),
        },
    decreases c.len(),
{
    if c.len() > 0 && !(c[0].ready && c[0].current) {
        let rest = c.drop_first();
        lemma_first_usable(rest);
        match first_usable(rest) {
            Some(p) => {
                let k = choose|k: int|
                    0 <= k < rest.len() && (#[trigger] rest[k]).path@ == p && rest[k].ready
                        && rest[k].current && forall|j: int|
                        0 <= j < k ==> !((#[trigger] rest[j]).ready && rest[j].current);
                assert(c[k + 1] == rest[k]);
                assert forall|j: int| 0 <= j < k + 1 implies !((#[trigger] c[j]).ready
                    && c[j].current) by {
                    if j > 0 {
                        assert(rest[j - 1] == c[j]);
                    }
                }
            },
            None => {
                assert forall|k: int| 0 <= k < c.len() implies !((#[trigger] c[k]).ready
                    && c[k].current) by {
                    if k > 0 {
                        assert(rest[k - 1] == c[k]);
                    }
                }
            },
        }
    }
}

/// Every source that has a path and a directory has its cache directory among those that are looked
/// through, and its digest among those that are looked for.
pub proof fn lemma_side_dirs(sources: Seq<Seq<char>>, k: int)
    requires
        0 <= k < sources.len(),
        sources[k].len() > 0,
    ensures
        source_digests(sources).contains(text_digest(sources[k])),
        sidecar_dir(sources[k]) matches Some(d) ==> side_dirs(sources).contains(d),
    decreases sources.len(),
{
    let front = sources.drop_last();
    if k < front.len() {
        assert(front[k] == sources[k]);
        lemma_side_dirs(front, k);
        let a = source_digests(front);
        let i = choose|i: int| 0 <= i < a.len() && a[i] == text_digest(sources[k]);
        assert(source_digests(sources)[i] == a[i]);
        if let Some(d) = sidecar_dir(sources[k]) {
            let b = side_dirs(front);
            let j = choose|j: int| 0 <= j < b.len() && b[j] == d;
            assert(side_dirs(sources)[j] == d);
        }
    } else {
        assert(source_digests(sources).last() == text_digest(sources[k]));
        assert(source_digests(sources)[source_digests(sources).len() - 1] == text_digest(
            sources[k],
        ));
        if let Some(d) = sidecar_dir(sources[k]) {
            assert(side_dirs(sources)[side_dirs(sources).len() - 1] == d);
        }
    }
}

/// Proxies lie below the cache directory of the user, or in a temporary one where none is set.
pub proof fn lemma_managed_root(home: Seq<char>)
    requires
        home.len() > 0,
    ensures
        managed_root(Some(home)) == join_path(join_path(home, "ultimateslice"@), "proxies"@),
        managed_root(None) == "/tmp/ultimateslice/proxies"@,
        managed_root(Some(Seq::empty())) == managed_root(None),
{
}

} // verus!
