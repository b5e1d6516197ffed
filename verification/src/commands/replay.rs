//! The decisions of the `replay` command and of replaying a directory of
//! test vectors: which snapshot and which slots to replay, which cached
//! archive to reuse, which files of a test-vector directory hold the
//! snapshot and the blocks, and whether a replayed block failed.

use vstd::prelude::*;

use crate::commands::snapshot::block_file_name_spec;
use crate::text::{
    after_first, digit_char, lemma_seq_le_common_prefix, lemma_seq_le_reflexive,
    lemma_seq_le_total_order, decimal, is_digit, lemma_after_first_append, lemma_decimal_parses,
    lemma_take_until_append, occurs_at, take_until, parse_u64, parse_u64_spec, seq_contains, seq_le,
    seq_starts_with, str_contains, str_le, str_starts_with, to_chars, u64_to_decimal,
};

verus! {

/// The snapshot slot to replay from: the one asked for, else the newest
/// full snapshot the node offers.
pub open spec fn resolved_snapshot_slot(requested: Option<u64>, highest_full: u64) -> u64 {
    match requested {
        Some(x) => x,
        None => highest_full,
    }
}

/// The snapshot slot to replay from: `requested` when given, else
/// `highest_full`, the full snapshot slot the node reported.
pub fn resolve_snapshot_slot(requested: Option<u64>, highest_full: u64) -> (r: u64)
    ensures
        r == resolved_snapshot_slot(requested, highest_full),
        requested matches Some(x) ==> r == x,
        requested is None ==> r == highest_full,
{
    match requested {
        Some(x) => x,
        None => highest_full,
    }
}

/// A requested snapshot slot is the one replayed from, whatever the node
/// offers; without a request, the node's newest full snapshot is.
pub proof fn lemma_requested_slot_wins(x: u64, highest_full: u64)
    ensures
        resolved_snapshot_slot(Some(x), highest_full) == x,
        resolved_snapshot_slot(None, highest_full) == highest_full,
{
}

/// The slots replayed after the snapshot at `snapshot_slot`: from the
/// slot right after it (inclusive) to `n_blocks` slots later (exclusive).
pub fn replay_slot_range(snapshot_slot: u64, n_blocks: usize) -> (r: (u64, u64))
    requires
        snapshot_slot + 1 + n_blocks <= u64::MAX,
    ensures
        r.0 == snapshot_slot + 1,
        r.1 == snapshot_slot + 1 + n_blocks,
{
    let first = snapshot_slot + 1;
    (first, first + n_blocks as u64)
}

/// The slots in `first..last`, in increasing order: the blocks to download.
pub fn slots_between(first: u64, last: u64) -> (r: Vec<u64>)
    ensures
        r@.len() == if first <= last { last - first } else { 0 },
        forall|k: int| 0 <= k < r@.len() ==> #[trigger] r@[k] == first + k,
{
    let mut r: Vec<u64> = Vec::new();
    let mut slot = first;
    while slot < last
        invariant
            first <= last ==> first <= slot <= last,
            first > last ==> slot == first,
            r@.len() == slot - first,
            forall|k: int| 0 <= k < r@.len() ==> #[trigger] r@[k] == first + k,
        decreases last - slot,
    {
        r.push(slot);
        slot = slot + 1;
    }
    r
}

/// An entry of the snapshot cache directory: its file name and whether it
/// is a directory.
#[derive(Debug)]
pub struct CacheEntry {
    pub name: String,
    pub is_dir: bool,
}

/// Whether a cache entry is an archive of the snapshot at `slot`: a file
/// whose name holds the decimal slot number.
pub open spec fn holds_snapshot(e: CacheEntry, slot: u64) -> bool {
    !e.is_dir && seq_contains(e.name@, decimal(slot as nat))
}

/// Whether the cache entry is an archive of the snapshot at `slot`: a file
/// whose name holds the decimal slot number.
pub fn is_cached_snapshot(entry: &CacheEntry, slot: u64) -> (r: bool)
    ensures
        r == holds_snapshot(*entry, slot),
{
    if entry.is_dir {
        return false;
    }
    let wanted = u64_to_decimal(slot);
    str_contains(entry.name.as_str(), wanted.as_str())
}

/// The first entry of the cache directory, in the order listed, that is a
/// file whose name holds the decimal number `slot`; `None` when no entry is.
pub fn find_cached_snapshot(entries: &Vec<CacheEntry>, slot: u64) -> (r: Option<usize>)
    ensures
        match r {
            Some(k) => k < entries@.len() && holds_snapshot(entries@[k as int], slot) && forall|
                q: int,
            | 0 <= q < k ==> !holds_snapshot(#[trigger] entries@[q], slot),
            None => forall|q: int|
                0 <= q < entries@.len() ==> !holds_snapshot(#[trigger] entries@[q], slot),
        },
{
    let mut k: usize = 0;
    while k < entries.len()
        invariant
            k <= entries@.len(),
            forall|q: int| 0 <= q < k ==> !holds_snapshot(#[trigger] entries@[q], slot),
        decreases entries.len() - k,
    {
        if is_cached_snapshot(&entries[k], slot) {
            return Some(k);
        }
        k = k + 1;
    }
    None
}

/// A cache entry is taken for `slot` exactly when it is a file and the
/// full decimal text of `slot` occurs in its name: an archive of another
/// slot whose number does not contain that text (e.g. 48925545 for
/// 48935545) is never taken.
pub proof fn lemma_cached_entry_names_slot(e: CacheEntry, slot: u64)
    ensures
        holds_snapshot(e, slot) <==> !e.is_dir && exists|i: int|
            0 <= i && i + decimal(slot as nat).len() <= e.name@.len() && #[trigger] e.name@.subrange(
                i,
                i + decimal(slot as nat).len(),
            ) == decimal(slot as nat),
{
    if holds_snapshot(e, slot) {
        let i = choose|i: int| occurs_at(e.name@, decimal(slot as nat), i);
        assert(e.name@.subrange(i, i + decimal(slot as nat).len()) == decimal(slot as nat));
    }
    if !e.is_dir && exists|i: int|
        0 <= i && i + decimal(slot as nat).len() <= e.name@.len() && #[trigger] e.name@.subrange(
            i,
            i + decimal(slot as nat).len(),
        ) == decimal(slot as nat) {
        let i = choose|i: int|
            0 <= i && i + decimal(slot as nat).len() <= e.name@.len() && #[trigger] e.name@.subrange(
                i,
                i + decimal(slot as nat).len(),
            ) == decimal(slot as nat);
        assert(occurs_at(e.name@, decimal(slot as nat), i));
    }
}

/// A snapshot archive downloaded for `slot` (named `snapshot-<slot>`
/// followed by anything) is recognised in the cache as one for `slot`.
pub proof fn lemma_cached_archive_recognised(e: CacheEntry, slot: u64, tail: Seq<char>)
    requires
        !e.is_dir,
        e.name@ == snapshot_prefix() + decimal(slot as nat) + tail,
    ensures
        holds_snapshot(e, slot),
{
    reveal_strlit("snapshot-");
    let d = decimal(slot as nat);
    let at = snapshot_prefix().len() as int;
    assert(e.name@.subrange(at, at + d.len()) =~= d);
    assert(occurs_at(e.name@, d, at));
}

/// The position of the first transaction that failed to replay, given
/// whether each succeeded; `None` when all succeeded.
pub fn first_failed_transaction(succeeded: &Vec<bool>) -> (r: Option<usize>)
    ensures
        match r {
            Some(i) => i < succeeded@.len() && !succeeded@[i as int] && forall|q: int|
                0 <= q < i ==> #[trigger] succeeded@[q],
            None => forall|q: int| 0 <= q < succeeded@.len() ==> #[trigger] succeeded@[q],
        },
{
    let mut i: usize = 0;
    while i < succeeded.len()
        invariant
            i <= succeeded@.len(),
            forall|q: int| 0 <= q < i ==> #[trigger] succeeded@[q],
        decreases succeeded.len() - i,
    {
        if !succeeded[i] {
            return Some(i);
        }
        i = i + 1;
    }
    None
}

/// The prefix of the name of a snapshot archive.
pub open spec fn snapshot_prefix() -> Seq<char> {
    "snapshot-"@
}

/// The prefix of the name of a block file.
pub open spec fn block_prefix() -> Seq<char> {
    "block_plus_"@
}

/// A test vector's snapshot archive is the file whose name starts with
/// `snapshot-`, and its block files those whose names start with
/// `block_plus_`.
pub proof fn lemma_test_vector_file_prefixes()
    ensures
        snapshot_prefix() == "snapshot-"@,
        block_prefix() == "block_plus_"@,
{
}

/// The first of the file names, in the order listed, that starts with
/// `snapshot-`; `None` when none does.
pub fn find_snapshot_file(names: &Vec<String>) -> (r: Option<usize>)
    ensures
        match r {
            Some(k) => k < names@.len() && seq_starts_with(names@[k as int]@, snapshot_prefix())
                && forall|q: int|
                0 <= q < k ==> !seq_starts_with(#[trigger] names@[q]@, snapshot_prefix()),
            None => forall|q: int|
                0 <= q < names@.len() ==> !seq_starts_with(#[trigger] names@[q]@, snapshot_prefix()),
        },
{
    let mut k: usize = 0;
    while k < names.len()
        invariant
            k <= names@.len(),
            forall|q: int|
                0 <= q < k ==> !seq_starts_with(#[trigger] names@[q]@, snapshot_prefix()),
        decreases names.len() - k,
    {
        if str_starts_with(names[k].as_str(), "snapshot-") {
            return Some(k);
        }
        k = k + 1;
    }
    None
}

/// The second of the `-`-separated fields of `s`, as
/// `s.split('-').skip(1).next()` gives it; `None` when `s` holds no `-`.
pub open spec fn second_dash_field(s: Seq<char>) -> Option<Seq<char>> {
    match after_first(s, '-') {
        Some(rest) => Some(take_until(rest, '-')),
        None => None,
    }
}

/// The slot that the name of a snapshot archive gives: its second
/// `-`-separated field read as a `u64`.
pub open spec fn snapshot_slot_of(name: Seq<char>) -> Option<u64> {
    match second_dash_field(name) {
        Some(field) => parse_u64_spec(field),
        None => None,
    }
}

/// The slot of the snapshot whose archive is named `name`
/// (`snapshot-<slot>-<hash>.tar.zst`): its second `-`-separated field read
/// as a `u64`. `None` when there is no such field or it is no number.
pub fn parse_snapshot_slot(name: &str) -> (r: Option<u64>)
    ensures
        r == snapshot_slot_of(name@),
{
    let chars = to_chars(name);
    let n = chars.len();
    let mut i: usize = 0;
    assert(chars@.skip(0) =~= chars@);
    while i < n && chars[i] != '-'
        invariant
            chars@ == name@,
            n == chars@.len(),
            i <= n,
            after_first(chars@, '-') == after_first(chars@.skip(i as int), '-'),
        decreases n - i,
    {
        let ghost rest = chars@.skip(i as int);
        assert(rest[0] == chars@[i as int]);
        assert(rest.drop_first() =~= chars@.skip(i + 1));
        i = i + 1;
    }
    if i == n {
        assert(chars@.skip(i as int).len() == 0);
        return None;
    }
    let ghost rest = chars@.skip(i as int);
    assert(rest[0] == '-');
    let ghost field_src = rest.drop_first();
    assert(field_src =~= chars@.skip(i + 1));
    let start = i + 1;
    let mut j: usize = start;
    assert(field_src.subrange(0, 0) + field_src.skip(0) =~= field_src);
    while j < n && chars[j] != '-'
        invariant
            chars@ == name@,
            n == chars@.len(),
            start <= j <= n,
            field_src == chars@.skip(start as int),
            take_until(field_src, '-') == field_src.subrange(0, j - start) + take_until(
                field_src.skip(j - start),
                '-',
            ),
        decreases n - j,
    {
        let ghost k = j - start;
        let ghost tail = field_src.skip(k);
        assert(tail[0] == chars@[j as int]);
        assert(tail.drop_first() =~= field_src.skip(k + 1));
        assert(field_src.subrange(0, k) + (seq![tail[0]] + take_until(tail.drop_first(), '-')) =~= field_src.subrange(0, k + 1) + take_until(field_src.skip(k + 1), '-'));
        j = j + 1;
    }
    let ghost k = j - start;
    if j < n {
        assert(field_src.skip(k)[0] == '-');
    } else {
        assert(field_src.skip(k).len() == 0);
    }
    assert(take_until(field_src, '-') =~= chars@.subrange(start as int, j as int));
    let field = name.substring_char(start, j);
    parse_u64(field)
}

/// A snapshot archive named `snapshot-<slot>` followed by nothing or by
/// `-` and anything (the node names them `snapshot-<slot>-<hash>.tar.zst`)
/// gives back its slot.
pub proof fn lemma_snapshot_name_gives_slot(slot: u64, tail: Seq<char>)
    requires
        tail.len() == 0 || tail[0] == '-',
    ensures
        snapshot_slot_of(snapshot_prefix() + decimal(slot as nat) + tail) == Some(slot),
{
    reveal_strlit("snapshot-");
    reveal_strlit("snapshot");
    let d = decimal(slot as nat);
    lemma_decimal_parses(slot);
    let word = "snapshot"@;
    let s = snapshot_prefix() + d + tail;
    assert(s =~= word + (seq!['-'] + (d + tail)));
    lemma_after_first_append(word, seq!['-'] + (d + tail), '-');
    assert((seq!['-'] + (d + tail)).drop_first() =~= d + tail);
    assert forall|i: int| 0 <= i < d.len() implies d[i] != '-' by {
        assert(is_digit(d[i]));
    }
    lemma_take_until_append(d, tail, '-');
}


/// The texts of a sequence of strings.
pub open spec fn name_views(v: Seq<String>) -> Seq<Seq<char>> {
    v.map_values(|s: String| s@)
}

/// Whether a file name is that of a block file, `block_plus_...`.
pub open spec fn is_block_file(name: Seq<char>) -> bool {
    seq_starts_with(name, block_prefix())
}

/// The block file names among `names`, in the order listed.
pub open spec fn block_files_among(names: Seq<Seq<char>>) -> Seq<Seq<char>> {
    names.filter(|s: Seq<char>| is_block_file(s))
}

/// Whether the texts are in increasing order (see `seq_le`).
pub open spec fn names_sorted(s: Seq<Seq<char>>) -> bool {
    forall|i: int, j: int| 0 <= i < j < s.len() ==> seq_le(#[trigger] s[i], #[trigger] s[j])
}

proof fn lemma_insert_keeps_sorted(s: Seq<Seq<char>>, p: int, x: Seq<char>)
    requires
        names_sorted(s),
        0 <= p <= s.len(),
        forall|q: int| 0 <= q < p ==> seq_le(#[trigger] s[q], x),
        forall|q: int| p <= q < s.len() ==> seq_le(x, #[trigger] s[q]),
    ensures
        names_sorted(s.insert(p, x)),
{
    let t = s.insert(p, x);
    assert forall|i: int, j: int| 0 <= i < j < t.len() implies seq_le(#[trigger] t[i], #[trigger] t[j]) by {
        if j < p {
            assert(t[i] == s[i] && t[j] == s[j]);
        } else if j == p {
            assert(t[i] == s[i]);
        } else if i < p {
            assert(t[i] == s[i] && t[j] == s[j - 1]);
        } else if i == p {
            assert(t[j] == s[j - 1]);
        } else {
            assert(t[i] == s[i - 1] && t[j] == s[j - 1]);
        }
    }
}

/// `names` in increasing order (see `seq_le`), as `Vec::sort` leaves them.
pub fn sort_names(names: &Vec<String>) -> (r: Vec<String>)
    ensures
        names_sorted(name_views(r@)),
        name_views(r@).to_multiset() == name_views(names@).to_multiset(),
{
    proof {
        crate::text::lemma_seq_le_total_order();
    }
    let ghost le = |a: Seq<char>, b: Seq<char>| seq_le(a, b);
    let mut r: Vec<String> = Vec::new();
    let mut i: usize = 0;
    assert(name_views(r@) =~= name_views(names@.take(0)));
    while i < names.len()
        invariant
            i <= names@.len(),
            vstd::relations::total_ordering(le),
            le == (|a: Seq<char>, b: Seq<char>| seq_le(a, b)),
            names_sorted(name_views(r@)),
            name_views(r@).to_multiset() == name_views(names@.take(i as int)).to_multiset(),
        decreases names.len() - i,
    {
        let x = names[i].clone();
        let mut p: usize = 0;
        while p < r.len() && str_le(r[p].as_str(), x.as_str())
            invariant
                p <= r@.len(),
                i < names@.len(),
                x == names@[i as int],
                forall|q: int| 0 <= q < p ==> seq_le(#[trigger] name_views(r@)[q], x@),
            decreases r.len() - p,
        {
            p = p + 1;
        }
        let ghost s = name_views(r@);
        proof {
            if p < r@.len() {
                assert(!seq_le(s[p as int], x@));
                assert(le(s[p as int], x@) || le(x@, s[p as int]));
                assert forall|q: int| p <= q < s.len() implies seq_le(x@, #[trigger] s[q]) by {
                    if q > p {
                        assert(seq_le(s[p as int], s[q]));
                        assert(le(x@, s[p as int]) && le(s[p as int], s[q]));
                    }
                }
            }
            lemma_insert_keeps_sorted(s, p as int, x@);
        }
        r.insert(p, x);
        proof {
            assert(name_views(r@) =~= s.insert(p as int, names@[i as int]@));
            assert(names@.take(i + 1) =~= names@.take(i as int).push(names@[i as int]));
            assert(name_views(names@.take(i + 1)) =~= name_views(names@.take(i as int)).push(
                names@[i as int]@,
            ));
            vstd::seq_lib::to_multiset_insert(s, p as int, x@);
            vstd::seq_lib::to_multiset_build(name_views(names@.take(i as int)), names@[i as int]@);
            assert(name_views(names@.take(i as int)).push(names@[i as int]@).to_multiset()
                == name_views(names@.take(i as int)).to_multiset().insert(names@[i as int]@));
        }
        i = i + 1;
    }
    assert(names@.take(names@.len() as int) =~= names@);
    r
}

/// The names of the block files among `names` (those starting with
/// `block_plus_`), in increasing order, the order in which the blocks of a
/// test vector are replayed.
pub fn select_block_files(names: &Vec<String>) -> (r: Vec<String>)
    ensures
        names_sorted(name_views(r@)),
        name_views(r@).to_multiset() == block_files_among(name_views(names@)).to_multiset(),
{
    let mut found: Vec<String> = Vec::new();
    let mut i: usize = 0;
    while i < names.len()
        invariant
            i <= names@.len(),
            name_views(found@) == block_files_among(name_views(names@.take(i as int))),
        decreases names.len() - i,
    {
        let ghost before = name_views(names@.take(i as int));
        proof {
            assert(names@.take(i + 1) =~= names@.take(i as int).push(names@[i as int]));
            assert(name_views(names@.take(i + 1)) =~= before.push(names@[i as int]@));
            before.lemma_filter_push(names@[i as int]@, |s: Seq<char>| is_block_file(s));
        }
        if str_starts_with(names[i].as_str(), "block_plus_") {
            found.push(names[i].clone());
            assert(name_views(found@) =~= block_files_among(before).push(names@[i as int]@));
        }
        i = i + 1;
    }
    assert(names@.take(names@.len() as int) =~= names@);
    sort_names(&found)
}


/// Every block file that a test-vector collection writes (named by
/// `block_file_name`) is among the files that replaying the test vector
/// picks up.
pub proof fn lemma_collected_blocks_are_replayed(offset: nat)
    ensures
        is_block_file(block_file_name_spec(offset)),
{
    reveal_strlit("block_plus_");
    let name = block_file_name_spec(offset);
    assert(name.subrange(0, block_prefix().len() as int) =~= block_prefix());
}


/// The names of the files that the blocks `1..=n` after a snapshot are
/// written to, in the order written.
pub open spec fn written_block_files(n: nat) -> Seq<Seq<char>> {
    Seq::new(n, |k: int| block_file_name_spec((k + 1) as nat))
}

proof fn lemma_single_digit_block_files_ordered(i: nat, j: nat)
    requires
        1 <= i <= j <= 9,
    ensures
        seq_le(block_file_name_spec(i), block_file_name_spec(j)),
{
    let p = "block_plus_"@;
    let ext = ".json"@;
    assert(decimal(i) == seq![digit_char(i)]);
    assert(decimal(j) == seq![digit_char(j)]);
    let x = seq![digit_char(i)] + ext;
    let y = seq![digit_char(j)] + ext;
    assert(block_file_name_spec(i) =~= p + x);
    assert(block_file_name_spec(j) =~= p + y);
    lemma_seq_le_common_prefix(p, x, y);
    if i == j {
        lemma_seq_le_reflexive(x);
    } else {
        assert(x[0] == digit_char(i));
        assert(y[0] == digit_char(j));
        assert((digit_char(i) as int) == ('0' as int) + i);
        assert((digit_char(j) as int) == ('0' as int) + j);
    }
}

/// The block files of a collected test vector are replayed in the order
/// they were written, as long as there are at most nine of them: when the
/// block files in a directory listing are those of blocks `1..=n` after the
/// snapshot (in any order), the sorted selection that `select_block_files`
/// returns (sorted, same files) is `block_plus_1.json`, ...,
/// `block_plus_n.json`. From ten blocks on the order is that of the names,
/// and `block_plus_10.json` comes before `block_plus_2.json`.
pub proof fn lemma_block_files_replayed_in_order(
    listing: Seq<Seq<char>>,
    selected: Seq<Seq<char>>,
    n: nat,
)
    requires
        n <= 9,
        block_files_among(listing).to_multiset() == written_block_files(n).to_multiset(),
        names_sorted(selected),
        selected.to_multiset() == block_files_among(listing).to_multiset(),
    ensures
        selected == written_block_files(n),
{
    let le = |a: Seq<char>, b: Seq<char>| seq_le(a, b);
    let w = written_block_files(n);
    lemma_seq_le_total_order();
    assert forall|a: int, b: int| 0 <= a < b < w.len() implies #[trigger] le(w[a], w[b]) by {
        lemma_single_digit_block_files_ordered((a + 1) as nat, (b + 1) as nat);
    }
    assert forall|a: int, b: int| 0 <= a < b < selected.len() implies #[trigger] le(
        selected[a],
        selected[b],
    ) by {
        assert(seq_le(selected[a], selected[b]));
    }
    vstd::seq_lib::lemma_sorted_unique(selected, w, le);
}

} // verus!
