//! Which log files a cleanup pass deletes.
//!
//! A pass looks at the files of one directory whose names start with the
//! configured prefix (the candidates), orders them newest first, keeps the
//! first `keep_last` of that order and deletes the rest.
use vstd::multiset::Multiset;
use vstd::prelude::*;
use vstd::string::StrSliceExecFns;

verus! {

broadcast use {vstd::seq_lib::group_to_multiset_ensures, vstd::seq_lib::group_seq_properties};

/// A file found in the log directory: its name and its last-modified time
/// (nanoseconds since the Unix epoch).
#[derive(Clone, Debug, PartialEq, Eq)]
pub struct LogFileEntry {
    pub name: String,
    pub modified: u128,
}

impl LogFileEntry {
    pub fn new(name: String, modified: u128) -> (r: Self)
        ensures
            r.name == name,
            r.modified == modified,
    {
        LogFileEntry { name, modified }
    }
}

/// `name` begins with `prefix` (every name begins with the empty prefix).
pub open spec fn starts_with(name: Seq<char>, prefix: Seq<char>) -> bool {
    prefix.len() <= name.len() && name.subrange(0, prefix.len() as int) == prefix
}

pub open spec fn is_candidate(e: LogFileEntry, prefix: Seq<char>) -> bool {
    starts_with(e.name@, prefix)
}

pub open spec fn candidate_pred(prefix: Seq<char>) -> spec_fn(LogFileEntry) -> bool {
    |e: LogFileEntry| is_candidate(e, prefix)
}

/// The entries of a listing that a pass with this prefix considers, in
/// listing order.
pub open spec fn candidates(listing: Seq<LogFileEntry>, prefix: Seq<char>) -> Seq<LogFileEntry> {
    listing.filter(candidate_pred(prefix))
}

/// No entry of `s` is older than one that comes after it.
pub open spec fn newest_first(s: Seq<LogFileEntry>) -> bool {
    forall|i: int, j: int| 0 <= i < j < s.len() ==> s[i].modified >= s[j].modified
}

/// `order` holds exactly the entries of `entries`, newest first.
pub open spec fn is_newest_first_order(entries: Seq<LogFileEntry>, order: Seq<LogFileEntry>) -> bool {
    order.to_multiset() == entries.to_multiset() && newest_first(order)
}

/// How many of `n` files survive a pass that keeps `keep`.
pub open spec fn kept_count(n: nat, keep: nat) -> nat {
    if keep < n {
        keep
    } else {
        n
    }
}

/// `deleted` is what remains of a newest-first order of `entries` once its
/// first `keep` entries are set aside: the entries at positions
/// `keep..len` of that order, none when `keep >= len`.
pub open spec fn is_deletion_selection(
    entries: Seq<LogFileEntry>,
    keep: nat,
    deleted: Seq<LogFileEntry>,
) -> bool {
    exists|order: Seq<LogFileEntry>|
        #[trigger] is_newest_first_order(entries, order) && deleted == order.skip(
            kept_count(order.len(), keep) as int,
        )
}

/// Whether `name` starts with `prefix`.
pub fn has_prefix(name: &str, prefix: &str) -> (r: bool)
    ensures
        r == starts_with(name@, prefix@),
{
    let n = name.unicode_len();
    let p = prefix.unicode_len();
    if p > n {
        return false;
    }
    let mut i: usize = 0;
    while i < p
        invariant
            n == name@.len(),
            p == prefix@.len(),
            p <= n,
            i <= p,
            forall|j: int| 0 <= j < i ==> name@[j] == prefix@[j],
        decreases p - i,
    {
        if name.get_char(i) != prefix.get_char(i) {
            assert(name@.subrange(0, p as int)[i as int] != prefix@[i as int]);
            return false;
        }
        i = i + 1;
    }
    assert(name@.subrange(0, p as int) =~= prefix@);
    true
}

/// Keeps the entries whose name starts with `prefix`, in their order.
pub fn filter_by_prefix(entries: Vec<LogFileEntry>, prefix: &str) -> (r: Vec<LogFileEntry>)
    ensures
        r@ == candidates(entries@, prefix@),
{
    let ghost all = entries@;
    let ghost mut done: int = 0;
    let mut rest = entries;
    let mut out: Vec<LogFileEntry> = Vec::new();
    while rest.len() > 0
        invariant
            0 <= done <= all.len(),
            rest@ == all.skip(done),
            out@ == all.take(done).filter(candidate_pred(prefix@)),
        decreases rest.len(),
    {
        let e = rest.remove(0);
        proof {
            assert(all.take(done + 1) =~= all.take(done).push(e));
            all.take(done).lemma_filter_push(e, candidate_pred(prefix@));
            assert(rest@ =~= all.skip(done + 1));
        }
        let keep = has_prefix(e.name.as_str(), prefix);
        proof {
            assert(is_candidate(e, prefix@) == keep);
            assert(candidate_pred(prefix@)(e) == keep);
        }
        if keep {
            out.push(e);
        }
        proof {
            done = done + 1;
        }
    }
    assert(all.take(done) =~= all);
    out
}

/// The same entries, newest first.
pub fn sort_newest_first(entries: Vec<LogFileEntry>) -> (r: Vec<LogFileEntry>)
    ensures
        is_newest_first_order(entries@, r@),
{
    let ghost all = entries@;
    let mut rest = entries;
    let mut out: Vec<LogFileEntry> = Vec::new();
    while rest.len() > 0
        invariant
            out@.to_multiset().add(rest@.to_multiset()) == all.to_multiset(),
            newest_first(out@),
        decreases rest.len(),
    {
        let ghost before = rest@;
        let e = rest.pop().unwrap();
        proof {
            assert(before =~= rest@.push(e));
        }
        let mut pos: usize = 0;
        while pos < out.len() && out[pos].modified >= e.modified
            invariant
                pos <= out.len(),
                newest_first(out@),
                forall|j: int| 0 <= j < pos ==> out@[j].modified >= e.modified,
            decreases out.len() - pos,
        {
            pos = pos + 1;
        }
        let ghost shorter = out@;
        out.insert(pos, e);
        proof {
            assert forall|i: int, j: int| 0 <= i < j < out@.len() implies out@[i].modified
                >= out@[j].modified by {
                if j < pos {
                } else if j == pos {
                } else if i < pos {
                } else if i == pos {
                    assert(shorter[pos as int].modified < e.modified);
                }
            }
            assert(out@.to_multiset() =~= shorter.to_multiset().insert(e));
        }
    }
    proof {
        assert(rest@ =~= Seq::<LogFileEntry>::empty());
        assert(rest@.to_multiset().len() == 0);
        assert(out@.to_multiset() =~= all.to_multiset());
    }
    out
}

/// The entries that a pass keeping the `keep_last` most recent ones deletes.
pub fn select_for_deletion(entries: Vec<LogFileEntry>, keep_last: usize) -> (r: Vec<LogFileEntry>)
    ensures
        is_deletion_selection(entries@, keep_last as nat, r@),
{
    let mut sorted = sort_newest_first(entries);
    let ghost order = sorted@;
    if keep_last < sorted.len() {
        let r = sorted.split_off(keep_last);
        assert(is_newest_first_order(entries@, order) && r@ =~= order.skip(keep_last as int));
        r
    } else {
        let r: Vec<LogFileEntry> = Vec::new();
        assert(is_newest_first_order(entries@, order) && r@ =~= order.skip(order.len() as int));
        r
    }
}

/// One cleanup pass over a directory listing: among the entries whose name
/// starts with `prefix`, those beyond the `keep_last` most recent.
pub fn files_to_delete(listing: Vec<LogFileEntry>, prefix: &str, keep_last: usize) -> (r: Vec<
    LogFileEntry,
>)
    ensures
        is_deletion_selection(candidates(listing@, prefix@), keep_last as nat, r@),
{
    let matching = filter_by_prefix(listing, prefix);
    select_for_deletion(matching, keep_last)
}

/// The candidates that survive a pass which deleted `deleted`.
pub open spec fn retained(entries: Seq<LogFileEntry>, deleted: Seq<LogFileEntry>) -> Multiset<
    LogFileEntry,
> {
    entries.to_multiset().sub(deleted.to_multiset())
}

/// No two entries of `s` share a modification time.
pub open spec fn distinct_times(s: Seq<LogFileEntry>) -> bool {
    forall|i: int, j: int|
        0 <= i < s.len() && 0 <= j < s.len() && s[i].modified == s[j].modified ==> i == j
}

/// Splits a selection along the newest-first order it came from: the kept
/// part is the head of that order, the deleted part its tail.
proof fn lemma_selection_parts(entries: Seq<LogFileEntry>, keep: nat, deleted: Seq<LogFileEntry>) -> (order: Seq<LogFileEntry>)
    requires
        is_deletion_selection(entries, keep, deleted),
    ensures
        is_newest_first_order(entries, order),
        order.len() == entries.len(),
        deleted == order.skip(kept_count(entries.len(), keep) as int),
        order.take(kept_count(entries.len(), keep) as int).to_multiset().add(deleted.to_multiset())
            == entries.to_multiset(),
        retained(entries, deleted) == order.take(kept_count(entries.len(), keep) as int).to_multiset(),
{
    let order = choose|order: Seq<LogFileEntry>|
        #[trigger] is_newest_first_order(entries, order) && deleted == order.skip(
            kept_count(order.len(), keep) as int,
        );
    assert(order.to_multiset().len() == entries.to_multiset().len());
    let k = kept_count(order.len(), keep) as int;
    assert(order =~= order.take(k) + order.skip(k));
    vstd::seq_lib::lemma_multiset_commutative(order.take(k), order.skip(k));
    assert(retained(entries, deleted) =~= order.take(k).to_multiset());
    order
}

/// A pass over `n` candidates deletes `n - keep` of them (none when
/// `keep >= n`) and keeps the other `min(n, keep)`. No kept file is older
/// than a deleted one, and when no two candidates share a modification time
/// every kept file is strictly newer than every deleted one: the kept files
/// are exactly the `keep` most recently modified.
pub proof fn lemma_selection_keeps_newest(
    entries: Seq<LogFileEntry>,
    keep: nat,
    deleted: Seq<LogFileEntry>,
)
    requires
        is_deletion_selection(entries, keep, deleted),
    ensures
        deleted.len() == entries.len() - kept_count(entries.len(), keep),
        deleted.to_multiset().subset_of(entries.to_multiset()),
        retained(entries, deleted).len() == kept_count(entries.len(), keep),
        forall|a: LogFileEntry, b: LogFileEntry|
            retained(entries, deleted).contains(a) && deleted.contains(b) ==> a.modified
                >= b.modified,
        distinct_times(entries) ==> forall|a: LogFileEntry, b: LogFileEntry|
            retained(entries, deleted).contains(a) && deleted.contains(b) ==> a.modified
                > b.modified,
{
    let order = lemma_selection_parts(entries, keep, deleted);
    let k = kept_count(entries.len(), keep) as int;
    let kept = order.take(k);
    assert forall|a: LogFileEntry, b: LogFileEntry|
        retained(entries, deleted).contains(a) && deleted.contains(b) implies a.modified
        >= b.modified && (distinct_times(entries) ==> a.modified > b.modified) by {
        assert(kept.to_multiset().count(a) > 0);
        let i = choose|i: int| 0 <= i < kept.len() && kept[i] == a;
        let j = choose|j: int| 0 <= j < deleted.len() && deleted[j] == b;
        assert(order[i] == a && order[k + j] == b);
        if distinct_times(entries) && a.modified == b.modified {
            assert(entries.to_multiset().count(a) > 0);
            assert(entries.to_multiset().count(b) > 0);
            let ia = choose|ia: int| 0 <= ia < entries.len() && entries[ia] == a;
            let ib = choose|ib: int| 0 <= ib < entries.len() && entries[ib] == b;
            assert(ia == ib);
            assert(entries.no_duplicates());
            entries.lemma_multiset_has_no_duplicates();
            assert(deleted.to_multiset().count(a) > 0);
            assert(entries.to_multiset().count(a) >= 2);
        }
    }
}

/// A pass never deletes a file whose name does not start with the prefix,
/// whatever its age and whatever `keep` is.
pub proof fn lemma_only_candidates_deleted(
    listing: Seq<LogFileEntry>,
    prefix: Seq<char>,
    keep: nat,
    deleted: Seq<LogFileEntry>,
)
    requires
        is_deletion_selection(candidates(listing, prefix), keep, deleted),
    ensures
        forall|x: LogFileEntry|
            deleted.contains(x) ==> listing.contains(x) && starts_with(x.name@, prefix),
{
    let cands = candidates(listing, prefix);
    let order = lemma_selection_parts(cands, keep, deleted);
    assert forall|x: LogFileEntry| deleted.contains(x) implies listing.contains(x) && starts_with(
        x.name@,
        prefix,
    ) by {
        assert(deleted.to_multiset().count(x) > 0);
        assert(cands.to_multiset().count(x) > 0);
        let i = choose|i: int| 0 <= i < cands.len() && cands[i] == x;
        listing.lemma_filter_pred(candidate_pred(prefix), i);
        listing.lemma_filter_contains_rev(candidate_pred(prefix), x);
    }
}

/// With `keep == 0` a pass deletes every candidate; with `keep` at least the
/// number of candidates it deletes none.
pub proof fn lemma_keep_extremes(entries: Seq<LogFileEntry>, keep: nat, deleted: Seq<LogFileEntry>)
    requires
        is_deletion_selection(entries, keep, deleted),
    ensures
        keep == 0 ==> deleted.to_multiset() == entries.to_multiset(),
        keep >= entries.len() ==> deleted.len() == 0,
{
    let order = lemma_selection_parts(entries, keep, deleted);
    if keep == 0 {
        assert(deleted =~= order);
    }
}

/// Keeping the entries that satisfy `p` commutes with forgetting their order.
proof fn lemma_filter_to_multiset(s: Seq<LogFileEntry>, p: spec_fn(LogFileEntry) -> bool)
    ensures
        s.filter(p).to_multiset() == s.to_multiset().filter(p),
    decreases s.len(),
{
    if s.len() == 0 {
        assert(s.filter(p) =~= Seq::<LogFileEntry>::empty());
        assert(s.filter(p).to_multiset() =~= s.to_multiset().filter(p));
    } else {
        let init = s.drop_last();
        lemma_filter_to_multiset(init, p);
        assert(s =~= init.push(s.last()));
        init.lemma_filter_push(s.last(), p);
        assert(s.filter(p).to_multiset() =~= s.to_multiset().filter(p));
    }
}

/// A second pass over the same directory, once the files the first pass
/// selected are gone and no file has been added, deletes nothing.
pub proof fn lemma_second_pass_deletes_nothing(
    listing: Seq<LogFileEntry>,
    prefix: Seq<char>,
    keep: nat,
    deleted: Seq<LogFileEntry>,
    listing_after: Seq<LogFileEntry>,
    deleted_again: Seq<LogFileEntry>,
)
    requires
        is_deletion_selection(candidates(listing, prefix), keep, deleted),
        listing_after.to_multiset() == listing.to_multiset().sub(deleted.to_multiset()),
        is_deletion_selection(candidates(listing_after, prefix), keep, deleted_again),
    ensures
        deleted_again.len() == 0,
{
    let first = candidates(listing, prefix);
    let second = candidates(listing_after, prefix);
    lemma_selection_keeps_newest(first, keep, deleted);
    lemma_filter_to_multiset(listing, candidate_pred(prefix));
    lemma_filter_to_multiset(listing_after, candidate_pred(prefix));
    assert(second.to_multiset() =~= first.to_multiset().sub(deleted.to_multiset()));
    assert(second.len() <= keep);
    lemma_keep_extremes(second, keep, deleted_again);
}

} // verus!
