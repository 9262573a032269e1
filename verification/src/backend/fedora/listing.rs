//! Sorted package listings without duplicates.

use vstd::prelude::*;
use crate::backend::fedora::types::{Package, PackageView};
use crate::text::{
    chars_of, compare, lemma_text_order_basics, lemma_text_order_transitive, text_order,
};

verus! {

/// The listing entries held by a sequence of packages.
pub open spec fn package_views(v: Seq<Package>) -> Seq<PackageView> {
    Seq::new(v.len(), |i: int| v[i]@)
}

/// The order of two listing entries: by name alone, or, when `full`, by
/// name, then version, then architecture. Negative when `a` comes first,
/// zero when the two have the same key, positive when `b` comes first.
pub open spec fn entry_order(full: bool, a: PackageView, b: PackageView) -> int {
    let by_name = text_order(a.name, b.name);
    if by_name != 0 || !full {
        by_name
    } else {
        let by_version = text_order(a.version, b.version);
        if by_version != 0 {
            by_version
        } else {
            text_order(a.arch, b.arch)
        }
    }
}

/// Whether two entries have the same key: the same name, and when `full` also
/// the same version and architecture.
pub open spec fn same_key(full: bool, a: PackageView, b: PackageView) -> bool {
    a.name == b.name && (full ==> a.version == b.version && a.arch == b.arch)
}

/// Whether each entry comes strictly before all later ones.
pub open spec fn strictly_ascending(full: bool, s: Seq<PackageView>) -> bool {
    forall|i: int, j: int|
        0 <= i < j < s.len() ==> #[trigger] entry_order(full, s[i], s[j]) < 0
}

/// Whether `p` stands in `s` at `i` and no earlier entry has its key.
pub open spec fn is_first_at(full: bool, s: Seq<PackageView>, i: int, p: PackageView) -> bool {
    &&& 0 <= i < s.len()
    &&& s[i] == p
    &&& forall|j: int| 0 <= j < i ==> !#[trigger] same_key(full, s[j], p)
}

/// Whether `p` is the first entry of `s` with its key.
pub open spec fn first_with_key(full: bool, s: Seq<PackageView>, p: PackageView) -> bool {
    exists|i: int| is_first_at(full, s, i, p)
}

/// Whether the entry of `s` at `k` has the key of `p`.
pub open spec fn key_at(full: bool, s: Seq<PackageView>, k: int, p: PackageView) -> bool {
    0 <= k < s.len() && same_key(full, s[k], p)
}

/// Whether some entry of `s` has the key of `p`.
pub open spec fn has_key(full: bool, s: Seq<PackageView>, p: PackageView) -> bool {
    exists|k: int| key_at(full, s, k, p)
}

/// Whether `listing` is `candidates` sorted by key with, for each key, only
/// the candidate that came first. These three conditions determine `listing`.
pub open spec fn is_listing_of(
    full: bool,
    listing: Seq<PackageView>,
    candidates: Seq<PackageView>,
) -> bool {
    &&& strictly_ascending(full, listing)
    &&& forall|k: int|
        0 <= k < listing.len() ==> #[trigger] first_with_key(full, candidates, listing[k])
    &&& forall|i: int|
        0 <= i < candidates.len() ==> #[trigger] has_key(full, listing, candidates[i])
}

/// The order is zero exactly on equal keys, and swapping its arguments
/// negates it.
pub proof fn lemma_entry_order_basics(full: bool, a: PackageView, b: PackageView)
    ensures
        entry_order(full, a, b) == 0 <==> same_key(full, a, b),
        entry_order(full, a, b) == -entry_order(full, b, a),
{
    lemma_text_order_basics(a.name, b.name);
    lemma_text_order_basics(a.version, b.version);
    lemma_text_order_basics(a.arch, b.arch);
}

/// The order is transitive.
pub proof fn lemma_entry_order_transitive(full: bool, a: PackageView, b: PackageView, c: PackageView)
    requires
        entry_order(full, a, b) < 0,
        entry_order(full, b, c) < 0,
    ensures
        entry_order(full, a, c) < 0,
{
    lemma_text_order_basics(a.name, b.name);
    lemma_text_order_basics(b.name, c.name);
    lemma_text_order_basics(a.name, c.name);
    lemma_text_order_basics(a.version, b.version);
    lemma_text_order_basics(b.version, c.version);
    lemma_text_order_basics(a.version, c.version);
    lemma_text_order_basics(a.arch, b.arch);
    lemma_text_order_basics(b.arch, c.arch);
    lemma_text_order_basics(a.arch, c.arch);
    if text_order(a.name, b.name) < 0 && text_order(b.name, c.name) < 0 {
        lemma_text_order_transitive(a.name, b.name, c.name);
    }
    if full && a.name == b.name && b.name == c.name {
        if text_order(a.version, b.version) < 0 && text_order(b.version, c.version) < 0 {
            lemma_text_order_transitive(a.version, b.version, c.version);
        }
        if a.version == b.version && b.version == c.version {
            lemma_text_order_transitive(a.arch, b.arch, c.arch);
        }
    }
}

/// Compares two entries by their keys.
pub fn compare_entries(full: bool, a: &Package, b: &Package) -> (r: i32)
    ensures
        r == entry_order(full, a@, b@),
{
    let by_name = compare(&chars_of(a.name.as_str()), &chars_of(b.name.as_str()));
    if by_name != 0 || !full {
        return by_name;
    }
    let by_version = compare(&chars_of(a.version.as_str()), &chars_of(b.version.as_str()));
    if by_version != 0 {
        return by_version;
    }
    compare(&chars_of(a.arch.as_str()), &chars_of(b.arch.as_str()))
}

/// Where `p` belongs in the sorted `listing`, and whether an entry with its
/// key already stands there.
fn insertion_point(full: bool, listing: &Vec<Package>, p: &Package) -> (r: (usize, bool))
    ensures
        r.0 <= listing.len(),
        forall|k: int| 0 <= k < r.0 ==> #[trigger] entry_order(full, listing@[k]@, p@) < 0,
        r.0 < listing.len() ==> entry_order(full, listing@[r.0 as int]@, p@) >= 0,
        r.1 == (r.0 < listing.len() && entry_order(full, listing@[r.0 as int]@, p@) == 0),
{
    let mut pos: usize = 0;
    while pos < listing.len()
        invariant
            pos <= listing.len(),
            forall|k: int| 0 <= k < pos ==> #[trigger] entry_order(full, listing@[k]@, p@) < 0,
        decreases listing.len() - pos,
    {
        let order = compare_entries(full, &listing[pos], p);
        if order >= 0 {
            return (pos, order == 0);
        }
        pos += 1;
    }
    (pos, false)
}

/// An entry that is first with its key stays so when a candidate is appended.
proof fn lemma_first_stays(full: bool, seen: Seq<PackageView>, pv: PackageView, r: PackageView)
    requires
        first_with_key(full, seen, r),
    ensures
        first_with_key(full, seen.push(pv), r),
{
    let next = seen.push(pv);
    let w = choose|w: int| is_first_at(full, seen, w, r);
    assert(next[w] == r);
    assert forall|j: int| 0 <= j < w implies !#[trigger] same_key(full, next[j], r) by {
        assert(next[j] == seen[j]);
        assert(!same_key(full, seen[j], r));
    }
    assert(is_first_at(full, next, w, r));
}

/// A candidate whose key the listing already has leaves the listing as it is.
proof fn lemma_skip(
    full: bool,
    before: Seq<PackageView>,
    seen: Seq<PackageView>,
    pv: PackageView,
    pos: int,
)
    requires
        is_listing_of(full, before, seen),
        0 <= pos < before.len(),
        entry_order(full, before[pos], pv) == 0,
    ensures
        is_listing_of(full, before, seen.push(pv)),
{
    let next = seen.push(pv);
    lemma_entry_order_basics(full, before[pos], pv);
    assert forall|k: int| 0 <= k < before.len() implies #[trigger] first_with_key(
        full,
        next,
        before[k],
    ) by {
        assert(first_with_key(full, seen, before[k]));
        lemma_first_stays(full, seen, pv, before[k]);
    }
    assert forall|j: int| 0 <= j < next.len() implies #[trigger] has_key(full, before, next[j]) by {
        if j < seen.len() {
            assert(next[j] == seen[j]);
            assert(has_key(full, before, seen[j]));
        } else {
            assert(key_at(full, before, pos, next[j]));
        }
    }
}

/// In a sorted listing into which `pv` fits at `pos`, no entry has the key of
/// `pv`, and `pv` comes before every entry from `pos` on.
proof fn lemma_fits(full: bool, before: Seq<PackageView>, pv: PackageView, pos: int, k: int)
    requires
        strictly_ascending(full, before),
        0 <= pos <= before.len(),
        forall|k: int| 0 <= k < pos ==> #[trigger] entry_order(full, before[k], pv) < 0,
        pos < before.len() ==> entry_order(full, before[pos], pv) > 0,
        0 <= k < before.len(),
    ensures
        !same_key(full, before[k], pv),
        k >= pos ==> entry_order(full, pv, before[k]) < 0,
        k < pos ==> entry_order(full, before[k], pv) < 0,
{
    lemma_entry_order_basics(full, before[k], pv);
    if k >= pos {
        lemma_entry_order_basics(full, before[pos], pv);
        if k > pos {
            assert(entry_order(full, before[pos], before[k]) < 0);
            lemma_entry_order_transitive(full, pv, before[pos], before[k]);
        }
        lemma_entry_order_basics(full, pv, before[k]);
    } else {
        assert(entry_order(full, before[k], pv) < 0);
    }
}

/// Putting `pv` where it fits keeps the listing sorted.
proof fn lemma_insert_sorted(full: bool, before: Seq<PackageView>, pv: PackageView, pos: int)
    requires
        strictly_ascending(full, before),
        0 <= pos <= before.len(),
        forall|k: int| 0 <= k < pos ==> #[trigger] entry_order(full, before[k], pv) < 0,
        pos < before.len() ==> entry_order(full, before[pos], pv) > 0,
    ensures
        strictly_ascending(full, before.insert(pos, pv)),
{
    let after = before.insert(pos, pv);
    assert forall|a: int, b: int| 0 <= a < b < after.len() implies #[trigger] entry_order(
        full,
        after[a],
        after[b],
    ) < 0 by {
        if b < pos {
            assert(after[a] == before[a] && after[b] == before[b]);
            assert(entry_order(full, before[a], before[b]) < 0);
        } else if b == pos {
            assert(after[a] == before[a] && after[b] == pv);
            lemma_fits(full, before, pv, pos, a);
        } else if a == pos {
            assert(after[a] == pv && after[b] == before[b - 1]);
            lemma_fits(full, before, pv, pos, b - 1);
        } else if a < pos {
            assert(after[a] == before[a] && after[b] == before[b - 1]);
            assert(entry_order(full, before[a], before[b - 1]) < 0);
        } else {
            assert(after[a] == before[a - 1] && after[b] == before[b - 1]);
            assert(entry_order(full, before[a - 1], before[b - 1]) < 0);
        }
    }
}

/// A candidate whose key is new enters the listing at its place.
proof fn lemma_insert(
    full: bool,
    before: Seq<PackageView>,
    seen: Seq<PackageView>,
    pv: PackageView,
    pos: int,
)
    requires
        is_listing_of(full, before, seen),
        0 <= pos <= before.len(),
        forall|k: int| 0 <= k < pos ==> #[trigger] entry_order(full, before[k], pv) < 0,
        pos < before.len() ==> entry_order(full, before[pos], pv) > 0,
    ensures
        is_listing_of(full, before.insert(pos, pv), seen.push(pv)),
{
    let next = seen.push(pv);
    let after = before.insert(pos, pv);
    lemma_insert_sorted(full, before, pv, pos);
    assert forall|j: int| 0 <= j < seen.len() implies !#[trigger] same_key(full, next[j], pv) by {
        assert(next[j] == seen[j]);
        if same_key(full, seen[j], pv) {
            assert(has_key(full, before, seen[j]));
            let k = choose|k: int| key_at(full, before, k, seen[j]);
            lemma_fits(full, before, pv, pos, k);
        }
    }
    assert(is_first_at(full, next, seen.len() as int, pv));
    assert forall|k: int| 0 <= k < after.len() implies #[trigger] first_with_key(
        full,
        next,
        after[k],
    ) by {
        if k < pos {
            assert(after[k] == before[k]);
            assert(first_with_key(full, seen, before[k]));
            lemma_first_stays(full, seen, pv, before[k]);
        } else if k > pos {
            assert(after[k] == before[k - 1]);
            assert(first_with_key(full, seen, before[k - 1]));
            lemma_first_stays(full, seen, pv, before[k - 1]);
        } else {
            assert(after[k] == pv);
        }
    }
    assert forall|j: int| 0 <= j < next.len() implies #[trigger] has_key(full, after, next[j]) by {
        if j < seen.len() {
            assert(next[j] == seen[j]);
            assert(has_key(full, before, seen[j]));
            let k = choose|k: int| key_at(full, before, k, seen[j]);
            if k < pos {
                assert(after[k] == before[k]);
                assert(key_at(full, after, k, next[j]));
            } else {
                assert(after[k + 1] == before[k]);
                assert(key_at(full, after, k + 1, next[j]));
            }
        } else {
            assert(after[pos] == pv);
            assert(key_at(full, after, pos, next[j]));
        }
    }
}

/// Sorts `candidates` by key and keeps, for each key, the candidate that came
/// first.
pub fn sorted_unique(full: bool, candidates: Vec<Package>) -> (listing: Vec<Package>)
    ensures
        is_listing_of(full, package_views(listing@), package_views(candidates@)),
{
    let ghost all = package_views(candidates@);
    let mut listing: Vec<Package> = Vec::new();
    let mut i: usize = 0;
    while i < candidates.len()
        invariant
            i <= candidates.len(),
            all == package_views(candidates@),
            is_listing_of(full, package_views(listing@), all.take(i as int)),
        decreases candidates.len() - i,
    {
        let ghost before = package_views(listing@);
        let ghost seen = all.take(i as int);
        let p = candidates[i].clone();
        let ghost pv = p@;
        let (pos, present) = insertion_point(full, &listing, &p);
        proof {
            assert(pv == all[i as int]);
            assert(all.take(i + 1) == seen.push(pv));
            assert forall|k: int| 0 <= k < pos implies #[trigger] entry_order(full, before[k], pv)
                < 0 by {
                assert(before[k] == listing@[k]@);
                assert(entry_order(full, listing@[k]@, p@) < 0);
            }
            if pos < listing.len() {
                assert(before[pos as int] == listing@[pos as int]@);
            }
        }
        if present {
            proof {
                lemma_skip(full, before, seen, pv, pos as int);
            }
        } else {
            listing.insert(pos, p);
            proof {
                assert(package_views(listing@) =~= before.insert(pos as int, pv));
                lemma_insert(full, before, seen, pv, pos as int);
            }
        }
        i += 1;
    }
    assert(all.take(candidates.len() as int) == all);
    listing
}

} // verus!
