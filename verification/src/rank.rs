//! Ordering of sized entries.
//!
//! The sizes an ordering pass resolves are a fallible, possibly-stale read,
//! so the size-keyed sort works on pairs of a resolved size and the entry it
//! was resolved for.  Both sorts are merge sorts — O(n log n) comparisons —
//! and are verified exactly: each is a permutation; the size-keyed sort
//! leaves the pairs in the requested order and returns an already-ordered
//! input unchanged; the comparison-driven sort leaves every adjacent pair in
//! an order its comparison allows.

use vstd::prelude::*;
use vstd::seq_lib::lemma_multiset_commutative;

use core::cmp::Ordering;

use crate::entry::Entry;

verus! {

/// Whether `a` may stand before `b` in the requested order.
pub open spec fn in_order(ascending: bool, a: u64, b: u64) -> bool {
    if ascending {
        a <= b
    } else {
        a >= b
    }
}

/// The first `m` pairs of `s` run in the requested order.
pub open spec fn sorted_upto(s: Seq<(u64, Entry)>, m: int, ascending: bool) -> bool {
    forall|a: int, b: int|
        0 <= a < b < m ==> in_order(ascending, (#[trigger] s[a]).0, (#[trigger] s[b]).0)
}

/// The whole of `s` runs in the requested order.
pub open spec fn sorted_in(s: Seq<(u64, Entry)>, ascending: bool) -> bool {
    sorted_upto(s, s.len() as int, ascending)
}

/// No two pairs of `s` share a size: the order among them has no ties.
pub open spec fn distinct_keys(s: Seq<(u64, Entry)>) -> bool {
    forall|a: int, b: int| 0 <= a < b < s.len() ==> (#[trigger] s[a]).0 != (#[trigger] s[b]).0
}

/// The entries of a sequence of sized pairs, sizes dropped.
pub open spec fn entries_of(s: Seq<(u64, Entry)>) -> Seq<Entry> {
    s.map_values(|p: (u64, Entry)| p.1)
}

/// A caller's comparison allows `a` to stand just before `b`: some call of
/// it on `(a, b)` may return other than `Greater`, or some call of it on
/// `(b, a)` may return `Greater`.
pub open spec fn comparator_admits<F: Fn(&Entry, &Entry) -> Ordering>(
    cmp: F,
    a: Entry,
    b: Entry,
) -> bool {
    ||| exists|o: Ordering| call_ensures(cmp, (&a, &b), o) && o != Ordering::Greater
    ||| call_ensures(cmp, (&b, &a), Ordering::Greater)
}

/// Every adjacent pair of `s` stands in an order the caller's comparison
/// allows.
pub open spec fn comparator_ordered<F: Fn(&Entry, &Entry) -> Ordering>(
    cmp: F,
    s: Seq<Entry>,
) -> bool {
    forall|k: int| 0 <= k < s.len() - 1 ==> #[trigger] comparator_admits(cmp, s[k], s[k + 1])
}

/// Two sequences of sized pairs that hold the same pairs also hold the same
/// entries.
proof fn lemma_entries_multiset(s: Seq<(u64, Entry)>, t: Seq<(u64, Entry)>)
    requires
        s.to_multiset() == t.to_multiset(),
    ensures
        entries_of(s).to_multiset() == entries_of(t).to_multiset(),
    decreases s.len(),
{
    broadcast use vstd::seq_lib::group_to_multiset_ensures;
    broadcast use vstd::multiset::group_multiset_axioms;

    assert(s.to_multiset().len() == s.len());
    assert(t.to_multiset().len() == t.len());
    if s.len() == 0 {
        assert(entries_of(s) =~= entries_of(t));
    } else {
        let x = s[0];
        assert(s.contains(x));
        assert(t.to_multiset().count(x) > 0);
        assert(t.contains(x));
        let k = choose|k: int| 0 <= k < t.len() && t[k] == x;
        let s1 = s.drop_first();
        let t1 = t.remove(k);
        assert(s.remove(0) =~= s1);
        assert(s1.to_multiset() == s.to_multiset().remove(x));
        assert(t1.to_multiset() == t.to_multiset().remove(x));
        lemma_entries_multiset(s1, t1);

        let es = entries_of(s);
        let et = entries_of(t);
        assert(es.remove(0) =~= entries_of(s1));
        assert(et.remove(k) =~= entries_of(t1)) by {
            t.remove_ensures(k);
            et.remove_ensures(k);
        }
        assert(entries_of(s1).to_multiset() == es.to_multiset().remove(x.1)) by {
            assert(es[0] == x.1);
        }
        assert(entries_of(t1).to_multiset() == et.to_multiset().remove(x.1)) by {
            assert(et[k] == x.1);
        }
        assert(es.contains(x.1)) by {
            assert(es[0] == x.1);
        }
        assert(et.contains(x.1)) by {
            assert(et[k] == x.1);
        }
        assert(es.to_multiset().count(x.1) > 0);
        assert(et.to_multiset().count(x.1) > 0);
        assert forall|y: Entry|
            es.to_multiset().count(y) == et.to_multiset().count(y) by {
            if y == x.1 {
                assert(es.to_multiset().count(y) == es.to_multiset().remove(x.1).count(y) + 1);
                assert(et.to_multiset().count(y) == et.to_multiset().remove(x.1).count(y) + 1);
            } else {
                assert(es.to_multiset().count(y) == es.to_multiset().remove(x.1).count(y));
                assert(et.to_multiset().count(y) == et.to_multiset().remove(x.1).count(y));
            }
        }
        assert(es.to_multiset() =~= et.to_multiset());
    }
}

/// Reverses a vector of sized pairs, so that its front can be consumed by
/// popping from the back.
fn reverse_pairs(v: Vec<(u64, Entry)>) -> (r: Vec<(u64, Entry)>)
    ensures
        r@ == v@.reverse(),
{
    let ghost orig = v@;
    let mut v = v;
    let mut r: Vec<(u64, Entry)> = Vec::new();
    while v.len() > 0
        invariant
            v@.len() <= orig.len(),
            v@ == orig.subrange(0, v@.len() as int),
            r@ == orig.subrange(v@.len() as int, orig.len() as int).reverse(),
        decreases v@.len(),
    {
        let ghost l = v@.len() as int;
        let x = v.pop().unwrap();
        proof {
            assert(x == orig[l - 1]);
            assert(v@ =~= orig.subrange(0, l - 1));
        }
        r.push(x);
        proof {
            let rhs = orig.subrange(l - 1, orig.len() as int).reverse();
            assert forall|i: int| 0 <= i < r@.len() implies r@[i] == rhs[i] by {
                assert(rhs[i] == orig[orig.len() - 1 - i]);
            }
            assert(r@ =~= rhs);
        }
    }
    proof {
        assert(r@ =~= orig.reverse());
    }
    r
}

/// Merges two runs that are each in the requested order into one.  The
/// result holds exactly the pairs of both runs; on a tie the left run's pair
/// goes first, so two runs whose concatenation is already ordered merge to
/// exactly that concatenation.
fn merge_pairs(a: Vec<(u64, Entry)>, b: Vec<(u64, Entry)>, ascending: bool) -> (out: Vec<
    (u64, Entry),
>)
    requires
        sorted_in(a@, ascending),
        sorted_in(b@, ascending),
    ensures
        out@.len() == a@.len() + b@.len(),
        out@.to_multiset() == (a@ + b@).to_multiset(),
        sorted_in(out@, ascending),
        sorted_in(a@ + b@, ascending) ==> out@ == a@ + b@,
{
    let ghost ga = a@;
    let ghost gb = b@;
    let mut ra = reverse_pairs(a);
    let mut rb = reverse_pairs(b);
    let mut out: Vec<(u64, Entry)> = Vec::new();
    proof {
        assert(ra@ =~= ga.subrange(ga.len() - ra@.len(), ga.len() as int).reverse());
        assert(rb@ =~= gb.subrange(gb.len() - rb@.len(), gb.len() as int).reverse());
        assert(ga.subrange(0, 0) + gb.subrange(0, 0) =~= out@);
    }
    while ra.len() > 0 || rb.len() > 0
        invariant
            sorted_in(ga, ascending),
            sorted_in(gb, ascending),
            ra@.len() <= ga.len(),
            rb@.len() <= gb.len(),
            ra@ == ga.subrange(ga.len() - ra@.len(), ga.len() as int).reverse(),
            rb@ == gb.subrange(gb.len() - rb@.len(), gb.len() as int).reverse(),
            out@.len() + ra@.len() + rb@.len() == ga.len() + gb.len(),
            out@.to_multiset() == (ga.subrange(0, ga.len() - ra@.len()) + gb.subrange(
                0,
                gb.len() - rb@.len(),
            )).to_multiset(),
            sorted_in(out@, ascending),
            out@.len() > 0 && ra@.len() > 0 ==> in_order(
                ascending,
                out@.last().0,
                ga[ga.len() - ra@.len()].0,
            ),
            out@.len() > 0 && rb@.len() > 0 ==> in_order(
                ascending,
                out@.last().0,
                gb[gb.len() - rb@.len()].0,
            ),
            sorted_in(ga + gb, ascending) ==> {
                &&& (rb@.len() == gb.len() || ra@.len() == 0)
                &&& out@ == (ga + gb).subrange(0, out@.len() as int)
            },
        decreases ra@.len() + rb@.len(),
    {
        let ghost ia = ga.len() - ra@.len();
        let ghost jb = gb.len() - rb@.len();
        proof {
            if ra@.len() > 0 {
                assert(ra@.last() == ga[ia]);
            }
            if rb@.len() > 0 {
                assert(rb@.last() == gb[jb]);
            }
        }
        let take_a: bool = if rb.len() == 0 {
            true
        } else if ra.len() == 0 {
            false
        } else {
            let ka: u64 = ra[ra.len() - 1].0;
            let kb: u64 = rb[rb.len() - 1].0;
            if ascending {
                ka <= kb
            } else {
                ka >= kb
            }
        };
        if take_a {
            let x = ra.pop().unwrap();
            out.push(x);
            proof {
                assert(x == ga[ia]);
                assert(ra@ =~= ga.subrange(ia + 1, ga.len() as int).reverse());
                let ca = ga.subrange(0, ia);
                let cb = gb.subrange(0, jb);
                assert(ga.subrange(0, ia + 1) =~= ca.push(x));
                broadcast use vstd::seq_lib::group_to_multiset_ensures;
                broadcast use vstd::multiset::group_multiset_axioms;

                lemma_multiset_commutative(ca, cb);
                lemma_multiset_commutative(ca.push(x), cb);
                assert((ca.push(x) + cb).to_multiset() =~= (ca + cb).to_multiset().insert(x));
                // The moved pair keeps the run ordered: everything placed so
                // far comes no later than it, and it comes no later than the
                // two remaining fronts.
                assert(sorted_in(out@, ascending));
                if ra@.len() > 0 {
                    assert(in_order(ascending, ga[ia].0, ga[ia + 1].0));
                }
                if sorted_in(ga + gb, ascending) {
                    assert(jb == 0);
                    assert(x == (ga + gb)[ia]);
                    assert(out@ =~= (ga + gb).subrange(0, out@.len() as int));
                }
            }
        } else {
            let x = rb.pop().unwrap();
            out.push(x);
            proof {
                assert(x == gb[jb]);
                assert(rb@ =~= gb.subrange(jb + 1, gb.len() as int).reverse());
                let ca = ga.subrange(0, ia);
                let cb = gb.subrange(0, jb);
                assert(gb.subrange(0, jb + 1) =~= cb.push(x));
                broadcast use vstd::seq_lib::group_to_multiset_ensures;
                broadcast use vstd::multiset::group_multiset_axioms;

                lemma_multiset_commutative(ca, cb);
                lemma_multiset_commutative(ca, cb.push(x));
                assert((ca + cb.push(x)).to_multiset() =~= (ca + cb).to_multiset().insert(x));
                assert(sorted_in(out@, ascending));
                if rb@.len() > 0 {
                    assert(in_order(ascending, gb[jb].0, gb[jb + 1].0));
                }
                if sorted_in(ga + gb, ascending) {
                    // The left run cannot still hold anything: its front
                    // would have been taken instead.
                    if ra@.len() > 0 {
                        assert(ga[ia] == (ga + gb)[ia]);
                        assert(gb[jb] == (ga + gb)[ga.len() + jb]);
                        assert(in_order(ascending, ga[ia].0, gb[jb].0));
                        assert(false);
                    }
                    assert(x == (ga + gb)[ga.len() + jb]);
                    assert(out@ =~= (ga + gb).subrange(0, out@.len() as int));
                }
            }
        }
    }
    proof {
        assert(ga.subrange(0, ga.len() as int) + gb.subrange(0, gb.len() as int) =~= ga + gb);
        if sorted_in(ga + gb, ascending) {
            assert(out@ =~= ga + gb);
        }
    }
    out
}

/// Sorts a vector of sized pairs by a top-down merge, splitting in halves.
fn merge_sort_pairs(v: Vec<(u64, Entry)>, ascending: bool) -> (r: Vec<(u64, Entry)>)
    ensures
        r@.len() == v@.len(),
        r@.to_multiset() == v@.to_multiset(),
        sorted_in(r@, ascending),
        sorted_in(v@, ascending) ==> r@ == v@,
    decreases v@.len(),
{
    let ghost orig = v@;
    let n = v.len();
    if n <= 1 {
        return v;
    }
    let mut left = v;
    let right = left.split_off(n / 2);
    let ghost gl = left@;
    let ghost gr = right@;
    proof {
        assert(gl + gr =~= orig);
        if sorted_in(orig, ascending) {
            assert(sorted_in(gl, ascending));
            assert(sorted_in(gr, ascending));
        }
        lemma_multiset_commutative(gl, gr);
    }
    let ls = merge_sort_pairs(left, ascending);
    let rs = merge_sort_pairs(right, ascending);
    let out = merge_pairs(ls, rs, ascending);
    proof {
        lemma_multiset_commutative(ls@, rs@);
        assert(out@.to_multiset() == orig.to_multiset());
        if sorted_in(orig, ascending) {
            assert(ls@ + rs@ =~= orig);
            assert(out@ == orig);
        }
    }
    out
}

/// Reorders `v` in place so that the sizes run ascending (smallest first)
/// or descending (largest first), by an O(n log n) merge sort.
///
/// The reordering is exactly a permutation: the multiset of sized pairs, and
/// of the entries alone, is unchanged.  An input already in the requested
/// order comes back exactly as it was, so ranking twice in the same order is
/// idempotent.  The merge takes the earlier run's pair on a tie, so in
/// practice the pass is stable; the verified contract promises the weaker
/// statement that ties keep no particular order.
pub fn sort_pairs(v: &mut Vec<(u64, Entry)>, ascending: bool)
    ensures
        final(v)@.len() == old(v)@.len(),
        final(v)@.to_multiset() == old(v)@.to_multiset(),
        entries_of(final(v)@).to_multiset() == entries_of(old(v)@).to_multiset(),
        sorted_in(final(v)@, ascending),
        sorted_in(old(v)@, ascending) ==> final(v)@ == old(v)@,
{
    let ghost orig = v@;
    let mut tmp: Vec<(u64, Entry)> = Vec::new();
    core::mem::swap(&mut tmp, v);
    let sorted = merge_sort_pairs(tmp, ascending);
    *v = sorted;
    proof {
        lemma_entries_multiset(v@, orig);
    }
}

/// Reverses a vector of entries, so that its front can be consumed by
/// popping from the back.
fn reverse_entries(v: Vec<Entry>) -> (r: Vec<Entry>)
    ensures
        r@ == v@.reverse(),
{
    let ghost orig = v@;
    let mut v = v;
    let mut r: Vec<Entry> = Vec::new();
    while v.len() > 0
        invariant
            v@.len() <= orig.len(),
            v@ == orig.subrange(0, v@.len() as int),
            r@ == orig.subrange(v@.len() as int, orig.len() as int).reverse(),
        decreases v@.len(),
    {
        let ghost l = v@.len() as int;
        let x = v.pop().unwrap();
        proof {
            assert(x == orig[l - 1]);
            assert(v@ =~= orig.subrange(0, l - 1));
        }
        r.push(x);
        proof {
            let rhs = orig.subrange(l - 1, orig.len() as int).reverse();
            assert forall|i: int| 0 <= i < r@.len() implies r@[i] == rhs[i] by {
                assert(rhs[i] == orig[orig.len() - 1 - i]);
            }
            assert(r@ =~= rhs);
        }
    }
    proof {
        assert(r@ =~= orig.reverse());
    }
    r
}

/// Merges two runs whose adjacent pairs the caller's comparison allows.  The
/// result holds exactly the entries of both runs, and every adjacent pair of
/// it stands in an order the comparison allowed by some call: either it
/// returned other than `Greater` on the pair, or `Greater` on the pair
/// swapped.
fn merge_entries<F: Fn(&Entry, &Entry) -> Ordering>(a: Vec<Entry>, b: Vec<Entry>, cmp: &F) -> (out:
    Vec<Entry>)
    requires
        forall|x: &Entry, y: &Entry| #[trigger] call_requires(*cmp, (x, y)),
        comparator_ordered(*cmp, a@),
        comparator_ordered(*cmp, b@),
    ensures
        out@.len() == a@.len() + b@.len(),
        out@.to_multiset() == (a@ + b@).to_multiset(),
        comparator_ordered(*cmp, out@),
{
    let ghost ga = a@;
    let ghost gb = b@;
    let mut ra = reverse_entries(a);
    let mut rb = reverse_entries(b);
    let mut out: Vec<Entry> = Vec::new();
    proof {
        assert(ra@ =~= ga.subrange(ga.len() - ra@.len(), ga.len() as int).reverse());
        assert(rb@ =~= gb.subrange(gb.len() - rb@.len(), gb.len() as int).reverse());
        assert(ga.subrange(0, 0) + gb.subrange(0, 0) =~= out@);
    }
    while ra.len() > 0 || rb.len() > 0
        invariant
            forall|x: &Entry, y: &Entry| #[trigger] call_requires(*cmp, (x, y)),
            comparator_ordered(*cmp, ga),
            comparator_ordered(*cmp, gb),
            ra@.len() <= ga.len(),
            rb@.len() <= gb.len(),
            ra@ == ga.subrange(ga.len() - ra@.len(), ga.len() as int).reverse(),
            rb@ == gb.subrange(gb.len() - rb@.len(), gb.len() as int).reverse(),
            out@.len() + ra@.len() + rb@.len() == ga.len() + gb.len(),
            out@.to_multiset() == (ga.subrange(0, ga.len() - ra@.len()) + gb.subrange(
                0,
                gb.len() - rb@.len(),
            )).to_multiset(),
            comparator_ordered(*cmp, out@),
            out@.len() > 0 && ra@.len() > 0 ==> comparator_admits(
                *cmp,
                out@.last(),
                ga[ga.len() - ra@.len()],
            ),
            out@.len() > 0 && rb@.len() > 0 ==> comparator_admits(
                *cmp,
                out@.last(),
                gb[gb.len() - rb@.len()],
            ),
        decreases ra@.len() + rb@.len(),
    {
        let ghost ia = ga.len() - ra@.len();
        let ghost jb = gb.len() - rb@.len();
        proof {
            if ra@.len() > 0 {
                assert(ra@.last() == ga[ia]);
            }
            if rb@.len() > 0 {
                assert(rb@.last() == gb[jb]);
            }
        }
        let take_a: bool = if rb.len() == 0 {
            true
        } else if ra.len() == 0 {
            false
        } else {
            let o = cmp(&ra[ra.len() - 1], &rb[rb.len() - 1]);
            proof {
                if !(o matches Ordering::Greater) {
                    assert(comparator_admits(*cmp, ga[ia], gb[jb]));
                } else {
                    assert(comparator_admits(*cmp, gb[jb], ga[ia]));
                }
            }
            match o {
                Ordering::Greater => false,
                _ => true,
            }
        };
        let ghost out_before = out@;
        if take_a {
            let x = ra.pop().unwrap();
            out.push(x);
            proof {
                assert(x == ga[ia]);
                assert(ra@ =~= ga.subrange(ia + 1, ga.len() as int).reverse());
                let ca = ga.subrange(0, ia);
                let cb = gb.subrange(0, jb);
                assert(ga.subrange(0, ia + 1) =~= ca.push(x));
                broadcast use vstd::seq_lib::group_to_multiset_ensures;
                broadcast use vstd::multiset::group_multiset_axioms;

                lemma_multiset_commutative(ca, cb);
                lemma_multiset_commutative(ca.push(x), cb);
                assert((ca.push(x) + cb).to_multiset() =~= (ca + cb).to_multiset().insert(x));
                assert(comparator_ordered(*cmp, out@)) by {
                    assert(forall|k: int|
                        0 <= k < out_before.len() - 1 ==> #[trigger] comparator_admits(
                            *cmp,
                            out@[k],
                            out@[k + 1],
                        ));
                }
                if ra@.len() > 0 {
                    assert(comparator_admits(*cmp, ga[ia], ga[ia + 1]));
                }
            }
        } else {
            let x = rb.pop().unwrap();
            out.push(x);
            proof {
                assert(x == gb[jb]);
                assert(rb@ =~= gb.subrange(jb + 1, gb.len() as int).reverse());
                let ca = ga.subrange(0, ia);
                let cb = gb.subrange(0, jb);
                assert(gb.subrange(0, jb + 1) =~= cb.push(x));
                broadcast use vstd::seq_lib::group_to_multiset_ensures;
                broadcast use vstd::multiset::group_multiset_axioms;

                lemma_multiset_commutative(ca, cb);
                lemma_multiset_commutative(ca, cb.push(x));
                assert((ca + cb.push(x)).to_multiset() =~= (ca + cb).to_multiset().insert(x));
                assert(comparator_ordered(*cmp, out@)) by {
                    assert(forall|k: int|
                        0 <= k < out_before.len() - 1 ==> #[trigger] comparator_admits(
                            *cmp,
                            out@[k],
                            out@[k + 1],
                        ));
                }
                if rb@.len() > 0 {
                    assert(comparator_admits(*cmp, gb[jb], gb[jb + 1]));
                }
            }
        }
    }
    proof {
        assert(ga.subrange(0, ga.len() as int) + gb.subrange(0, gb.len() as int) =~= ga + gb);
    }
    out
}

/// Sorts a vector of entries by a caller's comparison, with a top-down
/// merge, splitting in halves.
fn merge_sort_entries<F: Fn(&Entry, &Entry) -> Ordering>(v: Vec<Entry>, cmp: &F) -> (r: Vec<Entry>)
    requires
        forall|x: &Entry, y: &Entry| #[trigger] call_requires(*cmp, (x, y)),
    ensures
        r@.len() == v@.len(),
        r@.to_multiset() == v@.to_multiset(),
        comparator_ordered(*cmp, r@),
    decreases v@.len(),
{
    let ghost orig = v@;
    let n = v.len();
    if n <= 1 {
        return v;
    }
    let mut left = v;
    let right = left.split_off(n / 2);
    let ghost gl = left@;
    let ghost gr = right@;
    proof {
        assert(gl + gr =~= orig);
        lemma_multiset_commutative(gl, gr);
    }
    let ls = merge_sort_entries(left, cmp);
    let rs = merge_sort_entries(right, cmp);
    let out = merge_entries(ls, rs, cmp);
    proof {
        lemma_multiset_commutative(ls@, rs@);
        assert(out@.to_multiset() == orig.to_multiset());
    }
    out
}

/// Reorders the entries by a caller's comparison, by an O(n log n) merge
/// sort: the result holds exactly the given entries, and every adjacent pair
/// of it stands in an order the comparison allowed.
pub fn sort_entries_by<F: Fn(&Entry, &Entry) -> Ordering>(v: Vec<Entry>, cmp: &F) -> (r: Vec<
    Entry,
>)
    requires
        forall|x: &Entry, y: &Entry| #[trigger] call_requires(*cmp, (x, y)),
    ensures
        r@.len() == v@.len(),
        r@.to_multiset() == v@.to_multiset(),
        comparator_ordered(*cmp, r@),
{
    merge_sort_entries(v, cmp)
}

/// Law: two sequences that both run in the same requested order, hold the
/// same sized pairs, and have no ties among their sizes are the very same
/// sequence; the order of a tie-free ranking is unique.
pub proof fn lemma_order_unique(s: Seq<(u64, Entry)>, t: Seq<(u64, Entry)>, ascending: bool)
    requires
        sorted_in(s, ascending),
        sorted_in(t, ascending),
        s.to_multiset() == t.to_multiset(),
        distinct_keys(s),
    ensures
        s == t,
    decreases s.len(),
{
    broadcast use vstd::seq_lib::group_to_multiset_ensures;
    broadcast use vstd::multiset::group_multiset_axioms;

    assert(s.to_multiset().len() == s.len());
    assert(t.to_multiset().len() == t.len());
    if s.len() == 0 {
        assert(t.len() == 0);
        assert(s =~= t);
    } else {
        assert(t.len() == s.len());
        assert(t.contains(t[0]));
        assert(s.to_multiset().count(t[0]) > 0);
        assert(s.contains(t[0]));
        let k = choose|k: int| 0 <= k < s.len() && s[k] == t[0];
        assert(s.contains(s[0]));
        assert(t.to_multiset().count(s[0]) > 0);
        assert(t.contains(s[0]));
        let m = choose|m: int| 0 <= m < t.len() && t[m] == s[0];
        assert(in_order(ascending, s[0].0, s[k].0));
        assert(in_order(ascending, t[0].0, t[m].0));
        assert(s[0].0 == s[k].0);
        assert(k == 0);
        assert(s[0] == t[0]);

        let s1 = s.drop_first();
        let t1 = t.drop_first();
        assert(s.remove(0) =~= s1);
        assert(t.remove(0) =~= t1);
        assert(s1.to_multiset() == s.to_multiset().remove(s[0]));
        assert(t1.to_multiset() == t.to_multiset().remove(t[0]));
        assert(s1.to_multiset() == t1.to_multiset());
        assert(sorted_in(s1, ascending)) by {
            assert(forall|a: int| 0 <= a < s1.len() ==> #[trigger] s1[a] == s[a + 1]);
        }
        assert(sorted_in(t1, ascending)) by {
            assert(forall|a: int| 0 <= a < t1.len() ==> #[trigger] t1[a] == t[a + 1]);
        }
        assert(distinct_keys(s1)) by {
            assert(forall|a: int| 0 <= a < s1.len() ==> #[trigger] s1[a] == s[a + 1]);
        }
        lemma_order_unique(s1, t1, ascending);
        assert(s =~= t) by {
            assert(forall|a: int| 0 < a < s.len() ==> #[trigger] s[a] == s1[a - 1]);
            assert(forall|a: int| 0 < a < t.len() ==> #[trigger] t[a] == t1[a - 1]);
        }
    }
}

/// Law: when no two entries share a size, ranking ascending and ranking
/// descending give exactly reversed orders.
pub proof fn lemma_asc_desc_reverse(s: Seq<(u64, Entry)>, t: Seq<(u64, Entry)>)
    requires
        sorted_in(s, true),
        sorted_in(t, false),
        s.to_multiset() == t.to_multiset(),
        distinct_keys(s),
    ensures
        t == s.reverse(),
{
    let r = s.reverse();
    s.lemma_reverse_to_multiset();
    assert(sorted_in(r, false)) by {
        assert(forall|a: int| 0 <= a < r.len() ==> #[trigger] r[a] == s[s.len() - 1 - a]);
    }
    assert(distinct_keys(r)) by {
        assert(forall|a: int| 0 <= a < r.len() ==> #[trigger] r[a] == s[s.len() - 1 - a]);
    }
    lemma_order_unique(r, t, false);
}

/// The entries of `s`, each paired with its key under `key`.
pub open spec fn pair_by_key(s: Seq<Entry>, key: spec_fn(Entry) -> u64) -> Seq<(u64, Entry)> {
    s.map_values(|e: Entry| (key(e), e))
}

/// A comparison that orders by a key, largest first: every outcome it can
/// return is `Greater` exactly when the first argument's key is the smaller.
pub open spec fn key_descending<F: Fn(&Entry, &Entry) -> Ordering>(
    cmp: F,
    key: spec_fn(Entry) -> u64,
) -> bool {
    forall|a: &Entry, b: &Entry, o: Ordering|
        #[trigger] call_ensures(cmp, (a, b), o) ==> (o == Ordering::Greater <==> key(*a) < key(*b))
}

/// Keys that fall from one neighbour to the next fall across any distance.
proof fn lemma_desc_span(s: Seq<Entry>, key: spec_fn(Entry) -> u64, i: int, j: int)
    requires
        forall|k: int| 0 <= k < s.len() - 1 ==> key(#[trigger] s[k]) >= key(s[k + 1]),
        0 <= i <= j < s.len(),
    ensures
        key(s[i]) >= key(s[j]),
    decreases j - i,
{
    if i < j {
        lemma_desc_span(s, key, i, j - 1);
    }
}

/// Law: a pass whose comparison orders by a key, largest first, leaves the
/// entries sorted by that key descending.
pub proof fn lemma_custom_descending_sorted<F: Fn(&Entry, &Entry) -> Ordering>(
    cmp: F,
    key: spec_fn(Entry) -> u64,
    s: Seq<Entry>,
)
    requires
        key_descending(cmp, key),
        comparator_ordered(cmp, s),
    ensures
        forall|i: int, j: int| 0 <= i < j < s.len() ==> key(#[trigger] s[i]) >= key(#[trigger] s[j]),
{
    assert(forall|k: int| 0 <= k < s.len() - 1 ==> key(#[trigger] s[k]) >= key(s[k + 1])) by {
        assert forall|k: int| 0 <= k < s.len() - 1 implies key(#[trigger] s[k]) >= key(
            s[k + 1],
        ) by {
            assert(comparator_admits(cmp, s[k], s[k + 1]));
            if exists|o: Ordering|
                #[trigger] call_ensures(cmp, (&s[k], &s[k + 1]), o) && o != Ordering::Greater {
                let o = choose|o: Ordering|
                    #[trigger] call_ensures(cmp, (&s[k], &s[k + 1]), o) && o != Ordering::Greater;
                assert(!(key(s[k]) < key(s[k + 1])));
            } else {
                assert(call_ensures(cmp, (&s[k + 1], &s[k]), Ordering::Greater));
                assert(key(s[k + 1]) < key(s[k]));
            }
        }
    }
    assert forall|i: int, j: int| 0 <= i < j < s.len() implies key(#[trigger] s[i]) >= key(
        #[trigger] s[j],
    ) by {
        lemma_desc_span(s, key, i, j);
    }
}

/// Law: a custom pass whose comparison orders by a key, largest first,
/// agrees exactly with the built-in descending order on the same entries
/// when the keys have no ties.
pub proof fn lemma_custom_descending_agrees<F: Fn(&Entry, &Entry) -> Ordering>(
    cmp: F,
    key: spec_fn(Entry) -> u64,
    s: Seq<Entry>,
    t: Seq<(u64, Entry)>,
)
    requires
        key_descending(cmp, key),
        comparator_ordered(cmp, s),
        sorted_in(t, false),
        t.to_multiset() == pair_by_key(s, key).to_multiset(),
        distinct_keys(pair_by_key(s, key)),
    ensures
        entries_of(t) == s,
{
    let p = pair_by_key(s, key);
    lemma_custom_descending_sorted(cmp, key, s);
    assert(sorted_in(p, false)) by {
        assert(forall|i: int| 0 <= i < p.len() ==> (#[trigger] p[i]) == (key(s[i]), s[i]));
    }
    lemma_order_unique(p, t, false);
    assert(entries_of(t) =~= s) by {
        assert(forall|i: int| 0 <= i < p.len() ==> (#[trigger] p[i]) == (key(s[i]), s[i]));
    }
}

} // verus!
