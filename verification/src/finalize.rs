//! The finalizer: top-K selection, Bloom folding, and the final sort.
//!
//! In limited mode the candidates are first reduced to the `10 * limit`
//! strongest entries through a bounded min-heap (the over-collection leaves
//! room for Bloom corrections to promote border candidates), then each
//! survivor receives the sum of the representative contributions of the
//! Bloom entries that report it as a member, and the result is sorted by
//! score descending and truncated to `limit`.  In unlimited mode the
//! candidates are only sorted: Bloom contributions are deliberately not
//! folded in, reproducing the asymmetry of the original design.

use vstd::prelude::*;
use vstd::multiset::Multiset;
use crate::bloom::blooms_view;
use crate::bloom::bloom_contains;
use crate::errors::Bm25Error;
use crate::heap::{heap_contents, heap_pop, heap_push, heap_with_capacity, pair_le, pair_lt};

verus! {

broadcast use vstd::seq_lib::group_to_multiset_ensures;

/// The smaller of two integers.
pub open spec fn imin(a: int, b: int) -> int {
    if a <= b {
        a
    } else {
        b
    }
}

/// The heap bound used for a limit: ten times the limit, saturated at the
/// machine word.
pub open spec fn spec_cap(k: nat) -> nat {
    if 10 * k <= usize::MAX {
        10 * k
    } else {
        usize::MAX as nat
    }
}

/// A sequence of `(score, doc_id)` pairs in descending lexicographic order.
pub open spec fn sorted_desc(s: Seq<(i64, i32)>) -> bool {
    forall|i: int, j: int| 0 <= i < j < s.len() ==> pair_le(s[j], s[i])
}

/// `sel` consists of the `cap` greatest pairs of `all` (all of them, when
/// `all` is smaller): it is contained in `all`, has exactly that size, and
/// every pair of `all` it leaves out is below every pair it keeps.
pub open spec fn is_top_of(
    sel: Multiset<(i64, i32)>,
    all: Multiset<(i64, i32)>,
    cap: nat,
) -> bool {
    &&& sel.subset_of(all)
    &&& sel.len() == imin(cap as int, all.len() as int)
    &&& forall|x: (i64, i32), y: (i64, i32)|
        #![trigger all.count(x), sel.count(y)]
        (all.count(x) > sel.count(x) && sel.count(y) > 0) ==> pair_le(x, y)
}

/// Whether every intermediate sum stays inside `i64` while folding the
/// Bloom contributions for document `d` onto base score `s`.
pub open spec fn bloom_fold_ok(s: int, bv: Seq<(i64, Set<i32>)>, d: i32) -> bool
    decreases bv.len(),
{
    if bv.len() == 0 {
        true
    } else if bv[0].1.contains(d) {
        let s2 = s + bv[0].0;
        i64::MIN <= s2 <= i64::MAX && bloom_fold_ok(s2, bv.drop_first(), d)
    } else {
        bloom_fold_ok(s, bv.drop_first(), d)
    }
}

/// The folded score: the base score plus the representative contribution
/// of every Bloom entry whose filter reports `d` as a member.
pub open spec fn bloom_fold_val(s: int, bv: Seq<(i64, Set<i32>)>, d: i32) -> int
    decreases bv.len(),
{
    if bv.len() == 0 {
        s
    } else if bv[0].1.contains(d) {
        bloom_fold_val(s + bv[0].0, bv.drop_first(), d)
    } else {
        bloom_fold_val(s, bv.drop_first(), d)
    }
}

/// The total representative-contribution mass of the Bloom accumulator.
pub open spec fn bloom_mass(bv: Seq<(i64, Set<i32>)>) -> int
    decreases bv.len(),
{
    if bv.len() == 0 {
        0
    } else {
        bv[0].0 + bloom_mass(bv.drop_first())
    }
}

/// Whether folding succeeds for every selected pair.
pub open spec fn folds_ok(sel: Seq<(i64, i32)>, bv: Seq<(i64, Set<i32>)>) -> bool {
    forall|j: int| 0 <= j < sel.len() ==> bloom_fold_ok(#[trigger] sel[j].0 as int, bv, sel[j].1)
}

/// The selected pairs with Bloom contributions folded in.
pub open spec fn folded_seq(sel: Seq<(i64, i32)>, bv: Seq<(i64, Set<i32>)>) -> Seq<(i64, i32)> {
    Seq::new(sel.len(), |j: int| (bloom_fold_val(sel[j].0 as int, bv, sel[j].1) as i64, sel[j].1))
}

/// One finalized output element.
#[derive(Clone, Copy, Debug, PartialEq, Eq, Structural)]
pub struct Bm25Result {
    /// The document id, widened losslessly to 64 bits.
    pub doc_id: i64,
    /// The document's BM25 score in fixed point at `SCALE`.
    pub bm25: i64,
}

/// The output shape of a sequence of `(score, doc_id)` pairs.
pub open spec fn results_of(s: Seq<(i64, i32)>) -> Seq<Bm25Result> {
    s.map_values(|p: (i64, i32)| (Bm25Result { doc_id: p.1 as i64, bm25: p.0 }))
}

/// Folding only ever adds what the Bloom entries hold: with non-negative
/// representative contributions the folded score lies between the exact
/// score and the exact score plus the total mass.
pub proof fn lemma_bloom_fold_bounds(s: int, bv: Seq<(i64, Set<i32>)>, d: i32)
    requires
        forall|j: int| 0 <= j < bv.len() ==> (#[trigger] bv[j].0) >= 0,
    ensures
        s <= bloom_fold_val(s, bv, d) <= s + bloom_mass(bv),
        bloom_mass(bv) >= 0,
    decreases bv.len(),
{
    if bv.len() > 0 {
        assert(forall|j: int|
            0 <= j < bv.drop_first().len() ==> (#[trigger] bv.drop_first()[j].0) >= 0);
        if bv[0].1.contains(d) {
            lemma_bloom_fold_bounds(s + bv[0].0, bv.drop_first(), d);
        } else {
            lemma_bloom_fold_bounds(s, bv.drop_first(), d);
        }
    }
}

/// A strictly descending sequence is determined by its multiset: two
/// duplicate-free sorted sequences over the same pairs are equal.
pub proof fn lemma_sorted_desc_unique(a: Seq<(i64, i32)>, b: Seq<(i64, i32)>)
    requires
        sorted_desc(a),
        sorted_desc(b),
        a.no_duplicates(),
        b.no_duplicates(),
        a.to_multiset() == b.to_multiset(),
    ensures
        a == b,
    decreases a.len(),
{
    broadcast use vstd::seq_lib::group_seq_properties;

    a.to_multiset_ensures();
    b.to_multiset_ensures();
    if a.len() == 0 {
        assert(b.to_multiset().len() == 0);
        assert(a =~= b);
    } else {
        assert(b.len() == a.len());
        // The heads are both the unique maximum of the common multiset.
        assert(b.contains(b[0]));
        assert(b.to_multiset().count(b[0]) > 0);
        assert(a.contains(b[0]));
        let ia = choose|i: int| 0 <= i < a.len() && a[i] == b[0];
        assert(pair_le(a[ia], a[0]));
        assert(a.contains(a[0]));
        assert(a.to_multiset().count(a[0]) > 0);
        assert(b.contains(a[0]));
        let ib = choose|i: int| 0 <= i < b.len() && b[i] == a[0];
        assert(pair_le(b[ib], b[0]));
        assert(a[0] == b[0]);
        let ta = a.drop_first();
        let tb = b.drop_first();
        assert(a.to_multiset().remove(a[0]) == ta.to_multiset()) by {
            assert(a.remove(0) =~= ta);
        }
        assert(b.to_multiset().remove(b[0]) == tb.to_multiset()) by {
            assert(b.remove(0) =~= tb);
        }
        lemma_sorted_desc_unique(ta, tb);
        assert(a =~= Seq::empty().push(a[0]) + ta);
        assert(b =~= Seq::empty().push(b[0]) + tb);
        assert(a =~= b);
    }
}

/// Checked signed addition through a wider intermediate.
pub(crate) fn add_i64_checked(a: i64, b: i64) -> (r: Option<i64>)
    ensures
        match r {
            Some(v) => v == a as int + b as int,
            None => !(i64::MIN <= a as int + b as int <= i64::MAX),
        },
{
    let s: i128 = a as i128 + b as i128;
    if s > i64::MAX as i128 || s < i64::MIN as i128 {
        None
    } else {
        Some(s as i64)
    }
}

/// Folds the Bloom contributions for one document onto its base score.
fn fold_one(
    s: i64,
    blooms: &Vec<(i64, fastbloom::BloomFilter<std::collections::hash_map::RandomState>)>,
    d: i32,
) -> (r: Result<i64, Bm25Error>)
    ensures
        bloom_fold_ok(s as int, blooms_view(blooms@), d) ==> r == Ok::<i64, Bm25Error>(
            bloom_fold_val(s as int, blooms_view(blooms@), d) as i64,
        ),
        !bloom_fold_ok(s as int, blooms_view(blooms@), d) ==> r == Err::<i64, Bm25Error>(
            Bm25Error::Overflow,
        ),
{
    let ghost bv = blooms_view(blooms@);
    proof {
        assert(bv.skip(0) =~= bv);
    }
    let mut cur: i64 = s;
    let mut j: usize = 0;
    while j < blooms.len()
        invariant
            j <= blooms.len(),
            bv == blooms_view(blooms@),
            bv.len() == blooms@.len(),
            bloom_fold_ok(s as int, bv, d) == bloom_fold_ok(cur as int, bv.skip(j as int), d),
            bloom_fold_ok(s as int, bv, d) ==> bloom_fold_val(s as int, bv, d) == bloom_fold_val(
                cur as int,
                bv.skip(j as int),
                d,
            ),
        decreases blooms.len() - j,
    {
        let ghost tail = bv.skip(j as int);
        proof {
            assert(tail.len() > 0);
            assert(tail[0] == bv[j as int]);
            assert(tail.drop_first() =~= bv.skip(j as int + 1));
        }
        let pair_rep: i64 = blooms[j].0;
        let member: bool = bloom_contains(&blooms[j].1, d);
        proof {
            assert(bv[j as int] == crate::bloom::bloom_entry_view(blooms@[j as int]));
        }
        if member {
            match add_i64_checked(cur, pair_rep) {
                Some(v) => {
                    cur = v;
                },
                None => {
                    proof {
                        assert(!bloom_fold_ok(cur as int, tail, d));
                    }
                    return Err(Bm25Error::Overflow);
                },
            }
        }
        j = j + 1;
    }
    proof {
        assert(bv.skip(blooms@.len() as int).len() == 0);
    }
    Ok(cur)
}

/// Selects the `cap` greatest `(score, doc_id)` pairs through a bounded
/// min-heap, as a multiset; the order of the returned vector is
/// unspecified.
fn top_select(entries: &Vec<(i64, i32)>, cap: usize) -> (r: Vec<(i64, i32)>)
    ensures
        is_top_of(r@.to_multiset(), entries@.to_multiset(), cap as nat),
        r@.len() == imin(cap as int, entries@.len() as int),
{
    let mut h = heap_with_capacity(cap);
    let mut n: usize = 0;
    let mut i: usize = 0;
    while i < entries.len()
        invariant
            i <= entries.len(),
            n == heap_contents(h).len(),
            heap_contents(h).subset_of(entries@.take(i as int).to_multiset()),
            n as int == imin(cap as int, i as int),
            i <= cap ==> heap_contents(h) == entries@.take(i as int).to_multiset(),
            forall|x: (i64, i32), y: (i64, i32)|
                #![trigger entries@.take(i as int).to_multiset().count(x), heap_contents(h).count(y)]
                (entries@.take(i as int).to_multiset().count(x) > heap_contents(h).count(x)
                    && heap_contents(h).count(y) > 0) ==> pair_le(x, y),
        decreases entries.len() - i,
    {
        let e: (i64, i32) = entries[i];
        let ghost processed = entries@.take(i as int).to_multiset();
        let ghost processed2 = entries@.take(i as int + 1).to_multiset();
        proof {
            assert(entries@.take(i as int + 1) =~= entries@.take(i as int).push(entries@[i as int]));
            assert(processed2 =~= processed.insert(e));
        }
        if n < cap {
            heap_push(&mut h, e);
            n = n + 1;
            proof {
                assert(heap_contents(h) =~= processed.insert(e));
                assert forall|x: (i64, i32)| processed2.count(x) <= heap_contents(h).count(x) by {
                    assert(processed2.count(x) == processed.insert(e).count(x));
                }
            }
        } else {
            if cap > 0 {
                let ghost sel0 = heap_contents(h);
                let popped: Option<(i64, i32)> = heap_pop(&mut h);
                match popped {
                    None => {
                        proof {
                            assert(false);
                        }
                    },
                    Some(m) => {
                        if m.0 < e.0 || (m.0 == e.0 && m.1 < e.1) {
                            heap_push(&mut h, e);
                            proof {
                                let sel2 = sel0.remove(m).insert(e);
                                assert(heap_contents(h) == sel2);
                                assert(sel2.len() == sel0.len());
                                assert forall|x: (i64, i32)| sel2.count(x) <= processed2.count(
                                    x,
                                ) by {
                                    assert(sel0.count(x) <= processed.count(x));
                                }
                                assert forall|x: (i64, i32), y: (i64, i32)|
                                    (processed2.count(x) > sel2.count(x) && sel2.count(y) > 0)
                                    implies pair_le(x, y) by {
                                    assert(sel0.count(m) > 0);
                                    if x == m {
                                        // the popped root is below everything kept
                                        if y != e {
                                            assert(sel0.count(y) > 0);
                                        }
                                    } else {
                                        assert(processed.count(x) > sel0.count(x));
                                        assert(pair_le(x, m));
                                        if y != e {
                                            assert(sel0.count(y) > 0);
                                        }
                                    }
                                }
                            }
                        } else {
                            heap_push(&mut h, m);
                            proof {
                                assert(heap_contents(h) =~= sel0);
                                assert forall|x: (i64, i32), y: (i64, i32)|
                                    (processed2.count(x) > sel0.count(x) && sel0.count(y) > 0)
                                    implies pair_le(x, y) by {
                                    assert(sel0.count(m) > 0);
                                    if x == e {
                                        assert(pair_le(e, m));
                                        assert(pair_le(m, y));
                                    } else {
                                        assert(processed.count(x) > sel0.count(x));
                                    }
                                }
                            }
                        }
                    },
                }
            } else {
                proof {
                    assert forall|x: (i64, i32), y: (i64, i32)|
                        (processed2.count(x) > heap_contents(h).count(x) && heap_contents(
                            h,
                        ).count(y) > 0) implies pair_le(x, y) by {
                        assert(heap_contents(h).len() == 0);
                        assert(heap_contents(h).count(y) == 0);
                    }
                }
            }
        }
        i = i + 1;
    }
    proof {
        assert(entries@.take(entries@.len() as int) =~= entries@);
    }
    let ghost selected = heap_contents(h);
    let mut out: Vec<(i64, i32)> = Vec::new();
    while n > 0
        invariant
            n == heap_contents(h).len(),
            out@.to_multiset().add(heap_contents(h)) == selected,
        decreases n,
    {
        let popped: Option<(i64, i32)> = heap_pop(&mut h);
        match popped {
            None => {
                proof {
                    assert(false);
                }
            },
            Some(m) => {
                let ghost sel_before = out@.to_multiset();
                out.push(m);
                n = n - 1;
                proof {
                    assert(out@.to_multiset() =~= sel_before.insert(m));
                    assert(out@.to_multiset().add(heap_contents(h)) =~= selected);
                }
            },
        }
    }
    proof {
        assert(out@.to_multiset() =~= selected);
    }
    out
}

/// Insertion sort into descending lexicographic order.
fn sort_desc(input: Vec<(i64, i32)>) -> (out: Vec<(i64, i32)>)
    ensures
        sorted_desc(out@),
        out@.to_multiset() == input@.to_multiset(),
        out@.len() == input@.len(),
{
    let mut out: Vec<(i64, i32)> = Vec::new();
    let mut i: usize = 0;
    while i < input.len()
        invariant
            i <= input.len(),
            out@.len() == i,
            sorted_desc(out@),
            out@.to_multiset() == input@.take(i as int).to_multiset(),
        decreases input.len() - i,
    {
        let e: (i64, i32) = input[i];
        let mut p: usize = 0;
        let mut scanning: bool = true;
        while scanning && p < out.len()
            invariant
                p <= out.len(),
                forall|k: int| 0 <= k < p ==> pair_le(e, #[trigger] out@[k]),
                !scanning ==> p < out.len() && pair_lt(out@[p as int], e),
            decreases out.len() - p + (if scanning { 1int } else { 0int }),
        {
            if out[p].0 > e.0 || (out[p].0 == e.0 && out[p].1 >= e.1) {
                p = p + 1;
            } else {
                scanning = false;
            }
        }
        let ghost old_out = out@;
        let ghost pp = p as int;
        out.insert(p, e);
        proof {
            let new_out = out@;
            assert forall|a: int, b: int| 0 <= a < b < new_out.len() implies pair_le(
                new_out[b],
                new_out[a],
            ) by {
                if b < pp {
                    assert(pair_le(old_out[b], old_out[a]));
                } else if a < pp && b == pp {
                    assert(pair_le(e, old_out[a]));
                } else if a < pp && b > pp {
                    assert(pair_le(old_out[b - 1], old_out[a]));
                } else if a == pp && b > pp {
                    assert(pair_lt(old_out[pp], e));
                    assert(pair_le(old_out[b - 1], old_out[pp]));
                } else {
                    assert(pair_le(old_out[b - 1], old_out[a - 1]));
                }
            }
            assert(input@.take(i as int + 1) =~= input@.take(i as int).push(input@[i as int]));
        }
        i = i + 1;
    }
    proof {
        assert(input@.take(input@.len() as int) =~= input@);
    }
    out
}

/// Materializes `(score, doc_id)` pairs as output elements.
fn to_results(v: &Vec<(i64, i32)>) -> (r: Vec<Bm25Result>)
    ensures
        r@ == results_of(v@),
{
    let mut r: Vec<Bm25Result> = Vec::new();
    let mut j: usize = 0;
    while j < v.len()
        invariant
            j <= v.len(),
            r@.len() == j,
            forall|t: int| 0 <= t < j ==> r@[t] == results_of(v@)[t],
        decreases v.len() - j,
    {
        let p: (i64, i32) = v[j];
        r.push(Bm25Result { doc_id: p.1 as i64, bm25: p.0 });
        j = j + 1;
    }
    proof {
        assert(r@ =~= results_of(v@));
    }
    r
}

/// Produces the output list from the drained score entries and the Bloom
/// accumulator.
///
/// With a limit `k`, the `spec_cap(k)` greatest `(score, doc_id)` pairs are
/// selected, Bloom contributions are folded onto each, and the result is
/// sorted descending and truncated to `k`; an intermediate sum outside the
/// fixed-point range is an overflow error.  Without a limit, the entries
/// are only sorted descending: no Bloom folding takes place.
pub open spec fn finalize_post(
    entries: Seq<(i64, i32)>,
    bv: Seq<(i64, Set<i32>)>,
    limit: Option<usize>,
    r: Result<Vec<Bm25Result>, Bm25Error>,
) -> bool {
    match r {
        Ok(v) => match limit {
            None => {
                &&& exists|full: Seq<(i64, i32)>|
                    {
                        &&& sorted_desc(full)
                        &&& full.to_multiset() == entries.to_multiset()
                        &&& v@ == results_of(full)
                    }
                &&& v@.len() == entries.len()
            },
            Some(k) => {
                &&& exists|sel: Seq<(i64, i32)>, full: Seq<(i64, i32)>|
                    {
                        &&& is_top_of(sel.to_multiset(), entries.to_multiset(), spec_cap(k as nat))
                        &&& folds_ok(sel, bv)
                        &&& full.to_multiset() == folded_seq(sel, bv).to_multiset()
                        &&& sorted_desc(full)
                        &&& v@ == results_of(full.take(imin(k as int, full.len() as int)))
                    }
                &&& v@.len() == imin(k as int, imin(spec_cap(k as nat) as int, entries.len() as int))
            },
        },
        Err(e) => match limit {
            None => false,
            Some(k) => {
                &&& e == Bm25Error::Overflow
                &&& exists|sel: Seq<(i64, i32)>|
                    {
                        &&& is_top_of(sel.to_multiset(), entries.to_multiset(), spec_cap(k as nat))
                        &&& !folds_ok(sel, bv)
                    }
            },
        },
    }
}

pub fn finalize_entries(
    entries: Vec<(i64, i32)>,
    blooms: Vec<(i64, fastbloom::BloomFilter<std::collections::hash_map::RandomState>)>,
    limit: Option<usize>,
) -> (r: Result<Vec<Bm25Result>, Bm25Error>)
    ensures
        finalize_post(entries@, blooms_view(blooms@), limit, r),
{
    let ghost bv = blooms_view(blooms@);
    match limit {
        None => {
            let full = sort_desc(entries);
            let v = to_results(&full);
            proof {
                let fullg = full@;
                assert(sorted_desc(fullg) && fullg.to_multiset() == entries@.to_multiset() && v@
                    == results_of(fullg));
            }
            Ok(v)
        },
        Some(k) => {
            let cap: usize = if k <= usize::MAX / 10 {
                k * 10
            } else {
                usize::MAX
            };
            proof {
                assert(cap as nat == spec_cap(k as nat));
            }
            let sel = top_select(&entries, cap);
            let mut folded: Vec<(i64, i32)> = Vec::new();
            let mut j: usize = 0;
            while j < sel.len()
                invariant
                    j <= sel.len(),
                    folded@.len() == j,
                    bv == blooms_view(blooms@),
                    limit == Some(k),
                    cap as nat == spec_cap(k as nat),
                    is_top_of(sel@.to_multiset(), entries@.to_multiset(), spec_cap(k as nat)),
                    forall|t: int|
                        0 <= t < j ==> bloom_fold_ok(#[trigger] sel@[t].0 as int, bv, sel@[t].1)
                            && folded@[t] == folded_seq(sel@, bv)[t],
                decreases sel.len() - j,
            {
                let e: (i64, i32) = sel[j];
                match fold_one(e.0, &blooms, e.1) {
                    Ok(fv) => {
                        folded.push((fv, e.1));
                    },
                    Err(_er) => {
                        proof {
                            assert(!bloom_fold_ok(sel@[j as int].0 as int, bv, sel@[j as int].1));
                            assert(!folds_ok(sel@, bv));
                            let selg = sel@;
                            assert(exists|sl: Seq<(i64, i32)>|
                                {
                                    &&& is_top_of(
                                        sl.to_multiset(),
                                        entries@.to_multiset(),
                                        spec_cap(k as nat),
                                    )
                                    &&& !folds_ok(sl, blooms_view(blooms@))
                                }) by {
                                assert({
                                    &&& is_top_of(
                                        selg.to_multiset(),
                                        entries@.to_multiset(),
                                        spec_cap(k as nat),
                                    )
                                    &&& !folds_ok(selg, blooms_view(blooms@))
                                });
                            }
                        }
                        return Err(Bm25Error::Overflow);
                    },
                }
                j = j + 1;
            }
            proof {
                assert(folded@ =~= folded_seq(sel@, bv));
                assert(folds_ok(sel@, bv));
            }
            let mut full = sort_desc(folded);
            let ghost fullg = full@;
            let keep: usize = if k <= full.len() {
                k
            } else {
                full.len()
            };
            full.truncate(keep);
            proof {
                assert(full@ =~= fullg.take(imin(k as int, fullg.len() as int)));
            }
            let v = to_results(&full);
            proof {
                let selg = sel@;
                assert({
                    &&& is_top_of(selg.to_multiset(), entries@.to_multiset(), spec_cap(k as nat))
                    &&& folds_ok(selg, blooms_view(blooms@))
                    &&& fullg.to_multiset() == folded_seq(selg, blooms_view(blooms@)).to_multiset()
                    &&& sorted_desc(fullg)
                    &&& v@ == results_of(fullg.take(imin(k as int, fullg.len() as int)))
                });
            }
            Ok(v)
        },
    }
}

} // verus!
