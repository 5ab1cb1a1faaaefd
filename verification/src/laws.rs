//! Laws of the aggregator, proved from the public contracts.
//!
//! Each public proof function states one property of the model: order
//! independence of the exact accumulator, the overestimate bound Bloom
//! folding keeps, monotonicity of the top-K cut under a smaller limit,
//! and emptiness of a finalization that saw no rows.

use vstd::prelude::*;
use vstd::multiset::Multiset;
use crate::heap::pair_le;
use crate::errors::Bm25Error;
use crate::finalize::{
    bloom_fold_ok, bloom_fold_val, bloom_mass, finalize_post, folded_seq, folds_ok, imin,
    is_top_of, lemma_bloom_fold_bounds, lemma_sorted_desc_unique, spec_cap, Bm25Result,
};
use crate::rows::AggRow;
use crate::state::{spec_merge, spec_transition, StateModel};

verus! {

broadcast use vstd::seq_lib::group_to_multiset_ensures;

/// A row that takes the exact path: a record with no Bloom column.
pub open spec fn exact_row(row: AggRow) -> bool {
    row matches AggRow::Record(tr) && tr.doc_ids_bloom is None
}

/// Scores as unbounded integers.
pub open spec fn lift(m: Map<i32, i64>) -> Map<i32, int> {
    Map::new(|k: i32| m.dom().contains(k), |k: i32| m[k] as int)
}

/// One insert-or-add step on unbounded scores.
pub open spec fn step_t(m: Map<i32, int>, e: (i32, i64)) -> Map<i32, int> {
    let cur = if m.dom().contains(e.0) {
        m[e.0]
    } else {
        0
    };
    m.insert(e.0, cur + e.1)
}

/// The whole merge pass on unbounded scores.
pub open spec fn merge_t(m: Map<i32, int>, cs: Seq<(i32, i64)>) -> Map<i32, int>
    decreases cs.len(),
{
    if cs.len() == 0 {
        m
    } else {
        merge_t(step_t(m, cs[0]), cs.drop_first())
    }
}

proof fn lemma_step_comm(m: Map<i32, int>, x: (i32, i64), y: (i32, i64))
    ensures
        step_t(step_t(m, x), y) == step_t(step_t(m, y), x),
{
    if x.0 == y.0 {
        assert(step_t(step_t(m, x), y) =~= step_t(step_t(m, y), x));
    } else {
        assert(step_t(step_t(m, x), y) =~= step_t(step_t(m, y), x));
    }
}

proof fn lemma_step_merge(m: Map<i32, int>, a: (i32, i64), cs: Seq<(i32, i64)>)
    ensures
        merge_t(step_t(m, a), cs) == step_t(merge_t(m, cs), a),
    decreases cs.len(),
{
    if cs.len() > 0 {
        lemma_step_comm(m, a, cs[0]);
        lemma_step_merge(step_t(m, cs[0]), a, cs.drop_first());
    }
}

proof fn lemma_merge_t_comm(m: Map<i32, int>, a: Seq<(i32, i64)>, b: Seq<(i32, i64)>)
    ensures
        merge_t(merge_t(m, a), b) == merge_t(merge_t(m, b), a),
    decreases b.len(),
{
    if b.len() > 0 {
        lemma_step_merge(m, b[0], a);
        lemma_merge_t_comm(step_t(m, b[0]), a, b.drop_first());
    }
}

/// A successful bounded merge computes the unbounded merge.
proof fn lemma_merge_lift(m: Map<i32, i64>, ord: Seq<i32>, cs: Seq<(i32, i64)>)
    ensures
        match spec_merge(m, ord, cs) {
            Ok(p) => lift(p.0) == merge_t(lift(m), cs),
            Err(_) => true,
        },
    decreases cs.len(),
{
    if cs.len() > 0 {
        let d = cs[0].0;
        let c = cs[0].1;
        if m.contains_key(d) {
            let s2 = m[d] + c;
            if i64::MIN <= s2 <= i64::MAX {
                assert(lift(m.insert(d, s2 as i64)) =~= step_t(lift(m), cs[0]));
                lemma_merge_lift(m.insert(d, s2 as i64), ord, cs.drop_first());
            }
        } else {
            assert(lift(m.insert(d, c)) =~= step_t(lift(m), cs[0]));
            lemma_merge_lift(m.insert(d, c), ord.push(d), cs.drop_first());
        }
    }
}

proof fn lemma_lift_injective(a: Map<i32, i64>, b: Map<i32, i64>)
    requires
        lift(a) == lift(b),
    ensures
        a == b,
{
    assert(lift(a).dom() =~= a.dom());
    assert(lift(b).dom() =~= b.dom());
    assert forall|k: i32| a.dom().contains(k) implies b.dom().contains(k) && a[k] == b[k] by {
        assert(lift(a)[k] == a[k] as int);
        assert(lift(b)[k] == b[k] as int);
    }
    assert forall|k: i32| b.dom().contains(k) implies a.dom().contains(k) by {
    }
    assert(a =~= b);
}

/// Additive commutativity: two exact rows (records without a Bloom
/// column) that both succeed in either order leave the same score map,
/// whichever was applied first.  The Bloom accumulator and the
/// configuration are untouched by exact rows, so the whole finalized
/// outcome in unlimited mode agrees as well.
pub proof fn lemma_additive_commutativity(
    s: StateModel,
    r1: AggRow,
    r2: AggRow,
    m1: StateModel,
    m2: StateModel,
    m12: StateModel,
    m21: StateModel,
)
    requires
        exact_row(r1),
        exact_row(r2),
        spec_transition(s, r1) == Ok::<StateModel, Bm25Error>(m1),
        spec_transition(m1, r2) == Ok::<StateModel, Bm25Error>(m12),
        spec_transition(s, r2) == Ok::<StateModel, Bm25Error>(m2),
        spec_transition(m2, r1) == Ok::<StateModel, Bm25Error>(m21),
    ensures
        m12.scores == m21.scores,
        m12.blooms == s.blooms && m21.blooms == s.blooms,
{
    lemma_merge_lift_of_transition(s, r1, m1);
    lemma_merge_lift_of_transition(m1, r2, m12);
    lemma_merge_lift_of_transition(s, r2, m2);
    lemma_merge_lift_of_transition(m2, r1, m21);
    let cs1 = pass_of(s, r1);
    let cs2 = pass_of(s, r2);
    assert(pass_of(m1, r2) == cs2);
    assert(pass_of(m2, r1) == cs1);
    assert(lift(m12.scores) == merge_t(merge_t(lift(s.scores), cs1), cs2));
    assert(lift(m21.scores) == merge_t(merge_t(lift(s.scores), cs2), cs1));
    lemma_merge_t_comm(lift(s.scores), cs1, cs2);
    lemma_lift_injective(m12.scores, m21.scores);
}

/// The contribution sequence an exact row produces under a state's
/// configuration.
pub open spec fn pass_of(s: StateModel, row: AggRow) -> Seq<(i32, i64)> {
    match row {
        AggRow::Record(tr) => match (s.corpus_size, s.avg_doc_len_fx, tr.term_freq) {
            (Some(corpus), Some(avg), Some(tf)) => match (
                crate::rows::spec_column(tr.doc_ids),
                crate::rows::spec_column(tr.fqs),
                crate::rows::spec_column(tr.doc_lens),
            ) {
                (Ok(ids), Ok(fqs), Ok(lens)) => {
                    let n = imin(ids.len() as int, imin(fqs.len() as int, lens.len() as int));
                    match crate::state::spec_pass(
                        Seq::<(i32, i64)>::empty(),
                        ids,
                        fqs,
                        lens,
                        n,
                        0,
                        tf,
                        corpus,
                        avg,
                        s.k1_fx,
                        s.b_fx,
                    ) {
                        Ok(cs) => cs,
                        Err(_) => Seq::empty(),
                    }
                },
                _ => Seq::empty(),
            },
            _ => Seq::empty(),
        },
        AggRow::NonRecord => Seq::empty(),
    }
}

/// A successful exact transition merges `pass_of` into the scores and
/// changes nothing else.
proof fn lemma_merge_lift_of_transition(s: StateModel, row: AggRow, m: StateModel)
    requires
        exact_row(row),
        spec_transition(s, row) == Ok::<StateModel, Bm25Error>(m),
    ensures
        lift(m.scores) == merge_t(lift(s.scores), pass_of(s, row)),
        m.blooms == s.blooms,
        m.corpus_size == s.corpus_size,
        m.avg_doc_len_fx == s.avg_doc_len_fx,
        m.k1_fx == s.k1_fx,
        m.b_fx == s.b_fx,
{
    let tr = row->Record_0;
    let cs = pass_of(s, row);
    lemma_merge_lift(s.scores, s.order, cs);
}

/// Bloom approximation is an overestimate of at most the total
/// representative mass: with non-negative representative contributions,
/// every finalized score lies between the candidate's exact score and
/// that score plus the whole accumulated mass.
pub proof fn lemma_bloom_overestimate(
    entries: Seq<(i64, i32)>,
    bv: Seq<(i64, Set<i32>)>,
    k: usize,
    v: Vec<Bm25Result>,
)
    requires
        finalize_post(entries, bv, Some(k), Ok(v)),
        forall|j: int| 0 <= j < bv.len() ==> (#[trigger] bv[j].0) >= 0,
    ensures
        forall|t: int|
            #![trigger v@[t]]
            0 <= t < v@.len() ==> overestimate_at(entries, bv, v@[t]),
{
    let (sel, full): (Seq<(i64, i32)>, Seq<(i64, i32)>) = choose|
        sel: Seq<(i64, i32)>,
        full: Seq<(i64, i32)>,
    |
        {
            &&& is_top_of(sel.to_multiset(), entries.to_multiset(), spec_cap(k as nat))
            &&& folds_ok(sel, bv)
            &&& full.to_multiset() == folded_seq(sel, bv).to_multiset()
            &&& crate::finalize::sorted_desc(full)
            &&& v@ == crate::finalize::results_of(full.take(imin(k as int, full.len() as int)))
        };
    assert forall|t: int| #![trigger v@[t]] 0 <= t < v@.len() implies overestimate_at(
        entries,
        bv,
        v@[t],
    ) by {
        let cut = full.take(imin(k as int, full.len() as int));
        assert(v@[t] == crate::finalize::results_of(cut)[t]);
        let q = cut[t];
        assert(full[t] == q);
        assert(full.contains(q));
        assert(full.to_multiset().count(q) > 0);
        assert(folded_seq(sel, bv).to_multiset().count(q) > 0);
        assert(folded_seq(sel, bv).contains(q));
        let u = choose|u: int| 0 <= u < folded_seq(sel, bv).len() && folded_seq(sel, bv)[u] == q;
        let p = sel[u];
        assert(sel.contains(p));
        assert(sel.to_multiset().count(p) > 0);
        assert(entries.to_multiset().count(p) > 0);
        assert(bloom_fold_ok(p.0 as int, bv, p.1));
        lemma_bloom_fold_ok_range(p.0 as int, bv, p.1);
        lemma_bloom_fold_bounds(p.0 as int, bv, p.1);
        assert(q.0 == bloom_fold_val(p.0 as int, bv, p.1) as i64);
        assert(v@[t].bm25 == q.0 && v@[t].doc_id == q.1 as i64);
        assert(overestimate_at(entries, bv, v@[t])) by {
            assert(entries.to_multiset().count(p) > 0 && v@[t].doc_id == p.1 as i64 && p.0
                <= v@[t].bm25 <= p.0 + bloom_mass(bv));
        }
    }
}

/// One output element is the exact score of some candidate, raised by at
/// most the total representative mass.
pub open spec fn overestimate_at(
    entries: Seq<(i64, i32)>,
    bv: Seq<(i64, Set<i32>)>,
    out: Bm25Result,
) -> bool {
    exists|p: (i64, i32)|
        {
            &&& #[trigger] entries.to_multiset().count(p) > 0
            &&& out.doc_id == p.1 as i64
            &&& p.0 <= out.bm25 <= p.0 + bloom_mass(bv)
        }
}

/// When every intermediate fold sum fits, the folded value itself fits.
proof fn lemma_bloom_fold_ok_range(s: int, bv: Seq<(i64, Set<i32>)>, d: i32)
    requires
        i64::MIN <= s <= i64::MAX,
        bloom_fold_ok(s, bv, d),
    ensures
        i64::MIN <= bloom_fold_val(s, bv, d) <= i64::MAX,
    decreases bv.len(),
{
    if bv.len() > 0 {
        if bv[0].1.contains(d) {
            lemma_bloom_fold_ok_range(s + bv[0].0, bv.drop_first(), d);
        } else {
            lemma_bloom_fold_ok_range(s, bv.drop_first(), d);
        }
    }
}

proof fn lemma_multiset_len_le(a: Multiset<(i64, i32)>, b: Multiset<(i64, i32)>)
    requires
        a.subset_of(b),
    ensures
        a.len() <= b.len(),
{
    assert(b.sub(a).len() == b.len() - a.len());
}

/// Between two multisets of bounded total size, a surplus on one side
/// forces a surplus somewhere on the other.
proof fn lemma_exists_surplus(a: Multiset<(i64, i32)>, b: Multiset<(i64, i32)>, x: (i64, i32))
    requires
        a.len() <= b.len(),
        a.count(x) > b.count(x),
    ensures
        exists|y: (i64, i32)| b.count(y) > a.count(y),
{
    if !(exists|y: (i64, i32)| b.count(y) > a.count(y)) {
        assert(forall|y: (i64, i32)| b.count(y) <= a.count(y));
        assert(b.subset_of(a));
        lemma_multiset_len_le(b, a);
        assert(a.len() == b.len());
        assert(a.sub(b).len() == 0);
        vstd::multiset::lemma_multiset_empty_len(a.sub(b));
        assert(a.sub(b) =~= Multiset::<(i64, i32)>::empty());
        assert(a.sub(b).count(x) == 0);
        assert(false);
    }
}

/// On a duplicate-free candidate multiset, the top selection of a given
/// size is unique.
proof fn lemma_is_top_unique(
    a: Multiset<(i64, i32)>,
    b: Multiset<(i64, i32)>,
    all: Multiset<(i64, i32)>,
    cap: nat,
)
    requires
        is_top_of(a, all, cap),
        is_top_of(b, all, cap),
        forall|v: (i64, i32)| all.count(v) <= 1,
    ensures
        a == b,
{
    assert forall|x: (i64, i32)| a.count(x) <= b.count(x) by {
        if a.count(x) > b.count(x) {
            assert(all.count(x) >= a.count(x));
            lemma_exists_surplus(a, b, x);
            let y = choose|y: (i64, i32)| b.count(y) > a.count(y);
            assert(all.count(y) >= b.count(y));
            // y left out by a, x kept by a: y is below x.
            assert(pair_le(y, x));
            // x left out by b, y kept by b: x is below y.
            assert(pair_le(x, y));
            assert(x == y);
            assert(false);
        }
    }
    assert forall|x: (i64, i32)| b.count(x) <= a.count(x) by {
        if b.count(x) > a.count(x) {
            assert(all.count(x) >= b.count(x));
            lemma_exists_surplus(b, a, x);
            let y = choose|y: (i64, i32)| a.count(y) > b.count(y);
            assert(all.count(y) >= a.count(y));
            assert(pair_le(y, x));
            assert(pair_le(x, y));
            assert(x == y);
            assert(false);
        }
    }
    assert(a =~= b);
}

/// The drained entries of a well-formed state are pairwise distinct:
/// each document id appears once, so each `(score, doc_id)` pair does.
pub proof fn lemma_entries_no_duplicates(m: Map<i32, i64>, ord: Seq<i32>)
    requires
        ord.no_duplicates(),
    ensures
        crate::state::entries_of(m, ord).no_duplicates(),
{
    let es = crate::state::entries_of(m, ord);
    assert forall|i: int, j: int| 0 <= i < j < es.len() implies es[i] != es[j] by {
        assert(ord[i] != ord[j]);
        assert(es[i].1 == ord[i] && es[j].1 == ord[j]);
    }
}

/// Top-K monotonicity: with the Bloom accumulator empty, reducing the
/// limit yields a prefix of the longer result.
pub proof fn lemma_top_k_monotone(
    entries: Seq<(i64, i32)>,
    kbig: usize,
    ksmall: usize,
    vbig: Vec<Bm25Result>,
    vsmall: Vec<Bm25Result>,
)
    requires
        entries.no_duplicates(),
        ksmall <= kbig,
        finalize_post(entries, Seq::<(i64, Set<i32>)>::empty(), Some(kbig), Ok(vbig)),
        finalize_post(entries, Seq::<(i64, Set<i32>)>::empty(), Some(ksmall), Ok(vsmall)),
    ensures
        vsmall@ == vbig@.take(vsmall@.len() as int),
{
    let bv = Seq::<(i64, Set<i32>)>::empty();
    let all = entries.to_multiset();
    let n = entries.len() as int;
    entries.lemma_multiset_has_no_duplicates();
    assert(forall|v: (i64, i32)| all.count(v) <= 1) by {
        assert forall|v: (i64, i32)| all.count(v) <= 1 by {
            if all.count(v) > 1 {
                assert(all.contains(v));
            }
        }
    }
    let (sel_b, full_b): (Seq<(i64, i32)>, Seq<(i64, i32)>) = choose|
        sel: Seq<(i64, i32)>,
        full: Seq<(i64, i32)>,
    |
        {
            &&& is_top_of(sel.to_multiset(), entries.to_multiset(), spec_cap(kbig as nat))
            &&& folds_ok(sel, bv)
            &&& full.to_multiset() == folded_seq(sel, bv).to_multiset()
            &&& crate::finalize::sorted_desc(full)
            &&& vbig@ == crate::finalize::results_of(full.take(imin(kbig as int, full.len() as int)))
        };
    let (sel_s, full_s): (Seq<(i64, i32)>, Seq<(i64, i32)>) = choose|
        sel: Seq<(i64, i32)>,
        full: Seq<(i64, i32)>,
    |
        {
            &&& is_top_of(sel.to_multiset(), entries.to_multiset(), spec_cap(ksmall as nat))
            &&& folds_ok(sel, bv)
            &&& full.to_multiset() == folded_seq(sel, bv).to_multiset()
            &&& crate::finalize::sorted_desc(full)
            &&& vsmall@ == crate::finalize::results_of(
                full.take(imin(ksmall as int, full.len() as int)),
            )
        };
    // With no Bloom entries, folding is the identity.
    assert(folded_seq(sel_b, bv) =~= sel_b);
    assert(folded_seq(sel_s, bv) =~= sel_s);
    let mb = sel_b.to_multiset();
    let ms = sel_s.to_multiset();
    assert(full_b.to_multiset() == mb);
    assert(full_s.to_multiset() == ms);
    // The smaller selection is contained in the larger.
    assert(spec_cap(ksmall as nat) <= spec_cap(kbig as nat));
    assert(ms.len() <= mb.len());
    assert forall|x: (i64, i32)| ms.count(x) <= mb.count(x) by {
        if ms.count(x) > mb.count(x) {
            assert(all.count(x) >= ms.count(x));
            lemma_exists_surplus(ms, mb, x);
            let y = choose|y: (i64, i32)| mb.count(y) > ms.count(y);
            assert(all.count(y) >= mb.count(y));
            assert(pair_le(y, x));
            assert(pair_le(x, y));
            assert(x == y);
            assert(false);
        }
    }
    assert(ms.subset_of(mb));
    // The small selection is a top selection inside the large one.
    let msize = ms.len();
    assert(is_top_of(ms, mb, msize)) by {
        assert(msize as int == imin(msize as int, mb.len() as int));
        assert forall|x: (i64, i32), y: (i64, i32)|
            (mb.count(x) > ms.count(x) && ms.count(y) > 0) implies pair_le(x, y) by {
            assert(all.count(x) >= mb.count(x));
        }
    }
    // So is the prefix of the large sorted sequence of the same size.
    let mm = msize as int;
    let prefix = full_b.take(mm);
    assert(full_b.len() == mb.len());
    assert(mm <= full_b.len());
    assert(full_b =~= prefix + full_b.skip(mm));
    vstd::seq_lib::lemma_multiset_commutative(prefix, full_b.skip(mm));
    assert(prefix.to_multiset().add(full_b.skip(mm).to_multiset()) == mb);
    assert(is_top_of(prefix.to_multiset(), mb, msize)) by {
        assert forall|x: (i64, i32)| prefix.to_multiset().count(x) <= mb.count(x) by {
            assert(mb.count(x) == prefix.to_multiset().count(x) + full_b.skip(mm).to_multiset().count(
                x,
            ));
        }
        assert(prefix.to_multiset().len() == mm);
        assert forall|x: (i64, i32), y: (i64, i32)|
            (mb.count(x) > prefix.to_multiset().count(x) && prefix.to_multiset().count(y) > 0)
            implies pair_le(x, y) by {
            assert(mb.count(x) == prefix.to_multiset().count(x) + full_b.skip(mm).to_multiset().count(
                x,
            ));
            assert(full_b.skip(mm).to_multiset().count(x) > 0);
            assert(full_b.skip(mm).to_multiset().contains(x));
            assert(full_b.skip(mm).contains(x));
            let u = choose|u: int| 0 <= u < full_b.skip(mm).len() && full_b.skip(mm)[u] == x;
            assert(full_b[mm + u] == x);
            assert(prefix.to_multiset().contains(y));
            assert(prefix.contains(y));
            let w = choose|w: int| 0 <= w < prefix.len() && prefix[w] == y;
            assert(full_b[w] == y);
            assert(pair_le(full_b[mm + u], full_b[w]));
        }
    }
    // Uniqueness inside the large selection: the same pairs, hence the
    // same sorted sequence.
    assert forall|v: (i64, i32)| mb.count(v) <= 1 by {
        assert(mb.count(v) <= all.count(v));
    }
    lemma_is_top_unique(ms, prefix.to_multiset(), mb, msize);
    assert(full_s.no_duplicates()) by {
        full_s.lemma_multiset_has_no_duplicates_conv();
    }
    assert(prefix.no_duplicates()) by {
        prefix.lemma_multiset_has_no_duplicates_conv();
        assert(forall|v: (i64, i32)|
            prefix.to_multiset().contains(v) ==> #[trigger] prefix.to_multiset().count(v) == 1);
    }
    assert(crate::finalize::sorted_desc(prefix));
    lemma_sorted_desc_unique(full_s, prefix);
    assert(full_s == full_b.take(mm));
    // Finally, truncation to the two limits nests.
    let j = imin(ksmall as int, full_s.len() as int);
    assert(vsmall@ == crate::finalize::results_of(full_s.take(j)));
    assert(full_s.take(j) =~= full_b.take(j));
    let jb = imin(kbig as int, full_b.len() as int);
    assert(j <= jb);
    assert(full_b.take(jb).take(j) =~= full_b.take(j));
    assert(vbig@.take(j) =~= crate::finalize::results_of(full_b.take(j))) by {
        assert(vbig@ == crate::finalize::results_of(full_b.take(jb)));
    }
    assert(vsmall@.len() == j);
    assert(vsmall@ =~= vbig@.take(vsmall@.len() as int));
}

/// Idempotent finalization on empty input: a finalization that saw no
/// rows returns the empty list, in both modes.
pub proof fn lemma_finalize_empty(limit: Option<usize>, r: Result<Vec<Bm25Result>, Bm25Error>)
    requires
        finalize_post(
            Seq::<(i64, i32)>::empty(),
            Seq::<(i64, Set<i32>)>::empty(),
            limit,
            r,
        ),
    ensures
        r is Ok,
        match r {
            Ok(v) => v@ == Seq::<Bm25Result>::empty(),
            Err(_) => false,
        },
{
    let entries = Seq::<(i64, i32)>::empty();
    assert(entries.to_multiset().len() == 0);
    match r {
        Ok(v) => {
            match limit {
                None => {
                    assert(v@.len() == 0);
                },
                Some(k) => {
                    assert(v@.len() == imin(k as int, imin(spec_cap(k as nat) as int, 0)));
                },
            }
            assert(v@ =~= Seq::<Bm25Result>::empty());
        },
        Err(e) => {
            match limit {
                None => {
                    assert(false);
                },
                Some(k) => {
                    let sel = choose|sel: Seq<(i64, i32)>|
                        {
                            &&& is_top_of(
                                sel.to_multiset(),
                                entries.to_multiset(),
                                spec_cap(k as nat),
                            )
                            &&& !folds_ok(sel, Seq::<(i64, Set<i32>)>::empty())
                        };
                    assert(sel.to_multiset().len() == 0);
                    assert(sel.len() == 0);
                    assert(folds_ok(sel, Seq::<(i64, Set<i32>)>::empty()));
                    assert(false);
                },
            }
        },
    }
}

} // verus!

