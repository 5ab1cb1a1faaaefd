//! The aggregator state and its per-row transition.
//!
//! The dispatcher inspects one posting row at a time.  Once more than one
//! hundred documents carry exact scores, a row offering a Bloom filter is
//! promoted: a single representative contribution (one occurrence in a
//! document of average length) is captured together with the filter, and
//! the posting arrays are never read.  Otherwise every `(doc_id, fq,
//! doc_len)` triple contributes additively to the score map.
//!
//! Every transition either succeeds and updates the state exactly as
//! `spec_transition` says, or fails and leaves the state untouched.

use vstd::prelude::*;
use std::collections::HashMap;
use crate::bloom::{bloom_accepts, blooms_view};
use crate::errors::Bm25Error;
use crate::finalize::imin;
use crate::fixed::abs_int;
use crate::fixed::SCALE;
use crate::rows::{AggRow, IntColumn, TermRow};
use crate::score::{
    calculate_bm25, spec_calculate_bm25, CORPUS_MAX, DOCLEN_FX_MAX, PARAM_FX_MAX,
};

verus! {

broadcast use vstd::std_specs::hash::group_hash_axioms;

/// Default `k1` in fixed point (1.2 rounded down to `SCALE` units).
pub const K1_DEFAULT_FX: i64 = 1258291;

/// Default `b` in fixed point (exactly 0.75 in `SCALE` units).
pub const B_DEFAULT_FX: i64 = 786432;

/// Exact documents scored before a Bloom-carrying row may be promoted.
pub const PROMOTION_THRESHOLD: usize = 100;

/// Initial capacity hint of the score map.
pub const HASHMAP_DEFAULT_CAPACITY: usize = 1000;

/// The mathematical content of an aggregator state.
#[verifier::ext_equal]
pub struct StateModel {
    /// The exact score of each document seen so far.
    pub scores: Map<i32, i64>,
    /// The documents in first-contribution order.
    pub order: Seq<i32>,
    /// Total number of documents in the corpus, once configured.
    pub corpus_size: Option<u64>,
    /// Average document length in fixed point, once configured.
    pub avg_doc_len_fx: Option<i64>,
    /// How many results to return, when bounded.
    pub limit: Option<usize>,
    /// The `k1` parameter in fixed point.
    pub k1_fx: i64,
    /// The `b` parameter in fixed point.
    pub b_fx: i64,
    /// Captured Bloom entries: representative contribution and member set.
    pub blooms: Seq<(i64, Set<i32>)>,
}

/// The aggregator state.
#[derive(Debug)]
pub struct BM25InternalState {
    /// The exact accumulator: `doc_id` to fixed-point partial score.
    pub scores: HashMap<i32, i64>,
    /// The map's keys in first-contribution order.
    pub doc_order: Vec<i32>,
    /// Total number of documents in the corpus, once configured.
    pub corpus_size: Option<u64>,
    /// Average document length in fixed point, once configured.
    pub avg_doc_len_fx: Option<i64>,
    /// How many results to return, when bounded.
    pub limit: Option<usize>,
    /// The `k1` parameter in fixed point.
    pub k1_fx: i64,
    /// The `b` parameter in fixed point.
    pub b_fx: i64,
    /// Captured `(representative contribution, Bloom filter)` pairs.
    pub blooms: Vec<(i64, fastbloom::BloomFilter<std::collections::hash_map::RandomState>)>,
}

impl View for BM25InternalState {
    type V = StateModel;

    open spec fn view(&self) -> StateModel {
        StateModel {
            scores: self.scores@,
            order: self.doc_order@,
            corpus_size: self.corpus_size,
            avg_doc_len_fx: self.avg_doc_len_fx,
            limit: self.limit,
            k1_fx: self.k1_fx,
            b_fx: self.b_fx,
            blooms: blooms_view(self.blooms@),
        }
    }
}

/// The state invariant: the document order lists exactly the keys of the
/// score map, once each, and every configured field is within the bounds
/// the entry points enforce.
pub open spec fn state_inv(m: StateModel) -> bool {
    &&& m.order.no_duplicates()
    &&& m.order.to_set() == m.scores.dom()
    &&& match m.corpus_size {
        Some(c) => 1 <= c <= CORPUS_MAX,
        None => true,
    }
    &&& match m.avg_doc_len_fx {
        Some(a) => 0 <= a <= DOCLEN_FX_MAX,
        None => true,
    }
    &&& match m.limit {
        Some(l) => l <= 0x7fffffff,
        None => true,
    }
    &&& abs_int(m.k1_fx as int) <= PARAM_FX_MAX
    &&& abs_int(m.b_fx as int) <= PARAM_FX_MAX
}

/// First pass over the posting arrays: each triple's contribution, with
/// the first kernel error aborting the row.
pub open spec fn spec_pass(
    acc: Seq<(i32, i64)>,
    ids: Seq<i32>,
    fqs: Seq<i32>,
    lens: Seq<i32>,
    n: int,
    j: int,
    tf: i32,
    corpus: u64,
    avg: i64,
    k1: i64,
    b: i64,
) -> Result<Seq<(i32, i64)>, Bm25Error>
    decreases n - j,
{
    if j < 0 || j >= n {
        Ok(acc)
    } else {
        match spec_calculate_bm25(
            (lens[j] as int) * (SCALE as int),
            fqs[j] as int,
            tf as int,
            corpus as int,
            avg as int,
            k1 as int,
            b as int,
        ) {
            Err(e) => Err(e),
            Ok(c) => spec_pass(acc.push((ids[j], c)), ids, fqs, lens, n, j + 1, tf, corpus, avg, k1, b),
        }
    }
}

/// Second pass: insert-or-add each contribution into the score map, with
/// an overflowing sum aborting the row.
pub open spec fn spec_merge(
    m: Map<i32, i64>,
    ord: Seq<i32>,
    cs: Seq<(i32, i64)>,
) -> Result<(Map<i32, i64>, Seq<i32>), Bm25Error>
    decreases cs.len(),
{
    if cs.len() == 0 {
        Ok((m, ord))
    } else {
        let d = cs[0].0;
        let c = cs[0].1;
        if m.contains_key(d) {
            let s2 = m[d] + c;
            if !(i64::MIN <= s2 <= i64::MAX) {
                Err(Bm25Error::Overflow)
            } else {
                spec_merge(m.insert(d, s2 as i64), ord, cs.drop_first())
            }
        } else {
            spec_merge(m.insert(d, c), ord.push(d), cs.drop_first())
        }
    }
}

/// The per-row state transition, exactly as the dispatcher performs it.
pub open spec fn spec_transition(s: StateModel, row: AggRow) -> Result<StateModel, Bm25Error> {
    match row {
        AggRow::NonRecord => Err(Bm25Error::NotRecord),
        AggRow::Record(tr) => match (s.corpus_size, s.avg_doc_len_fx) {
            (Some(corpus), Some(avg)) => match tr.term_freq {
                None => Err(Bm25Error::MissingTermFreq),
                Some(tf) => {
                    if s.scores.dom().len() > PROMOTION_THRESHOLD && tr.doc_ids_bloom is Some {
                        match tr.doc_ids_bloom {
                            Some(bf) => match spec_calculate_bm25(
                                avg as int,
                                1,
                                tf as int,
                                corpus as int,
                                avg as int,
                                s.k1_fx as int,
                                s.b_fx as int,
                            ) {
                                Err(e) => Err(e),
                                Ok(rep) => Ok(
                                    StateModel {
                                        blooms: s.blooms.push((rep, bloom_accepts(bf))),
                                        ..s
                                    },
                                ),
                            },
                            // unreachable: the promotion guard tested the column
                            None => Err(Bm25Error::NotRecord),
                        }
                    } else {
                        match crate::rows::spec_column(tr.doc_ids) {
                            Err(e) => Err(e),
                            Ok(ids) => match crate::rows::spec_column(tr.fqs) {
                                Err(e) => Err(e),
                                Ok(fqs) => match crate::rows::spec_column(tr.doc_lens) {
                                    Err(e) => Err(e),
                                    Ok(lens) => {
                                        let n = imin(
                                            ids.len() as int,
                                            imin(fqs.len() as int, lens.len() as int),
                                        );
                                        match spec_pass(
                                            Seq::<(i32, i64)>::empty(),
                                            ids,
                                            fqs,
                                            lens,
                                            n,
                                            0,
                                            tf,
                                            corpus,
                                            avg,
                                            s.k1_fx,
                                            s.b_fx,
                                        ) {
                                            Err(e) => Err(e),
                                            Ok(cs) => match spec_merge(s.scores, s.order, cs) {
                                                Err(e) => Err(e),
                                                Ok(p) => Ok(
                                                    StateModel { scores: p.0, order: p.1, ..s },
                                                ),
                                            },
                                        }
                                    },
                                },
                            },
                        }
                    }
                },
            },
            _ => Err(Bm25Error::ConfigMissing),
        },
    }
}

/// The score map drained as `(score, doc_id)` pairs, in first-contribution
/// order.
pub open spec fn entries_of(m: Map<i32, i64>, ord: Seq<i32>) -> Seq<(i64, i32)> {
    Seq::new(ord.len(), |j: int| (m[ord[j]], ord[j]))
}

/// The merge pass keeps the order sequence in step with the map keys.
proof fn lemma_spec_merge_inv(m: Map<i32, i64>, ord: Seq<i32>, cs: Seq<(i32, i64)>)
    requires
        ord.no_duplicates(),
        ord.to_set() == m.dom(),
    ensures
        match spec_merge(m, ord, cs) {
            Ok(p) => p.1.no_duplicates() && p.1.to_set() == p.0.dom(),
            Err(_) => true,
        },
    decreases cs.len(),
{
    broadcast use vstd::seq_lib::group_seq_properties;

    if cs.len() > 0 {
        let d = cs[0].0;
        let c = cs[0].1;
        if m.contains_key(d) {
            let s2 = m[d] + c;
            if i64::MIN <= s2 <= i64::MAX {
                assert(m.insert(d, s2 as i64).dom() =~= m.dom());
                lemma_spec_merge_inv(m.insert(d, s2 as i64), ord, cs.drop_first());
            }
        } else {
            assert(!ord.contains(d));
            let ord2 = ord.push(d);
            assert(ord2.no_duplicates()) by {
                assert(forall|i: int|
                    0 <= i < ord.len() ==> #[trigger] ord2[i] == ord[i] && ord[i] != d);
            }
            assert(ord2.to_set() =~= m.insert(d, c).dom()) by {
                assert(forall|x: i32| ord2.contains(x) <==> (ord.contains(x) || x == d));
            }
            lemma_spec_merge_inv(m.insert(d, c), ord2, cs.drop_first());
        }
    }
}

/// The state a fresh aggregation starts from: empty accumulators, no
/// configuration, default parameters.
pub open spec fn default_model() -> StateModel {
    StateModel {
        scores: Map::<i32, i64>::empty(),
        order: Seq::<i32>::empty(),
        corpus_size: None,
        avg_doc_len_fx: None,
        limit: None,
        k1_fx: K1_DEFAULT_FX,
        b_fx: B_DEFAULT_FX,
        blooms: Seq::<(i64, Set<i32>)>::empty(),
    }
}

impl Default for BM25InternalState {
    /// A fresh state: empty accumulators, no configuration, default
    /// `k1` and `b`.
    fn default() -> (s: Self)
        ensures
            s@ == default_model(),
            s@.scores == Map::<i32, i64>::empty(),
            s@.order == Seq::<i32>::empty(),
            s@.blooms == Seq::<(i64, Set<i32>)>::empty(),
            s@.corpus_size is None,
            s@.avg_doc_len_fx is None,
            s@.limit is None,
            s@.k1_fx == K1_DEFAULT_FX,
            s@.b_fx == B_DEFAULT_FX,
            state_inv(s@),
    {
        let s = BM25InternalState {
            scores: HashMap::with_capacity(HASHMAP_DEFAULT_CAPACITY),
            doc_order: Vec::new(),
            corpus_size: None,
            avg_doc_len_fx: None,
            limit: None,
            k1_fx: K1_DEFAULT_FX,
            b_fx: B_DEFAULT_FX,
            blooms: Vec::new(),
        };
        proof {
            assert(s@.order.to_set() =~= s@.scores.dom());
            assert(s@.blooms =~= Seq::<(i64, Set<i32>)>::empty());
            assert(s@ =~= default_model());
        }
        s
    }
}

impl BM25InternalState {
    /// Sets the bounded-result limit.  The entry points validate before
    /// calling.
    pub fn set_limit(&mut self, limit: usize)
        requires
            limit <= 0x7fffffff,
        ensures
            final(self)@ == (StateModel { limit: Some(limit), ..old(self)@ }),
    {
        self.limit = Some(limit);
    }

    /// Sets the corpus size.  The entry points validate before calling.
    pub fn set_corpus_size(&mut self, corpus_size: u64)
        requires
            1 <= corpus_size <= CORPUS_MAX,
        ensures
            final(self)@ == (StateModel { corpus_size: Some(corpus_size), ..old(self)@ }),
    {
        self.corpus_size = Some(corpus_size);
    }

    /// Sets the average document length, in fixed point.  The entry points
    /// validate before calling.
    pub fn set_avg_doc_len(&mut self, avg_doc_len_fx: i64)
        requires
            0 <= avg_doc_len_fx <= DOCLEN_FX_MAX,
        ensures
            final(self)@ == (StateModel { avg_doc_len_fx: Some(avg_doc_len_fx), ..old(self)@ }),
    {
        self.avg_doc_len_fx = Some(avg_doc_len_fx);
    }

    /// Sets the BM25 parameters, in fixed point.
    pub fn set_params(&mut self, k1_fx: i64, b_fx: i64)
        requires
            abs_int(k1_fx as int) <= PARAM_FX_MAX,
            abs_int(b_fx as int) <= PARAM_FX_MAX,
        ensures
            final(self)@ == (StateModel { k1_fx, b_fx, ..old(self)@ }),
    {
        self.k1_fx = k1_fx;
        self.b_fx = b_fx;
    }

    /// The representative contribution captured with a Bloom filter: one
    /// occurrence in a document of average length.
    fn maybe_use_bloom_filter(&self, term_freq: i32, corpus_size: u64, avg_doc_len_fx: i64) -> (r:
        Result<i64, Bm25Error>)
        requires
            state_inv(self@),
            1 <= corpus_size <= CORPUS_MAX,
            0 <= avg_doc_len_fx <= DOCLEN_FX_MAX,
        ensures
            r == spec_calculate_bm25(
                avg_doc_len_fx as int,
                1,
                term_freq as int,
                corpus_size as int,
                avg_doc_len_fx as int,
                self.k1_fx as int,
                self.b_fx as int,
            ),
    {
        calculate_bm25(avg_doc_len_fx, 1, term_freq, corpus_size, avg_doc_len_fx, self.k1_fx, self.b_fx)
    }

    /// Applies one posting row to the state.
    ///
    /// On success the state is exactly what `spec_transition` produces; on
    /// any error the state is unchanged.
    #[verifier::loop_isolation(false)]
    pub fn state_base(&mut self, row: AggRow) -> (r: Result<(), Bm25Error>)
        requires
            state_inv(old(self)@),
        ensures
            state_inv(final(self)@),
            match spec_transition(old(self)@, row) {
                Ok(m) => r == Ok::<(), Bm25Error>(()) && final(self)@ == m,
                Err(e) => r == Err::<(), Bm25Error>(e) && final(self)@ == old(self)@,
            },
    {
        broadcast use vstd::seq_lib::group_seq_properties;

        match row {
            AggRow::NonRecord => Err(Bm25Error::NotRecord),
            AggRow::Record(tr) => {
                let (corpus, avg): (u64, i64) = match (self.corpus_size, self.avg_doc_len_fx) {
                    (Some(c), Some(a)) => (c, a),
                    _ => {
                        return Err(Bm25Error::ConfigMissing);
                    },
                };
                let tf: i32 = match tr.term_freq {
                    Some(t) => t,
                    None => {
                        return Err(Bm25Error::MissingTermFreq);
                    },
                };
                let nscores: usize = self.scores.len();
                if nscores > PROMOTION_THRESHOLD && tr.doc_ids_bloom.is_some() {
                    match tr.doc_ids_bloom {
                        Some(bf) => {
                            let rep: i64 = match self.maybe_use_bloom_filter(tf, corpus, avg) {
                                Ok(v) => v,
                                Err(e) => {
                                    return Err(e);
                                },
                            };
                            let ghost blooms0 = blooms_view(self.blooms@);
                            let ghost entry_set = bloom_accepts(bf);
                            self.blooms.push((rep, bf));
                            proof {
                                assert(blooms_view(self.blooms@) =~= blooms0.push(
                                    (rep, entry_set),
                                ));
                            }
                            Ok(())
                        },
                        None => {
                            // unreachable: the promotion guard tested the column
                            proof {
                                assert(false);
                            }
                            Err(Bm25Error::NotRecord)
                        },
                    }
                } else {
                    let ids: Vec<i32> = match tr.doc_ids {
                        Some(IntColumn::I32(v)) => v,
                        Some(_) => {
                            return Err(Bm25Error::UnsupportedColumnType);
                        },
                        None => {
                            return Err(Bm25Error::MissingColumn);
                        },
                    };
                    let fqs: Vec<i32> = match tr.fqs {
                        Some(IntColumn::I32(v)) => v,
                        Some(_) => {
                            return Err(Bm25Error::UnsupportedColumnType);
                        },
                        None => {
                            return Err(Bm25Error::MissingColumn);
                        },
                    };
                    let lens: Vec<i32> = match tr.doc_lens {
                        Some(IntColumn::I32(v)) => v,
                        Some(_) => {
                            return Err(Bm25Error::UnsupportedColumnType);
                        },
                        None => {
                            return Err(Bm25Error::MissingColumn);
                        },
                    };
                    let mut n: usize = ids.len();
                    if fqs.len() < n {
                        n = fqs.len();
                    }
                    if lens.len() < n {
                        n = lens.len();
                    }
                    let mut cs: Vec<(i32, i64)> = Vec::new();
                    let mut j: usize = 0;
                    while j < n
                        invariant
                            j <= n,
                            spec_pass(
                                Seq::<(i32, i64)>::empty(),
                                ids@,
                                fqs@,
                                lens@,
                                n as int,
                                0,
                                tf,
                                corpus,
                                avg,
                                self.k1_fx,
                                self.b_fx,
                            ) == spec_pass(
                                cs@,
                                ids@,
                                fqs@,
                                lens@,
                                n as int,
                                j as int,
                                tf,
                                corpus,
                                avg,
                                self.k1_fx,
                                self.b_fx,
                            ),
                        decreases n - j,
                    {
                        let dl_fx: i64 = (lens[j] as i64) * SCALE;
                        let c: i64 = match calculate_bm25(
                            dl_fx,
                            fqs[j],
                            tf,
                            corpus,
                            avg,
                            self.k1_fx,
                            self.b_fx,
                        ) {
                            Ok(c) => c,
                            Err(e) => {
                                return Err(e);
                            },
                        };
                        cs.push((ids[j], c));
                        j = j + 1;
                    }
                    let mut newmap: HashMap<i32, i64> = self.scores.clone();
                    let mut neword: Vec<i32> = Vec::new();
                    let mut t: usize = 0;
                    while t < self.doc_order.len()
                        invariant
                            t <= self.doc_order.len(),
                            neword@ == self.doc_order@.take(t as int),
                        decreases self.doc_order.len() - t,
                    {
                        neword.push(self.doc_order[t]);
                        proof {
                            assert(neword@ =~= self.doc_order@.take(t as int + 1));
                        }
                        t = t + 1;
                    }
                    proof {
                        assert(neword@ =~= self.doc_order@);
                    }
                    let mut j2: usize = 0;
                    while j2 < cs.len()
                        invariant
                            j2 <= cs.len(),
                            spec_merge(self.scores@, self.doc_order@, cs@) == spec_merge(
                                newmap@,
                                neword@,
                                cs@.skip(j2 as int),
                            ),
                        decreases cs.len() - j2,
                    {
                        let ghost tail = cs@.skip(j2 as int);
                        proof {
                            assert(tail.len() > 0);
                            assert(tail[0] == cs@[j2 as int]);
                            assert(tail.drop_first() =~= cs@.skip(j2 as int + 1));
                        }
                        let (d, c): (i32, i64) = cs[j2];
                        let existing: Option<i64> = match newmap.get(&d) {
                            Some(v) => Some(*v),
                            None => None,
                        };
                        match existing {
                            Some(s0) => {
                                match crate::finalize::add_i64_checked(s0, c) {
                                    Some(s2) => {
                                        newmap.insert(d, s2);
                                    },
                                    None => {
                                        return Err(Bm25Error::Overflow);
                                    },
                                }
                            },
                            None => {
                                newmap.insert(d, c);
                                neword.push(d);
                            },
                        }
                        j2 = j2 + 1;
                    }
                    proof {
                        assert(cs@.skip(cs@.len() as int).len() == 0);
                        lemma_spec_merge_inv(self.scores@, self.doc_order@, cs@);
                    }
                    self.scores = newmap;
                    self.doc_order = neword;
                    Ok(())
                }
            },
        }
    }

    /// Drains the accumulators and produces the output list, as
    /// `finalize_post` describes: top-K with Bloom folding in limited
    /// mode, a plain descending sort in unlimited mode.
    #[verifier::loop_isolation(false)]
    pub fn finalize_base(self) -> (r: Result<Vec<crate::finalize::Bm25Result>, Bm25Error>)
        requires
            state_inv(self@),
        ensures
            crate::finalize::finalize_post(
                entries_of(self@.scores, self@.order),
                self@.blooms,
                self@.limit,
                r,
            ),
    {
        let BM25InternalState {
            scores,
            doc_order,
            corpus_size: _,
            avg_doc_len_fx: _,
            limit,
            k1_fx: _,
            b_fx: _,
            blooms,
        } = self;
        let mut entries: Vec<(i64, i32)> = Vec::new();
        let mut t: usize = 0;
        while t < doc_order.len()
            invariant
                t <= doc_order.len(),
                entries@.len() == t,
                forall|u: int|
                    0 <= u < t ==> #[trigger] entries@[u] == (scores@[doc_order@[u]], doc_order@[u]),
            decreases doc_order.len() - t,
        {
            let d: i32 = doc_order[t];
            proof {
                assert(self@.order[t as int] == d);
                assert(self@.order.contains(d));
                assert(scores@.contains_key(d));
            }
            let sc: i64 = match scores.get(&d) {
                Some(v) => *v,
                None => {
                    proof {
                        assert(false);
                    }
                    0
                },
            };
            entries.push((sc, d));
            t = t + 1;
        }
        proof {
            assert(entries@ =~= entries_of(scores@, doc_order@));
        }
        crate::finalize::finalize_entries(entries, blooms, limit)
    }
}

} // verus!
