//! What holds of every run of the bounded selector.
use vstd::prelude::*;

use crate::engine::{SampleError, SamplingEngine};
use crate::key::SampleKey;
use crate::filter::Class;
use crate::key::{is_nan_key, is_zero_bits, key_lt, key_tie, WeightProblem};
use crate::selector::{count_maximal, is_worst, lemma_victim, offer_spec, select, victim_of, Candidate, Draw};

verus! {

/// Adding one candidate at the end adds one to the count exactly when its
/// key is `Maximal`.
pub proof fn lemma_count_push(s: Seq<Candidate>, c: Candidate)
    ensures
        count_maximal(s.push(c)) == count_maximal(s) + if c.key is Maximal {
            1nat
        } else {
            0nat
        },
{
    assert(s.push(c).drop_last() =~= s);
}

/// Replacing one candidate changes the count by what leaves and what comes.
pub proof fn lemma_count_update(s: Seq<Candidate>, m: int, c: Candidate)
    requires
        0 <= m < s.len(),
    ensures
        count_maximal(s.update(m, c)) + (if s[m].key is Maximal {
            1nat
        } else {
            0nat
        }) == count_maximal(s) + if c.key is Maximal {
            1nat
        } else {
            0nat
        },
    decreases s.len(),
{
    let u = s.update(m, c);
    if m == s.len() - 1 {
        assert(u.drop_last() =~= s.drop_last());
    } else {
        assert(u.drop_last() =~= s.drop_last().update(m, c));
        lemma_count_update(s.drop_last(), m, c);
    }
}

/// When every key held is `Maximal`, the count is the length.
pub proof fn lemma_count_all_maximal(s: Seq<Candidate>)
    requires
        forall|j: int| 0 <= j < s.len() ==> (#[trigger] s[j]).key is Maximal,
    ensures
        count_maximal(s) == s.len(),
    decreases s.len(),
{
    if s.len() > 0 {
        lemma_count_all_maximal(s.drop_last());
    }
}

/// The selector never holds more than its capacity, and holds as many
/// candidates as were offered while that is fewer: after any run its size is
/// the smaller of the capacity and the number of candidates offered.
pub proof fn lemma_select_len(cands: Seq<Candidate>, draws: Seq<Draw>, cap: nat)
    requires
        draws.len() == cands.len(),
    ensures
        select(cands, draws, cap).len() == if cands.len() < cap {
            cands.len()
        } else {
            cap
        },
    decreases cands.len(),
{
    if cands.len() > 0 {
        let prev = select(cands.drop_last(), draws.drop_last(), cap);
        lemma_select_len(cands.drop_last(), draws.drop_last(), cap);
        assert(select(cands, draws, cap) == offer_spec(prev, cap, cands.last(), draws.last()));
        if prev.len() >= cap && prev.len() > 0 {
            lemma_victim(prev, draws.last().pick);
        }
    }
}

/// Every candidate held at the end of a run is one of those offered.
pub proof fn lemma_select_members(cands: Seq<Candidate>, draws: Seq<Draw>, cap: nat)
    ensures
        forall|x: Candidate| #[trigger] select(cands, draws, cap).contains(x) ==> cands.contains(x),
    decreases cands.len(),
{
    if cands.len() > 0 && draws.len() > 0 {
        let p = cands.drop_last();
        let prev = select(p, draws.drop_last(), cap);
        lemma_select_members(p, draws.drop_last(), cap);
        let r = select(cands, draws, cap);
        assert forall|x: Candidate| #[trigger] r.contains(x) implies cands.contains(x) by {
            let i = choose|i: int| 0 <= i < r.len() && r[i] == x;
            if x == cands.last() {
                assert(cands[cands.len() - 1] == x);
            } else {
                if prev.len() < cap {
                    assert(r == prev.push(cands.last()));
                    assert(prev[i] == x);
                } else if prev.len() > 0 {
                    lemma_victim(prev, draws.last().pick);
                    assert(prev[i] == x);
                }
                assert(prev.contains(x));
                let j = choose|j: int| 0 <= j < p.len() && p[j] == x;
                assert(cands[j] == x);
            }
        }
    }
}

/// Candidates with a `Maximal` key fill places first: as long as no more of
/// them are offered than the capacity, every one of them is held at the end
/// of the run, whatever the other keys and the draws.
pub proof fn lemma_select_keeps_maximal(cands: Seq<Candidate>, draws: Seq<Draw>, cap: nat)
    requires
        draws.len() == cands.len(),
        count_maximal(cands) <= cap,
    ensures
        count_maximal(select(cands, draws, cap)) == count_maximal(cands),
        forall|i: int|
            0 <= i < cands.len() && (#[trigger] cands[i]).key is Maximal ==> select(
                cands,
                draws,
                cap,
            ).contains(cands[i]),
    decreases cands.len(),
{
    if cands.len() > 0 {
        let p = cands.drop_last();
        let cs = draws.drop_last();
        let c = cands.last();
        let d = draws.last();
        lemma_select_keeps_maximal(p, cs, cap);
        lemma_select_len(p, cs, cap);
        let prev = select(p, cs, cap);
        let r = select(cands, draws, cap);
        assert(r == offer_spec(prev, cap, c, d));
        if prev.len() < cap {
            lemma_count_push(prev, c);
            assert forall|i: int|
                0 <= i < cands.len() && (#[trigger] cands[i]).key is Maximal implies r.contains(
                cands[i],
            ) by {
                if i == cands.len() - 1 {
                    assert(r[prev.len() as int] == c);
                } else {
                    assert(p[i] == cands[i]);
                    let j = choose|j: int| 0 <= j < prev.len() && prev[j] == cands[i];
                    assert(r[j] == cands[i]);
                }
            }
        } else if prev.len() > 0 {
            lemma_victim(prev, draws.last().pick);
            let m = victim_of(prev, d.pick);
            if c.key is Maximal {
                // Not every place is taken by a `Maximal` key, so the worst is not one.
                if prev[m].key is Maximal {
                    assert forall|j: int| 0 <= j < prev.len() implies (#[trigger] prev[j]).key is Maximal by {
                        if prev[j].key is Ranked {
                            assert(key_lt(prev[j].key, prev[m].key));
                        }
                    }
                    lemma_count_all_maximal(prev);
                    assert(false);
                }
                assert(key_lt(prev[m].key, c.key));
            }
            let replaced = key_lt(prev[m].key, c.key) || (key_tie(prev[m].key, c.key) && d.coin);
            if replaced {
                lemma_count_update(prev, m, c);
                assert(prev[m].key is Ranked || c.key is Maximal);
            }
            assert forall|i: int|
                0 <= i < cands.len() && (#[trigger] cands[i]).key is Maximal implies r.contains(
                cands[i],
            ) by {
                if i == cands.len() - 1 {
                    assert(r[m] == c);
                } else {
                    assert(p[i] == cands[i]);
                    let j = choose|j: int| 0 <= j < prev.len() && prev[j] == cands[i];
                    if replaced {
                        assert(j != m);
                        assert(r[j] == cands[i]);
                    } else {
                        assert(r[j] == cands[i]);
                    }
                }
            }
        } else {
            assert forall|i: int|
                0 <= i < cands.len() && (#[trigger] cands[i]).key is Maximal implies r.contains(
                cands[i],
            ) by {
                if i == cands.len() - 1 {
                    lemma_count_push(p, c);
                    assert(cands =~= p.push(c));
                } else {
                    assert(p[i] == cands[i]);
                    assert(prev.contains(p[i]));
                }
            }
        }
    }
}

/// Among keys none of which is NaN, "not strictly worse" is transitive.
pub proof fn lemma_key_ge_trans(a: SampleKey, b: SampleKey, c: SampleKey)
    requires
        !is_nan_key(a),
        !is_nan_key(b),
        !is_nan_key(c),
        !key_lt(a, b),
        !key_lt(b, c),
    ensures
        !key_lt(a, c),
{
}

/// The selector keeps the best keys: in a run where no key is NaN and no
/// two candidates share an arrival, no candidate held has a key strictly
/// worse than that of any candidate offered and not held, and no arrival is
/// held twice. While no more were offered than the capacity, all are held.
pub proof fn lemma_select_top_k(cands: Seq<Candidate>, draws: Seq<Draw>, cap: nat)
    requires
        draws.len() == cands.len(),
        forall|i: int| 0 <= i < cands.len() ==> !is_nan_key(#[trigger] cands[i].key),
        forall|i: int, j: int|
            0 <= i < cands.len() && 0 <= j < cands.len() && i != j ==> (#[trigger] cands[i]).arrival
                != (#[trigger] cands[j]).arrival,
    ensures
        forall|i: int, h: int|
            0 <= i < cands.len() && !select(cands, draws, cap).contains(#[trigger] cands[i]) && 0 <= h
                < select(cands, draws, cap).len() ==> !key_lt(
                (#[trigger] select(cands, draws, cap)[h]).key,
                cands[i].key,
            ),
        forall|h1: int, h2: int|
            0 <= h1 < select(cands, draws, cap).len() && 0 <= h2 < select(cands, draws, cap).len() && h1
                != h2 ==> (#[trigger] select(cands, draws, cap)[h1]).arrival != (#[trigger] select(
                cands,
                draws,
                cap,
            )[h2]).arrival,
        cands.len() <= cap ==> forall|i: int|
            0 <= i < cands.len() ==> select(cands, draws, cap).contains(#[trigger] cands[i]),
    decreases cands.len(),
{
    if cands.len() > 0 {
        let n = cands.len();
        let p = cands.drop_last();
        let ds = draws.drop_last();
        let c = cands.last();
        let d = draws.last();
        lemma_select_top_k(p, ds, cap);
        lemma_select_members(p, ds, cap);
        lemma_select_len(p, ds, cap);
        let prev = select(p, ds, cap);
        let r = select(cands, draws, cap);
        assert(r == offer_spec(prev, cap, c, d));
        // What is held before comes from `p`: no NaN key, and an arrival other than `c`'s.
        assert forall|j: int| 0 <= j < prev.len() implies !is_nan_key(#[trigger] prev[j].key) && prev[j].arrival
            != c.arrival && p.contains(prev[j]) by {
            assert(prev.contains(prev[j]));
            let k = choose|k: int| 0 <= k < p.len() && p[k] == prev[j];
            assert(cands[k] == p[k]);
            assert(cands[n - 1] == c);
        }
        if prev.len() < cap {
            assert(r == prev.push(c));
            assert forall|i: int| 0 <= i < n implies r.contains(#[trigger] cands[i]) by {
                if i == n - 1 {
                    assert(r[prev.len() as int] == c);
                } else {
                    assert(p[i] == cands[i]);
                    assert(prev.contains(p[i]));
                    let j = choose|j: int| 0 <= j < prev.len() && prev[j] == p[i];
                    assert(r[j] == cands[i]);
                }
            }
        } else if prev.len() > 0 {
            lemma_victim(prev, d.pick);
            let m = victim_of(prev, d.pick);
            let v = prev[m];
            let replaced = key_lt(v.key, c.key) || (key_tie(v.key, c.key) && d.coin);
            assert forall|i: int, h: int|
                0 <= i < n && !r.contains(#[trigger] cands[i]) && 0 <= h < r.len() implies !key_lt(
                (#[trigger] r[h]).key,
                cands[i].key,
            ) by {
                let x = cands[i];
                if i == n - 1 {
                    if replaced {
                        assert(r[m] == c);
                    }
                    assert(!key_lt(v.key, c.key));
                    assert(!key_lt(prev[h].key, v.key));
                    lemma_key_ge_trans(prev[h].key, v.key, c.key);
                } else {
                    assert(p[i] == x);
                    if prev.contains(x) {
                        let j = choose|j: int| 0 <= j < prev.len() && prev[j] == x;
                        if !replaced || j != m {
                            assert(r[j] == x);
                        }
                        // `x` was the victim.
                        if h == m {
                            assert(!key_lt(c.key, v.key));
                        } else {
                            assert(!key_lt(prev[h].key, v.key));
                        }
                    } else {
                        assert(!key_lt(v.key, x.key));
                        if replaced && h == m {
                            assert(!key_lt(c.key, v.key));
                            lemma_key_ge_trans(c.key, v.key, x.key);
                        } else {
                            assert(!key_lt(prev[h].key, x.key));
                        }
                    }
                }
            }
            assert forall|h1: int, h2: int|
                0 <= h1 < r.len() && 0 <= h2 < r.len() && h1 != h2 implies (#[trigger] r[h1]).arrival != (
                #[trigger] r[h2]).arrival by {
                if replaced {
                    assert(r == prev.update(m, c));
                }
            }
        }
    }
}

/// Runs are reproducible: two engines with the same configuration, the same
/// arrivals and the same candidates offered, given the same record, weight,
/// key and draws, answer alike and end holding the same candidates.
pub proof fn lemma_push_deterministic(
    a: SamplingEngine,
    b: SamplingEngine,
    a_next: SamplingEngine,
    b_next: SamplingEngine,
    fields: Vec<String>,
    weight: Option<u64>,
    key_bits: u64,
    d: Draw,
    ra: Result<(), SampleError>,
    rb: Result<(), SampleError>,
)
    requires
        a.wf(),
        b.wf(),
        a.same_config(&b),
        a.arrivals == b.arrivals,
        a.offered@ == b.offered@,
        a.draws@ == b.draws@,
        a.failure == b.failure,
        a_next.outcome(&a, fields, a.judgement(fields@, weight, key_bits), d, ra),
        b_next.outcome(&b, fields, b.judgement(fields@, weight, key_bits), d, rb),
    ensures
        ra == rb,
        a_next.held() == b_next.held(),
        a_next.offered@ == b_next.offered@,
        a_next.failure == b_next.failure,
{
    assert(a.judgement(fields@, weight, key_bits) == b.judgement(fields@, weight, key_bits));
}

/// A record that competes by weight, with a weight of zero, fails the run
/// with a weight error that names its arrival and the weight column.
pub proof fn lemma_zero_weight_fails(e: SamplingEngine, fields: Vec<String>, w: u64, key_bits: u64)
    requires
        e.wf(),
        fields@.len() == e.width,
        e.class_of_fields(fields@) == Class::Normal,
        is_zero_bits(w),
    ensures
        e.judgement(fields@, Some(w), key_bits) == Err::<Option<crate::key::SampleKey>, SampleError>(
            SampleError::Weight { arrival: e.arrivals, column: e.weight_col, problem: WeightProblem::Zero },
        ),
{
}

} // verus!
