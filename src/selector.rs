//! A bounded selector: holds at most a fixed number of candidates, and when
//! full lets a newcomer displace the worst one held only if the newcomer's
//! key is better, or equal and a coin says so.
use vstd::prelude::*;

use crate::key::{key_less, key_lt, key_tie, SampleKey};

verus! {

/// A record competing for a place in the sample.
#[derive(Debug)]
pub struct Candidate {
    /// Its sampling key.
    pub key: SampleKey,
    /// Its position in the input stream, counted from 0.
    pub arrival: u64,
    /// The record's field values.
    pub fields: Vec<String>,
}

/// The random draws that go with one offer: `pick` chooses among the
/// candidates tied for worst, `coin` settles a tie with the newcomer.
#[derive(Clone, Copy, Debug, PartialEq, Eq, Structural)]
pub struct Draw {
    pub pick: usize,
    pub coin: bool,
}

/// No key held in `s` is strictly worse than that of `s[j]`.
pub open spec fn is_worst(s: Seq<Candidate>, j: int) -> bool {
    &&& 0 <= j < s.len()
    &&& forall|k: int| 0 <= k < s.len() ==> !key_lt(#[trigger] s[k].key, s[j].key)
}

/// The number of indices from `i` on that hold a worst candidate.
pub open spec fn worst_count_from(s: Seq<Candidate>, i: int) -> nat
    decreases s.len() - i,
{
    if i < 0 || i >= s.len() {
        0
    } else {
        worst_count_from(s, i + 1) + if is_worst(s, i) {
            1nat
        } else {
            0nat
        }
    }
}

/// The index of the `t`-th worst candidate (counted from 0) from index `i` on;
/// `s.len()` if there are not that many.
pub open spec fn nth_worst(s: Seq<Candidate>, t: nat, i: int) -> int
    decreases s.len() - i,
{
    if i < 0 || i >= s.len() {
        s.len() as int
    } else if is_worst(s, i) {
        if t == 0 {
            i
        } else {
            nth_worst(s, (t - 1) as nat, i + 1)
        }
    } else {
        nth_worst(s, t, i + 1)
    }
}

/// The candidate to be displaced: among those tied for worst, the one that
/// `pick` chooses, counted modulo their number.
pub open spec fn victim_of(s: Seq<Candidate>, pick: usize) -> int {
    nth_worst(s, (pick as nat % worst_count_from(s, 0)) as nat, 0)
}

/// What holding `s` becomes when `c` is offered with a capacity of `cap`:
/// kept while there is room; otherwise it displaces the victim that
/// `d.pick` chooses if its key is better, or tied with it and `d.coin` is set.
pub open spec fn offer_spec(s: Seq<Candidate>, cap: nat, c: Candidate, d: Draw) -> Seq<Candidate> {
    if s.len() < cap {
        s.push(c)
    } else if s.len() == 0 {
        s
    } else {
        let m = victim_of(s, d.pick);
        if key_lt(s[m].key, c.key) || (key_tie(s[m].key, c.key) && d.coin) {
            s.update(m, c)
        } else {
            s
        }
    }
}

/// What is held after offering `cands` in order to an empty selector, the
/// offer of `cands[i]` going with `draws[i]`.
pub open spec fn select(cands: Seq<Candidate>, draws: Seq<Draw>, cap: nat) -> Seq<Candidate>
    decreases cands.len(),
{
    if cands.len() == 0 || draws.len() == 0 {
        Seq::empty()
    } else {
        offer_spec(select(cands.drop_last(), draws.drop_last(), cap), cap, cands.last(), draws.last())
    }
}

/// The least nonzero rank among the keys from index `i` on.
pub open spec fn min_rank_from(s: Seq<Candidate>, i: int) -> Option<u64>
    decreases s.len() - i,
{
    if i < 0 || i >= s.len() {
        None
    } else {
        let rest = min_rank_from(s, i + 1);
        match s[i].key {
            SampleKey::Ranked(x) => if x != 0 && (rest is None || x < rest->Some_0) {
                Some(x)
            } else {
                rest
            },
            SampleKey::Maximal => rest,
        }
    }
}

/// Some key from index `i` on is computed (not `Maximal`).
pub open spec fn any_ranked_from(s: Seq<Candidate>, i: int) -> bool
    decreases s.len() - i,
{
    if i < 0 || i >= s.len() {
        false
    } else {
        s[i].key is Ranked || any_ranked_from(s, i + 1)
    }
}

/// Whether key `k` is worst, given the least nonzero rank and whether any
/// computed key is held.
pub open spec fn worst_given(k: SampleKey, lo: Option<u64>, any_ranked: bool) -> bool {
    match k {
        SampleKey::Ranked(x) => x == 0 || lo == Some(x),
        SampleKey::Maximal => !any_ranked,
    }
}

/// What `min_rank_from` and `any_ranked_from` say of the keys from `i` on.
pub proof fn lemma_summary(s: Seq<Candidate>, i: int)
    requires
        0 <= i <= s.len(),
    ensures
        forall|k: int|
            i <= k < s.len() && (#[trigger] s[k].key) is Ranked && s[k].key->Ranked_0 != 0 ==> (
            min_rank_from(s, i) is Some && min_rank_from(s, i)->Some_0 <= s[k].key->Ranked_0),
        min_rank_from(s, i) is Some ==> min_rank_from(s, i)->Some_0 != 0 && exists|k: int|
            i <= k < s.len() && s[k].key == SampleKey::Ranked(min_rank_from(s, i)->Some_0),
        any_ranked_from(s, i) <==> exists|k: int| i <= k < s.len() && #[trigger] s[k].key is Ranked,
    decreases s.len() - i,
{
    if i < s.len() {
        lemma_summary(s, i + 1);
        if min_rank_from(s, i) is Some {
            if min_rank_from(s, i + 1) != min_rank_from(s, i) {
                assert(s[i].key == SampleKey::Ranked(min_rank_from(s, i)->Some_0));
            } else {
                let m = min_rank_from(s, i)->Some_0;
                let k = choose|k: int| i + 1 <= k < s.len() && s[k].key == SampleKey::Ranked(m);
                assert(s[k].key == SampleKey::Ranked(m));
            }
        }
        if any_ranked_from(s, i + 1) {
            let k = choose|k: int| i + 1 <= k < s.len() && #[trigger] s[k].key is Ranked;
            assert(s[k].key is Ranked);
        }
    }
}

/// A candidate is worst exactly when `worst_given` says so of its key.
pub proof fn lemma_worst_given(s: Seq<Candidate>, j: int)
    requires
        0 <= j < s.len(),
    ensures
        is_worst(s, j) <==> worst_given(s[j].key, min_rank_from(s, 0), any_ranked_from(s, 0)),
{
    lemma_summary(s, 0);
    let lo = min_rank_from(s, 0);
    match s[j].key {
        SampleKey::Ranked(x) => {
            if x != 0 && lo != Some(x) {
                assert(s[j].key is Ranked && s[j].key->Ranked_0 != 0);
                let m = lo->Some_0;
                let k = choose|k: int| 0 <= k < s.len() && s[k].key == SampleKey::Ranked(m);
                assert(key_lt(s[k].key, s[j].key));
            }
            if x != 0 && lo == Some(x) {
                assert forall|k: int| 0 <= k < s.len() implies !key_lt(#[trigger] s[k].key, s[j].key) by {
                    if s[k].key is Ranked && s[k].key->Ranked_0 != 0 {
                        assert(s[k].key is Ranked && s[k].key->Ranked_0 != 0);
                    }
                }
            }
        },
        SampleKey::Maximal => {
            if any_ranked_from(s, 0) {
                let k = choose|k: int| 0 <= k < s.len() && #[trigger] s[k].key is Ranked;
                assert(key_lt(s[k].key, s[j].key));
            } else {
                assert forall|k: int| 0 <= k < s.len() implies !key_lt(#[trigger] s[k].key, s[j].key) by {
                    if s[k].key is Ranked {
                        assert(exists|k: int| 0 <= k < s.len() && #[trigger] s[k].key is Ranked);
                    }
                }
            }
        },
    }
}

/// A nonempty holding has a worst candidate.
pub proof fn lemma_worst_exists(s: Seq<Candidate>)
    requires
        s.len() > 0,
    ensures
        worst_count_from(s, 0) > 0,
{
    lemma_summary(s, 0);
    let j = if min_rank_from(s, 0) is Some {
        choose|k: int| 0 <= k < s.len() && s[k].key == SampleKey::Ranked(min_rank_from(s, 0)->Some_0)
    } else if any_ranked_from(s, 0) {
        choose|k: int| 0 <= k < s.len() && #[trigger] s[k].key is Ranked
    } else {
        0
    };
    if min_rank_from(s, 0) is None && any_ranked_from(s, 0) {
        if s[j].key is Ranked && s[j].key->Ranked_0 != 0 {
            assert(s[j].key is Ranked && s[j].key->Ranked_0 != 0);
        }
    }
    lemma_worst_given(s, j);
    lemma_count_from(s, 0, j);
}

/// A worst index at or after `i` makes the count from `i` positive.
proof fn lemma_count_from(s: Seq<Candidate>, i: int, j: int)
    requires
        0 <= i <= j,
        is_worst(s, j),
    ensures
        worst_count_from(s, i) > 0,
    decreases j - i,
{
    if i < j {
        lemma_count_from(s, i + 1, j);
    }
}

/// With fewer than `worst_count_from(s, i)` to skip, `nth_worst` finds a worst index.
pub proof fn lemma_nth_worst(s: Seq<Candidate>, t: nat, i: int)
    requires
        0 <= i,
        t < worst_count_from(s, i),
    ensures
        i <= nth_worst(s, t, i) < s.len(),
        is_worst(s, nth_worst(s, t, i)),
    decreases s.len() - i,
{
    if i < s.len() {
        if is_worst(s, i) {
            if t > 0 {
                lemma_nth_worst(s, (t - 1) as nat, i + 1);
            }
        } else {
            lemma_nth_worst(s, t, i + 1);
        }
    }
}

/// The victim is in range and no key held is strictly worse than its key.
pub proof fn lemma_victim(s: Seq<Candidate>, pick: usize)
    requires
        s.len() > 0,
    ensures
        0 <= victim_of(s, pick) < s.len(),
        is_worst(s, victim_of(s, pick)),
        forall|j: int| 0 <= j < s.len() ==> !key_lt(#[trigger] s[j].key, s[victim_of(s, pick)].key),
{
    lemma_worst_exists(s);
    let n = worst_count_from(s, 0);
    assert(pick as nat % n < n) by (nonlinear_arith)
        requires
            n > 0,
    ;
    lemma_nth_worst(s, (pick as nat % n) as nat, 0);
}

/// The number of candidates in `s` whose key is `Maximal`.
pub open spec fn count_maximal(s: Seq<Candidate>) -> nat
    decreases s.len(),
{
    if s.len() == 0 {
        0
    } else {
        count_maximal(s.drop_last()) + if s.last().key is Maximal {
            1nat
        } else {
            0nat
        }
    }
}

/// Executable form of `worst_given`.
fn worst_key(k: SampleKey, lo: Option<u64>, any_ranked: bool) -> (r: bool)
    ensures
        r == worst_given(k, lo, any_ranked),
{
    match k {
        SampleKey::Ranked(x) => x == 0 || lo == Some(x),
        SampleKey::Maximal => !any_ranked,
    }
}

/// The selector with its capacity and the candidates it holds.
pub struct BoundedSelector {
    pub capacity: usize,
    pub items: Vec<Candidate>,
}

impl BoundedSelector {
    /// Never more candidates than the capacity.
    pub open spec fn wf(&self) -> bool {
        self.items@.len() <= self.capacity
    }

    /// The candidates held.
    pub open spec fn held(&self) -> Seq<Candidate> {
        self.items@
    }

    /// An empty selector of the given capacity.
    pub fn new(capacity: usize) -> (r: BoundedSelector)
        ensures
            r.wf(),
            r.capacity == capacity,
            r.held() == Seq::<Candidate>::empty(),
    {
        BoundedSelector { capacity, items: Vec::new() }
    }

    /// The number of candidates held.
    pub fn len(&self) -> (r: usize)
        ensures
            r == self.held().len(),
    {
        self.items.len()
    }

    /// Index of the candidate to be displaced, as `pick` chooses it.
    fn victim(&self, pick: usize) -> (r: usize)
        requires
            self.items@.len() > 0,
        ensures
            r == victim_of(self.items@, pick),
    {
        let ghost s = self.items@;
        let n = self.items.len();
        // The least nonzero rank, and whether any computed key is held.
        let mut lo: Option<u64> = None;
        let mut any_ranked = false;
        let mut i: usize = n;
        while i > 0
            invariant
                0 <= i <= n == s.len(),
                s == self.items@,
                lo == min_rank_from(s, i as int),
                any_ranked == any_ranked_from(s, i as int),
            decreases i,
        {
            i = i - 1;
            match self.items[i].key {
                SampleKey::Ranked(x) => {
                    if x != 0 && (lo.is_none() || x < lo.unwrap()) {
                        lo = Some(x);
                    }
                    any_ranked = true;
                },
                SampleKey::Maximal => {},
            }
        }
        // The number of candidates tied for worst.
        let mut count: usize = 0;
        let mut i: usize = n;
        while i > 0
            invariant
                0 <= i <= n == s.len(),
                s == self.items@,
                lo == min_rank_from(s, 0),
                any_ranked == any_ranked_from(s, 0),
                count == worst_count_from(s, i as int),
                count <= n - i,
            decreases i,
        {
            i = i - 1;
            proof {
                lemma_worst_given(s, i as int);
            }
            if worst_key(self.items[i].key, lo, any_ranked) {
                count = count + 1;
            }
        }
        proof {
            lemma_worst_exists(s);
        }
        let mut t: usize = pick % count;
        assert(t < count);
        let ghost target = nth_worst(s, t as nat, 0);
        assert(target == victim_of(s, pick));
        let mut i: usize = 0;
        proof {
            lemma_nth_worst(s, t as nat, 0);
        }
        while i < n
            invariant
                0 <= i <= n == s.len(),
                s == self.items@,
                lo == min_rank_from(s, 0),
                any_ranked == any_ranked_from(s, 0),
                target == victim_of(s, pick),
                nth_worst(s, t as nat, i as int) == target,
                t < worst_count_from(s, i as int),
            decreases n - i,
        {
            proof {
                lemma_worst_given(s, i as int);
                lemma_nth_worst(s, t as nat, i as int);
            }
            if worst_key(self.items[i].key, lo, any_ranked) {
                if t == 0 {
                    assert(is_worst(s, i as int));
                    assert(nth_worst(s, 0, i as int) == i);
                    assert(i == target);
                    assert(target == victim_of(self.items@, pick));
                    return i;
                }
                t = t - 1;
            }
            i = i + 1;
        }
        i
    }

    /// Whether offering a candidate with key `k` would be settled by a coin:
    /// the selector is full and `k` ties with the victim that `pick` chooses.
    pub fn tie_with(&self, k: SampleKey, pick: usize) -> (r: bool)
        requires
            self.wf(),
        ensures
            r == (self.held().len() == self.capacity && self.held().len() > 0 && key_tie(
                self.held()[victim_of(self.held(), pick)].key,
                k,
            )),
    {
        if self.items.len() < self.capacity || self.items.len() == 0 {
            false
        } else {
            let m = self.victim(pick);
            proof {
                lemma_victim(self.items@, pick);
            }
            let v = self.items[m].key;
            !key_less(v, k) && !key_less(k, v)
        }
    }

    /// Offers `c`: kept while there is room; otherwise it displaces the
    /// victim that `d.pick` chooses among those tied for worst, if its key is
    /// better, or tied with the victim's (equal, or one of them NaN) and
    /// `d.coin` is set.
    pub fn offer(&mut self, c: Candidate, d: Draw)
        requires
            old(self).wf(),
        ensures
            final(self).wf(),
            final(self).capacity == old(self).capacity,
            final(self).held() == offer_spec(old(self).held(), old(self).capacity as nat, c, d),
    {
        if self.items.len() < self.capacity {
            self.items.push(c);
        } else if self.items.len() > 0 {
            let m = self.victim(d.pick);
            proof {
                lemma_victim(self.items@, d.pick);
            }
            let v = self.items[m].key;
            if key_less(v, c.key) || (!key_less(v, c.key) && !key_less(c.key, v) && d.coin) {
                self.items[m] = c;
            }
        }
    }

    /// Hands out the candidates held.
    pub fn drain(self) -> (r: Vec<Candidate>)
        ensures
            r@ == self.held(),
    {
        self.items
    }
}

} // verus!
