//! The sampling engine: turns each arriving record into a candidate, or
//! drops it, or fails the run, and offers candidates to the bounded selector.
use vstd::prelude::*;

use crate::filter::{class_of, classify, first_position, listed, resolve_column, Class};
use crate::key::{check_weight, key_rank, weight_verdict, SampleKey, WeightProblem};
use crate::laws::{lemma_select_keeps_maximal, lemma_select_len, lemma_select_members};
use crate::selector::{count_maximal, offer_spec, select, BoundedSelector, Candidate, Draw};

verus! {

/// A configuration that cannot start a run.
#[derive(Clone, Copy, Debug, PartialEq, Eq, Structural)]
pub enum ConfigProblem {
    /// The sample count is zero.
    ZeroSampleCount,
    /// The named weight column is not in the header.
    UnknownWeightColumn,
    /// The named identifier column is not in the header.
    UnknownIdColumn,
    /// The header has no column, so there is no first one to take identifiers from.
    NoColumns,
}

/// Why a run fails.
#[derive(Clone, Copy, Debug, PartialEq, Eq, Structural)]
pub enum SampleError {
    /// Reported before any record is read.
    Configuration(ConfigProblem),
    /// The record that arrived at `arrival` has `found` fields, not `expected`.
    Schema { arrival: u64, expected: usize, found: usize },
    /// The record that arrived at `arrival` competes by weight and its weight,
    /// read from field `column` (`None`: no weight column, weight 1), cannot
    /// be used.
    Weight { arrival: u64, column: Option<usize>, problem: WeightProblem },
}

/// Relies on rand::random::<(usize, bool)>: an index and a coin drawn from
/// the thread-local generator.
#[verifier::external_body]
fn draw() -> (r: Draw) {
    let (pick, coin) = rand::random::<(usize, bool)>();
    Draw { pick, coin }
}

/// A column is named and the header does not hold it.
pub open spec fn name_missing(headers: Seq<String>, name: Option<String>) -> bool {
    match name {
        Some(n) => !listed(headers, n@),
        None => false,
    }
}

/// What is wrong with a configuration, checked in this order: the sample
/// count, the weight column, the identifier column.
pub open spec fn config_verdict(
    sample_count: usize,
    headers: Seq<String>,
    weight_name: Option<String>,
    id_name: Option<String>,
) -> Option<ConfigProblem> {
    if sample_count == 0 {
        Some(ConfigProblem::ZeroSampleCount)
    } else if name_missing(headers, weight_name) {
        Some(ConfigProblem::UnknownWeightColumn)
    } else if name_missing(headers, id_name) {
        Some(ConfigProblem::UnknownIdColumn)
    } else if id_name is None && headers.len() == 0 {
        Some(ConfigProblem::NoColumns)
    } else {
        None
    }
}

/// One sampling run.
pub struct SamplingEngine {
    /// The number of fields of every record.
    pub width: usize,
    /// The field that holds a record's identifier.
    pub id_col: usize,
    /// The field that holds a record's weight, if any.
    pub weight_col: Option<usize>,
    /// Identifiers of records that are always kept.
    pub forced: Vec<String>,
    /// Identifiers of records that are never kept.
    pub exclude: Vec<String>,
    /// The candidates held so far.
    pub selector: BoundedSelector,
    /// The number of records that have arrived.
    pub arrivals: u64,
    /// The first error of the run, if there was one.
    pub failure: Option<SampleError>,
    /// Every candidate offered so far, in order.
    pub offered: Ghost<Seq<Candidate>>,
    /// The draws that went with each offer.
    pub draws: Ghost<Seq<Draw>>,
}

impl SamplingEngine {
    /// The sample count.
    pub open spec fn cap(&self) -> nat {
        self.selector.capacity as nat
    }

    /// The candidates held.
    pub open spec fn held(&self) -> Seq<Candidate> {
        self.selector.held()
    }

    /// The identifier of record `fields`.
    pub open spec fn id_of(&self, fields: Seq<String>) -> Seq<char> {
        fields[self.id_col as int]@
    }

    /// How a record with these fields is treated.
    pub open spec fn class_of_fields(&self, fields: Seq<String>) -> Class {
        class_of(self.id_of(fields), self.forced@, self.exclude@)
    }

    /// What becomes of the next record: a run error, `None` when it is
    /// dropped, or the key under which it competes. `weight` is the bit
    /// pattern of its weight (`None`: absent or unreadable) and `key_bits`
    /// that of the key computed from that weight.
    pub open spec fn judgement(&self, fields: Seq<String>, weight: Option<u64>, key_bits: u64) -> Result<
        Option<SampleKey>,
        SampleError,
    > {
        if fields.len() != self.width {
            Err(SampleError::Schema { arrival: self.arrivals, expected: self.width, found: fields.len() as usize })
        } else {
            match self.class_of_fields(fields) {
                Class::Excluded => Ok(None),
                Class::Forced => Ok(Some(SampleKey::Maximal)),
                Class::Normal => match weight_verdict(weight) {
                    Some(p) => Err(SampleError::Weight { arrival: self.arrivals, column: self.weight_col, problem: p }),
                    None => Ok(Some(SampleKey::Ranked(key_rank(key_bits)))),
                },
            }
        }
    }

    /// Every offered candidate has a full record, is not excluded, and has a
    /// `Maximal` key exactly when it is forced in; what is held is what the
    /// selector makes of the offers.
    pub open spec fn wf(&self) -> bool {
        &&& self.selector.wf()
        &&& self.selector.capacity > 0
        &&& self.id_col < self.width
        &&& self.offered@.len() == self.draws@.len()
        &&& self.held() == select(self.offered@, self.draws@, self.cap())
        &&& forall|i: int|
            0 <= i < self.offered@.len() ==> {
                let c = #[trigger] self.offered@[i];
                &&& c.fields@.len() == self.width
                &&& !listed(self.exclude@, self.id_of(c.fields@))
                &&& (c.key is Maximal <==> listed(self.forced@, self.id_of(c.fields@)))
            }
    }

    /// `self` and `r` are what carrying out `judged` on record `fields` makes
    /// of `prev`, with draws `d` for the offer: an error or a dropped record
    /// leaves the candidates as they were, and the first error of the run is
    /// kept; a key makes a candidate of the
    /// record, with the record's arrival, and offers it.
    pub open spec fn outcome(
        &self,
        prev: &SamplingEngine,
        fields: Vec<String>,
        judged: Result<Option<SampleKey>, SampleError>,
        d: Draw,
        r: Result<(), SampleError>,
    ) -> bool {
        match judged {
            Err(e) => {
                &&& r == Err::<(), SampleError>(e)
                &&& self.held() == prev.held()
                &&& self.offered@ == prev.offered@
                &&& self.failure == if prev.failure is Some {
                    prev.failure
                } else {
                    Some(e)
                }
            },
            Ok(None) => r == Ok::<(), SampleError>(()) && self.held() == prev.held() && self.offered@ == prev.offered@
                && self.failure == prev.failure,
            Ok(Some(k)) => {
                let c = Candidate { key: k, arrival: prev.arrivals, fields };
                &&& r == Ok::<(), SampleError>(())
                &&& self.failure == prev.failure
                &&& self.offered@ == prev.offered@.push(c)
                &&& self.held() == offer_spec(prev.held(), prev.cap(), c, d)
            },
        }
    }

    /// The configuration is that of `o`.
    pub open spec fn same_config(&self, o: &SamplingEngine) -> bool {
        &&& self.width == o.width
        &&& self.id_col == o.id_col
        &&& self.weight_col == o.weight_col
        &&& self.forced@ == o.forced@
        &&& self.exclude@ == o.exclude@
        &&& self.selector.capacity == o.selector.capacity
    }

    /// Starts a run that keeps `sample_count` records of a stream with the
    /// given header. The weight and identifier columns are looked up by name;
    /// without a name the weight is 1 and the identifier is the first field.
    pub fn new(
        sample_count: usize,
        headers: &Vec<String>,
        weight_name: Option<String>,
        id_name: Option<String>,
        forced: Vec<String>,
        exclude: Vec<String>,
    ) -> (r: Result<SamplingEngine, SampleError>)
        ensures
            r is Ok <==> config_verdict(sample_count, headers@, weight_name, id_name) is None,
            config_verdict(sample_count, headers@, weight_name, id_name) matches Some(p) ==> r == Err::<
                SamplingEngine,
                SampleError,
            >(SampleError::Configuration(p)),
            r matches Ok(e) ==> {
                &&& e.wf()
                &&& e.cap() == sample_count
                &&& e.width == headers@.len()
                &&& e.forced@ == forced@
                &&& e.exclude@ == exclude@
                &&& e.arrivals == 0
                &&& e.failure is None
                &&& e.offered@ == Seq::<Candidate>::empty()
                &&& e.held() == Seq::<Candidate>::empty()
                &&& (weight_name matches Some(w) ==> e.weight_col matches Some(c) && first_position(
                    headers@,
                    w@,
                    c as int,
                ))
                &&& (weight_name is None ==> e.weight_col is None)
                &&& (id_name matches Some(n) ==> first_position(headers@, n@, e.id_col as int))
                &&& (id_name is None ==> e.id_col == 0)
            },
    {
        if sample_count == 0 {
            return Err(SampleError::Configuration(ConfigProblem::ZeroSampleCount));
        }
        let weight_col = match &weight_name {
            Some(w) => match resolve_column(headers, w) {
                Some(c) => Some(c),
                None => {
                    return Err(SampleError::Configuration(ConfigProblem::UnknownWeightColumn));
                },
            },
            None => None,
        };
        let id_col = match &id_name {
            Some(n) => match resolve_column(headers, n) {
                Some(c) => c,
                None => {
                    return Err(SampleError::Configuration(ConfigProblem::UnknownIdColumn));
                },
            },
            None => {
                if headers.len() == 0 {
                    return Err(SampleError::Configuration(ConfigProblem::NoColumns));
                }
                0
            },
        };
        Ok(SamplingEngine {
            width: headers.len(),
            id_col,
            weight_col,
            forced,
            exclude,
            selector: BoundedSelector::new(sample_count),
            arrivals: 0,
            failure: None,
            offered: Ghost(Seq::empty()),
            draws: Ghost(Seq::empty()),
        })
    }

    /// The field that holds the weight, if a weight column was named.
    pub fn weight_column(&self) -> (r: Option<usize>)
        ensures
            r == self.weight_col,
    {
        self.weight_col
    }

    /// The number of candidates held.
    pub fn held_count(&self) -> (r: usize)
        ensures
            r == self.held().len(),
    {
        self.selector.len()
    }

    /// Executable form of `judgement`.
    fn judge(&self, fields: &Vec<String>, weight: Option<u64>, key_bits: u64) -> (r: Result<
        Option<SampleKey>,
        SampleError,
    >)
        requires
            self.wf(),
        ensures
            r == self.judgement(fields@, weight, key_bits),
    {
        if fields.len() != self.width {
            return Err(SampleError::Schema { arrival: self.arrivals, expected: self.width, found: fields.len() });
        }
        match classify(&fields[self.id_col], &self.forced, &self.exclude) {
            Class::Excluded => Ok(None),
            Class::Forced => Ok(Some(SampleKey::Maximal)),
            Class::Normal => match check_weight(weight) {
                Some(p) => Err(SampleError::Weight { arrival: self.arrivals, column: self.weight_col, problem: p }),
                None => Ok(Some(SampleKey::from_bits(key_bits))),
            },
        }
    }

    /// Carries out a judgement made on `fields`.
    fn apply(&mut self, fields: Vec<String>, judged: Result<Option<SampleKey>, SampleError>, d: Draw) -> (r:
        Result<(), SampleError>)
        requires
            old(self).wf(),
            old(self).arrivals < u64::MAX,
            judged matches Ok(Some(k)) ==> fields@.len() == old(self).width && !listed(
                old(self).exclude@,
                old(self).id_of(fields@),
            ) && (k is Maximal <==> listed(old(self).forced@, old(self).id_of(fields@))),
        ensures
            final(self).wf(),
            final(self).same_config(old(self)),
            final(self).arrivals == old(self).arrivals + 1,
            final(self).outcome(old(self), fields, judged, d, r),
    {
        let arrival = self.arrivals;
        self.arrivals = arrival + 1;
        match judged {
            Err(e) => {
                if self.failure.is_none() {
                    self.failure = Some(e);
                }
                Err(e)
            },
            Ok(None) => Ok(()),
            Ok(Some(k)) => {
                let c = Candidate { key: k, arrival, fields };
                let ghost old_offered = self.offered@;
                let ghost old_draws = self.draws@;
                proof {
                    self.offered = Ghost(old_offered.push(c));
                    self.draws = Ghost(old_draws.push(d));
                    assert(self.offered@.drop_last() =~= old_offered);
                    assert(self.draws@.drop_last() =~= old_draws);
                }
                self.selector.offer(c, d);
                assert forall|i: int| 0 <= i < self.offered@.len() implies {
                    let c = #[trigger] self.offered@[i];
                    &&& c.fields@.len() == self.width
                    &&& !listed(self.exclude@, self.id_of(c.fields@))
                    &&& (c.key is Maximal <==> listed(self.forced@, self.id_of(c.fields@)))
                } by {
                    if i < old_offered.len() {
                        assert(self.offered@[i] == old_offered[i]);
                    }
                }
                Ok(())
            },
        }
    }

    /// Takes in the next record. `weight` is the bit pattern of its weight
    /// (`None`: absent or unreadable), `key_bits` that of the key computed
    /// from that weight, and `d` chooses among the candidates tied for worst
    /// and settles a tie with the one chosen. A record with the wrong number of fields, or one that competes
    /// by weight with a weight that is zero or otherwise unusable, fails the
    /// run; an excluded one is dropped.
    pub fn push(&mut self, fields: Vec<String>, weight: Option<u64>, key_bits: u64, d: Draw) -> (r:
        Result<(), SampleError>)
        requires
            old(self).wf(),
            old(self).arrivals < u64::MAX,
        ensures
            final(self).wf(),
            final(self).same_config(old(self)),
            final(self).arrivals == old(self).arrivals + 1,
            final(self).outcome(old(self), fields, old(self).judgement(fields@, weight, key_bits), d, r),
    {
        let judged = self.judge(&fields, weight, key_bits);
        self.apply(fields, judged, d)
    }

    /// As `push`, but draws `d` from the thread-local generator, and only
    /// when the record competes and the selector is full.
    pub fn push_drawn(&mut self, fields: Vec<String>, weight: Option<u64>, key_bits: u64) -> (r: Result<
        (),
        SampleError,
    >)
        requires
            old(self).wf(),
            old(self).arrivals < u64::MAX,
        ensures
            final(self).wf(),
            final(self).same_config(old(self)),
            final(self).arrivals == old(self).arrivals + 1,
            exists|d: Draw|
                final(self).outcome(old(self), fields, old(self).judgement(fields@, weight, key_bits), d, r),
    {
        let judged = self.judge(&fields, weight, key_bits);
        let d = match judged {
            Ok(Some(_)) => if self.selector.len() >= self.selector.capacity {
                draw()
            } else {
                Draw { pick: 0, coin: false }
            },
            _ => Draw { pick: 0, coin: false },
        };
        let r = self.apply(fields, judged, d);
        r
    }

    /// Ends the run. A run in which some record failed gives its first
    /// error and no record. Otherwise it hands out the candidates held: as
    /// many as the smaller of the sample count and the number of candidates
    /// offered; none excluded; and, when no more records were forced in than
    /// the sample count, every one of those.
    pub fn finish(self) -> (r: Result<Vec<Candidate>, SampleError>)
        requires
            self.wf(),
        ensures
            self.failure matches Some(e) ==> r == Err::<Vec<Candidate>, SampleError>(e),
            self.failure is None ==> r is Ok,
            r matches Ok(v) ==> {
                &&& v@ == self.held()
                &&& v@ == select(self.offered@, self.draws@, self.cap())
                &&& v@.len() == if self.offered@.len() < self.cap() {
                    self.offered@.len()
                } else {
                    self.cap()
                }
                &&& forall|i: int|
                    0 <= i < v@.len() ==> self.offered@.contains(#[trigger] v@[i]) && !listed(
                        self.exclude@,
                        self.id_of(v@[i].fields@),
                    )
                &&& count_maximal(self.offered@) <= self.cap() ==> forall|i: int|
                    0 <= i < self.offered@.len() && listed(
                        self.forced@,
                        self.id_of((#[trigger] self.offered@[i]).fields@),
                    ) ==> v@.contains(self.offered@[i])
            },
    {
        proof {
            lemma_select_len(self.offered@, self.draws@, self.cap());
            lemma_select_members(self.offered@, self.draws@, self.cap());
            if count_maximal(self.offered@) <= self.cap() {
                lemma_select_keeps_maximal(self.offered@, self.draws@, self.cap());
            }
            let s = self.held();
            assert forall|i: int| 0 <= i < s.len() implies self.offered@.contains(#[trigger] s[i])
                && !listed(self.exclude@, self.id_of(s[i].fields@)) by {
                assert(s.contains(s[i]));
                let j = choose|j: int| 0 <= j < self.offered@.len() && self.offered@[j] == s[i];
                assert(self.offered@[j] == s[i]);
            }
        }
        match self.failure {
            Some(e) => Err(e),
            None => Ok(self.selector.drain()),
        }
    }
}

} // verus!
