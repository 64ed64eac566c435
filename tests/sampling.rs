use rand::rngs::StdRng;
use rand::{Rng, SeedableRng};
use wsample::config::{DataProc, Settings};
use wsample::engine::{ConfigProblem, SampleError, SamplingEngine};
use wsample::filter::{classify, is_listed, resolve_column, Class};
use wsample::key::{check_weight, key_less, SampleKey, WeightProblem, UNIT_WEIGHT};
use wsample::selector::{BoundedSelector, Candidate, Draw};

fn strings(v: &[&str]) -> Vec<String> {
    v.iter().map(|s| s.to_string()).collect()
}

fn key_bits(w: f64, u: f64) -> u64 {
    ((1.0 / w) * u.log2()).to_bits()
}

fn engine(k: usize, forced: &[&str], exclude: &[&str]) -> SamplingEngine {
    SamplingEngine::new(
        k,
        &strings(&["id", "w"]),
        Some("w".to_string()),
        None,
        strings(forced),
        strings(exclude),
    )
    .unwrap()
}

/// Runs one sample over `(id, weight)` records with draws from `rng`.
fn run(k: usize, forced: &[&str], exclude: &[&str], recs: &[(&str, f64)], rng: &mut StdRng) -> Vec<String> {
    let mut e = engine(k, forced, exclude);
    for (id, w) in recs {
        let u: f64 = rng.gen();
        let d = Draw { pick: rng.gen(), coin: rng.gen() };
        e.push(strings(&[id, &w.to_string()]), Some(w.to_bits()), key_bits(*w, u), d).unwrap();
    }
    let mut ids: Vec<String> = e.finish().unwrap().into_iter().map(|c| c.fields[0].clone()).collect();
    ids.sort();
    ids
}

#[test]
fn three_equal_weights_give_every_pair() {
    let mut rng = StdRng::seed_from_u64(7);
    let recs = [("A", 1.0), ("B", 1.0), ("C", 1.0)];
    let mut ab = 0;
    let mut ac = 0;
    let mut bc = 0;
    for _ in 0..3000 {
        let out = run(2, &[], &[], &recs, &mut rng);
        assert_eq!(out.len(), 2);
        match (out[0].as_str(), out[1].as_str()) {
            ("A", "B") => ab += 1,
            ("A", "C") => ac += 1,
            ("B", "C") => bc += 1,
            other => panic!("unexpected sample {:?}", other),
        }
    }
    for n in [ab, ac, bc] {
        assert!(n > 850 && n < 1150, "pair counts {} {} {}", ab, ac, bc);
    }
}

#[test]
fn forced_record_beats_heavy_one() {
    let mut rng = StdRng::seed_from_u64(11);
    for _ in 0..500 {
        let out = run(1, &["X"], &[], &[("A", 1000.0), ("X", 0.0001)], &mut rng);
        assert_eq!(out, strings(&["X"]));
    }
}

#[test]
fn excluded_record_never_sampled() {
    let mut rng = StdRng::seed_from_u64(13);
    for _ in 0..300 {
        let out = run(3, &[], &["B"], &[("A", 1.0), ("B", 1.0), ("C", 1.0), ("D", 1.0)], &mut rng);
        assert_eq!(out, strings(&["A", "C", "D"]));
    }
}

#[test]
fn excluded_even_with_huge_weight_or_forced() {
    let mut rng = StdRng::seed_from_u64(17);
    for _ in 0..100 {
        let out = run(2, &["B"], &["B"], &[("A", 1.0), ("B", 1e300), ("C", 1.0)], &mut rng);
        assert_eq!(out, strings(&["A", "C"]));
    }
}

#[test]
fn size_is_min_of_count_and_offered() {
    let mut rng = StdRng::seed_from_u64(19);
    let recs = [("A", 1.0), ("B", 2.0), ("C", 3.0), ("D", 4.0), ("E", 5.0)];
    assert_eq!(run(3, &[], &[], &recs, &mut rng).len(), 3);
    assert_eq!(run(10, &[], &[], &recs, &mut rng).len(), 5);
    assert_eq!(run(10, &[], &["A", "B"], &recs, &mut rng).len(), 3);
    assert_eq!(run(4, &["C"], &["A", "B"], &recs, &mut rng).len(), 3);
    assert_eq!(run(2, &[], &[], &[], &mut rng).len(), 0);
}

#[test]
fn forced_records_fill_places_first() {
    let mut rng = StdRng::seed_from_u64(23);
    let recs = [("A", 50.0), ("F1", 0.001), ("B", 50.0), ("F2", 0.001), ("C", 50.0)];
    for _ in 0..200 {
        let out = run(3, &["F1", "F2"], &[], &recs, &mut rng);
        assert_eq!(out.len(), 3);
        assert!(out.contains(&"F1".to_string()));
        assert!(out.contains(&"F2".to_string()));
    }
    let out = run(2, &["F1", "F2"], &[], &recs, &mut rng);
    assert_eq!(out, strings(&["F1", "F2"]));
}

#[test]
fn same_draws_give_same_sample() {
    let recs = [("A", 1.0), ("B", 2.0), ("C", 0.5), ("D", 3.0), ("E", 1.0), ("F", 1.0)];
    for seed in 0..20u64 {
        let first = run(3, &[], &[], &recs, &mut StdRng::seed_from_u64(seed));
        let second = run(3, &[], &[], &recs, &mut StdRng::seed_from_u64(seed));
        assert_eq!(first, second);
    }
}

#[test]
fn heavier_record_chosen_more_often() {
    let mut rng = StdRng::seed_from_u64(29);
    let recs = [("A", 2.0), ("B", 1.0), ("C", 1.0)];
    let mut a = 0;
    let mut b = 0;
    for _ in 0..4000 {
        let out = run(1, &[], &[], &recs, &mut rng);
        if out[0] == "A" {
            a += 1;
        } else if out[0] == "B" {
            b += 1;
        }
    }
    assert!(a > b, "A chosen {} times, B {} times", a, b);
}

#[test]
fn zero_weight_fails_the_run() {
    let mut e = engine(2, &[], &[]);
    assert!(e.push(strings(&["A", "1"]), Some(1.0f64.to_bits()), key_bits(1.0, 0.5), Draw { pick: 0, coin: false }).is_ok());
    let r = e.push(strings(&["B", "0"]), Some(0.0f64.to_bits()), key_bits(0.0, 0.5), Draw { pick: 0, coin: false });
    assert_eq!(r, Err(SampleError::Weight { arrival: 1, column: Some(1), problem: WeightProblem::Zero }));
    let r = e.push(strings(&["C", "1"]), Some(1.0f64.to_bits()), key_bits(1.0, 0.5), Draw { pick: 0, coin: false });
    assert!(r.is_ok());
    assert_eq!(e.finish().unwrap_err(), SampleError::Weight { arrival: 1, column: Some(1), problem: WeightProblem::Zero });
}

#[test]
fn negative_zero_weight_is_zero() {
    let mut e = engine(2, &[], &[]);
    let r = e.push(strings(&["B", "-0"]), Some((-0.0f64).to_bits()), 0, Draw { pick: 0, coin: false });
    assert_eq!(r, Err(SampleError::Weight { arrival: 0, column: Some(1), problem: WeightProblem::Zero }));
}

#[test]
fn zero_weight_of_forced_record_is_fine() {
    let mut e = engine(2, &["B"], &[]);
    assert!(e.push(strings(&["B", "0"]), Some(0.0f64.to_bits()), 0, Draw { pick: 0, coin: false }).is_ok());
    let out = e.finish().unwrap();
    assert_eq!(out.len(), 1);
    assert_eq!(out[0].key, SampleKey::Maximal);
    assert_eq!(out[0].arrival, 0);
}

#[test]
fn unusable_weights_fail() {
    for w in [None, Some((-1.0f64).to_bits()), Some(f64::NAN.to_bits()), Some(f64::INFINITY.to_bits())] {
        let mut e = engine(2, &[], &[]);
        let r = e.push(strings(&["A", "x"]), w, 0, Draw { pick: 0, coin: false });
        assert_eq!(r, Err(SampleError::Weight { arrival: 0, column: Some(1), problem: WeightProblem::Unusable }));
    }
}

#[test]
fn wrong_field_count_is_schema_error() {
    let mut e = engine(2, &[], &[]);
    assert!(e.push(strings(&["A", "1"]), Some(UNIT_WEIGHT), key_bits(1.0, 0.5), Draw { pick: 0, coin: false }).is_ok());
    let r = e.push(strings(&["B"]), Some(UNIT_WEIGHT), key_bits(1.0, 0.5), Draw { pick: 0, coin: false });
    assert_eq!(r, Err(SampleError::Schema { arrival: 1, expected: 2, found: 1 }));
}

#[test]
fn configuration_errors() {
    let h = strings(&["id", "w"]);
    let r = SamplingEngine::new(0, &h, None, None, vec![], vec![]);
    assert_eq!(r.err(), Some(SampleError::Configuration(ConfigProblem::ZeroSampleCount)));
    let r = SamplingEngine::new(1, &h, Some("weight".to_string()), None, vec![], vec![]);
    assert_eq!(r.err(), Some(SampleError::Configuration(ConfigProblem::UnknownWeightColumn)));
    let r = SamplingEngine::new(1, &h, Some("w".to_string()), Some("name".to_string()), vec![], vec![]);
    assert_eq!(r.err(), Some(SampleError::Configuration(ConfigProblem::UnknownIdColumn)));
    let r = SamplingEngine::new(1, &vec![], None, None, vec![], vec![]);
    assert_eq!(r.err(), Some(SampleError::Configuration(ConfigProblem::NoColumns)));
}

#[test]
fn columns_resolved_by_name() {
    let h = strings(&["w", "id", "name"]);
    let e = SamplingEngine::new(1, &h, Some("w".to_string()), Some("name".to_string()), vec![], vec![]).unwrap();
    assert_eq!(e.weight_column(), Some(0));
    assert_eq!(e.id_col, 2);
    assert_eq!(e.width, 3);
    let e = SamplingEngine::new(1, &h, None, None, vec![], vec![]).unwrap();
    assert_eq!(e.weight_column(), None);
    assert_eq!(e.id_col, 0);
}

#[test]
fn identifier_taken_from_named_column() {
    let h = strings(&["w", "name"]);
    let mut e =
        SamplingEngine::new(1, &h, Some("w".to_string()), Some("name".to_string()), vec![], strings(&["B"])).unwrap();
    assert!(e.push(strings(&["5", "B"]), Some(5.0f64.to_bits()), key_bits(5.0, 0.9), Draw { pick: 0, coin: false }).is_ok());
    assert!(e.push(strings(&["1", "A"]), Some(1.0f64.to_bits()), key_bits(1.0, 0.1), Draw { pick: 0, coin: false }).is_ok());
    let out = e.finish().unwrap();
    assert_eq!(out.len(), 1);
    assert_eq!(out[0].fields, strings(&["1", "A"]));
    assert_eq!(out[0].arrival, 1);
}

#[test]
fn resolve_column_finds_first() {
    let h = strings(&["a", "b", "a"]);
    assert_eq!(resolve_column(&h, &"a".to_string()), Some(0));
    assert_eq!(resolve_column(&h, &"b".to_string()), Some(1));
    assert_eq!(resolve_column(&h, &"c".to_string()), None);
    assert!(is_listed(&h, &"b".to_string()));
    assert!(!is_listed(&vec![], &"b".to_string()));
}

#[test]
fn exclusion_wins_over_forcing() {
    let f = strings(&["X", "Y"]);
    let x = strings(&["Y", "Z"]);
    assert_eq!(classify(&"X".to_string(), &f, &x), Class::Forced);
    assert_eq!(classify(&"Y".to_string(), &f, &x), Class::Excluded);
    assert_eq!(classify(&"Z".to_string(), &f, &x), Class::Excluded);
    assert_eq!(classify(&"W".to_string(), &f, &x), Class::Normal);
}

#[test]
fn key_ranks_follow_float_order() {
    let vals = [f64::NEG_INFINITY, -1e300, -2.0, -1.0, -0.5, -1e-300, 0.0, 1e-300, 1.0, f64::INFINITY];
    for i in 0..vals.len() {
        for j in 0..vals.len() {
            let a = SampleKey::from_bits(vals[i].to_bits());
            let b = SampleKey::from_bits(vals[j].to_bits());
            assert_eq!(key_less(a, b), i < j, "{} vs {}", vals[i], vals[j]);
        }
    }
    assert_eq!(SampleKey::from_bits(0.0f64.to_bits()), SampleKey::Ranked(0x8000_0000_0000_0000));
    assert_eq!(SampleKey::from_bits((-0.0f64).to_bits()), SampleKey::from_bits(0.0f64.to_bits()));
    assert_eq!(SampleKey::from_bits(f64::NAN.to_bits()), SampleKey::Ranked(0));
    assert_eq!(SampleKey::from_bits((-1.0f64).to_bits()), SampleKey::Ranked(!(-1.0f64).to_bits()));
    let nan = SampleKey::from_bits(f64::NAN.to_bits());
    let low = SampleKey::from_bits(f64::NEG_INFINITY.to_bits());
    assert!(!key_less(nan, low) && !key_less(low, nan));
    assert!(key_less(nan, SampleKey::Maximal));
    assert!(key_less(SampleKey::from_bits(f64::INFINITY.to_bits()), SampleKey::Maximal));
    assert!(!key_less(SampleKey::Maximal, SampleKey::Maximal));
}

#[test]
fn weight_checks() {
    assert_eq!(check_weight(Some(UNIT_WEIGHT)), None);
    assert_eq!(UNIT_WEIGHT, 1.0f64.to_bits());
    assert_eq!(check_weight(Some(1e-320f64.to_bits())), None);
    assert_eq!(check_weight(Some(f64::MAX.to_bits())), None);
    assert_eq!(check_weight(Some(0.0f64.to_bits())), Some(WeightProblem::Zero));
    assert_eq!(check_weight(Some(f64::NEG_INFINITY.to_bits())), Some(WeightProblem::Unusable));
    assert_eq!(check_weight(Some((-3.0f64).to_bits())), Some(WeightProblem::Unusable));
    assert_eq!(check_weight(None), Some(WeightProblem::Unusable));
}

fn cand(key: SampleKey, arrival: u64) -> Candidate {
    Candidate { key, arrival, fields: vec![arrival.to_string()] }
}

#[test]
fn selector_replaces_worst() {
    let mut s = BoundedSelector::new(2);
    s.offer(cand(SampleKey::Ranked(5), 0), Draw { pick: 0, coin: false });
    s.offer(cand(SampleKey::Ranked(3), 1), Draw { pick: 0, coin: false });
    assert_eq!(s.len(), 2);
    s.offer(cand(SampleKey::Ranked(4), 2), Draw { pick: 0, coin: false });
    s.offer(cand(SampleKey::Ranked(1), 3), Draw { pick: 0, coin: true });
    let got: Vec<u64> = s.drain().iter().map(|c| c.arrival).collect();
    assert_eq!(got, vec![0, 2]);
}

#[test]
fn tie_settled_by_coin() {
    let mut s = BoundedSelector::new(1);
    s.offer(cand(SampleKey::Ranked(7), 0), Draw { pick: 0, coin: false });
    assert!(s.tie_with(SampleKey::Ranked(7), 0));
    assert!(!s.tie_with(SampleKey::Ranked(8), 0));
    s.offer(cand(SampleKey::Ranked(7), 1), Draw { pick: 0, coin: false });
    assert_eq!(s.items[0].arrival, 0);
    s.offer(cand(SampleKey::Ranked(7), 2), Draw { pick: 0, coin: true });
    assert_eq!(s.items[0].arrival, 2);
    let mut s = BoundedSelector::new(1);
    s.offer(cand(SampleKey::Maximal, 0), Draw { pick: 0, coin: false });
    s.offer(cand(SampleKey::Maximal, 1), Draw { pick: 0, coin: true });
    assert_eq!(s.items[0].arrival, 1);
}

#[test]
fn tie_between_equal_keys_in_engine() {
    for (coin, want) in [(false, "A"), (true, "B")] {
        let mut e = engine(1, &[], &[]);
        e.push(strings(&["A", "1"]), Some(UNIT_WEIGHT), key_bits(1.0, 0.25), Draw { pick: 0, coin: false }).unwrap();
        e.push(strings(&["B", "1"]), Some(UNIT_WEIGHT), key_bits(1.0, 0.25), Draw { pick: 0, coin: coin }).unwrap();
        let out = e.finish().unwrap();
        assert_eq!(out[0].fields[0], want);
    }
}

#[test]
fn drawn_coins_keep_the_bound() {
    let mut rng = StdRng::seed_from_u64(31);
    let mut e = engine(2, &["F"], &["Z"]);
    for id in ["A", "B", "F", "C", "Z", "D"] {
        let u: f64 = rng.gen();
        e.push_drawn(strings(&[id, "1"]), Some(UNIT_WEIGHT), key_bits(1.0, u)).unwrap();
        assert!(e.held_count() <= 2);
    }
    assert_eq!(e.arrivals, 6);
    let out = e.finish().unwrap();
    assert_eq!(out.len(), 2);
    assert!(out.iter().any(|c| c.fields[0] == "F"));
    assert!(out.iter().all(|c| c.fields[0] != "Z"));
}

#[test]
fn settings_start_a_run() {
    let h = strings(&["id", "w"]);
    let settings = Settings {
        sample_count: 2,
        weights: Some("w".to_string()),
        forced: strings(&["A"]),
        exclude: strings(&["B"]),
        id_col: Some("id".to_string()),
    };
    let p = DataProc::new(settings);
    assert_eq!(p.args.sample_count, 2);
    let e = p.process_args(&h).unwrap();
    assert_eq!(e.weight_column(), Some(1));
    assert_eq!(e.forced, strings(&["A"]));
    assert_eq!(e.exclude, strings(&["B"]));
    let bad = Settings { sample_count: 0, weights: None, forced: vec![], exclude: vec![], id_col: None };
    let r = DataProc::new(bad).process_args(&h);
    assert_eq!(r.err(), Some(SampleError::Configuration(ConfigProblem::ZeroSampleCount)));
}

#[test]
fn nan_key_tie_settled_by_coin() {
    for (coin, want) in [(false, 0u64), (true, 1u64)] {
        let mut s = BoundedSelector::new(1);
        s.offer(cand(SampleKey::from_bits((-1.0f64).to_bits()), 0), Draw { pick: 0, coin: false });
        let nan = SampleKey::from_bits(f64::NAN.to_bits());
        assert!(s.tie_with(nan, 0));
        s.offer(cand(nan, 1), Draw { pick: 0, coin });
        assert_eq!(s.items[0].arrival, want);
        s.offer(cand(SampleKey::from_bits((-1.0f64).to_bits()), 2), Draw { pick: 0, coin });
        assert_eq!(s.items[0].arrival, if coin { 2 } else { 0 });
    }
}

#[test]
fn victim_among_equal_worst_chosen_by_pick() {
    for (pick, evicted) in [(0usize, 0u64), (1, 1), (2, 0), (7, 1)] {
        let mut s = BoundedSelector::new(3);
        s.offer(cand(SampleKey::Ranked(5), 0), Draw { pick: 0, coin: false });
        s.offer(cand(SampleKey::Ranked(9), 1), Draw { pick: 0, coin: false });
        s.offer(cand(SampleKey::Ranked(5), 2), Draw { pick: 0, coin: false });
        s.offer(cand(SampleKey::Ranked(7), 3), Draw { pick, coin: false });
        let mut got: Vec<u64> = s.drain().iter().map(|c| c.arrival).collect();
        got.sort();
        let gone = if evicted == 0 { 0 } else { 2 };
        let want: Vec<u64> = [0, 1, 2, 3].into_iter().filter(|a| *a != gone).collect();
        assert_eq!(got, want, "pick {}", pick);
    }
}

#[test]
fn nan_held_is_among_the_worst() {
    let nan = SampleKey::from_bits(f64::NAN.to_bits());
    for (pick, gone) in [(0usize, 0u64), (1, 1)] {
        let mut s = BoundedSelector::new(3);
        s.offer(cand(nan, 0), Draw { pick: 0, coin: false });
        s.offer(cand(SampleKey::Ranked(5), 1), Draw { pick: 0, coin: false });
        s.offer(cand(SampleKey::Ranked(9), 2), Draw { pick: 0, coin: false });
        s.offer(cand(SampleKey::Ranked(7), 3), Draw { pick, coin: true });
        let mut got: Vec<u64> = s.drain().iter().map(|c| c.arrival).collect();
        got.sort();
        let want: Vec<u64> = [0, 1, 2, 3].into_iter().filter(|a| *a != gone).collect();
        assert_eq!(got, want, "pick {}", pick);
    }
}
