use routee_compass::state_model::{CustomFeatureFormat, StateError, StateFeature, StateModel, StateVar};
use routee_compass::units::{DistanceUnit, EnergyUnit, TimeUnit};

fn dist(unit: DistanceUnit) -> StateFeature {
    StateFeature::Distance { distance_unit: unit, initial: 0 }
}

fn sample() -> StateModel {
    StateModel::new(vec![
        (String::from("time"), StateFeature::Time { time_unit: TimeUnit::Seconds, initial: 5 }),
        (String::from("distance"), dist(DistanceUnit::Meters)),
        (String::from("count"), StateFeature::Custom { format: CustomFeatureFormat::UnsignedInteger { initial: 3 } }),
        (String::from("flag"), StateFeature::Custom { format: CustomFeatureFormat::Boolean { initial: true } }),
        (String::from("level"), StateFeature::Custom { format: CustomFeatureFormat::SignedInteger { initial: -2 } }),
    ])
}

#[test]
fn features_sorted_by_name() {
    let sm = sample();
    let names: Vec<String> = sm.iter().into_iter().map(|(n, _)| n).collect();
    assert_eq!(names, vec!["count", "distance", "flag", "level", "time"]);
    assert_eq!(sm.len(), 5);
    assert!(!sm.is_empty());
    assert_eq!(sm.get_index("flag").unwrap(), 2);
    let v = sm.to_vec();
    assert_eq!(v[4].1.index, 4);
    assert_eq!(sm.indexed_iter()[1].0, 1);
}

#[test]
fn empty_model() {
    let sm = StateModel::empty();
    assert!(sm.is_empty());
    assert_eq!(sm.initial_state().unwrap(), vec![]);
}

#[test]
fn initial_state_encodes_each_feature() {
    let sm = sample();
    assert_eq!(
        sm.initial_state().unwrap(),
        vec![StateVar(3), StateVar(0), StateVar(1), StateVar(-2), StateVar(5)]
    );
}

#[test]
fn initial_state_codec_error() {
    let sm = StateModel::new(vec![(
        String::from("big"),
        StateFeature::Custom { format: CustomFeatureFormat::UnsignedInteger { initial: u64::MAX } },
    )]);
    assert!(matches!(sm.initial_state(), Err(StateError::CodecError(_))));
}

#[test]
fn later_declaration_wins() {
    let sm = StateModel::new(vec![
        (String::from("d"), dist(DistanceUnit::Meters)),
        (String::from("d"), dist(DistanceUnit::Miles)),
    ]);
    assert_eq!(sm.len(), 1);
    assert_eq!(sm.get_feature("d").unwrap(), dist(DistanceUnit::Miles));
}

#[test]
fn extend_overrides_distance_unit() {
    let base = StateModel::new(vec![(String::from("distance"), dist(DistanceUnit::Meters))]);
    let sm = base
        .extend(vec![(String::from("distance"), dist(DistanceUnit::Miles))])
        .unwrap();
    assert_eq!(sm.len(), 1);
    let idx = sm.get_index("distance").unwrap();
    let mut state = sm.initial_state().unwrap();
    assert_eq!(state[idx], StateVar(0));
    // 1609.344 m
    sm.add_distance(&mut state, "distance", 1_609_344_000, &DistanceUnit::Meters).unwrap();
    assert_eq!(state[idx], StateVar(1_000_000));
    assert_eq!(sm.get_distance(&state, "distance", &DistanceUnit::Miles).unwrap(), 1_000_000);
}

#[test]
fn extend_keeps_other_features() {
    let base = sample();
    let sm = base.extend(vec![(String::from("zeta"), dist(DistanceUnit::Feet))]).unwrap();
    assert_eq!(sm.len(), 6);
    assert!(sm.contains_key("time"));
    assert!(sm.contains_key("zeta"));
    assert!(!sm.contains_key("other"));
}

#[test]
fn distance_set_get_round_trip() {
    let sm = sample();
    let mut state = sm.initial_state().unwrap();
    sm.set_distance(&mut state, "distance", 2_500_000, &DistanceUnit::Kilometers).unwrap();
    assert_eq!(state[1], StateVar(2_500_000_000));
    assert_eq!(sm.get_distance(&state, "distance", &DistanceUnit::Kilometers).unwrap(), 2_500_000);
}

#[test]
fn time_and_delta() {
    let sm = sample();
    let prev = sm.initial_state().unwrap();
    let mut next = prev.clone();
    sm.add_time(&mut next, "time", 2_000_000, &TimeUnit::Minutes).unwrap();
    // two minutes added to 0.000005 s: the sum is taken in minutes, where
    // the 0.000005 s rounds to zero
    assert_eq!(next[4], StateVar(120_000_000));
    assert_eq!(sm.get_time(&next, "time", &TimeUnit::Seconds).unwrap(), 120_000_000);
    assert_eq!(sm.get_delta(&prev, &next, "time").unwrap(), StateVar(119_999_995));
    sm.add_time(&mut next, "time", 500_000, &TimeUnit::Seconds).unwrap();
    assert_eq!(sm.get_time(&next, "time", &TimeUnit::Seconds).unwrap(), 120_500_000);
}

#[test]
fn energy_round_trip() {
    let sm = StateModel::new(vec![(
        String::from("e"),
        StateFeature::Energy { energy_unit: EnergyUnit::KilowattHours, initial: 0 },
    )]);
    let mut state = sm.initial_state().unwrap();
    sm.set_energy(&mut state, "e", 3_000_000, &EnergyUnit::WattHours).unwrap();
    assert_eq!(state[0], StateVar(3_000));
    sm.add_energy(&mut state, "e", 1_000_000, &EnergyUnit::KilowattHours).unwrap();
    assert_eq!(sm.get_energy(&state, "e", &EnergyUnit::KilowattHours).unwrap(), 1_003_000);
}

#[test]
fn custom_codecs() {
    let sm = sample();
    let mut state = sm.initial_state().unwrap();
    assert_eq!(sm.get_custom_u64(&state, "count").unwrap(), 3);
    assert!(sm.get_custom_bool(&state, "flag").unwrap());
    assert_eq!(sm.get_custom_i64(&state, "level").unwrap(), -2);
    sm.set_custom_u64(&mut state, "count", 9).unwrap();
    sm.set_custom_bool(&mut state, "flag", false).unwrap();
    sm.set_custom_i64(&mut state, "level", -40).unwrap();
    assert_eq!(sm.get_custom_u64(&state, "count").unwrap(), 9);
    assert!(!sm.get_custom_bool(&state, "flag").unwrap());
    assert_eq!(sm.get_custom_i64(&state, "level").unwrap(), -40);
    assert!(matches!(sm.set_custom_u64(&mut state, "count", u64::MAX), Err(StateError::CodecError(_))));
    assert!(matches!(sm.get_custom_i64(&state, "count"), Err(StateError::CodecError(_))));
}

#[test]
fn accessor_errors() {
    let sm = sample();
    let mut state = sm.initial_state().unwrap();
    assert!(matches!(sm.get_value(&state, "nope"), Err(StateError::UnknownFeature(_))));
    assert!(matches!(
        sm.get_distance(&state, "time", &DistanceUnit::Meters),
        Err(StateError::IncompatibleFeatureType(_))
    ));
    assert!(matches!(sm.get_custom_bool(&state, "distance"), Err(StateError::IncompatibleFeatureType(_))));
    assert!(matches!(
        sm.get_value(&state[..2], "time"),
        Err(StateError::StateVectorSizeMismatch { expected: 5, found: 2 })
    ));
    let before = state.clone();
    assert!(matches!(
        sm.set_time(&mut state, "time", i64::MAX, &TimeUnit::Hours),
        Err(StateError::ValueOutOfRange(_))
    ));
    assert_eq!(state, before);
}
