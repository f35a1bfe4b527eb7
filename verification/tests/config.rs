use dartsim::config::{
    check_family, resolve_start, validate_policy, validate_shape, ConfigError, FamilyFacts,
    FamilySource, MeanClass, Meta, OverrideFacts, ParamState, PolicyFacts, PolicyKind,
    PolicyParam, RateField, ShapeFacts, SwitchoverDistribution, System,
};

use MeanClass::{Absent as A, Positive as P, Zero as Z};

fn family(kind: SwitchoverDistribution) -> FamilyFacts {
    FamilyFacts { kind, cv: ParamState::Missing, alpha: ParamState::Missing }
}

/// The return-trap shape: four configurations on a line with a short edge
/// out of 0 and a long one back.
fn return_trap() -> ShapeFacts {
    ShapeFacts {
        n_queues: 4,
        arrivals_len: 4,
        service_len: 4,
        weights_len: 4,
        arrivals_ok: true,
        service_ok: true,
        weights_ok: true,
        means: vec![
            vec![Z, P, A, A],
            vec![P, Z, P, A],
            vec![A, P, Z, P],
            vec![A, A, P, Z],
        ],
        global_family: family(SwitchoverDistribution::Deterministic),
        overrides: vec![],
        window_finite: true,
        warmup_nonnegative: true,
        horizon_after_warmup: true,
        n_replications: 2,
    }
}

fn policy(n: usize) -> PolicyFacts {
    PolicyFacts {
        kind: PolicyKind::Dart,
        reachable: vec![vec![true; n]; n],
        start: Some(0),
        alpha: None,
        beta: None,
        eta: None,
        epsilon: None,
        k: None,
        max_sequences: None,
        stable: vec![true; n],
    }
}

#[test]
fn policy_keys() {
    assert_eq!(PolicyKind::Dart.name(), "dart");
    assert_eq!(PolicyKind::Tian.name(), "tian");
    assert_eq!(PolicyKind::TianTransit.name(), "tian_transit");
    assert_eq!(PolicyKind::Dvo.name(), "dvo");
}

#[test]
fn defaults() {
    assert_eq!(SwitchoverDistribution::default(), SwitchoverDistribution::Deterministic);
    let m = Meta::default();
    assert!(m.label.is_none() && m.name.is_none() && m.description.is_none());
    let s = System { n_queues: 4 };
    assert_eq!(s.n_queues, 4);
}

#[test]
fn a_sound_shape_passes() {
    assert_eq!(validate_shape(&return_trap()), Ok(()));
}

#[test]
fn sizes_and_rates_are_checked_first() {
    let mut f = return_trap();
    f.n_queues = 1;
    assert_eq!(validate_shape(&f), Err(ConfigError::TooFewQueues));
    let mut f = return_trap();
    f.service_len = 3;
    f.weights_ok = false;
    assert_eq!(
        validate_shape(&f),
        Err(ConfigError::LengthMismatch { field: RateField::Service, len: 3, n: 4 })
    );
    let mut f = return_trap();
    f.weights_ok = false;
    assert_eq!(validate_shape(&f), Err(ConfigError::RatesNotPositive { field: RateField::Weights }));
}

#[test]
fn the_mean_matrix_is_checked_row_by_row() {
    let mut f = return_trap();
    f.means.pop();
    assert_eq!(validate_shape(&f), Err(ConfigError::RowCount { rows: 3, n: 4 }));
    let mut f = return_trap();
    f.means[2].push(A);
    assert_eq!(validate_shape(&f), Err(ConfigError::RowLength { row: 2, len: 5, n: 4 }));
    let mut f = return_trap();
    f.means[1][1] = P;
    assert_eq!(validate_shape(&f), Err(ConfigError::SelfLoop { row: 1 }));
    let mut f = return_trap();
    f.means[3] = vec![A, A, MeanClass::Undefined, Z];
    assert_eq!(validate_shape(&f), Err(ConfigError::Stranded { row: 3 }));
}

#[test]
fn overrides_must_name_real_edges() {
    let ov = |from, to| OverrideFacts { from, to, family: family(SwitchoverDistribution::Exponential) };
    let mut f = return_trap();
    f.overrides = vec![ov(0, 9)];
    assert_eq!(validate_shape(&f), Err(ConfigError::OverrideOutOfRange { from: 0, to: 9, n: 4 }));
    f.overrides = vec![ov(1, 1)];
    assert_eq!(validate_shape(&f), Err(ConfigError::OverrideSelfLoop { from: 1, to: 1 }));
    f.overrides = vec![ov(1, 0), ov(0, 2)];
    assert_eq!(validate_shape(&f), Err(ConfigError::OverrideNotAnEdge { from: 0, to: 2 }));
    f.overrides = vec![ov(1, 0)];
    assert_eq!(validate_shape(&f), Ok(()));
}

#[test]
fn families_need_their_parameters() {
    assert_eq!(check_family(family(SwitchoverDistribution::Exponential), FamilySource::Global), Ok(()));
    let lognormal = FamilyFacts { kind: SwitchoverDistribution::Lognormal, cv: ParamState::Missing, alpha: ParamState::Valid };
    assert_eq!(
        check_family(lognormal, FamilySource::Global),
        Err(ConfigError::FamilyParamMissing { source: FamilySource::Global, kind: SwitchoverDistribution::Lognormal })
    );
    let lomax = FamilyFacts { kind: SwitchoverDistribution::Pareto2, cv: ParamState::Valid, alpha: ParamState::Invalid };
    assert_eq!(
        check_family(lomax, FamilySource::Override(1, 0)),
        Err(ConfigError::FamilyParamInvalid { source: FamilySource::Override(1, 0), kind: SwitchoverDistribution::Pareto2 })
    );
    let mut f = return_trap();
    f.global_family = lognormal;
    assert_eq!(
        validate_shape(&f),
        Err(ConfigError::FamilyParamMissing { source: FamilySource::Global, kind: SwitchoverDistribution::Lognormal })
    );
}

#[test]
fn a_zero_mean_edge_must_be_deterministic() {
    let mut f = return_trap();
    f.means[2][3] = Z;
    assert_eq!(validate_shape(&f), Ok(()));
    f.global_family = family(SwitchoverDistribution::Exponential);
    assert_eq!(validate_shape(&f), Err(ConfigError::ZeroMeanRandomEdge { from: 2, to: 3 }));
    f.overrides = vec![OverrideFacts { from: 2, to: 3, family: family(SwitchoverDistribution::Deterministic) }];
    assert_eq!(validate_shape(&f), Ok(()));
}

#[test]
fn the_simulation_window_is_checked_last() {
    let mut f = return_trap();
    f.horizon_after_warmup = false;
    f.n_replications = 0;
    assert_eq!(validate_shape(&f), Err(ConfigError::HorizonNotAfterWarmup));
    let mut f = return_trap();
    f.warmup_nonnegative = false;
    assert_eq!(validate_shape(&f), Err(ConfigError::NegativeWarmup));
    let mut f = return_trap();
    f.window_finite = false;
    assert_eq!(validate_shape(&f), Err(ConfigError::WindowNotFinite));
    let mut f = return_trap();
    f.n_replications = 0;
    assert_eq!(validate_shape(&f), Err(ConfigError::NoReplications));
}

#[test]
fn policy_rules_in_order() {
    assert_eq!(validate_policy(&policy(3), 3), Ok(()));
    let mut p = policy(3);
    p.reachable[2][0] = false;
    p.stable[1] = false;
    assert_eq!(
        validate_policy(&p, 3),
        Err(ConfigError::Unreachable { kind: PolicyKind::Dart, from: 2, to: 0 })
    );
    let mut p = policy(3);
    p.start = Some(3);
    assert_eq!(validate_policy(&p, 3), Err(ConfigError::StartOutOfRange { start: 3, n: 3 }));
    let mut p = policy(3);
    p.beta = Some(false);
    p.alpha = Some(true);
    assert_eq!(validate_policy(&p, 3), Err(ConfigError::PolicyParamInvalid { param: PolicyParam::Beta }));
    let mut p = policy(3);
    p.epsilon = Some(false);
    assert_eq!(validate_policy(&p, 3), Err(ConfigError::EpsilonInvalid));
    let mut p = policy(3);
    p.k = Some(0);
    assert_eq!(validate_policy(&p, 3), Err(ConfigError::ZeroLookahead));
    let mut p = policy(3);
    p.max_sequences = Some(0);
    assert_eq!(validate_policy(&p, 3), Err(ConfigError::ZeroMaxSequences));
    let mut p = policy(3);
    p.kind = PolicyKind::Dvo;
    p.stable[1] = false;
    assert_eq!(validate_policy(&p, 3), Err(ConfigError::Unstable { kind: PolicyKind::Dvo, queue: 1 }));
}

#[test]
fn start_defaults_to_zero_and_must_be_a_configuration() {
    assert_eq!(resolve_start(None, 4), Ok(0));
    assert_eq!(resolve_start(Some(3), 4), Ok(3));
    assert_eq!(resolve_start(Some(4), 4), Err(ConfigError::StartNotBelowQueues { start: 4, n: 4 }));
}
