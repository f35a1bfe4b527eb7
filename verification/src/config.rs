//! Configuration keys and the structural rules a configuration must obey.

use vstd::prelude::*;

verus! {

/// The policies this simulator implements: DART and the three baselines it
/// is compared against.
#[derive(Debug, Clone, Copy, PartialEq, Eq, Structural)]
pub enum PolicyKind {
    /// DART: opportunistic commitment.
    Dart,
    /// Tian & Shone's `K`-stop network index, with no transit service.
    Tian,
    /// Tian `K`-stop extended with guarded transit service.
    TianTransit,
    /// Duenyas & Van Oyen's reconfiguration-aware index, graph-adapted.
    Dvo,
}

/// The TOML key of each policy.
pub open spec fn policy_key(kind: PolicyKind) -> Seq<char> {
    match kind {
        PolicyKind::Dart => "dart"@,
        PolicyKind::Tian => "tian"@,
        PolicyKind::TianTransit => "tian_transit"@,
        PolicyKind::Dvo => "dvo"@,
    }
}

impl PolicyKind {
    /// TOML key name, used in output and error messages.
    pub fn name(self) -> (r: &'static str)
        ensures
            r@ == policy_key(self),
    {
        match self {
            PolicyKind::Dart => "dart",
            PolicyKind::Tian => "tian",
            PolicyKind::TianTransit => "tian_transit",
            PolicyKind::Dvo => "dvo",
        }
    }
}

/// Output names each policy unambiguously: distinct policies have distinct
/// keys.
pub proof fn lemma_policy_keys_distinct(a: PolicyKind, b: PolicyKind)
    requires
        a != b,
    ensures
        policy_key(a) != policy_key(b),
{
    reveal_strlit("dart");
    reveal_strlit("tian");
    reveal_strlit("tian_transit");
    reveal_strlit("dvo");
    assert(policy_key(a).len() != policy_key(b).len() || policy_key(a)[1] != policy_key(b)[1]
        || policy_key(a)[0] != policy_key(b)[0]);
}

} // verus!

verus! {

/// Mean-preserving reconfiguration-time families, as a configuration names
/// them.
#[derive(Debug, Clone, Copy, PartialEq, Eq, Structural)]
pub enum SwitchoverDistribution {
    /// Every traversal takes exactly the mean.
    Deterministic,
    /// Exponential with the given mean.
    Exponential,
    /// Lognormal with the given mean and a coefficient of variation `cv`.
    Lognormal,
    /// Pareto Type II (Lomax) with the given mean and a tail index `alpha`.
    Pareto2,
}

impl Default for SwitchoverDistribution {
    /// Every edge takes exactly its mean unless the configuration says
    /// otherwise.
    fn default() -> (r: Self)
        ensures
            r == SwitchoverDistribution::Deterministic,
    {
        SwitchoverDistribution::Deterministic
    }
}

/// A family draws a random duration: every family but `Deterministic`.
pub open spec fn is_random(kind: SwitchoverDistribution) -> bool {
    kind != SwitchoverDistribution::Deterministic
}

/// Human-readable identification of a scenario. The simulator never reads
/// it.
#[derive(Debug, Clone)]
pub struct Meta {
    pub label: Option<String>,
    pub name: Option<String>,
    pub description: Option<String>,
}

impl Default for Meta {
    /// No label, no name, no description.
    fn default() -> (r: Self)
        ensures
            r.label is None,
            r.name is None,
            r.description is None,
    {
        Meta { label: None, name: None, description: None }
    }
}

/// The size of the system.
#[derive(Debug, Clone, Copy, PartialEq, Eq, Structural)]
pub struct System {
    /// Number of configurations `N`. Must be `>= 2`.
    pub n_queues: usize,
}

/// The state of a real-valued parameter of a configuration.
#[derive(Debug, Clone, Copy, PartialEq, Eq, Structural)]
pub enum ParamState {
    /// Present and within its range.
    Valid,
    /// Not given.
    Missing,
    /// Given but out of range (or not finite).
    Invalid,
}

/// A family as a configuration gives it: its kind and the states of the
/// two parameters a family may read, the coefficient of variation `cv`
/// and the tail index `alpha`.
#[derive(Debug, Clone, Copy, PartialEq, Eq, Structural)]
pub struct FamilyFacts {
    pub kind: SwitchoverDistribution,
    pub cv: ParamState,
    pub alpha: ParamState,
}

/// Where a family was given: the global `[topology]` default, or a
/// per-edge override.
#[derive(Debug, Clone, Copy, PartialEq, Eq, Structural)]
pub enum FamilySource {
    Global,
    Override(usize, usize),
}

/// One of the three per-configuration rate vectors.
#[derive(Debug, Clone, Copy, PartialEq, Eq, Structural)]
pub enum RateField {
    /// `arrivals.rates`, the Poisson rates `λ_i`.
    Arrivals,
    /// `service.rates`, the exponential rates `μ_i`.
    Service,
    /// `priorities.weights`, the holding costs `w_i`.
    Weights,
}

/// How an entry of the mean reconfiguration matrix compares with zero.
#[derive(Debug, Clone, Copy, PartialEq, Eq, Structural)]
pub enum MeanClass {
    /// Below zero: no edge.
    Absent,
    /// Exactly zero.
    Zero,
    /// Above zero.
    Positive,
    /// Not a number: neither an edge, nor below zero, nor zero.
    Undefined,
}

/// An entry `(i, j)` with `i != j` of this class is an edge.
pub open spec fn is_edge_class(c: MeanClass) -> bool {
    c == MeanClass::Zero || c == MeanClass::Positive
}

/// A per-edge family override as a configuration gives it.
#[derive(Debug, Clone, Copy, PartialEq, Eq, Structural)]
pub struct OverrideFacts {
    pub from: usize,
    pub to: usize,
    pub family: FamilyFacts,
}

/// What the structural rules of a configuration read: sizes and lengths,
/// whether each rate vector is finite and positive throughout, how each
/// matrix entry compares with zero, the families and their parameters, and
/// the shape of the simulation window.
#[derive(Debug, Clone)]
pub struct ShapeFacts {
    pub n_queues: usize,
    pub arrivals_len: usize,
    pub service_len: usize,
    pub weights_len: usize,
    /// Every arrival rate is finite and `> 0`.
    pub arrivals_ok: bool,
    /// Every service rate is finite and `> 0`.
    pub service_ok: bool,
    /// Every weight is finite and `> 0`.
    pub weights_ok: bool,
    /// The class of every entry of the mean matrix, row by row.
    pub means: Vec<Vec<MeanClass>>,
    pub global_family: FamilyFacts,
    pub overrides: Vec<OverrideFacts>,
    /// Horizon and warm-up are both finite.
    pub window_finite: bool,
    /// The warm-up is not negative.
    pub warmup_nonnegative: bool,
    /// The horizon lies beyond the warm-up.
    pub horizon_after_warmup: bool,
    pub n_replications: usize,
}

/// Which optional real-valued policy parameter.
#[derive(Debug, Clone, Copy, PartialEq, Eq, Structural)]
pub enum PolicyParam {
    Alpha,
    Beta,
    Eta,
}

/// What the policy rules of a configuration read, once its shape is known
/// to be sound. `Some(valid)` marks a parameter that is given.
#[derive(Debug, Clone)]
pub struct PolicyFacts {
    pub kind: PolicyKind,
    /// `reachable[i][j]`: configuration `j` can be reached from `i`.
    pub reachable: Vec<Vec<bool>>,
    pub start: Option<usize>,
    /// Given `alpha`, finite and `>= 0`.
    pub alpha: Option<bool>,
    /// Given `beta`, finite and `>= 0`.
    pub beta: Option<bool>,
    /// Given `eta`, finite and `>= 0`.
    pub eta: Option<bool>,
    /// Given `epsilon`, finite and `> 0`.
    pub epsilon: Option<bool>,
    pub k: Option<usize>,
    pub max_sequences: Option<usize>,
    /// `stable[i]`: configuration `i` satisfies `μ_i > λ_i`.
    pub stable: Vec<bool>,
}

/// Why a configuration is refused.
#[derive(Debug, Clone, Copy, PartialEq, Eq, Structural)]
pub enum ConfigError {
    TooFewQueues,
    LengthMismatch { field: RateField, len: usize, n: usize },
    RatesNotPositive { field: RateField },
    RowCount { rows: usize, n: usize },
    RowLength { row: usize, len: usize, n: usize },
    SelfLoop { row: usize },
    Stranded { row: usize },
    OverrideOutOfRange { from: usize, to: usize, n: usize },
    OverrideSelfLoop { from: usize, to: usize },
    OverrideNotAnEdge { from: usize, to: usize },
    FamilyParamMissing { source: FamilySource, kind: SwitchoverDistribution },
    FamilyParamInvalid { source: FamilySource, kind: SwitchoverDistribution },
    ZeroMeanRandomEdge { from: usize, to: usize },
    WindowNotFinite,
    NegativeWarmup,
    HorizonNotAfterWarmup,
    NoReplications,
    Unreachable { kind: PolicyKind, from: usize, to: usize },
    StartOutOfRange { start: usize, n: usize },
    StartNotBelowQueues { start: usize, n: usize },
    PolicyParamInvalid { param: PolicyParam },
    EpsilonInvalid,
    ZeroLookahead,
    ZeroMaxSequences,
    Unstable { kind: PolicyKind, queue: usize },
}

// ---- the rules, stated ---------------------------------------------------

/// Resolving a family: `lognormal` needs a valid `cv`, `pareto2` a valid
/// `alpha`; the other families read no parameter.
pub open spec fn family_check(f: FamilyFacts, source: FamilySource) -> Result<(), ConfigError> {
    let p = match f.kind {
        SwitchoverDistribution::Lognormal => f.cv,
        SwitchoverDistribution::Pareto2 => f.alpha,
        _ => ParamState::Valid,
    };
    match p {
        ParamState::Valid => Ok(()),
        ParamState::Missing => Err(ConfigError::FamilyParamMissing { source, kind: f.kind }),
        ParamState::Invalid => Err(ConfigError::FamilyParamInvalid { source, kind: f.kind }),
    }
}

/// Row `i` of the mean matrix has an edge to another configuration.
pub open spec fn has_out_edge(row: Seq<MeanClass>, i: int) -> bool {
    exists|j: int| 0 <= j < row.len() && j != i && is_edge_class(#[trigger] row[j])
}

/// The rows from `i` on: each has one entry per configuration, no
/// positive self-loop, and an edge out.
pub open spec fn rows_check(means: Seq<Seq<MeanClass>>, n: usize, i: nat) -> Result<(), ConfigError>
    decreases means.len() - i,
{
    if i >= means.len() {
        Ok(())
    } else if means[i as int].len() != n {
        Err(ConfigError::RowLength { row: i as usize, len: means[i as int].len() as usize, n })
    } else if means[i as int][i as int] == MeanClass::Positive {
        Err(ConfigError::SelfLoop { row: i as usize })
    } else if !has_out_edge(means[i as int], i as int) {
        Err(ConfigError::Stranded { row: i as usize })
    } else {
        rows_check(means, n, i + 1)
    }
}

/// The overrides from position `o` on name real edges of an
/// `n`-configuration graph.
pub open spec fn overrides_check(means: Seq<Seq<MeanClass>>, ovs: Seq<OverrideFacts>, n: usize, o: nat) -> Result<(), ConfigError>
    decreases ovs.len() - o,
{
    if o >= ovs.len() {
        Ok(())
    } else {
        let ov = ovs[o as int];
        if ov.from >= n || ov.to >= n {
            Err(ConfigError::OverrideOutOfRange { from: ov.from, to: ov.to, n })
        } else if ov.from == ov.to {
            Err(ConfigError::OverrideSelfLoop { from: ov.from, to: ov.to })
        } else if means[ov.from as int][ov.to as int] == MeanClass::Absent {
            Err(ConfigError::OverrideNotAnEdge { from: ov.from, to: ov.to })
        } else {
            overrides_check(means, ovs, n, o + 1)
        }
    }
}

/// The families of the overrides from position `o` on resolve.
pub open spec fn override_families_check(ovs: Seq<OverrideFacts>, o: nat) -> Result<(), ConfigError>
    decreases ovs.len() - o,
{
    if o >= ovs.len() {
        Ok(())
    } else {
        let ov = ovs[o as int];
        match family_check(ov.family, FamilySource::Override(ov.from, ov.to)) {
            Err(e) => Err(e),
            Ok(()) => override_families_check(ovs, o + 1),
        }
    }
}

/// The overrides as `(from, to, kind)`.
pub open spec fn override_kinds(ovs: Seq<OverrideFacts>) -> Seq<(usize, usize, SwitchoverDistribution)> {
    ovs.map_values(|ov: OverrideFacts| (ov.from, ov.to, ov.family.kind))
}

/// The kind of family resolved on edge `(i, j)`.
pub open spec fn edge_kind(f: ShapeFacts, i: int, j: int) -> SwitchoverDistribution {
    crate::topology::family_at(
        f.n_queues as nat,
        f.global_family.kind,
        override_kinds(f.overrides@),
        i,
        j,
    )
}

/// Entry `(i, j)` is a zero-mean edge under a random family.
pub open spec fn zero_mean_random(f: ShapeFacts, i: int, j: int) -> bool {
    i != j && f.means@[i]@[j] == MeanClass::Zero && is_random(edge_kind(f, i, j))
}

/// No zero-mean random edge in row `i` from column `j` on.
pub open spec fn zero_mean_row_check(f: ShapeFacts, i: nat, j: nat) -> Result<(), ConfigError>
    decreases f.n_queues - j,
{
    if j >= f.n_queues {
        Ok(())
    } else if zero_mean_random(f, i as int, j as int) {
        Err(ConfigError::ZeroMeanRandomEdge { from: i as usize, to: j as usize })
    } else {
        zero_mean_row_check(f, i, j + 1)
    }
}

/// No zero-mean random edge from row `i` on.
pub open spec fn zero_mean_check(f: ShapeFacts, i: nat) -> Result<(), ConfigError>
    decreases f.n_queues - i,
{
    if i >= f.n_queues {
        Ok(())
    } else {
        match zero_mean_row_check(f, i, 0) {
            Err(e) => Err(e),
            Ok(()) => zero_mean_check(f, i + 1),
        }
    }
}

/// The mean matrix, its overrides and its families, in the order they are
/// checked.
pub open spec fn topology_check(f: ShapeFacts) -> Result<(), ConfigError> {
    let n = f.n_queues;
    let means = f.means@.map_values(|row: Vec<MeanClass>| row@);
    if means.len() != n {
        Err(ConfigError::RowCount { rows: means.len() as usize, n })
    } else {
        match rows_check(means, n, 0) {
            Err(e) => Err(e),
            Ok(()) => match overrides_check(means, f.overrides@, n, 0) {
                Err(e) => Err(e),
                Ok(()) => match family_check(f.global_family, FamilySource::Global) {
                    Err(e) => Err(e),
                    Ok(()) => match override_families_check(f.overrides@, 0) {
                        Err(e) => Err(e),
                        Ok(()) => zero_mean_check(f, 0),
                    },
                },
            },
        }
    }
}

/// The sizes, the rates, the topology and the simulation window, in the
/// order they are checked: the first rule broken is the one reported.
pub open spec fn shape_check(f: ShapeFacts) -> Result<(), ConfigError> {
    let n = f.n_queues;
    if n < 2 {
        Err(ConfigError::TooFewQueues)
    } else if f.arrivals_len != n {
        Err(ConfigError::LengthMismatch { field: RateField::Arrivals, len: f.arrivals_len, n })
    } else if f.service_len != n {
        Err(ConfigError::LengthMismatch { field: RateField::Service, len: f.service_len, n })
    } else if f.weights_len != n {
        Err(ConfigError::LengthMismatch { field: RateField::Weights, len: f.weights_len, n })
    } else if !f.arrivals_ok {
        Err(ConfigError::RatesNotPositive { field: RateField::Arrivals })
    } else if !f.service_ok {
        Err(ConfigError::RatesNotPositive { field: RateField::Service })
    } else if !f.weights_ok {
        Err(ConfigError::RatesNotPositive { field: RateField::Weights })
    } else {
        match topology_check(f) {
            Err(e) => Err(e),
            Ok(()) => if !f.window_finite {
                Err(ConfigError::WindowNotFinite)
            } else if !f.warmup_nonnegative {
                Err(ConfigError::NegativeWarmup)
            } else if !f.horizon_after_warmup {
                Err(ConfigError::HorizonNotAfterWarmup)
            } else if f.n_replications == 0 {
                Err(ConfigError::NoReplications)
            } else {
                Ok(())
            },
        }
    }
}

/// A configuration whose shape is sound, stated rule by rule.
pub open spec fn shape_ok(f: ShapeFacts) -> bool {
    let n = f.n_queues;
    let means = f.means@.map_values(|row: Vec<MeanClass>| row@);
    &&& n >= 2
    &&& f.arrivals_len == n && f.service_len == n && f.weights_len == n
    &&& f.arrivals_ok && f.service_ok && f.weights_ok
    &&& means.len() == n
    &&& forall|i: int| 0 <= i < n ==> (#[trigger] means[i]).len() == n
    &&& forall|i: int| 0 <= i < n ==> #[trigger] means[i][i] != MeanClass::Positive
    &&& forall|i: int| 0 <= i < n ==> has_out_edge(#[trigger] means[i], i)
    &&& forall|o: int|
        0 <= o < f.overrides@.len() ==> {
            let ov = #[trigger] f.overrides@[o];
            &&& ov.from < n && ov.to < n
            &&& ov.from != ov.to
            &&& means[ov.from as int][ov.to as int] != MeanClass::Absent
            &&& family_check(ov.family, FamilySource::Override(ov.from, ov.to)) is Ok
        }
    &&& family_check(f.global_family, FamilySource::Global) is Ok
    &&& forall|i: int, j: int| 0 <= i < n && 0 <= j < n ==> !#[trigger] zero_mean_random(f, i, j)
    &&& f.window_finite && f.warmup_nonnegative && f.horizon_after_warmup
    &&& f.n_replications >= 1
}

} // verus!

verus! {

/// The rows from `i` on pass exactly when each has one entry per
/// configuration, no positive self-loop and an edge out.
pub proof fn lemma_rows_check(means: Seq<Seq<MeanClass>>, n: usize, i: nat)
    ensures
        rows_check(means, n, i) is Ok <==> forall|k: int|
            i <= k < means.len() ==> (#[trigger] means[k]).len() == n && means[k][k]
                != MeanClass::Positive && has_out_edge(means[k], k),
    decreases means.len() - i,
{
    if i < means.len() {
        lemma_rows_check(means, n, i + 1);
    }
}

/// The overrides from `o` on pass exactly when each names an in-range,
/// off-diagonal, non-absent entry.
pub proof fn lemma_overrides_check(means: Seq<Seq<MeanClass>>, ovs: Seq<OverrideFacts>, n: usize, o: nat)
    ensures
        overrides_check(means, ovs, n, o) is Ok <==> forall|p: int|
            o <= p < ovs.len() ==> {
                let ov = #[trigger] ovs[p];
                &&& ov.from < n && ov.to < n
                &&& ov.from != ov.to
                &&& means[ov.from as int][ov.to as int] != MeanClass::Absent
            },
    decreases ovs.len() - o,
{
    if o < ovs.len() {
        lemma_overrides_check(means, ovs, n, o + 1);
    }
}

/// The override families from `o` on pass exactly when each resolves.
pub proof fn lemma_override_families_check(ovs: Seq<OverrideFacts>, o: nat)
    ensures
        override_families_check(ovs, o) is Ok <==> forall|p: int|
            o <= p < ovs.len() ==> family_check(
                (#[trigger] ovs[p]).family,
                FamilySource::Override(ovs[p].from, ovs[p].to),
            ) is Ok,
    decreases ovs.len() - o,
{
    if o < ovs.len() {
        lemma_override_families_check(ovs, o + 1);
    }
}

/// The zero-mean scan from row `i` (and, within row `i`, column `j`)
/// passes exactly when it meets no zero-mean random edge.
pub proof fn lemma_zero_mean_check(f: ShapeFacts, i: nat)
    ensures
        zero_mean_check(f, i) is Ok <==> forall|a: int, b: int|
            i <= a < f.n_queues && 0 <= b < f.n_queues ==> !#[trigger] zero_mean_random(f, a, b),
    decreases f.n_queues - i,
{
    if i < f.n_queues {
        lemma_zero_mean_row_check(f, i, 0);
        lemma_zero_mean_check(f, i + 1);
        if zero_mean_check(f, i) is Ok {
            assert forall|a: int, b: int|
                i <= a < f.n_queues && 0 <= b < f.n_queues implies !#[trigger] zero_mean_random(
                f,
                a,
                b,
            ) by {
                if a == i {
                } else {
                }
            }
        }
    }
}

proof fn lemma_zero_mean_row_check(f: ShapeFacts, i: nat, j: nat)
    ensures
        zero_mean_row_check(f, i, j) is Ok <==> forall|b: int|
            j <= b < f.n_queues ==> !#[trigger] zero_mean_random(f, i as int, b),
    decreases f.n_queues - j,
{
    if j < f.n_queues {
        lemma_zero_mean_row_check(f, i, j + 1);
    }
}

/// The shape check passes exactly on configurations whose shape is sound:
/// every rule holds, whichever order they are checked in.
pub proof fn lemma_shape_check_states_the_rules(f: ShapeFacts)
    ensures
        shape_check(f) is Ok <==> shape_ok(f),
{
    let means = means_view(f.means@);
    let n = f.n_queues;
    lemma_rows_check(means, n, 0);
    lemma_overrides_check(means, f.overrides@, n, 0);
    lemma_override_families_check(f.overrides@, 0);
    lemma_zero_mean_check(f, 0);
    assert(means == f.means@.map_values(|row: Vec<MeanClass>| row@));
}

// ---- the rules, checked ------------------------------------------------

/// The rows of the mean matrix, as sequences.
pub open spec fn means_view(means: Seq<Vec<MeanClass>>) -> Seq<Seq<MeanClass>> {
    means.map_values(|row: Vec<MeanClass>| row@)
}

/// Resolve a family given its parameters' states.
pub fn check_family(f: FamilyFacts, source: FamilySource) -> (r: Result<(), ConfigError>)
    ensures
        r == family_check(f, source),
{
    let p = match f.kind {
        SwitchoverDistribution::Lognormal => f.cv,
        SwitchoverDistribution::Pareto2 => f.alpha,
        _ => ParamState::Valid,
    };
    match p {
        ParamState::Valid => Ok(()),
        ParamState::Missing => Err(ConfigError::FamilyParamMissing { source, kind: f.kind }),
        ParamState::Invalid => Err(ConfigError::FamilyParamInvalid { source, kind: f.kind }),
    }
}

fn check_rows(means: &Vec<Vec<MeanClass>>, n: usize) -> (r: Result<(), ConfigError>)
    requires
        means@.len() == n,
    ensures
        r == rows_check(means_view(means@), n, 0),
{
    let ghost mv = means_view(means@);
    let mut i: usize = 0;
    while i < means.len()
        invariant
            mv == means_view(means@),
            means@.len() == n,
            i <= means@.len(),
            rows_check(mv, n, 0) == rows_check(mv, n, i as nat),
        decreases means@.len() - i,
    {
        let row = &means[i];
        assert(mv[i as int] == row@);
        if row.len() != n {
            return Err(ConfigError::RowLength { row: i, len: row.len(), n });
        }
        if row[i] == MeanClass::Positive {
            return Err(ConfigError::SelfLoop { row: i });
        }
        let mut j: usize = 0;
        let mut found = false;
        while j < row.len()
            invariant
                j <= row@.len(),
                found ==> has_out_edge(row@, i as int),
                !found ==> forall|k: int| 0 <= k < j ==> !(k != i && is_edge_class(#[trigger] row@[k])),
            decreases row@.len() - j,
        {
            if j != i && (row[j] == MeanClass::Zero || row[j] == MeanClass::Positive) {
                found = true;
                assert(is_edge_class(row@[j as int]));
            }
            j = j + 1;
        }
        if !found {
            assert(!has_out_edge(row@, i as int));
            return Err(ConfigError::Stranded { row: i });
        }
        i = i + 1;
    }
    Ok(())
}

fn check_overrides(means: &Vec<Vec<MeanClass>>, ovs: &Vec<OverrideFacts>, n: usize) -> (r: Result<(), ConfigError>)
    requires
        means@.len() == n,
        forall|i: int| 0 <= i < n ==> (#[trigger] means@[i])@.len() == n,
    ensures
        r == overrides_check(means_view(means@), ovs@, n, 0),
{
    let ghost mv = means_view(means@);
    let mut o: usize = 0;
    while o < ovs.len()
        invariant
            mv == means_view(means@),
            means@.len() == n,
            forall|i: int| 0 <= i < n ==> (#[trigger] means@[i])@.len() == n,
            o <= ovs@.len(),
            overrides_check(mv, ovs@, n, 0) == overrides_check(mv, ovs@, n, o as nat),
        decreases ovs@.len() - o,
    {
        let ov = ovs[o];
        if ov.from >= n || ov.to >= n {
            return Err(ConfigError::OverrideOutOfRange { from: ov.from, to: ov.to, n });
        }
        if ov.from == ov.to {
            return Err(ConfigError::OverrideSelfLoop { from: ov.from, to: ov.to });
        }
        assert(mv[ov.from as int] == means@[ov.from as int]@);
        if means[ov.from][ov.to] == MeanClass::Absent {
            return Err(ConfigError::OverrideNotAnEdge { from: ov.from, to: ov.to });
        }
        o = o + 1;
    }
    Ok(())
}

fn check_override_families(ovs: &Vec<OverrideFacts>) -> (r: Result<(), ConfigError>)
    ensures
        r == override_families_check(ovs@, 0),
{
    let mut o: usize = 0;
    while o < ovs.len()
        invariant
            o <= ovs@.len(),
            override_families_check(ovs@, 0) == override_families_check(ovs@, o as nat),
        decreases ovs@.len() - o,
    {
        let ov = ovs[o];
        match check_family(ov.family, FamilySource::Override(ov.from, ov.to)) {
            Err(e) => {
                return Err(e);
            },
            Ok(()) => {},
        }
        o = o + 1;
    }
    Ok(())
}

/// The per-edge family kinds, row-major: the global kind with the
/// overrides applied in order.
pub fn resolved_edge_kinds(f: &ShapeFacts, n: usize) -> (r: Vec<SwitchoverDistribution>)
    requires
        n * n <= usize::MAX,
    ensures
        r.len() == n * n,
        forall|i: int, j: int|
            0 <= i < n && 0 <= j < n ==> #[trigger] r[crate::topology::cell(n as nat, i, j)]
                == crate::topology::family_at(
                n as nat,
                f.global_family.kind,
                override_kinds(f.overrides@),
                i,
                j,
            ),
{
    let mut kinds: Vec<(usize, usize, SwitchoverDistribution)> = Vec::new();
    let mut o: usize = 0;
    while o < f.overrides.len()
        invariant
            o <= f.overrides@.len(),
            kinds@ == override_kinds(f.overrides@).take(o as int),
        decreases f.overrides@.len() - o,
    {
        let ov = f.overrides[o];
        kinds.push((ov.from, ov.to, ov.family.kind));
        assert(override_kinds(f.overrides@).take(o + 1) =~= override_kinds(f.overrides@).take(
            o as int,
        ).push((ov.from, ov.to, ov.family.kind)));
        o = o + 1;
    }
    assert(override_kinds(f.overrides@).take(f.overrides@.len() as int) =~= override_kinds(
        f.overrides@,
    ));
    crate::topology::edge_families(n, f.global_family.kind, kinds.as_slice())
}

fn check_zero_means(f: &ShapeFacts) -> (r: Result<(), ConfigError>)
    requires
        f.means@.len() == f.n_queues,
        forall|i: int| 0 <= i < f.n_queues ==> (#[trigger] f.means@[i])@.len() == f.n_queues,
        f.n_queues * f.n_queues <= usize::MAX,
    ensures
        r == zero_mean_check(*f, 0),
{
    let n = f.n_queues;
    let fams = resolved_edge_kinds(f, n);
    let mut i: usize = 0;
    while i < n
        invariant
            n == f.n_queues,
            f.means@.len() == n,
            forall|a: int| 0 <= a < n ==> (#[trigger] f.means@[a])@.len() == n,
            n * n <= usize::MAX,
            fams.len() == n * n,
            forall|a: int, b: int|
                0 <= a < n && 0 <= b < n ==> #[trigger] fams[crate::topology::cell(n as nat, a, b)]
                    == edge_kind(*f, a, b),
            i <= n,
            zero_mean_check(*f, 0) == zero_mean_check(*f, i as nat),
        decreases n - i,
    {
        let mut j: usize = 0;
        while j < n
            invariant
                n == f.n_queues,
                f.means@.len() == n,
                forall|a: int| 0 <= a < n ==> (#[trigger] f.means@[a])@.len() == n,
                n * n <= usize::MAX,
                fams.len() == n * n,
                forall|a: int, b: int|
                    0 <= a < n && 0 <= b < n ==> #[trigger] fams[crate::topology::cell(n as nat, a, b)]
                        == edge_kind(*f, a, b),
                i < n,
                j <= n,
                zero_mean_check(*f, 0) == zero_mean_check(*f, i as nat),
                zero_mean_row_check(*f, i as nat, 0) == zero_mean_row_check(*f, i as nat, j as nat),
            decreases n - j,
        {
            proof {
                crate::topology::lemma_cell(n as nat, i as int, j as int, 0, 0);
            }
            let kind = fams[i * n + j];
            assert(kind == edge_kind(*f, i as int, j as int)) by {
                assert(fams[crate::topology::cell(n as nat, i as int, j as int)] == edge_kind(
                    *f,
                    i as int,
                    j as int,
                ));
            }
            if i != j && f.means[i][j] == MeanClass::Zero && kind != SwitchoverDistribution::Deterministic {
                assert(zero_mean_random(*f, i as int, j as int));
                assert(zero_mean_row_check(*f, i as nat, j as nat) is Err);
                assert(zero_mean_check(*f, i as nat) == zero_mean_row_check(*f, i as nat, 0));
                return Err(ConfigError::ZeroMeanRandomEdge { from: i, to: j });
            }
            j = j + 1;
        }
        i = i + 1;
    }
    Ok(())
}

/// Check the shape of a configuration — sizes, rates, the mean matrix, its
/// overrides and families, and the simulation window — and report the
/// first rule it breaks. The table of per-edge families needs `n * n`
/// cells to fit in memory.
pub fn validate_shape(f: &ShapeFacts) -> (r: Result<(), ConfigError>)
    requires
        f.n_queues * f.n_queues <= usize::MAX,
    ensures
        r == shape_check(*f),
{
    let n = f.n_queues;
    if n < 2 {
        return Err(ConfigError::TooFewQueues);
    }
    if f.arrivals_len != n {
        return Err(ConfigError::LengthMismatch { field: RateField::Arrivals, len: f.arrivals_len, n });
    }
    if f.service_len != n {
        return Err(ConfigError::LengthMismatch { field: RateField::Service, len: f.service_len, n });
    }
    if f.weights_len != n {
        return Err(ConfigError::LengthMismatch { field: RateField::Weights, len: f.weights_len, n });
    }
    if !f.arrivals_ok {
        return Err(ConfigError::RatesNotPositive { field: RateField::Arrivals });
    }
    if !f.service_ok {
        return Err(ConfigError::RatesNotPositive { field: RateField::Service });
    }
    if !f.weights_ok {
        return Err(ConfigError::RatesNotPositive { field: RateField::Weights });
    }
    if f.means.len() != n {
        return Err(ConfigError::RowCount { rows: f.means.len(), n });
    }
    check_rows(&f.means, n)?;
    proof {
        lemma_rows_check(means_view(f.means@), n, 0);
        assert forall|i: int| 0 <= i < n implies (#[trigger] f.means@[i])@.len() == n by {
            assert(means_view(f.means@)[i] == f.means@[i]@);
        }
    }
    check_overrides(&f.means, &f.overrides, n)?;
    check_family(f.global_family, FamilySource::Global)?;
    check_override_families(&f.overrides)?;
    check_zero_means(f)?;
    if !f.window_finite {
        return Err(ConfigError::WindowNotFinite);
    }
    if !f.warmup_nonnegative {
        return Err(ConfigError::NegativeWarmup);
    }
    if !f.horizon_after_warmup {
        return Err(ConfigError::HorizonNotAfterWarmup);
    }
    if f.n_replications == 0 {
        return Err(ConfigError::NoReplications);
    }
    Ok(())
}

} // verus!

verus! {

// ---- the policy rules ----------------------------------------------------

/// No pair from row `i` on (and, within row `i`, column `j` on) is
/// unreachable.
pub open spec fn reach_row_check(f: PolicyFacts, n: usize, i: nat, j: nat) -> Result<(), ConfigError>
    decreases n - j,
{
    if j >= n {
        Ok(())
    } else if i != j && !f.reachable@[i as int]@[j as int] {
        Err(ConfigError::Unreachable { kind: f.kind, from: i as usize, to: j as usize })
    } else {
        reach_row_check(f, n, i, j + 1)
    }
}

/// Every configuration reaches every other, scanning from row `i` on.
pub open spec fn reach_check(f: PolicyFacts, n: usize, i: nat) -> Result<(), ConfigError>
    decreases n - i,
{
    if i >= n {
        Ok(())
    } else {
        match reach_row_check(f, n, i, 0) {
            Err(e) => Err(e),
            Ok(()) => reach_check(f, n, i + 1),
        }
    }
}

/// Every configuration from `i` on is stable.
pub open spec fn stability_check(f: PolicyFacts, n: usize, i: nat) -> Result<(), ConfigError>
    decreases n - i,
{
    if i >= n {
        Ok(())
    } else if !f.stable@[i as int] {
        Err(ConfigError::Unstable { kind: f.kind, queue: i as usize })
    } else {
        stability_check(f, n, i + 1)
    }
}

/// A given parameter is valid.
pub open spec fn param_ok(p: Option<bool>) -> bool {
    p matches Some(v) ==> v
}

/// The policy rules, in the order they are checked: strong connectivity,
/// the starting configuration, the real-valued parameters, the integer
/// ones, and per-queue stability.
pub open spec fn policy_check(f: PolicyFacts, n: usize) -> Result<(), ConfigError> {
    match reach_check(f, n, 0) {
        Err(e) => Err(e),
        Ok(()) => if f.start matches Some(s) && s >= n {
            Err(ConfigError::StartOutOfRange { start: f.start.unwrap(), n })
        } else if !param_ok(f.alpha) {
            Err(ConfigError::PolicyParamInvalid { param: PolicyParam::Alpha })
        } else if !param_ok(f.beta) {
            Err(ConfigError::PolicyParamInvalid { param: PolicyParam::Beta })
        } else if !param_ok(f.eta) {
            Err(ConfigError::PolicyParamInvalid { param: PolicyParam::Eta })
        } else if !param_ok(f.epsilon) {
            Err(ConfigError::EpsilonInvalid)
        } else if f.k == Some(0usize) {
            Err(ConfigError::ZeroLookahead)
        } else if f.max_sequences == Some(0usize) {
            Err(ConfigError::ZeroMaxSequences)
        } else {
            stability_check(f, n, 0)
        },
    }
}

/// A configuration whose policy section is sound, stated rule by rule:
/// the graph is strongly connected, the start is a configuration, every
/// given parameter is in range, and every queue is stable.
pub open spec fn policy_ok(f: PolicyFacts, n: usize) -> bool {
    &&& forall|i: int, j: int|
        0 <= i < n && 0 <= j < n && i != j ==> #[trigger] f.reachable@[i]@[j]
    &&& (f.start matches Some(s) ==> s < n)
    &&& param_ok(f.alpha) && param_ok(f.beta) && param_ok(f.eta) && param_ok(f.epsilon)
    &&& f.k != Some(0usize)
    &&& f.max_sequences != Some(0usize)
    &&& forall|i: int| 0 <= i < n ==> #[trigger] f.stable@[i]
}

/// Policy facts about an `n`-configuration system.
pub open spec fn policy_facts_sized(f: PolicyFacts, n: usize) -> bool {
    &&& f.reachable@.len() == n
    &&& forall|i: int| 0 <= i < n ==> (#[trigger] f.reachable@[i])@.len() == n
    &&& f.stable@.len() == n
}

proof fn lemma_reach_row_check(f: PolicyFacts, n: usize, i: nat, j: nat)
    ensures
        reach_row_check(f, n, i, j) is Ok <==> forall|b: int|
            j <= b < n && i != b ==> #[trigger] f.reachable@[i as int]@[b],
    decreases n - j,
{
    if j < n {
        lemma_reach_row_check(f, n, i, j + 1);
    }
}

proof fn lemma_reach_check(f: PolicyFacts, n: usize, i: nat)
    ensures
        reach_check(f, n, i) is Ok <==> forall|a: int, b: int|
            i <= a < n && 0 <= b < n && a != b ==> #[trigger] f.reachable@[a]@[b],
    decreases n - i,
{
    if i < n {
        lemma_reach_row_check(f, n, i, 0);
        lemma_reach_check(f, n, i + 1);
    }
}

proof fn lemma_stability_check(f: PolicyFacts, n: usize, i: nat)
    ensures
        stability_check(f, n, i) is Ok <==> forall|a: int| i <= a < n ==> #[trigger] f.stable@[a],
    decreases n - i,
{
    if i < n {
        lemma_stability_check(f, n, i + 1);
    }
}

/// The policy check passes exactly on sound policy sections.
pub proof fn lemma_policy_check_states_the_rules(f: PolicyFacts, n: usize)
    ensures
        policy_check(f, n) is Ok <==> policy_ok(f, n),
{
    lemma_reach_check(f, n, 0);
    lemma_stability_check(f, n, 0);
}

/// Check the policy section of a configuration whose shape is sound, and
/// report the first rule it breaks.
pub fn validate_policy(f: &PolicyFacts, n: usize) -> (r: Result<(), ConfigError>)
    requires
        policy_facts_sized(*f, n),
    ensures
        r == policy_check(*f, n),
{
    let mut i: usize = 0;
    while i < n
        invariant
            policy_facts_sized(*f, n),
            i <= n,
            reach_check(*f, n, 0) == reach_check(*f, n, i as nat),
        decreases n - i,
    {
        let mut j: usize = 0;
        while j < n
            invariant
                policy_facts_sized(*f, n),
                i < n,
                j <= n,
                reach_check(*f, n, 0) == reach_check(*f, n, i as nat),
                reach_row_check(*f, n, i as nat, 0) == reach_row_check(*f, n, i as nat, j as nat),
            decreases n - j,
        {
            if i != j && !f.reachable[i][j] {
                return Err(ConfigError::Unreachable { kind: f.kind, from: i, to: j });
            }
            j = j + 1;
        }
        i = i + 1;
    }
    if let Some(s) = f.start {
        if s >= n {
            return Err(ConfigError::StartOutOfRange { start: s, n });
        }
    }
    if let Some(false) = f.alpha {
        return Err(ConfigError::PolicyParamInvalid { param: PolicyParam::Alpha });
    }
    if let Some(false) = f.beta {
        return Err(ConfigError::PolicyParamInvalid { param: PolicyParam::Beta });
    }
    if let Some(false) = f.eta {
        return Err(ConfigError::PolicyParamInvalid { param: PolicyParam::Eta });
    }
    if let Some(false) = f.epsilon {
        return Err(ConfigError::EpsilonInvalid);
    }
    if let Some(0) = f.k {
        return Err(ConfigError::ZeroLookahead);
    }
    if let Some(0) = f.max_sequences {
        return Err(ConfigError::ZeroMaxSequences);
    }
    assert(policy_check(*f, n) == stability_check(*f, n, 0));
    let mut q: usize = 0;
    while q < n
        invariant
            policy_facts_sized(*f, n),
            policy_check(*f, n) == stability_check(*f, n, 0),
            q <= n,
            stability_check(*f, n, 0) == stability_check(*f, n, q as nat),
        decreases n - q,
    {
        if !f.stable[q] {
            return Err(ConfigError::Unstable { kind: f.kind, queue: q });
        }
        q = q + 1;
    }
    Ok(())
}

/// The starting configuration of the server: `start`, or `0` when none is
/// given; it must be one of the `n` configurations.
pub fn resolve_start(start: Option<usize>, n: usize) -> (r: Result<usize, ConfigError>)
    ensures
        r == (match start {
            Some(s) => if s < n {
                Ok(s)
            } else {
                Err(ConfigError::StartNotBelowQueues { start: s, n })
            },
            None => if 0 < n {
                Ok(0usize)
            } else {
                Err(ConfigError::StartNotBelowQueues { start: 0, n })
            },
        }),
{
    let s = match start {
        Some(s) => s,
        None => 0,
    };
    if s >= n {
        return Err(ConfigError::StartNotBelowQueues { start: s, n });
    }
    Ok(s)
}

} // verus!
