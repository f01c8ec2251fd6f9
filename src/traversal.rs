use vstd::prelude::*;
use crate::graph::Edge;
use crate::state_model::{StateError, StateFeature, StateModel, StateVar};
use crate::units::{distance_factor, energy_factor, fits_i64, rescale, DistanceUnit, EnergyUnit};

verus! {

#[derive(Clone, Debug, PartialEq, Eq)]
pub enum TraversalError {
    /// The traversal could not read or write the state.
    StateError(StateError),
    /// A prediction that is out of range.
    PredictionInvalid(String),
    NumericError(String),
    BuildError(String),
}

/// How the state changes across an edge.
pub enum TraversalModel {
    /// Adds each edge's length to the distance feature `feature`.
    Distance { feature: String },
    /// Adds `rate` (millionths of `unit` per kilometre) times each edge's
    /// length to the energy feature `feature`; a negative amount counts as
    /// zero.
    Energy { feature: String, unit: EnergyUnit, rate: i64 },
    /// As `Energy`, with one rate per edge, indexed by edge id (a predictor's
    /// output for each edge's speed and grade).
    EnergyTable { feature: String, unit: EnergyUnit, rates: Vec<i64> },
}

/// The energy that `rate` gives over `distance` (millionths of a metre),
/// in millionths of the rate's unit, rounded toward zero, never negative.
pub open spec fn clamped_energy(rate: i64, distance: u64) -> int {
    let x = (rate * distance) as int;
    if x <= 0 { 0 } else { x / 1_000_000_000 }
}

impl TraversalModel {
    /// The feature that this model writes.
    pub open spec fn written(&self) -> Seq<char> {
        match self {
            TraversalModel::Distance { feature } => feature@,
            TraversalModel::Energy { feature, .. } => feature@,
            TraversalModel::EnergyTable { feature, .. } => feature@,
        }
    }

    /// The energy put into the state for `edge`; `None` when it does not fit
    /// in an `i64`.
    pub fn edge_energy(rate: i64, edge: &Edge) -> (r: Option<i64>)
        ensures
            r is Some <==> clamped_energy(rate, edge.distance) <= i64::MAX,
            r is Some ==> r->0 as int == clamped_energy(rate, edge.distance),
    {
        let d = edge.distance;
        assert(-0x8000_0000_0000_0000 * 0xffff_ffff_ffff_ffff <= (rate as int) * (d as int) <= 0x7fff_ffff_ffff_ffff
            * 0xffff_ffff_ffff_ffff) by (nonlinear_arith)
            requires
                -0x8000_0000_0000_0000 <= rate <= 0x7fff_ffff_ffff_ffff,
                0 <= d <= 0xffff_ffff_ffff_ffff,
        ;
        let p: i128 = rate as i128 * d as i128;
        if p <= 0 {
            Some(0)
        } else {
            let q: i128 = p / 1_000_000_000;
            if q > i64::MAX as i128 {
                None
            } else {
                Some(q as i64)
            }
        }
    }

    /// A lower bound on the state change between any two vertices: no
    /// change, since an edge may be arbitrarily short and negative energy
    /// counts as zero.
    pub fn cost_estimate(&self, sm: &StateModel) -> (r: Vec<StateVar>)
        ensures
            r@.len() == sm.n(),
            forall|i: int| 0 <= i < r@.len() ==> #[trigger] r@[i] == StateVar(0),
    {
        let n = sm.len();
        let mut out: Vec<StateVar> = Vec::new();
        let mut i: usize = 0;
        while i < n
            invariant
                i <= n,
                out@.len() == i,
                forall|j: int| 0 <= j < i ==> #[trigger] out@[j] == StateVar(0),
            decreases n - i,
        {
            out.push(StateVar(0));
            i = i + 1;
        }
        out
    }

    /// The amount that crossing an edge of `distance` adds, in the model's
    /// unit, with the size of that unit and of the feature's storage unit;
    /// `None` when the feature is not of the model's kind.
    pub open spec fn amount(&self, sm: StateModel, edge: Edge) -> Option<(int, nat, nat)> {
        match (*self, sm.feature(sm.index_of(self.written()))) {
            (TraversalModel::Distance { .. }, StateFeature::Distance { distance_unit, .. }) => Some(
                (edge.distance as int, distance_factor(DistanceUnit::Meters), distance_factor(distance_unit)),
            ),
            (TraversalModel::Energy { rate, unit, .. }, StateFeature::Energy { energy_unit, .. }) => Some(
                (clamped_energy(rate, edge.distance), energy_factor(unit), energy_factor(energy_unit)),
            ),
            (TraversalModel::EnergyTable { rates, unit, .. }, StateFeature::Energy { energy_unit, .. }) => {
                if edge.edge_id.0 < rates@.len() {
                    Some(
                        (
                            clamped_energy(rates@[edge.edge_id.0 as int], edge.distance),
                            energy_factor(unit),
                            energy_factor(energy_unit),
                        ),
                    )
                } else {
                    None
                }
            },
            _ => None,
        }
    }

    /// The state that crossing an edge of `distance` gives from `state`: the
    /// amount, converted into the feature's storage unit, added to the stored
    /// value; `None` when the feature is missing or of another kind, or a
    /// value overflows.
    pub open spec fn next_state(&self, sm: StateModel, state: Seq<StateVar>, edge: Edge) -> Option<Seq<StateVar>> {
        let k = self.written();
        match self.amount(sm, edge) {
            Some((amount, from, stored)) => {
                let add = rescale(amount, from, stored);
                let x = sm.value_of(state, k) + add;
                if sm.located(state, k) && fits_i64(amount) && fits_i64(add) && fits_i64(x) {
                    Some(state.update(sm.index_of(k), StateVar(x as i64)))
                } else {
                    None
                }
            },
            None => None,
        }
    }

    /// The state after crossing `edge` from `state`: only the written
    /// feature changes, and it never decreases.
    pub fn traverse(&self, sm: &StateModel, edge: &Edge, state: &[StateVar]) -> (r: Result<Vec<StateVar>, TraversalError>)
        requires
            sm.wf(),
        ensures
            r is Ok <==> self.next_state(*sm, state@, *edge) is Some,
            r is Ok ==> r->Ok_0@ == self.next_state(*sm, state@, *edge)->0,
            r is Ok ==> r->Ok_0@[sm.index_of(self.written())].0 >= state@[sm.index_of(self.written())].0,
    {
        let name = match self {
            TraversalModel::Distance { feature } => feature.as_str(),
            TraversalModel::Energy { feature, .. } => feature.as_str(),
            TraversalModel::EnergyTable { feature, .. } => feature.as_str(),
        };
        let cur = match sm.get_value(state, name) {
            Ok(v) => v,
            Err(e) => {
                return Err(TraversalError::StateError(e));
            },
        };
        let idx = match sm.get_index(name) {
            Ok(i) => i,
            Err(e) => {
                return Err(TraversalError::StateError(e));
            },
        };
        let feature = match sm.get_feature(name) {
            Ok(f) => f,
            Err(e) => {
                return Err(TraversalError::StateError(e));
            },
        };
        let converted = match (self, feature) {
            (TraversalModel::Distance { .. }, StateFeature::Distance { distance_unit, .. }) => {
                if edge.distance > i64::MAX as u64 {
                    return Err(TraversalError::NumericError(String::from_str("edge distance out of range")));
                }
                DistanceUnit::Meters.convert(edge.distance as i64, &distance_unit)
            },
            (TraversalModel::Energy { rate, unit, .. }, StateFeature::Energy { energy_unit, .. }) => {
                match Self::edge_energy(*rate, edge) {
                    Some(a) => unit.convert(a, &energy_unit),
                    None => {
                        return Err(TraversalError::PredictionInvalid(String::from_str("energy out of range")));
                    },
                }
            },
            (TraversalModel::EnergyTable { rates, unit, .. }, StateFeature::Energy { energy_unit, .. }) => {
                if edge.edge_id.0 >= rates.len() as u64 {
                    return Err(TraversalError::PredictionInvalid(String::from_str("no rate for this edge")));
                }
                match Self::edge_energy(rates[edge.edge_id.0 as usize], edge) {
                    Some(a) => unit.convert(a, &energy_unit),
                    None => {
                        return Err(TraversalError::PredictionInvalid(String::from_str("energy out of range")));
                    },
                }
            },
            _ => {
                return Err(TraversalError::StateError(StateError::IncompatibleFeatureType(name.to_owned())));
            },
        };
        let add = match converted {
            Some(a) => a,
            None => {
                return Err(TraversalError::NumericError(String::from_str("amount out of range")));
            },
        };
        let x: i128 = cur.0 as i128 + add as i128;
        if x > i64::MAX as i128 || x < i64::MIN as i128 {
            return Err(TraversalError::NumericError(String::from_str("state value out of range")));
        }
        proof {
            let (amount, from, stored) = self.amount(*sm, *edge)->0;
            assert(amount >= 0);
            lemma_rescale_nonneg(amount, from, stored);
        }
        let mut next: Vec<StateVar> = Vec::new();
        let mut i: usize = 0;
        while i < state.len()
            invariant
                i <= state@.len(),
                next@ == state@.take(i as int),
            decreases state@.len() - i,
        {
            next.push(state[i]);
            i = i + 1;
            proof {
                assert(next@ == state@.take(i as int));
            }
        }
        proof {
            assert(state@.take(state@.len() as int) == state@);
        }
        next.set(idx, StateVar(x as i64));
        Ok(next)
    }
}

/// Rescaling a non-negative amount gives a non-negative amount.
pub proof fn lemma_rescale_nonneg(v: int, from: nat, to: nat)
    requires
        v >= 0,
        to > 0,
    ensures
        rescale(v, from, to) >= 0,
{
    assert(v * from >= 0) by (nonlinear_arith)
        requires
            v >= 0,
    ;
}

/// A negative (or zero) energy prediction is clamped to zero: crossing any
/// edge leaves the state exactly as it was, whatever the units.
pub proof fn lemma_negative_energy_clamped(tm: TraversalModel, sm: StateModel, state: Seq<StateVar>, edge: Edge)
    requires
        sm.wf(),
        tm is Energy,
        tm->rate <= 0,
        sm.located(state, tm.written()),
        sm.feature(sm.index_of(tm.written())) is Energy,
    ensures
        tm.next_state(sm, state, edge) == Some(state),
{
    let k = tm.written();
    let idx = sm.index_of(k);
    let distance = edge.distance;
    assert((tm->rate as int) * (distance as int) <= 0) by (nonlinear_arith)
        requires
            tm->rate <= 0,
            distance >= 0,
    ;
    assert(clamped_energy(tm->rate, distance) == 0);
    let (amount, from, stored) = tm.amount(sm, edge)->0;
    assert(amount == 0);
    assert(0 * from == 0);
    assert(rescale(0, from, stored) == 0);
    assert(state.update(idx, StateVar(sm.value_of(state, k))) =~= state);
}

} // verus!
