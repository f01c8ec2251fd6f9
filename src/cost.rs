use vstd::prelude::*;
use crate::state_model::{StateModel, StateVar};

verus! {

/// A non-negative cost in millionths of a cost unit.
#[derive(Clone, Copy, Debug, PartialEq, Eq, Structural)]
pub struct Cost(pub u64);

impl Cost {
    /// The additive identity.
    pub fn zero() -> (r: Cost)
        ensures
            r.0 == 0,
    {
        Cost(0)
    }

    /// One whole cost unit.
    pub fn one() -> (r: Cost)
        ensures
            r.0 == 1_000_000,
    {
        Cost(1_000_000)
    }
}

#[derive(Clone, Debug, PartialEq, Eq)]
pub enum CostError {
    UnknownFeature(String),
    StateError(String),
    BuildError(String),
}

/// How per-feature costs combine into one.
#[derive(Clone, Copy, Debug, PartialEq, Eq, Structural)]
pub enum CostAggregation {
    Sum,
    Mul,
}

/// `x` capped at the largest cost.
pub open spec fn cap(x: int) -> int {
    if x > u64::MAX { u64::MAX as int } else { x }
}

pub open spec fn sum_of(s: Seq<u64>) -> int
    decreases s.len(),
{
    if s.len() == 0 { 0 } else { sum_of(s.drop_last()) + s.last() }
}

/// The fixed-point product of two costs: `a * b` millionths of millionths,
/// rounded down to millionths, saturating at the largest cost.
pub open spec fn fixed_mul_spec(a: int, b: int) -> int {
    cap((a * b) / 1_000_000)
}

/// The fixed-point product of `s`, folded from one whole cost unit.
pub open spec fn product_of(s: Seq<u64>) -> int
    decreases s.len(),
{
    if s.len() == 0 { 1_000_000 } else { fixed_mul_spec(product_of(s.drop_last()), s.last() as int) }
}

/// The aggregate of `s`: the sum, or the product (zero when `s` is empty),
/// saturating at the largest cost.
pub open spec fn agg_spec(mode: CostAggregation, s: Seq<u64>) -> int {
    match mode {
        CostAggregation::Sum => cap(sum_of(s)),
        CostAggregation::Mul => if s.len() == 0 { 0 } else { product_of(s) },
    }
}

proof fn lemma_fixed_mul_bounds(a: int, b: int)
    requires
        a >= 0,
        b >= 0,
    ensures
        0 <= fixed_mul_spec(a, b) <= u64::MAX,
{
    assert(a * b >= 0) by (nonlinear_arith)
        requires
            a >= 0,
            b >= 0,
    ;
}

proof fn lemma_product_nonneg(s: Seq<u64>)
    ensures
        0 <= product_of(s) <= u64::MAX,
    decreases s.len(),
{
    if s.len() > 0 {
        lemma_product_nonneg(s.drop_last());
        lemma_fixed_mul_bounds(product_of(s.drop_last()), s.last() as int);
    }
}

proof fn lemma_sum_nonneg(s: Seq<u64>)
    ensures
        sum_of(s) >= 0,
    decreases s.len(),
{
    if s.len() > 0 {
        lemma_sum_nonneg(s.drop_last());
    }
}

/// The fixed-point product of two costs.
pub fn fixed_mul(a: u64, b: u64) -> (r: u64)
    ensures
        r as int == fixed_mul_spec(a as int, b as int),
{
    assert((a as u128) * (b as u128) <= u64::MAX as u128 * u64::MAX as u128) by (nonlinear_arith)
        requires
            a <= u64::MAX,
            b <= u64::MAX,
    ;
    let p: u128 = a as u128 * b as u128;
    let q: u128 = p / 1_000_000;
    if q > u64::MAX as u128 {
        u64::MAX
    } else {
        q as u64
    }
}

impl CostAggregation {
    /// Aggregates the costs of `costs`.
    pub fn agg(&self, costs: &[(String, Cost)]) -> (r: Cost)
        ensures
            r.0 as int == agg_spec(*self, costs@.map_values(|p: (String, Cost)| p.1.0)),
    {
        let ghost vals = costs@.map_values(|p: (String, Cost)| p.1.0);
        match self {
            CostAggregation::Sum => {
                let mut acc: u64 = 0;
                let mut i: usize = 0;
                while i < costs.len()
                    invariant
                        i <= costs@.len(),
                        vals == costs@.map_values(|p: (String, Cost)| p.1.0),
                        acc as int == cap(sum_of(vals.take(i as int))),
                    decreases costs@.len() - i,
                {
                    proof {
                        assert(vals.take(i + 1).drop_last() == vals.take(i as int));
                        lemma_sum_nonneg(vals.take(i as int));
                    }
                    acc = acc.saturating_add(costs[i].1.0);
                    i = i + 1;
                }
                proof {
                    assert(vals.take(costs@.len() as int) == vals);
                }
                Cost(acc)
            },
            CostAggregation::Mul => {
                if costs.len() == 0 {
                    return Cost::zero();
                }
                let mut acc: u64 = 1_000_000;
                let mut i: usize = 0;
                while i < costs.len()
                    invariant
                        i <= costs@.len(),
                        vals == costs@.map_values(|p: (String, Cost)| p.1.0),
                        acc as int == product_of(vals.take(i as int)),
                    decreases costs@.len() - i,
                {
                    proof {
                        assert(vals.take(i + 1).drop_last() == vals.take(i as int));
                    }
                    acc = fixed_mul(acc, costs[i].1.0);
                    i = i + 1;
                }
                proof {
                    assert(vals.take(costs@.len() as int) == vals);
                }
                Cost(acc)
            },
        }
    }

    /// Aggregates a list of per-feature results: the first error if any,
    /// else the aggregate of the costs.
    pub fn agg_iter(&self, costs: Vec<Result<(String, Cost), CostError>>) -> (r: Result<Cost, CostError>)
        ensures
            (forall|i: int| 0 <= i < costs@.len() ==> (#[trigger] costs@[i]) is Ok) ==> r is Ok && r->Ok_0.0 as int
                == agg_spec(*self, costs@.map_values(|p: Result<(String, Cost), CostError>| p->Ok_0.1.0)),
            forall|i: int|
                0 <= i < costs@.len() && (#[trigger] costs@[i]) is Err && (forall|j: int| 0 <= j < i ==> (
                #[trigger] costs@[j]) is Ok) ==> r is Err && r->Err_0 == costs@[i]->Err_0,
    {
        let ghost all = costs@;
        let mut v = costs;
        let mut ok: Vec<(String, Cost)> = Vec::new();
        let mut i: usize = 0;
        while i < v.len()
            invariant
                v@ == all,
                all == costs@,
                i <= all.len(),
                ok@.len() == i,
                forall|j: int| 0 <= j < i ==> (#[trigger] all[j]) is Ok && ok@[j].1 == all[j]->Ok_0.1,
            decreases all.len() - i,
        {
            if v[i].is_err() {
                let e = v.remove(i);
                proof {
                    assert(all[i as int] is Err);
                    assert(e == all[i as int]);
                    assert(!(all[i as int] is Ok));
                    assert forall|k: int|
                        0 <= k < all.len() && (#[trigger] all[k]) is Err && (forall|j: int| 0 <= j < k ==> (
                        #[trigger] all[j]) is Ok) implies e is Err && e->Err_0 == all[k]->Err_0 by {
                        if k > i {
                            assert(all[i as int] is Ok);
                        }
                    }
                }
                return match e {
                    Ok(_) => Err(CostError::BuildError(String::new())),
                    Err(err) => Err(err),
                };
            }
            match &v[i] {
                Ok((n, c)) => {
                    ok.push((n.clone(), *c));
                },
                Err(_) => {},
            }
            i = i + 1;
        }
        let r = self.agg(ok.as_slice());
        proof {
            assert(ok@.map_values(|p: (String, Cost)| p.1.0) == all.map_values(
                |p: Result<(String, Cost), CostError>| p->Ok_0.1.0,
            ));
        }
        Ok(r)
    }
}

/// Aggregating nothing gives zero, for a sum and for a product alike.
pub proof fn lemma_agg_empty(mode: CostAggregation)
    ensures
        agg_spec(mode, Seq::<u64>::empty()) == 0,
{
}

/// Aggregating two costs adds them, or multiplies them in fixed point
/// (rounded down to millionths), saturating at the largest cost.
pub proof fn lemma_agg_pair(a: u64, b: u64)
    ensures
        agg_spec(CostAggregation::Sum, seq![a, b]) == cap(a + b),
        agg_spec(CostAggregation::Mul, seq![a, b]) == cap((a * b) / 1_000_000),
{
    assert(seq![a, b].drop_last() == seq![a]);
    assert(seq![a].drop_last() == Seq::<u64>::empty());
    assert(seq![a].last() == a);
    assert(seq![a, b].last() == b);
    assert(sum_of(Seq::<u64>::empty()) == 0);
    assert(product_of(Seq::<u64>::empty()) == 1_000_000);
    assert(sum_of(seq![a]) == a);
    assert(sum_of(seq![a, b]) == a + b);
    assert((1_000_000 * (a as int)) / 1_000_000 == a as int) by (nonlinear_arith);
    assert(product_of(seq![a]) == a);
    assert(product_of(seq![a, b]) == fixed_mul_spec(a as int, b as int));
}

/// The order of two costs does not change their aggregate.
pub proof fn lemma_agg_commutative(mode: CostAggregation, a: u64, b: u64)
    ensures
        agg_spec(mode, seq![a, b]) == agg_spec(mode, seq![b, a]),
{
    lemma_agg_pair(a, b);
    lemma_agg_pair(b, a);
    assert(a * b == b * a) by (nonlinear_arith);
}

/// Summing `a` with `b` first, then `c`, equals summing `b` with `c` first,
/// then `a`.
pub proof fn lemma_sum_associative(a: u64, b: u64, c: u64)
    ensures
        agg_spec(CostAggregation::Sum, seq![agg_spec(CostAggregation::Sum, seq![a, b]) as u64, c]) == agg_spec(
            CostAggregation::Sum,
            seq![a, agg_spec(CostAggregation::Sum, seq![b, c]) as u64],
        ),
{
    lemma_agg_pair(a, b);
    lemma_agg_pair(b, c);
    let ab = agg_spec(CostAggregation::Sum, seq![a, b]) as u64;
    let bc = agg_spec(CostAggregation::Sum, seq![b, c]) as u64;
    lemma_agg_pair(ab, c);
    lemma_agg_pair(a, bc);
}

proof fn lemma_sum_append(s: Seq<u64>, t: Seq<u64>)
    ensures
        sum_of(s + t) == sum_of(s) + sum_of(t),
    decreases t.len(),
{
    if t.len() == 0 {
        assert(s + t == s);
    } else {
        assert((s + t).drop_last() == s + t.drop_last());
        lemma_sum_append(s, t.drop_last());
    }
}

/// A sum may be split anywhere: summing `s ++ t` equals summing the sums of
/// `s` and of `t`.
pub proof fn lemma_sum_split(s: Seq<u64>, t: Seq<u64>)
    ensures
        agg_spec(CostAggregation::Sum, s + t) == agg_spec(
            CostAggregation::Sum,
            seq![agg_spec(CostAggregation::Sum, s) as u64, agg_spec(CostAggregation::Sum, t) as u64],
        ),
{
    lemma_sum_append(s, t);
    lemma_sum_nonneg(s);
    lemma_sum_nonneg(t);
    lemma_agg_pair(agg_spec(CostAggregation::Sum, s) as u64, agg_spec(CostAggregation::Sum, t) as u64);
}

proof fn lemma_sum_remove(t: Seq<u64>, k: int)
    requires
        0 <= k < t.len(),
    ensures
        sum_of(t) == sum_of(t.remove(k)) + t[k],
    decreases t.len(),
{
    if k == t.len() - 1 {
        assert(t.remove(k) =~= t.drop_last());
    } else {
        assert(t.drop_last().remove(k) =~= t.remove(k).drop_last());
        lemma_sum_remove(t.drop_last(), k);
        assert(t.remove(k).last() == t.last());
    }
}

/// The sum of a list of costs does not depend on their order: any two
/// lists holding the same costs (as multisets) have the same sum.
pub proof fn lemma_sum_permutation(s: Seq<u64>, t: Seq<u64>)
    requires
        s.to_multiset() == t.to_multiset(),
    ensures
        agg_spec(CostAggregation::Sum, s) == agg_spec(CostAggregation::Sum, t),
    decreases s.len(),
{
    vstd::seq_lib::to_multiset_len(s);
    vstd::seq_lib::to_multiset_len(t);
    if s.len() == 0 {
        assert(t.len() == 0);
        assert(t =~= Seq::<u64>::empty());
        assert(s =~= Seq::<u64>::empty());
    } else {
        let x = s.last();
        assert(s.drop_last().push(x) =~= s);
        vstd::seq_lib::to_multiset_build(s.drop_last(), x);
        assert(s.contains(x)) by {
            assert(s[s.len() - 1] == x);
        }
        vstd::seq_lib::to_multiset_contains(s, x);
        vstd::seq_lib::to_multiset_contains(t, x);
        assert(t.contains(x));
        let k = choose|k: int| 0 <= k < t.len() && t[k] == x;
        vstd::seq_lib::to_multiset_remove(t, k);
        assert(s.drop_last().to_multiset() =~= t.remove(k).to_multiset());
        lemma_sum_permutation(s.drop_last(), t.remove(k));
        lemma_sum_remove(t, k);
        lemma_sum_nonneg(s.drop_last());
        lemma_sum_nonneg(t.remove(k));
    }
}

/// One cost-bearing feature: the state feature it reads, the cost per unit of
/// its increase, and a weight, both in millionths.
pub struct CostFeature {
    pub name: String,
    pub weight: u64,
    pub rate: u64,
}

/// Maps state changes to costs.
pub struct CostModel {
    pub features: Vec<CostFeature>,
    pub aggregation: CostAggregation,
}

/// The cost of a change `delta`: a decrease costs nothing, an increase
/// costs `delta * rate * weight`, all three in millionths, each product
/// rounded down to millionths and saturating.
pub open spec fn feature_cost(delta: int, rate: u64, weight: u64) -> int {
    if delta <= 0 {
        0
    } else {
        fixed_mul_spec(fixed_mul_spec(delta, rate as int), weight as int)
    }
}

impl CostModel {
    /// Every cost feature is a feature of `sm` and `prev`, `next` fit `sm`.
    pub open spec fn readable(&self, sm: StateModel, prev: Seq<StateVar>, next: Seq<StateVar>) -> bool {
        forall|i: int| 0 <= i < self.features@.len() ==> {
            let k = (#[trigger] self.features@[i]).name@;
            sm.located(prev, k) && sm.located(next, k) && i64::MIN <= sm.value_of(next, k) - sm.value_of(prev, k)
                <= i64::MAX
        }
    }

    /// The cost of each feature between `prev` and `next`.
    pub open spec fn terms(&self, sm: StateModel, prev: Seq<StateVar>, next: Seq<StateVar>) -> Seq<u64> {
        Seq::new(
            self.features@.len(),
            |i: int|
                {
                    let f = self.features@[i];
                    feature_cost(sm.value_of(next, f.name@) - sm.value_of(prev, f.name@), f.rate, f.weight) as u64
                },
        )
    }

    /// The aggregated cost of moving from state `prev` to state `next`.
    pub fn traversal_cost(&self, sm: &StateModel, prev: &[StateVar], next: &[StateVar]) -> (r: Result<
        Cost,
        CostError,
    >)
        requires
            sm.wf(),
        ensures
            self.readable(*sm, prev@, next@) <==> r is Ok,
            r is Ok ==> r->Ok_0.0 as int == agg_spec(self.aggregation, self.terms(*sm, prev@, next@)),
    {
        let mut parts: Vec<(String, Cost)> = Vec::new();
        let mut i: usize = 0;
        while i < self.features.len()
            invariant
                sm.wf(),
                i <= self.features@.len(),
                parts@.len() == i,
                forall|j: int| 0 <= j < i ==> {
                    let k = (#[trigger] self.features@[j]).name@;
                    sm.located(prev@, k) && sm.located(next@, k) && i64::MIN <= sm.value_of(next@, k) - sm.value_of(
                        prev@,
                        k,
                    ) <= i64::MAX
                },
                forall|j: int| 0 <= j < i ==> (#[trigger] parts@[j]).1.0 == self.terms(*sm, prev@, next@)[j],
            decreases self.features@.len() - i,
        {
            let f = &self.features[i];
            let d = match sm.get_delta(prev, next, f.name.as_str()) {
                Ok(d) => d,
                Err(_) => {
                    return Err(CostError::StateError(f.name.clone()));
                },
            };
            let c: u64 = if d.0 <= 0 {
                0
            } else {
                fixed_mul(fixed_mul(d.0 as u64, f.rate), f.weight)
            };
            parts.push((f.name.clone(), Cost(c)));
            i = i + 1;
        }
        let r = self.aggregation.agg(parts.as_slice());
        proof {
            assert(parts@.map_values(|p: (String, Cost)| p.1.0) == self.terms(*sm, prev@, next@));
        }
        Ok(r)
    }

    /// The cost of the changes in `bound`, a lower bound on the change of
    /// each feature along any remaining path; an admissible estimate.
    pub fn cost_estimate(&self, sm: &StateModel, bound: &[StateVar]) -> (r: Result<Cost, CostError>)
        requires
            sm.wf(),
        ensures
            self.readable(*sm, zeros(bound@.len() as int), bound@) <==> r is Ok,
            r is Ok ==> r->Ok_0.0 as int == agg_spec(self.aggregation, self.terms(*sm, zeros(bound@.len() as int), bound@)),
    {
        let mut z: Vec<StateVar> = Vec::new();
        let mut i: usize = 0;
        while i < bound.len()
            invariant
                i <= bound@.len(),
                z@ == zeros(i as int),
            decreases bound@.len() - i,
        {
            z.push(StateVar(0));
            i = i + 1;
            proof {
                assert(z@ =~= zeros(i as int));
            }
        }
        self.traversal_cost(sm, z.as_slice(), bound)
    }

    /// The aggregated cost of the access step from `prev` to `access`.
    pub fn access_cost(&self, sm: &StateModel, prev: &[StateVar], access: &[StateVar]) -> (r: Result<
        Cost,
        CostError,
    >)
        requires
            sm.wf(),
        ensures
            self.readable(*sm, prev@, access@) <==> r is Ok,
            r is Ok ==> r->Ok_0.0 as int == agg_spec(self.aggregation, self.terms(*sm, prev@, access@)),
    {
        self.traversal_cost(sm, prev, access)
    }
}


/// `n` zero state variables.
pub open spec fn zeros(n: int) -> Seq<StateVar> {
    Seq::new(n as nat, |i: int| StateVar(0))
}

proof fn lemma_zero_terms(s: Seq<u64>)
    requires
        forall|i: int| 0 <= i < s.len() ==> s[i] == 0,
    ensures
        sum_of(s) == 0,
        s.len() > 0 ==> product_of(s) == 0,
    decreases s.len(),
{
    if s.len() > 0 {
        lemma_zero_terms(s.drop_last());
        assert(s.last() == 0);
        assert(product_of(s.drop_last()) * 0 == 0) by (nonlinear_arith);
        assert(fixed_mul_spec(product_of(s.drop_last()), 0) == 0);
    }
}

/// An estimate from a bound of no change costs nothing, so it never exceeds
/// the cost of any traversal: the zero bound is admissible.
pub proof fn lemma_zero_bound_admissible(
    cm: CostModel,
    sm: StateModel,
    bound: Seq<StateVar>,
    prev: Seq<StateVar>,
    next: Seq<StateVar>,
)
    requires
        sm.wf(),
        forall|i: int| 0 <= i < bound.len() ==> #[trigger] bound[i] == StateVar(0),
        cm.readable(sm, zeros(bound.len() as int), bound),
    ensures
        agg_spec(cm.aggregation, cm.terms(sm, zeros(bound.len() as int), bound)) == 0,
        agg_spec(cm.aggregation, cm.terms(sm, zeros(bound.len() as int), bound)) <= agg_spec(
            cm.aggregation,
            cm.terms(sm, prev, next),
        ),
{
    let t = cm.terms(sm, zeros(bound.len() as int), bound);
    assert forall|i: int| 0 <= i < t.len() implies t[i] == 0 by {
        let k = cm.features@[i].name@;
        assert(sm.located(bound, k));
        assert(bound[sm.index_of(k)] == StateVar(0));
    }
    lemma_zero_terms(t);
    lemma_costs_nonnegative(cm.aggregation, cm.terms(sm, prev, next), 0, 0, 0);
}

/// Costs are never negative: neither a feature's cost nor any aggregate.
pub proof fn lemma_costs_nonnegative(mode: CostAggregation, s: Seq<u64>, delta: int, rate: u64, weight: u64)
    ensures
        agg_spec(mode, s) >= 0,
        feature_cost(delta, rate, weight) >= 0,
{
    lemma_sum_nonneg(s);
    lemma_product_nonneg(s);
    if delta > 0 {
        lemma_fixed_mul_bounds(delta, rate as int);
        lemma_fixed_mul_bounds(fixed_mul_spec(delta, rate as int), weight as int);
    }
}

} // verus!
