use vstd::prelude::*;

verus! {

/// Units of length, each a whole number of tenths of a millimetre.
#[derive(Clone, Copy, Debug, PartialEq, Eq, Structural)]
pub enum DistanceUnit {
    Meters,
    Kilometers,
    Miles,
    Feet,
}

/// Units of time, each a whole number of milliseconds.
#[derive(Clone, Copy, Debug, PartialEq, Eq, Structural)]
pub enum TimeUnit {
    Milliseconds,
    Seconds,
    Minutes,
    Hours,
}

/// Units of energy, each a whole number of watt-hours.
#[derive(Clone, Copy, Debug, PartialEq, Eq, Structural)]
pub enum EnergyUnit {
    WattHours,
    KilowattHours,
    GallonsGasoline,
}

/// The unit that distances are stored in when no other is declared.
pub const BASE_DISTANCE_UNIT: DistanceUnit = DistanceUnit::Meters;

/// Size of one distance unit, in tenths of a millimetre.
pub open spec fn distance_factor(u: DistanceUnit) -> nat {
    match u {
        DistanceUnit::Meters => 10_000,
        DistanceUnit::Kilometers => 10_000_000,
        DistanceUnit::Miles => 16_093_440,
        DistanceUnit::Feet => 3_048,
    }
}

/// Size of one time unit, in milliseconds.
pub open spec fn time_factor(u: TimeUnit) -> nat {
    match u {
        TimeUnit::Milliseconds => 1,
        TimeUnit::Seconds => 1_000,
        TimeUnit::Minutes => 60_000,
        TimeUnit::Hours => 3_600_000,
    }
}

/// Size of one energy unit, in watt-hours (a gallon of gasoline counts 33 705 Wh).
pub open spec fn energy_factor(u: EnergyUnit) -> nat {
    match u {
        EnergyUnit::WattHours => 1,
        EnergyUnit::KilowattHours => 1_000,
        EnergyUnit::GallonsGasoline => 33_705,
    }
}

/// Rescales `v` by `from / to`, rounding toward zero.
pub open spec fn rescale(v: int, from: nat, to: nat) -> int
    recommends
        to > 0,
{
    if v >= 0 {
        (v * from) / (to as int)
    } else {
        -(((-v) * from) / (to as int))
    }
}

/// True when `v` fits in an `i64`.
pub open spec fn fits_i64(v: int) -> bool {
    i64::MIN <= v <= i64::MAX
}

impl DistanceUnit {
    pub fn factor(&self) -> (r: u64)
        ensures
            r as nat == distance_factor(*self),
            r > 0,
    {
        match self {
            DistanceUnit::Meters => 10_000,
            DistanceUnit::Kilometers => 10_000_000,
            DistanceUnit::Miles => 16_093_440,
            DistanceUnit::Feet => 3_048,
        }
    }

    /// Converts the fixed-point value `v` of this unit into `to`, rounding toward
    /// zero; `None` when the result does not fit in an `i64`.
    pub fn convert(&self, v: i64, to: &DistanceUnit) -> (r: Option<i64>)
        ensures
            ({
                let x = rescale(v as int, distance_factor(*self), distance_factor(*to));
                match r {
                    Some(y) => y as int == x,
                    None => !fits_i64(x),
                }
            }),
    {
        rescale_i64(v, self.factor(), to.factor())
    }
}

impl TimeUnit {
    pub fn factor(&self) -> (r: u64)
        ensures
            r as nat == time_factor(*self),
            r > 0,
    {
        match self {
            TimeUnit::Milliseconds => 1,
            TimeUnit::Seconds => 1_000,
            TimeUnit::Minutes => 60_000,
            TimeUnit::Hours => 3_600_000,
        }
    }

    /// Converts the fixed-point value `v` of this unit into `to`, rounding toward
    /// zero; `None` when the result does not fit in an `i64`.
    pub fn convert(&self, v: i64, to: &TimeUnit) -> (r: Option<i64>)
        ensures
            ({
                let x = rescale(v as int, time_factor(*self), time_factor(*to));
                match r {
                    Some(y) => y as int == x,
                    None => !fits_i64(x),
                }
            }),
    {
        rescale_i64(v, self.factor(), to.factor())
    }
}

impl EnergyUnit {
    pub fn factor(&self) -> (r: u64)
        ensures
            r as nat == energy_factor(*self),
            r > 0,
    {
        match self {
            EnergyUnit::WattHours => 1,
            EnergyUnit::KilowattHours => 1_000,
            EnergyUnit::GallonsGasoline => 33_705,
        }
    }

    /// Converts the fixed-point value `v` of this unit into `to`, rounding toward
    /// zero; `None` when the result does not fit in an `i64`.
    pub fn convert(&self, v: i64, to: &EnergyUnit) -> (r: Option<i64>)
        ensures
            ({
                let x = rescale(v as int, energy_factor(*self), energy_factor(*to));
                match r {
                    Some(y) => y as int == x,
                    None => !fits_i64(x),
                }
            }),
    {
        rescale_i64(v, self.factor(), to.factor())
    }
}

/// Computes `rescale(v, from, to)` without overflow.
pub fn rescale_i64(v: i64, from: u64, to: u64) -> (r: Option<i64>)
    requires
        0 < from <= 100_000_000,
        0 < to <= 100_000_000,
    ensures
        ({
            let x = rescale(v as int, from as nat, to as nat);
            match r {
                Some(y) => y as int == x,
                None => !fits_i64(x),
            }
        }),
{
    let neg = v < 0;
    let mag: u128 = if neg {
        (-(v as i128)) as u128
    } else {
        v as u128
    };
    assert(mag <= 0x8000_0000_0000_0000);
    assert(mag * (from as u128) <= 0x8000_0000_0000_0000u128 * 100_000_000u128) by (nonlinear_arith)
        requires
            mag <= 0x8000_0000_0000_0000,
            from <= 100_000_000,
    ;
    let q: u128 = (mag * (from as u128)) / (to as u128);
    if neg {
        if q <= 0x8000_0000_0000_0000u128 {
            Some((-(q as i128)) as i64)
        } else {
            None
        }
    } else {
        if q <= 0x7fff_ffff_ffff_ffffu128 {
            Some(q as i64)
        } else {
            None
        }
    }
}


/// Converting a value into its own unit leaves it unchanged.
pub proof fn lemma_rescale_identity(v: int, f: nat)
    requires
        f > 0,
    ensures
        rescale(v, f, f) == v,
{
    if v >= 0 {
        vstd::arithmetic::div_mod::lemma_div_multiples_vanish(v, f as int);
        assert(v * f == f * v) by (nonlinear_arith);
    } else {
        vstd::arithmetic::div_mod::lemma_div_multiples_vanish(-v, f as int);
        assert((-v) * f == f * (-v)) by (nonlinear_arith);
    }
}

proof fn lemma_round_trip_nonneg(x: int, a: nat, b: nat)
    requires
        x >= 0,
        a > 0,
        b > 0,
    ensures
        0 <= x - rescale(rescale(x, a, b), b, a),
        (x - rescale(rescale(x, a, b), b, a)) * a < a + b,
        a % b == 0 ==> rescale(rescale(x, a, b), b, a) == x,
{
    let q = (x * a) / (b as int);
    let r = (q * b) / (a as int);
    assert(x * a >= 0) by (nonlinear_arith)
        requires
            x >= 0,
            a > 0,
    ;
    assert(q >= 0) by (nonlinear_arith)
        requires
            x * a >= 0,
            b > 0,
            q == (x * a) / (b as int),
    ;
    assert(q * b >= 0) by (nonlinear_arith)
        requires
            q >= 0,
            b > 0,
    ;
    assert(rescale(x, a, b) == q);
    assert(rescale(q, b, a) == r);
    vstd::arithmetic::div_mod::lemma_fundamental_div_mod(x * a, b as int);
    vstd::arithmetic::div_mod::lemma_mod_bound(x * a, b as int);
    vstd::arithmetic::div_mod::lemma_fundamental_div_mod(q * b, a as int);
    vstd::arithmetic::div_mod::lemma_mod_bound(q * b, a as int);
    assert(b * q + (x * a) % (b as int) == x * a);
    assert(a * r + (q * b) % (a as int) == q * b);
    assert(r * a <= x * a) by (nonlinear_arith)
        requires
            a * r + (q * b) % (a as int) == q * b,
            (q * b) % (a as int) >= 0,
            b * q + (x * a) % (b as int) == x * a,
            (x * a) % (b as int) >= 0,
    ;
    assert(r <= x) by (nonlinear_arith)
        requires
            r * a <= x * a,
            a > 0,
    ;
    assert((x - r) * a < a + b) by (nonlinear_arith)
        requires
            a * r + (q * b) % (a as int) == q * b,
            (q * b) % (a as int) < a,
            b * q + (x * a) % (b as int) == x * a,
            (x * a) % (b as int) < b,
    ;
    if a % b == 0 {
        let k = (a as int) / (b as int);
        vstd::arithmetic::div_mod::lemma_fundamental_div_mod(a as int, b as int);
        assert(a == b * k);
        assert(x * a == (x * k) * b) by (nonlinear_arith)
            requires
                a == b * k,
        ;
        vstd::arithmetic::div_mod::lemma_div_multiples_vanish(x * k, b as int);
        assert((x * k) * b == b * (x * k)) by (nonlinear_arith);
        assert(q == x * k);
        assert(q * b == x * a) by (nonlinear_arith)
            requires
                q == x * k,
                a == b * k,
        ;
        vstd::arithmetic::div_mod::lemma_div_multiples_vanish(x, a as int);
        assert(x * a == a * x) by (nonlinear_arith);
    }
}

/// Converting `x` from a unit of size `a` into one of size `b` and back
/// loses less than one step of the coarser unit: the result lies within
/// `(a + b) / a` of `x`, on the side of zero, and is `x` itself when the
/// first unit is a whole number of the second.
pub proof fn lemma_round_trip(x: int, a: nat, b: nat)
    requires
        a > 0,
        b > 0,
    ensures
        ({
            let y = rescale(rescale(x, a, b), b, a);
            &&& x >= 0 ==> 0 <= x - y && (x - y) * a < a + b
            &&& x < 0 ==> 0 <= y - x && (y - x) * a < a + b
            &&& a % b == 0 ==> y == x
        }),
{
    if x >= 0 {
        lemma_round_trip_nonneg(x, a, b);
    } else {
        lemma_round_trip_nonneg(-x, a, b);
        let q = ((-x) * a) / (b as int);
        assert(rescale(x, a, b) == -q);
        assert(q >= 0) by (nonlinear_arith)
            requires
                x < 0,
                a > 0,
                b > 0,
                q == ((-x) * a) / (b as int),
        ;
        if q > 0 {
            assert(rescale(-q, b, a) == -rescale(q, b, a));
        } else {
            assert(q == 0);
            assert(q * b == 0) by (nonlinear_arith)
                requires
                    q == 0,
            ;
            assert(rescale(-q, b, a) == rescale(q, b, a));
        }
    }
}

/// Distance conversion: a unit into itself is the identity, and a round
/// trip through another unit stays within one step of the coarser unit.
pub proof fn lemma_distance_round_trip(x: int, from: DistanceUnit, to: DistanceUnit)
    ensures
        rescale(x, distance_factor(from), distance_factor(from)) == x,
        ({
            let y = rescale(rescale(x, distance_factor(from), distance_factor(to)), distance_factor(to), distance_factor(from));
            let a = distance_factor(from) as int;
            let b = distance_factor(to) as int;
            &&& (x >= 0 ==> 0 <= x - y && (x - y) * a < a + b)
            &&& (x < 0 ==> 0 <= y - x && (y - x) * a < a + b)
            &&& (a % b == 0 ==> y == x)
        }),
{
    lemma_rescale_identity(x, distance_factor(from));
    lemma_round_trip(x, distance_factor(from), distance_factor(to));
}

/// Time conversion: a unit into itself is the identity, and a round trip
/// through another unit stays within one step of the coarser unit.
pub proof fn lemma_time_round_trip(x: int, from: TimeUnit, to: TimeUnit)
    ensures
        rescale(x, time_factor(from), time_factor(from)) == x,
        ({
            let y = rescale(rescale(x, time_factor(from), time_factor(to)), time_factor(to), time_factor(from));
            let a = time_factor(from) as int;
            let b = time_factor(to) as int;
            &&& (x >= 0 ==> 0 <= x - y && (x - y) * a < a + b)
            &&& (x < 0 ==> 0 <= y - x && (y - x) * a < a + b)
            &&& (a % b == 0 ==> y == x)
        }),
{
    lemma_rescale_identity(x, time_factor(from));
    lemma_round_trip(x, time_factor(from), time_factor(to));
}

/// Energy conversion: a unit into itself is the identity, and a round trip
/// through another unit stays within one step of the coarser unit.
pub proof fn lemma_energy_round_trip(x: int, from: EnergyUnit, to: EnergyUnit)
    ensures
        rescale(x, energy_factor(from), energy_factor(from)) == x,
        ({
            let y = rescale(rescale(x, energy_factor(from), energy_factor(to)), energy_factor(to), energy_factor(from));
            let a = energy_factor(from) as int;
            let b = energy_factor(to) as int;
            &&& (x >= 0 ==> 0 <= x - y && (x - y) * a < a + b)
            &&& (x < 0 ==> 0 <= y - x && (y - x) * a < a + b)
            &&& (a % b == 0 ==> y == x)
        }),
{
    lemma_rescale_identity(x, energy_factor(from));
    lemma_round_trip(x, energy_factor(from), energy_factor(to));
}

} // verus!
