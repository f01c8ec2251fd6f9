use vstd::prelude::*;
use crate::units::{
    lemma_round_trip, distance_factor, energy_factor, fits_i64, rescale, time_factor, DistanceUnit, EnergyUnit,
    TimeUnit,
};

verus! {

/// One slot of a state vector: a fixed-point number whose meaning the
/// [`StateModel`] that produced the vector defines.
#[derive(Clone, Copy, Debug, PartialEq, Eq, Structural)]
pub struct StateVar(pub i64);

/// How a custom feature encodes its values into a [`StateVar`].
#[derive(Clone, Copy, Debug, PartialEq, Eq, Structural)]
pub enum CustomFeatureFormat {
    SignedInteger { initial: i64 },
    UnsignedInteger { initial: u64 },
    Boolean { initial: bool },
}

/// Declaration of one state slot: its dimension and storage unit (or codec)
/// and its initial value, in fixed point of the storage unit.
#[derive(Clone, Copy, Debug, PartialEq, Eq, Structural)]
pub enum StateFeature {
    Distance { distance_unit: DistanceUnit, initial: i64 },
    Time { time_unit: TimeUnit, initial: i64 },
    Energy { energy_unit: EnergyUnit, initial: i64 },
    Custom { format: CustomFeatureFormat },
}

#[derive(Clone, Debug, PartialEq, Eq)]
pub enum StateError {
    UnknownFeature(String),
    IncompatibleFeatureType(String),
    StateVectorSizeMismatch { expected: usize, found: usize },
    CodecError(String),
    ValueOutOfRange(String),
    BuildError(String),
}

/// A feature together with its index in the state vector.
#[derive(Clone, Copy, Debug, PartialEq, Eq, Structural)]
pub struct IndexedStateFeature {
    pub index: usize,
    pub feature: StateFeature,
}

/// Names the slots of a state vector. Features are kept sorted by name (byte
/// order), names are unique, and a feature's position is its index in the
/// state vector.
pub struct StateModel {
    features: Vec<(String, StateFeature)>,
}

/// Strict lexicographic order on byte strings.
pub open spec fn lex_lt(a: Seq<u8>, b: Seq<u8>) -> bool {
    exists|i: int|
        0 <= i <= a.len() && i <= b.len() && #[trigger] a.subrange(0, i) == b.subrange(0, i) && (
        (i == a.len() && i < b.len()) || (i < a.len() && i < b.len() && a[i] < b[i]))
}

/// The bytes by which names are ordered.
pub open spec fn name_bytes(s: Seq<char>) -> Seq<u8> {
    vstd::utf8::encode_utf8(s)
}

/// Entries ordered by strictly increasing name, and no name twice.
pub open spec fn entries_wf(e: Seq<(String, StateFeature)>) -> bool {
    &&& forall|i: int| 0 <= i < e.len() - 1 ==> lex_lt(name_bytes(#[trigger] e[i].0@), name_bytes(e[i + 1].0@))
    &&& forall|i: int, j: int| 0 <= i < j < e.len() ==> (#[trigger] e[i]).0@ != (#[trigger] e[j]).0@
}

pub enum NameOrder {
    Less,
    Equal,
    Greater,
}

/// Compares two names byte by byte.
pub fn compare_names(a: &str, b: &str) -> (r: NameOrder)
    ensures
        r is Less ==> lex_lt(name_bytes(a@), name_bytes(b@)),
        r is Greater ==> lex_lt(name_bytes(b@), name_bytes(a@)),
        r is Equal ==> name_bytes(a@) == name_bytes(b@),
{
    let x = a.as_bytes();
    let y = b.as_bytes();
    let ghost xs = name_bytes(a@);
    let ghost ys = name_bytes(b@);
    assert(x@ == xs);
    assert(y@ == ys);
    let mut i: usize = 0;
    while i < x.len() && i < y.len() && x[i] == y[i]
        invariant
            x@ == xs,
            y@ == ys,
            i <= x@.len(),
            i <= y@.len(),
            xs.subrange(0, i as int) == ys.subrange(0, i as int),
        decreases x@.len() - i,
    {
        assert(xs.subrange(0, i + 1) == xs.subrange(0, i as int).push(xs[i as int]));
        assert(ys.subrange(0, i + 1) == ys.subrange(0, i as int).push(ys[i as int]));
        i = i + 1;
    }
    if i < x.len() && i < y.len() {
        if x[i] < y[i] {
            assert(lex_lt(xs, ys)) by {
                assert(xs.subrange(0, i as int) == ys.subrange(0, i as int));
            }
            NameOrder::Less
        } else {
            assert(lex_lt(ys, xs)) by {
                assert(ys.subrange(0, i as int) == xs.subrange(0, i as int));
            }
            NameOrder::Greater
        }
    } else if x.len() == y.len() {
        assert(xs == xs.subrange(0, i as int));
        assert(ys == ys.subrange(0, i as int));
        NameOrder::Equal
    } else if i == x.len() {
        assert(lex_lt(xs, ys)) by {
            assert(xs.subrange(0, i as int) == ys.subrange(0, i as int));
        }
        NameOrder::Less
    } else {
        assert(lex_lt(ys, xs)) by {
            assert(ys.subrange(0, i as int) == xs.subrange(0, i as int));
        }
        NameOrder::Greater
    }
}

impl StateModel {
    pub closed spec fn entries(&self) -> Seq<(String, StateFeature)> {
        self.features@
    }

    /// Name of the feature at state index `i`.
    pub open spec fn name(&self, i: int) -> Seq<char> {
        self.entries()[i].0@
    }

    /// The feature at state index `i`.
    pub open spec fn feature(&self, i: int) -> StateFeature {
        self.entries()[i].1
    }

    pub open spec fn n(&self) -> int {
        self.entries().len() as int
    }

    pub open spec fn wf(&self) -> bool {
        entries_wf(self.entries())
    }

    /// The model has a feature named `k`.
    pub open spec fn has(&self, k: Seq<char>) -> bool {
        exists|i: int| 0 <= i < self.n() && #[trigger] self.name(i) == k
    }

    /// The state index of the feature named `k`.
    pub open spec fn index_of(&self, k: Seq<char>) -> int
        recommends
            self.has(k),
    {
        choose|i: int| 0 <= i < self.n() && #[trigger] self.name(i) == k
    }

    /// A model with no features.
    pub fn empty() -> (r: StateModel)
        ensures
            r.wf(),
            r.n() == 0,
    {
        StateModel { features: Vec::new() }
    }

    pub fn len(&self) -> (r: usize)
        ensures
            r as int == self.n(),
    {
        self.features.len()
    }

    pub fn is_empty(&self) -> (r: bool)
        ensures
            r == (self.n() == 0),
    {
        self.features.len() == 0
    }

    /// The state index of the feature named `name`.
    pub fn get_index(&self, name: &str) -> (r: Result<usize, StateError>)
        requires
            self.wf(),
        ensures
            self.has(name@) <==> r is Ok,
            r is Ok ==> r->Ok_0 < self.n() && self.name(r->Ok_0 as int) == name@
                && r->Ok_0 == self.index_of(name@),
            r is Err ==> r->Err_0 is UnknownFeature,
    {
        let key = name.to_owned();
        let mut i: usize = 0;
        while i < self.features.len()
            invariant
                self.wf(),
                key@ == name@,
                i <= self.n(),
                forall|j: int| 0 <= j < i ==> self.name(j) != name@,
            decreases self.n() - i,
        {
            if self.features[i].0 == key {
                proof {
                    let c = self.index_of(name@);
                    assert(self.name(i as int) == name@);
                    if c != i as int {
                        assert(self.entries()[c].0@ == self.entries()[i as int].0@);
                    }
                }
                return Ok(i);
            }
            i = i + 1;
        }
        Err(StateError::UnknownFeature(key))
    }

    pub fn contains_key(&self, k: &str) -> (r: bool)
        requires
            self.wf(),
        ensures
            r == self.has(k@),
    {
        self.get_index(k).is_ok()
    }

    /// The declaration of the feature named `name`.
    pub fn get_feature(&self, name: &str) -> (r: Result<StateFeature, StateError>)
        requires
            self.wf(),
        ensures
            self.has(name@) <==> r is Ok,
            r is Ok ==> r->Ok_0 == self.feature(self.index_of(name@)),
            r is Err ==> r->Err_0 is UnknownFeature,
    {
        let i = self.get_index(name)?;
        Ok(self.features[i].1)
    }
}


/// The encoded initial value of a feature, if its codec can hold it.
pub open spec fn initial_of(f: StateFeature) -> Option<i64> {
    match f {
        StateFeature::Distance { initial, .. } => Some(initial),
        StateFeature::Time { initial, .. } => Some(initial),
        StateFeature::Energy { initial, .. } => Some(initial),
        StateFeature::Custom { format } => match format {
            CustomFeatureFormat::SignedInteger { initial } => Some(initial),
            CustomFeatureFormat::UnsignedInteger { initial } => if initial <= i64::MAX as u64 {
                Some(initial as i64)
            } else {
                None
            },
            CustomFeatureFormat::Boolean { initial } => Some(if initial { 1i64 } else { 0i64 }),
        },
    }
}

impl CustomFeatureFormat {
    pub fn encode_i64(&self, v: i64) -> (r: Result<StateVar, StateError>)
        ensures
            self is SignedInteger ==> r == Ok::<StateVar, StateError>(StateVar(v)),
            !(self is SignedInteger) ==> r is Err && r->Err_0 is CodecError,
    {
        match self {
            CustomFeatureFormat::SignedInteger { .. } => Ok(StateVar(v)),
            _ => Err(StateError::CodecError(String::from_str("feature does not hold a signed integer"))),
        }
    }

    pub fn encode_u64(&self, v: u64) -> (r: Result<StateVar, StateError>)
        ensures
            self is UnsignedInteger && v <= i64::MAX ==> r == Ok::<StateVar, StateError>(StateVar(v as i64)),
            !(self is UnsignedInteger && v <= i64::MAX) ==> r is Err && r->Err_0 is CodecError,
    {
        match self {
            CustomFeatureFormat::UnsignedInteger { .. } => if v <= i64::MAX as u64 {
                Ok(StateVar(v as i64))
            } else {
                Err(StateError::CodecError(String::from_str("unsigned value too large for a state variable")))
            },
            _ => Err(StateError::CodecError(String::from_str("feature does not hold an unsigned integer"))),
        }
    }

    pub fn encode_bool(&self, v: bool) -> (r: Result<StateVar, StateError>)
        ensures
            self is Boolean ==> r == Ok::<StateVar, StateError>(StateVar(if v { 1 } else { 0 })),
            !(self is Boolean) ==> r is Err && r->Err_0 is CodecError,
    {
        match self {
            CustomFeatureFormat::Boolean { .. } => Ok(StateVar(if v { 1 } else { 0 })),
            _ => Err(StateError::CodecError(String::from_str("feature does not hold a boolean"))),
        }
    }

    pub fn decode_i64(&self, v: StateVar) -> (r: Result<i64, StateError>)
        ensures
            self is SignedInteger ==> r == Ok::<i64, StateError>(v.0),
            !(self is SignedInteger) ==> r is Err && r->Err_0 is CodecError,
    {
        match self {
            CustomFeatureFormat::SignedInteger { .. } => Ok(v.0),
            _ => Err(StateError::CodecError(String::from_str("feature does not hold a signed integer"))),
        }
    }

    pub fn decode_u64(&self, v: StateVar) -> (r: Result<u64, StateError>)
        ensures
            self is UnsignedInteger && v.0 >= 0 ==> r == Ok::<u64, StateError>(v.0 as u64),
            !(self is UnsignedInteger && v.0 >= 0) ==> r is Err && r->Err_0 is CodecError,
    {
        match self {
            CustomFeatureFormat::UnsignedInteger { .. } => if v.0 >= 0 {
                Ok(v.0 as u64)
            } else {
                Err(StateError::CodecError(String::from_str("negative value in an unsigned feature")))
            },
            _ => Err(StateError::CodecError(String::from_str("feature does not hold an unsigned integer"))),
        }
    }

    pub fn decode_bool(&self, v: StateVar) -> (r: Result<bool, StateError>)
        ensures
            self is Boolean ==> r == Ok::<bool, StateError>(v.0 != 0),
            !(self is Boolean) ==> r is Err && r->Err_0 is CodecError,
    {
        match self {
            CustomFeatureFormat::Boolean { .. } => Ok(v.0 != 0),
            _ => Err(StateError::CodecError(String::from_str("feature does not hold a boolean"))),
        }
    }
}

impl StateFeature {
    /// The feature's initial value, encoded into a state variable.
    pub fn get_initial(&self) -> (r: Result<StateVar, StateError>)
        ensures
            initial_of(*self) is Some ==> r == Ok::<StateVar, StateError>(StateVar(initial_of(*self)->0)),
            initial_of(*self) is None ==> r is Err && r->Err_0 is CodecError,
    {
        match self {
            StateFeature::Distance { initial, .. } => Ok(StateVar(*initial)),
            StateFeature::Time { initial, .. } => Ok(StateVar(*initial)),
            StateFeature::Energy { initial, .. } => Ok(StateVar(*initial)),
            StateFeature::Custom { format } => match format {
                CustomFeatureFormat::SignedInteger { initial } => format.encode_i64(*initial),
                CustomFeatureFormat::UnsignedInteger { initial } => format.encode_u64(*initial),
                CustomFeatureFormat::Boolean { initial } => format.encode_bool(*initial),
            },
        }
    }

    pub fn get_distance_unit(&self) -> (r: Result<DistanceUnit, StateError>)
        ensures
            match *self {
                StateFeature::Distance { distance_unit, .. } => r == Ok::<DistanceUnit, StateError>(distance_unit),
                _ => r is Err && r->Err_0 is IncompatibleFeatureType,
            },
    {
        match self {
            StateFeature::Distance { distance_unit, .. } => Ok(*distance_unit),
            _ => Err(StateError::IncompatibleFeatureType(String::from_str("expected a distance feature"))),
        }
    }

    pub fn get_time_unit(&self) -> (r: Result<TimeUnit, StateError>)
        ensures
            match *self {
                StateFeature::Time { time_unit, .. } => r == Ok::<TimeUnit, StateError>(time_unit),
                _ => r is Err && r->Err_0 is IncompatibleFeatureType,
            },
    {
        match self {
            StateFeature::Time { time_unit, .. } => Ok(*time_unit),
            _ => Err(StateError::IncompatibleFeatureType(String::from_str("expected a time feature"))),
        }
    }

    pub fn get_energy_unit(&self) -> (r: Result<EnergyUnit, StateError>)
        ensures
            match *self {
                StateFeature::Energy { energy_unit, .. } => r == Ok::<EnergyUnit, StateError>(energy_unit),
                _ => r is Err && r->Err_0 is IncompatibleFeatureType,
            },
    {
        match self {
            StateFeature::Energy { energy_unit, .. } => Ok(*energy_unit),
            _ => Err(StateError::IncompatibleFeatureType(String::from_str("expected an energy feature"))),
        }
    }

    pub fn get_custom_feature_format(&self) -> (r: Result<CustomFeatureFormat, StateError>)
        ensures
            match *self {
                StateFeature::Custom { format } => r == Ok::<CustomFeatureFormat, StateError>(format),
                _ => r is Err && r->Err_0 is IncompatibleFeatureType,
            },
    {
        match self {
            StateFeature::Custom { format } => Ok(*format),
            _ => Err(StateError::IncompatibleFeatureType(String::from_str("expected a custom feature"))),
        }
    }
}


impl StateModel {
    /// `state` has one slot per feature and holds a feature named `k`.
    pub open spec fn located(&self, state: Seq<StateVar>, k: Seq<char>) -> bool {
        state.len() == self.n() && self.has(k)
    }

    /// The stored value of the feature named `k`.
    pub open spec fn value_of(&self, state: Seq<StateVar>, k: Seq<char>) -> i64 {
        state[self.index_of(k)].0
    }

    /// The outcome every accessor shares before it reads the feature: a size
    /// mismatch, then an unknown name.
    pub open spec fn lookup_failed(&self, state: Seq<StateVar>, k: Seq<char>, e: StateError) -> bool {
        &&& state.len() != self.n() ==> e is StateVectorSizeMismatch
        &&& state.len() == self.n() ==> e is UnknownFeature
    }

    fn check_size(&self, state: &[StateVar]) -> (r: Result<(), StateError>)
        ensures
            r is Ok <==> state@.len() == self.n(),
            r is Err ==> r->Err_0 is StateVectorSizeMismatch,
    {
        if state.len() != self.features.len() {
            Err(StateError::StateVectorSizeMismatch { expected: self.features.len(), found: state.len() })
        } else {
            Ok(())
        }
    }

    /// The raw state variable stored for the feature named `name`.
    pub fn get_value(&self, state: &[StateVar], name: &str) -> (r: Result<StateVar, StateError>)
        requires
            self.wf(),
        ensures
            self.located(state@, name@) ==> r == Ok::<StateVar, StateError>(state@[self.index_of(name@)]),
            !self.located(state@, name@) ==> r is Err && self.lookup_failed(state@, name@, r->Err_0),
    {
        self.check_size(state)?;
        let i = self.get_index(name)?;
        Ok(state[i])
    }

    /// Overwrites the state variable of the feature named `name`.
    pub fn update_state(&self, state: &mut Vec<StateVar>, name: &str, value: StateVar) -> (r: Result<(), StateError>)
        requires
            self.wf(),
        ensures
            self.located(old(state)@, name@) ==> r is Ok && final(state)@ == old(state)@.update(self.index_of(name@), value),
            !self.located(old(state)@, name@) ==> r is Err && self.lookup_failed(old(state)@, name@, r->Err_0)
                && final(state)@ == old(state)@,
    {
        self.check_size(state.as_slice())?;
        let i = self.get_index(name)?;
        state.set(i, value);
        Ok(())
    }

    /// The initial state of a search: each feature's initial value, encoded.
    pub fn initial_state(&self) -> (r: Result<Vec<StateVar>, StateError>)
        ensures
            (forall|i: int| 0 <= i < self.n() ==> initial_of(#[trigger] self.feature(i)) is Some) <==> r is Ok,
            r is Ok ==> r->Ok_0@.len() == self.n() && forall|i: int| 0 <= i < self.n()
                ==> #[trigger] r->Ok_0@[i] == StateVar(initial_of(self.feature(i))->0),
            r is Err ==> r->Err_0 is CodecError,
    {
        let mut out: Vec<StateVar> = Vec::new();
        let mut i: usize = 0;
        while i < self.features.len()
            invariant
                i <= self.n(),
                out@.len() == i,
                forall|j: int| 0 <= j < i ==> initial_of(#[trigger] self.feature(j)) is Some,
                forall|j: int| 0 <= j < i ==> #[trigger] out@[j] == StateVar(initial_of(self.feature(j))->0),
            decreases self.n() - i,
        {
            let v = match self.features[i].1.get_initial() {
                Ok(v) => v,
                Err(e) => {
                    assert(initial_of(self.feature(i as int)) is None);
                    return Err(e);
                },
            };
            out.push(v);
            i = i + 1;
        }
        Ok(out)
    }

    /// `next - prev` for the feature named `name`.
    pub fn get_delta(&self, prev: &[StateVar], next: &[StateVar], name: &str) -> (r: Result<StateVar, StateError>)
        requires
            self.wf(),
        ensures
            self.located(prev@, name@) && self.located(next@, name@) && fits_i64(
                self.value_of(next@, name@) - self.value_of(prev@, name@),
            ) ==> r == Ok::<StateVar, StateError>(
                StateVar((self.value_of(next@, name@) - self.value_of(prev@, name@)) as i64),
            ),
            !self.located(prev@, name@) ==> r is Err && self.lookup_failed(prev@, name@, r->Err_0),
            self.located(prev@, name@) && !self.located(next@, name@) ==> r is Err && self.lookup_failed(
                next@,
                name@,
                r->Err_0,
            ),
            self.located(prev@, name@) && self.located(next@, name@) && !fits_i64(
                self.value_of(next@, name@) - self.value_of(prev@, name@),
            ) ==> r is Err && r->Err_0 is ValueOutOfRange,
    {
        let p = self.get_value(prev, name)?;
        let n = self.get_value(next, name)?;
        let d = n.0 as i128 - p.0 as i128;
        if d < i64::MIN as i128 || d > i64::MAX as i128 {
            return Err(StateError::ValueOutOfRange(name.to_owned()));
        }
        Ok(StateVar(d as i64))
    }
}

impl StateModel {
    /// Reads the distance feature `name`, converted into `unit`.
    pub fn get_distance(&self, state: &[StateVar], name: &str, unit: &DistanceUnit) -> (r: Result<i64, StateError>)
        requires
            self.wf(),
        ensures
            !self.located(state@, name@) ==> r is Err && self.lookup_failed(state@, name@, r->Err_0),
            self.located(state@, name@) ==> match self.feature(self.index_of(name@)) {
                StateFeature::Distance { distance_unit, .. } => {
                    let x = rescale(
                        self.value_of(state@, name@) as int,
                        distance_factor(distance_unit),
                        distance_factor(*unit),
                    );
                    if fits_i64(x) {
                        r == Ok::<i64, StateError>(x as i64)
                    } else {
                        r is Err && r->Err_0 is ValueOutOfRange
                    }
                },
                _ => r is Err && r->Err_0 is IncompatibleFeatureType,
            },
    {
        let value = self.get_value(state, name)?;
        let feature = self.get_feature(name)?;
        let stored = feature.get_distance_unit()?;
        match stored.convert(value.0, unit) {
            Some(v) => Ok(v),
            None => Err(StateError::ValueOutOfRange(name.to_owned())),
        }
    }

    /// Writes `value` (given in `from_unit`) into the distance feature `name`,
    /// converted into the feature's storage unit.
    pub fn set_distance(&self, state: &mut Vec<StateVar>, name: &str, value: i64, from_unit: &DistanceUnit) -> (r: Result<(), StateError>)
        requires
            self.wf(),
        ensures
            !self.located(old(state)@, name@) ==> r is Err && self.lookup_failed(old(state)@, name@, r->Err_0),
            self.located(old(state)@, name@) ==> match self.feature(self.index_of(name@)) {
                StateFeature::Distance { distance_unit, .. } => {
                    let x = rescale(value as int, distance_factor(*from_unit), distance_factor(distance_unit));
                    if fits_i64(x) {
                        r is Ok && final(state)@ == old(state)@.update(self.index_of(name@), StateVar(x as i64))
                    } else {
                        r is Err && r->Err_0 is ValueOutOfRange
                    }
                },
                _ => r is Err && r->Err_0 is IncompatibleFeatureType,
            },
            r is Err ==> final(state)@ == old(state)@,
    {
        self.check_size(state.as_slice())?;
        let feature = self.get_feature(name)?;
        let stored = feature.get_distance_unit()?;
        match from_unit.convert(value, &stored) {
            Some(v) => self.update_state(state, name, StateVar(v)),
            None => Err(StateError::ValueOutOfRange(name.to_owned())),
        }
    }

    /// Adds `value` (given in `from_unit`) to the distance feature `name`: the
    /// stored value is read in `from_unit`, summed, and written back.
    pub fn add_distance(&self, state: &mut Vec<StateVar>, name: &str, value: i64, from_unit: &DistanceUnit) -> (r: Result<(), StateError>)
        requires
            self.wf(),
        ensures
            !self.located(old(state)@, name@) ==> r is Err && self.lookup_failed(old(state)@, name@, r->Err_0),
            self.located(old(state)@, name@) ==> match self.feature(self.index_of(name@)) {
                StateFeature::Distance { distance_unit, .. } => {
                    let cur = rescale(
                        self.value_of(old(state)@, name@) as int,
                        distance_factor(distance_unit),
                        distance_factor(*from_unit),
                    );
                    let x = rescale(cur + value, distance_factor(*from_unit), distance_factor(distance_unit));
                    if fits_i64(cur) && fits_i64(cur + value) && fits_i64(x) {
                        r is Ok && final(state)@ == old(state)@.update(self.index_of(name@), StateVar(x as i64))
                    } else {
                        r is Err && r->Err_0 is ValueOutOfRange
                    }
                },
                _ => r is Err && r->Err_0 is IncompatibleFeatureType,
            },
            r is Err ==> final(state)@ == old(state)@,
    {
        let cur = self.get_distance(state.as_slice(), name, from_unit)?;
        let sum = cur as i128 + value as i128;
        if sum < i64::MIN as i128 || sum > i64::MAX as i128 {
            return Err(StateError::ValueOutOfRange(name.to_owned()));
        }
        self.set_distance(state, name, sum as i64, from_unit)
    }

    /// Reads the time feature `name`, converted into `unit`.
    pub fn get_time(&self, state: &[StateVar], name: &str, unit: &TimeUnit) -> (r: Result<i64, StateError>)
        requires
            self.wf(),
        ensures
            !self.located(state@, name@) ==> r is Err && self.lookup_failed(state@, name@, r->Err_0),
            self.located(state@, name@) ==> match self.feature(self.index_of(name@)) {
                StateFeature::Time { time_unit, .. } => {
                    let x = rescale(
                        self.value_of(state@, name@) as int,
                        time_factor(time_unit),
                        time_factor(*unit),
                    );
                    if fits_i64(x) {
                        r == Ok::<i64, StateError>(x as i64)
                    } else {
                        r is Err && r->Err_0 is ValueOutOfRange
                    }
                },
                _ => r is Err && r->Err_0 is IncompatibleFeatureType,
            },
    {
        let value = self.get_value(state, name)?;
        let feature = self.get_feature(name)?;
        let stored = feature.get_time_unit()?;
        match stored.convert(value.0, unit) {
            Some(v) => Ok(v),
            None => Err(StateError::ValueOutOfRange(name.to_owned())),
        }
    }

    /// Writes `value` (given in `from_unit`) into the time feature `name`,
    /// converted into the feature's storage unit.
    pub fn set_time(&self, state: &mut Vec<StateVar>, name: &str, value: i64, from_unit: &TimeUnit) -> (r: Result<(), StateError>)
        requires
            self.wf(),
        ensures
            !self.located(old(state)@, name@) ==> r is Err && self.lookup_failed(old(state)@, name@, r->Err_0),
            self.located(old(state)@, name@) ==> match self.feature(self.index_of(name@)) {
                StateFeature::Time { time_unit, .. } => {
                    let x = rescale(value as int, time_factor(*from_unit), time_factor(time_unit));
                    if fits_i64(x) {
                        r is Ok && final(state)@ == old(state)@.update(self.index_of(name@), StateVar(x as i64))
                    } else {
                        r is Err && r->Err_0 is ValueOutOfRange
                    }
                },
                _ => r is Err && r->Err_0 is IncompatibleFeatureType,
            },
            r is Err ==> final(state)@ == old(state)@,
    {
        self.check_size(state.as_slice())?;
        let feature = self.get_feature(name)?;
        let stored = feature.get_time_unit()?;
        match from_unit.convert(value, &stored) {
            Some(v) => self.update_state(state, name, StateVar(v)),
            None => Err(StateError::ValueOutOfRange(name.to_owned())),
        }
    }

    /// Adds `value` (given in `from_unit`) to the time feature `name`: the
    /// stored value is read in `from_unit`, summed, and written back.
    pub fn add_time(&self, state: &mut Vec<StateVar>, name: &str, value: i64, from_unit: &TimeUnit) -> (r: Result<(), StateError>)
        requires
            self.wf(),
        ensures
            !self.located(old(state)@, name@) ==> r is Err && self.lookup_failed(old(state)@, name@, r->Err_0),
            self.located(old(state)@, name@) ==> match self.feature(self.index_of(name@)) {
                StateFeature::Time { time_unit, .. } => {
                    let cur = rescale(
                        self.value_of(old(state)@, name@) as int,
                        time_factor(time_unit),
                        time_factor(*from_unit),
                    );
                    let x = rescale(cur + value, time_factor(*from_unit), time_factor(time_unit));
                    if fits_i64(cur) && fits_i64(cur + value) && fits_i64(x) {
                        r is Ok && final(state)@ == old(state)@.update(self.index_of(name@), StateVar(x as i64))
                    } else {
                        r is Err && r->Err_0 is ValueOutOfRange
                    }
                },
                _ => r is Err && r->Err_0 is IncompatibleFeatureType,
            },
            r is Err ==> final(state)@ == old(state)@,
    {
        let cur = self.get_time(state.as_slice(), name, from_unit)?;
        let sum = cur as i128 + value as i128;
        if sum < i64::MIN as i128 || sum > i64::MAX as i128 {
            return Err(StateError::ValueOutOfRange(name.to_owned()));
        }
        self.set_time(state, name, sum as i64, from_unit)
    }

    /// Reads the energy feature `name`, converted into `unit`.
    pub fn get_energy(&self, state: &[StateVar], name: &str, unit: &EnergyUnit) -> (r: Result<i64, StateError>)
        requires
            self.wf(),
        ensures
            !self.located(state@, name@) ==> r is Err && self.lookup_failed(state@, name@, r->Err_0),
            self.located(state@, name@) ==> match self.feature(self.index_of(name@)) {
                StateFeature::Energy { energy_unit, .. } => {
                    let x = rescale(
                        self.value_of(state@, name@) as int,
                        energy_factor(energy_unit),
                        energy_factor(*unit),
                    );
                    if fits_i64(x) {
                        r == Ok::<i64, StateError>(x as i64)
                    } else {
                        r is Err && r->Err_0 is ValueOutOfRange
                    }
                },
                _ => r is Err && r->Err_0 is IncompatibleFeatureType,
            },
    {
        let value = self.get_value(state, name)?;
        let feature = self.get_feature(name)?;
        let stored = feature.get_energy_unit()?;
        match stored.convert(value.0, unit) {
            Some(v) => Ok(v),
            None => Err(StateError::ValueOutOfRange(name.to_owned())),
        }
    }

    /// Writes `value` (given in `from_unit`) into the energy feature `name`,
    /// converted into the feature's storage unit.
    pub fn set_energy(&self, state: &mut Vec<StateVar>, name: &str, value: i64, from_unit: &EnergyUnit) -> (r: Result<(), StateError>)
        requires
            self.wf(),
        ensures
            !self.located(old(state)@, name@) ==> r is Err && self.lookup_failed(old(state)@, name@, r->Err_0),
            self.located(old(state)@, name@) ==> match self.feature(self.index_of(name@)) {
                StateFeature::Energy { energy_unit, .. } => {
                    let x = rescale(value as int, energy_factor(*from_unit), energy_factor(energy_unit));
                    if fits_i64(x) {
                        r is Ok && final(state)@ == old(state)@.update(self.index_of(name@), StateVar(x as i64))
                    } else {
                        r is Err && r->Err_0 is ValueOutOfRange
                    }
                },
                _ => r is Err && r->Err_0 is IncompatibleFeatureType,
            },
            r is Err ==> final(state)@ == old(state)@,
    {
        self.check_size(state.as_slice())?;
        let feature = self.get_feature(name)?;
        let stored = feature.get_energy_unit()?;
        match from_unit.convert(value, &stored) {
            Some(v) => self.update_state(state, name, StateVar(v)),
            None => Err(StateError::ValueOutOfRange(name.to_owned())),
        }
    }

    /// Adds `value` (given in `from_unit`) to the energy feature `name`: the
    /// stored value is read in `from_unit`, summed, and written back.
    pub fn add_energy(&self, state: &mut Vec<StateVar>, name: &str, value: i64, from_unit: &EnergyUnit) -> (r: Result<(), StateError>)
        requires
            self.wf(),
        ensures
            !self.located(old(state)@, name@) ==> r is Err && self.lookup_failed(old(state)@, name@, r->Err_0),
            self.located(old(state)@, name@) ==> match self.feature(self.index_of(name@)) {
                StateFeature::Energy { energy_unit, .. } => {
                    let cur = rescale(
                        self.value_of(old(state)@, name@) as int,
                        energy_factor(energy_unit),
                        energy_factor(*from_unit),
                    );
                    let x = rescale(cur + value, energy_factor(*from_unit), energy_factor(energy_unit));
                    if fits_i64(cur) && fits_i64(cur + value) && fits_i64(x) {
                        r is Ok && final(state)@ == old(state)@.update(self.index_of(name@), StateVar(x as i64))
                    } else {
                        r is Err && r->Err_0 is ValueOutOfRange
                    }
                },
                _ => r is Err && r->Err_0 is IncompatibleFeatureType,
            },
            r is Err ==> final(state)@ == old(state)@,
    {
        let cur = self.get_energy(state.as_slice(), name, from_unit)?;
        let sum = cur as i128 + value as i128;
        if sum < i64::MIN as i128 || sum > i64::MAX as i128 {
            return Err(StateError::ValueOutOfRange(name.to_owned()));
        }
        self.set_energy(state, name, sum as i64, from_unit)
    }
}

impl StateModel {
    /// The raw state variable of the custom feature `name`, with its codec.
    fn get_custom_state_variable(&self, state: &[StateVar], name: &str) -> (r: Result<(StateVar, CustomFeatureFormat), StateError>)
        requires
            self.wf(),
        ensures
            !self.located(state@, name@) ==> r is Err && self.lookup_failed(state@, name@, r->Err_0),
            self.located(state@, name@) ==> match self.feature(self.index_of(name@)) {
                StateFeature::Custom { format } => r == Ok::<(StateVar, CustomFeatureFormat), StateError>(
                    (state@[self.index_of(name@)], format),
                ),
                _ => r is Err && r->Err_0 is IncompatibleFeatureType,
            },
    {
        let value = self.get_value(state, name)?;
        let feature = self.get_feature(name)?;
        let format = feature.get_custom_feature_format()?;
        Ok((value, format))
    }

    /// Reads the custom feature `name` as i64.
    pub fn get_custom_i64(&self, state: &[StateVar], name: &str) -> (r: Result<i64, StateError>)
        requires
            self.wf(),
        ensures
            !self.located(state@, name@) ==> r is Err && self.lookup_failed(state@, name@, r->Err_0),
            self.located(state@, name@) ==> match self.feature(self.index_of(name@)) {
                StateFeature::Custom { format } => {
                    let v = self.value_of(state@, name@);
                    if format is SignedInteger {
                        r == Ok::<i64, StateError>(v)
                    } else {
                        r is Err && r->Err_0 is CodecError
                    }
                },
                _ => r is Err && r->Err_0 is IncompatibleFeatureType,
            },
    {
        let (value, format) = self.get_custom_state_variable(state, name)?;
        format.decode_i64(value)
    }

    /// Writes `value` into the custom feature `name` through its codec.
    pub fn set_custom_i64(&self, state: &mut Vec<StateVar>, name: &str, value: i64) -> (r: Result<(), StateError>)
        requires
            self.wf(),
        ensures
            !self.located(old(state)@, name@) ==> r is Err && self.lookup_failed(old(state)@, name@, r->Err_0),
            self.located(old(state)@, name@) ==> match self.feature(self.index_of(name@)) {
                StateFeature::Custom { format } => {
                    if format is SignedInteger {
                        r is Ok && final(state)@ == old(state)@.update(self.index_of(name@), StateVar(value))
                    } else {
                        r is Err && r->Err_0 is CodecError
                    }
                },
                _ => r is Err && r->Err_0 is IncompatibleFeatureType,
            },
            r is Err ==> final(state)@ == old(state)@,
    {
        self.check_size(state.as_slice())?;
        let feature = self.get_feature(name)?;
        let format = feature.get_custom_feature_format()?;
        let encoded = format.encode_i64(value)?;
        self.update_state(state, name, encoded)
    }

    /// Reads the custom feature `name` as u64.
    pub fn get_custom_u64(&self, state: &[StateVar], name: &str) -> (r: Result<u64, StateError>)
        requires
            self.wf(),
        ensures
            !self.located(state@, name@) ==> r is Err && self.lookup_failed(state@, name@, r->Err_0),
            self.located(state@, name@) ==> match self.feature(self.index_of(name@)) {
                StateFeature::Custom { format } => {
                    let v = self.value_of(state@, name@);
                    if format is UnsignedInteger && v >= 0 {
                        r == Ok::<u64, StateError>(v as u64)
                    } else {
                        r is Err && r->Err_0 is CodecError
                    }
                },
                _ => r is Err && r->Err_0 is IncompatibleFeatureType,
            },
    {
        let (value, format) = self.get_custom_state_variable(state, name)?;
        format.decode_u64(value)
    }

    /// Writes `value` into the custom feature `name` through its codec.
    pub fn set_custom_u64(&self, state: &mut Vec<StateVar>, name: &str, value: u64) -> (r: Result<(), StateError>)
        requires
            self.wf(),
        ensures
            !self.located(old(state)@, name@) ==> r is Err && self.lookup_failed(old(state)@, name@, r->Err_0),
            self.located(old(state)@, name@) ==> match self.feature(self.index_of(name@)) {
                StateFeature::Custom { format } => {
                    if format is UnsignedInteger && value <= i64::MAX {
                        r is Ok && final(state)@ == old(state)@.update(self.index_of(name@), StateVar(value as i64))
                    } else {
                        r is Err && r->Err_0 is CodecError
                    }
                },
                _ => r is Err && r->Err_0 is IncompatibleFeatureType,
            },
            r is Err ==> final(state)@ == old(state)@,
    {
        self.check_size(state.as_slice())?;
        let feature = self.get_feature(name)?;
        let format = feature.get_custom_feature_format()?;
        let encoded = format.encode_u64(value)?;
        self.update_state(state, name, encoded)
    }

    /// Reads the custom feature `name` as bool.
    pub fn get_custom_bool(&self, state: &[StateVar], name: &str) -> (r: Result<bool, StateError>)
        requires
            self.wf(),
        ensures
            !self.located(state@, name@) ==> r is Err && self.lookup_failed(state@, name@, r->Err_0),
            self.located(state@, name@) ==> match self.feature(self.index_of(name@)) {
                StateFeature::Custom { format } => {
                    let v = self.value_of(state@, name@);
                    if format is Boolean {
                        r == Ok::<bool, StateError>(v != 0)
                    } else {
                        r is Err && r->Err_0 is CodecError
                    }
                },
                _ => r is Err && r->Err_0 is IncompatibleFeatureType,
            },
    {
        let (value, format) = self.get_custom_state_variable(state, name)?;
        format.decode_bool(value)
    }

    /// Writes `value` into the custom feature `name` through its codec.
    pub fn set_custom_bool(&self, state: &mut Vec<StateVar>, name: &str, value: bool) -> (r: Result<(), StateError>)
        requires
            self.wf(),
        ensures
            !self.located(old(state)@, name@) ==> r is Err && self.lookup_failed(old(state)@, name@, r->Err_0),
            self.located(old(state)@, name@) ==> match self.feature(self.index_of(name@)) {
                StateFeature::Custom { format } => {
                    if format is Boolean {
                        r is Ok && final(state)@ == old(state)@.update(self.index_of(name@), StateVar(if value { 1i64 } else { 0i64 }))
                    } else {
                        r is Err && r->Err_0 is CodecError
                    }
                },
                _ => r is Err && r->Err_0 is IncompatibleFeatureType,
            },
            r is Err ==> final(state)@ == old(state)@,
    {
        self.check_size(state.as_slice())?;
        let feature = self.get_feature(name)?;
        let format = feature.get_custom_feature_format()?;
        let encoded = format.encode_bool(value)?;
        self.update_state(state, name, encoded)
    }
}


/// Some entry of `e` is named `k` and holds `f`.
pub open spec fn entry_for(e: Seq<(String, StateFeature)>, k: Seq<char>, f: StateFeature) -> bool {
    exists|i: int| 0 <= i < e.len() && #[trigger] e[i].0@ == k && e[i].1 == f
}

/// Among the first `n` entries of `e`, the last one named `k` holds `f`.
pub open spec fn last_entry(e: Seq<(String, StateFeature)>, n: int, k: Seq<char>, f: StateFeature) -> bool {
    exists|j: int|
        0 <= j < n && #[trigger] e[j].0@ == k && e[j].1 == f && forall|j2: int|
            j < j2 < n ==> #[trigger] e[j2].0@ != k
}

proof fn lemma_same_bytes_same_name(a: Seq<char>, b: Seq<char>)
    requires
        name_bytes(a) == name_bytes(b),
    ensures
        a == b,
{
    vstd::utf8::encode_utf8_decode_utf8(a);
    vstd::utf8::encode_utf8_decode_utf8(b);
}

proof fn lemma_lex_irreflexive(a: Seq<u8>)
    ensures
        !lex_lt(a, a),
{
}

proof fn lemma_lex_trans(a: Seq<u8>, b: Seq<u8>, c: Seq<u8>)
    requires
        lex_lt(a, b),
        lex_lt(b, c),
    ensures
        lex_lt(a, c),
{
    let i = choose|i: int|
        0 <= i <= a.len() && i <= b.len() && #[trigger] a.subrange(0, i) == b.subrange(0, i) && (
        (i == a.len() && i < b.len()) || (i < a.len() && i < b.len() && a[i] < b[i]));
    let j = choose|j: int|
        0 <= j <= b.len() && j <= c.len() && #[trigger] b.subrange(0, j) == c.subrange(0, j) && (
        (j == b.len() && j < c.len()) || (j < b.len() && j < c.len() && b[j] < c[j]));
    let m = if i < j { i } else { j };
    assert forall|t: int| 0 <= t < m implies a[t] == c[t] by {
        assert(a.subrange(0, i)[t] == b.subrange(0, i)[t]);
        assert(b.subrange(0, j)[t] == c.subrange(0, j)[t]);
    }
    assert(a.subrange(0, m) =~= c.subrange(0, m));
    if i < j {
        assert(b.subrange(0, j)[i] == c.subrange(0, j)[i]);
    } else if j < i {
        assert(a.subrange(0, i)[j] == b.subrange(0, i)[j]);
    }
    assert(a.subrange(0, m) == c.subrange(0, m));
}

/// In sorted entries, a name below the one at `i` is below every later one.
proof fn lemma_sorted_tail(e: Seq<(String, StateFeature)>, i: int, k: Seq<char>)
    requires
        entries_wf(e),
        0 <= i,
        i < e.len() ==> lex_lt(name_bytes(k), name_bytes(e[i].0@)),
    ensures
        forall|j: int| i <= j < e.len() ==> lex_lt(name_bytes(k), name_bytes(#[trigger] e[j].0@)),
        forall|j: int| i <= j < e.len() ==> #[trigger] e[j].0@ != k,
    decreases e.len() - i,
{
    if i < e.len() {
        if i + 1 < e.len() {
            lemma_lex_trans(name_bytes(k), name_bytes(e[i].0@), name_bytes(e[i + 1].0@));
        }
        lemma_sorted_tail(e, i + 1, k);
        assert forall|j: int| i <= j < e.len() implies #[trigger] e[j].0@ != k by {
            lemma_lex_irreflexive(name_bytes(k));
        }
    }
}

/// `after` holds `(k, f)` and, for every other name, what `before` holds.
pub open spec fn inserted(
    after: Seq<(String, StateFeature)>,
    before: Seq<(String, StateFeature)>,
    k: Seq<char>,
    f: StateFeature,
) -> bool {
    forall|x: Seq<char>, g: StateFeature|
        entry_for(after, x, g) <==> ((x == k && g == f) || (x != k && entry_for(before, x, g)))
}

/// Adds `(k, f)` to well-formed entries, replacing the entry named `k` if any.
proof fn lemma_replace_entry(
    before: Seq<(String, StateFeature)>,
    after: Seq<(String, StateFeature)>,
    i: int,
    k_view: Seq<char>,
    f: StateFeature,
)
    requires
        entries_wf(before),
        0 <= i < before.len(),
        before[i].0@ == k_view,
        after == before.update(i, after[i]),
        after[i].0@ == k_view,
        after[i].1 == f,
    ensures
        entries_wf(after),
        inserted(after, before, k_view, f),
{
            assert forall|a: int, b: int| 0 <= a < b < after.len() implies (#[trigger] after[a]).0@ != (
            #[trigger] after[b]).0@ by {
                assert(before[a].0@ != before[b].0@);
            }
            assert forall|a: int| 0 <= a < after.len() - 1 implies lex_lt(
                name_bytes(#[trigger] after[a].0@),
                name_bytes(after[a + 1].0@),
            ) by {
                assert(lex_lt(name_bytes(before[a].0@), name_bytes(before[a + 1].0@)));
            }
            assert forall|x: Seq<char>, g: StateFeature| #![trigger entry_for(after, x, g)] entry_for(after, x, g) implies ((x == k_view && g == f) || (
            x != k_view && entry_for(before, x, g))) by {
                let w = choose|w: int| 0 <= w < after.len() && #[trigger] after[w].0@ == x && after[w].1 == g;
                if w != i {
                    assert(before[w] == after[w]);
                    if w < i {
                        assert(before[w].0@ != before[i].0@);
                    } else {
                        assert(before[i].0@ != before[w].0@);
                    }
                    assert(entry_for(before, x, g));
                } else {
                    assert(after[w] == (after[i].0, f));
                }
            }
            assert forall|x: Seq<char>, g: StateFeature| #![trigger entry_for(after, x, g)] ((x == k_view && g == f) || (x != k_view && entry_for(
                before,
                x,
                g,
            ))) implies entry_for(after, x, g) by {
                if x == k_view && g == f {
                    assert(after[i].0@ == x && after[i].1 == g);
                } else {
                    let w = choose|w: int| 0 <= w < before.len() && #[trigger] before[w].0@ == x && before[w].1 == g;
                    assert(w != i);
                    assert(after[w] == before[w]);
                }
            }
}

proof fn lemma_insert_entry(
    before: Seq<(String, StateFeature)>,
    after: Seq<(String, StateFeature)>,
    i: int,
    k_view: Seq<char>,
    f: StateFeature,
)
    requires
        entries_wf(before),
        0 <= i <= before.len(),
        after == before.insert(i, after[i]),
        after[i].0@ == k_view,
        after[i].1 == f,
        forall|j: int| 0 <= j < i ==> lex_lt(name_bytes(#[trigger] before[j].0@), name_bytes(k_view)),
        forall|j: int| i <= j < before.len() ==> lex_lt(name_bytes(k_view), name_bytes(#[trigger] before[j].0@)),
        forall|j: int| 0 <= j < before.len() ==> #[trigger] before[j].0@ != k_view,
    ensures
        entries_wf(after),
        inserted(after, before, k_view, f),
{
        assert forall|a: int| 0 <= a < after.len() - 1 implies lex_lt(
            name_bytes(#[trigger] after[a].0@),
            name_bytes(after[a + 1].0@),
        ) by {
            if a < i - 1 {
                assert(lex_lt(name_bytes(before[a].0@), name_bytes(before[a + 1].0@)));
            } else if a == i - 1 {
                assert(lex_lt(name_bytes(before[a].0@), name_bytes(k_view)));
            } else if a == i {
                assert(lex_lt(name_bytes(k_view), name_bytes(before[a].0@)));
            } else {
                assert(lex_lt(name_bytes(before[a - 1].0@), name_bytes(before[a].0@)));
            }
        }
        assert forall|a: int, b: int| 0 <= a < b < after.len() implies (#[trigger] after[a]).0@ != (
        #[trigger] after[b]).0@ by {
            if b < i {
                assert(before[a].0@ != before[b].0@);
            } else if b == i {
                assert(before[a].0@ != k_view);
            } else if a < i {
                assert(before[a].0@ != before[b - 1].0@);
            } else if a == i {
                assert(before[b - 1].0@ != k_view);
            } else {
                assert(before[a - 1].0@ != before[b - 1].0@);
            }
        }
        assert forall|x: Seq<char>, g: StateFeature| #![trigger entry_for(after, x, g)] entry_for(after, x, g) implies ((x == k_view && g == f) || (
        x != k_view && entry_for(before, x, g))) by {
            let w = choose|w: int| 0 <= w < after.len() && #[trigger] after[w].0@ == x && after[w].1 == g;
            if w < i {
                assert(before[w] == after[w]);
                assert(entry_for(before, x, g));
            } else if w > i {
                assert(before[w - 1] == after[w]);
                assert(entry_for(before, x, g));
            } else {
                assert(after[w] == (after[i].0, f));
            }
        }
        assert forall|x: Seq<char>, g: StateFeature| #![trigger entry_for(after, x, g)] ((x == k_view && g == f) || (x != k_view && entry_for(
            before,
            x,
            g,
        ))) implies entry_for(after, x, g) by {
            if x == k_view && g == f {
                assert(after[i].0@ == x && after[i].1 == g);
            } else {
                let w = choose|w: int| 0 <= w < before.len() && #[trigger] before[w].0@ == x && before[w].1 == g;
                if w < i {
                    assert(after[w] == before[w]);
                } else {
                    assert(after[w + 1] == before[w]);
                }
            }
        }
}

fn insert_entry(e: &mut Vec<(String, StateFeature)>, k: String, f: StateFeature)
    requires
        entries_wf(old(e)@),
    ensures
        entries_wf(final(e)@),
        inserted(final(e)@, old(e)@, k@, f),
{
    let ghost k_view = k@;
    let ghost before = e@;
    let mut i: usize = 0;
    let mut greater = false;
    let mut equal = false;
    while i < e.len() && !greater && !equal
        invariant
            i <= e@.len(),
            e@ == before,
            entries_wf(e@),
            k@ == k_view,
            forall|j: int| 0 <= j < i ==> lex_lt(name_bytes(#[trigger] e@[j].0@), name_bytes(k_view)),
            greater ==> i < e@.len() && lex_lt(name_bytes(k_view), name_bytes(e@[i as int].0@)),
            equal ==> i < e@.len() && e@[i as int].0@ == k_view,
            !(greater && equal),
        decreases e@.len() - i, (if greater || equal { 0int } else { 1int }),
    {
        match compare_names(e[i].0.as_str(), k.as_str()) {
            NameOrder::Less => {
                i = i + 1;
            },
            NameOrder::Equal => {
                proof {
                    lemma_same_bytes_same_name(e@[i as int].0@, k_view);
                }
                equal = true;
            },
            NameOrder::Greater => {
                greater = true;
            },
        }
    }
    if equal {
        e.set(i, (k, f));
        proof {
            assert(e@ == before.update(i as int, (k, f)));
            lemma_replace_entry(before, e@, i as int, k_view, f);
        }
        return;
    }
    proof {
        lemma_sorted_tail(before, i as int, k_view);
        assert forall|j: int| 0 <= j < i implies #[trigger] before[j].0@ != k_view by {
            lemma_lex_irreflexive(name_bytes(k_view));
        }
    }
    e.insert(i, (k, f));
    proof {
        assert(e@ == before.insert(i as int, (k, f)));
        lemma_insert_entry(before, e@, i as int, k_view, f);
    }
}

proof fn lemma_last_entry_step(e: Seq<(String, StateFeature)>, n: int, x: Seq<char>, g: StateFeature)
    requires
        0 <= n < e.len(),
    ensures
        last_entry(e, n + 1, x, g) <==> ((x == e[n].0@ && g == e[n].1) || (x != e[n].0@ && last_entry(e, n, x, g))),
{
    if last_entry(e, n + 1, x, g) {
        let j = choose|j: int|
            0 <= j < n + 1 && #[trigger] e[j].0@ == x && e[j].1 == g && forall|j2: int|
                j < j2 < n + 1 ==> #[trigger] e[j2].0@ != x;
        if j < n {
            assert(e[n].0@ != x);
            assert(last_entry(e, n, x, g));
        }
    }
    if x == e[n].0@ && g == e[n].1 {
        assert(forall|j2: int| n < j2 < n + 1 ==> #[trigger] e[j2].0@ != x);
        assert(last_entry(e, n + 1, x, g));
    }
    if x != e[n].0@ && last_entry(e, n, x, g) {
        let j = choose|j: int|
            0 <= j < n && #[trigger] e[j].0@ == x && e[j].1 == g && forall|j2: int|
                j < j2 < n ==> #[trigger] e[j2].0@ != x;
        assert(forall|j2: int| j < j2 < n + 1 ==> #[trigger] e[j2].0@ != x);
        assert(last_entry(e, n + 1, x, g));
    }
}

/// Inserts `src[from..]` into `e`, each later entry replacing an earlier one
/// of the same name.
fn insert_all(e: &mut Vec<(String, StateFeature)>, src: &Vec<(String, StateFeature)>)
    requires
        entries_wf(old(e)@),
    ensures
        entries_wf(final(e)@),
        forall|x: Seq<char>, g: StateFeature| #![trigger entry_for(final(e)@, x, g)]
            entry_for(final(e)@, x, g) <==> (last_entry(src@, src@.len() as int, x, g) || (
            !named(src@, x) && entry_for(old(e)@, x, g))),
{
    let ghost start = e@;
    let mut i: usize = 0;
    while i < src.len()
        invariant
            i <= src@.len(),
            entries_wf(e@),
            forall|x: Seq<char>, g: StateFeature| #![trigger entry_for(e@, x, g)]
                entry_for(e@, x, g) <==> (last_entry(src@, i as int, x, g) || (
                !named(src@.take(i as int), x) && entry_for(start, x, g))),
        decreases src@.len() - i,
    {
        let ghost prev = e@;
        let k = src[i].0.clone();
        insert_entry(e, k, src[i].1);
        proof {
            assert forall|x: Seq<char>, g: StateFeature| #![trigger entry_for(e@, x, g)]
                entry_for(e@, x, g) <==> (last_entry(src@, i + 1, x, g) || (
                !named(src@.take(i + 1), x) && entry_for(start, x, g))) by {
                lemma_last_entry_step(src@, i as int, x, g);
                assert(src@.take(i + 1) == src@.take(i as int).push(src@[i as int]));
                if named(src@.take(i + 1), x) && x != src@[i as int].0@ {
                    let w = choose|w: int| 0 <= w < src@.take(i + 1).len() && #[trigger] src@.take(i + 1)[w].0@ == x;
                    assert(src@.take(i as int)[w].0@ == x);
                }
                if named(src@.take(i as int), x) {
                    let w = choose|w: int| 0 <= w < src@.take(i as int).len() && #[trigger] src@.take(i as int)[w].0@ == x;
                    assert(src@.take(i + 1)[w].0@ == x);
                }
                if x == src@[i as int].0@ {
                    assert(src@.take(i + 1)[i as int].0@ == x);
                }
            }
        }
        i = i + 1;
    }
    proof {
        assert(src@.take(src@.len() as int) == src@);
    }
}

/// Some entry of `e` is named `k`.
pub open spec fn named(e: Seq<(String, StateFeature)>, k: Seq<char>) -> bool {
    exists|i: int| 0 <= i < e.len() && #[trigger] e[i].0@ == k
}

/// A feature named `k` in `e` holds `g` exactly when the last entry named `k`
/// holds `g`; this is the feature set that a list of declarations builds.
pub open spec fn built_from(e: Seq<(String, StateFeature)>, src: Seq<(String, StateFeature)>) -> bool {
    forall|x: Seq<char>, g: StateFeature| #![trigger entry_for(e, x, g)]
        entry_for(e, x, g) <==> last_entry(src, src.len() as int, x, g)
}

impl StateModel {
    /// The model holds a feature named `k` declared as `f`.
    pub open spec fn holds(&self, k: Seq<char>, f: StateFeature) -> bool {
        entry_for(self.entries(), k, f)
    }

    /// Builds a model from declarations; it is sorted by name, and of two
    /// declarations with one name the later one is kept.
    pub fn new(features: Vec<(String, StateFeature)>) -> (r: StateModel)
        ensures
            r.wf(),
            built_from(r.entries(), features@),
    {
        let mut e: Vec<(String, StateFeature)> = Vec::new();
        insert_all(&mut e, &features);
        StateModel { features: e }
    }

    /// Adds or overwrites features by name: a name declared in `entries` takes
    /// its last declaration there, every other name keeps its feature here.
    pub fn extend(&self, entries: Vec<(String, StateFeature)>) -> (r: Result<StateModel, StateError>)
        requires
            self.wf(),
        ensures
            r is Ok,
            r->Ok_0.wf(),
            forall|x: Seq<char>, g: StateFeature| #![trigger r->Ok_0.holds(x, g)]
                r->Ok_0.holds(x, g) <==> (last_entry(entries@, entries@.len() as int, x, g) || (
                !named(entries@, x) && self.holds(x, g))),
    {
        let mut e: Vec<(String, StateFeature)> = Vec::new();
        let mut i: usize = 0;
        while i < self.features.len()
            invariant
                i <= self.n(),
                self.wf(),
                e@ == self.entries().take(i as int),
            decreases self.n() - i,
        {
            let k = self.features[i].0.clone();
            e.push((k, self.features[i].1));
            proof {
                assert(self.entries().take(i + 1) == self.entries().take(i as int).push(self.entries()[i as int]));
            }
            i = i + 1;
        }
        proof {
            assert(e@ == self.entries());
        }
        insert_all(&mut e, &entries);
        Ok(StateModel { features: e })
    }

    /// The features in state-vector order, each with its index.
    pub fn to_vec(&self) -> (r: Vec<(String, IndexedStateFeature)>)
        ensures
            r@.len() == self.n(),
            forall|i: int| 0 <= i < self.n() ==> (#[trigger] r@[i]).0@ == self.name(i) && r@[i].1 == (
            IndexedStateFeature { index: i as usize, feature: self.feature(i) }),
    {
        let mut out: Vec<(String, IndexedStateFeature)> = Vec::new();
        let mut i: usize = 0;
        while i < self.features.len()
            invariant
                i <= self.n(),
                out@.len() == i,
                forall|j: int| 0 <= j < i ==> (#[trigger] out@[j]).0@ == self.name(j) && out@[j].1 == (
                IndexedStateFeature { index: j as usize, feature: self.feature(j) }),
            decreases self.n() - i,
        {
            let k = self.features[i].0.clone();
            out.push((k, IndexedStateFeature { index: i, feature: self.features[i].1 }));
            i = i + 1;
        }
        out
    }

    /// The features in state-vector order.
    pub fn iter(&self) -> (r: Vec<(String, StateFeature)>)
        ensures
            r@.len() == self.n(),
            forall|i: int| 0 <= i < self.n() ==> (#[trigger] r@[i]).0@ == self.name(i) && r@[i].1 == self.feature(i),
    {
        let mut out: Vec<(String, StateFeature)> = Vec::new();
        let mut i: usize = 0;
        while i < self.features.len()
            invariant
                i <= self.n(),
                out@.len() == i,
                forall|j: int| 0 <= j < i ==> (#[trigger] out@[j]).0@ == self.name(j) && out@[j].1 == self.feature(j),
            decreases self.n() - i,
        {
            let k = self.features[i].0.clone();
            out.push((k, self.features[i].1));
            i = i + 1;
        }
        out
    }

    /// The features in state-vector order, each paired with its index.
    pub fn indexed_iter(&self) -> (r: Vec<(usize, (String, StateFeature))>)
        ensures
            r@.len() == self.n(),
            forall|i: int| 0 <= i < self.n() ==> (#[trigger] r@[i]).0 == i && r@[i].1.0@ == self.name(i) && r@[i].1.1
                == self.feature(i),
    {
        let items = self.iter();
        let mut out: Vec<(usize, (String, StateFeature))> = Vec::new();
        let mut i: usize = 0;
        while i < items.len()
            invariant
                i <= items@.len(),
                items@.len() == self.n(),
                forall|j: int| 0 <= j < self.n() ==> (#[trigger] items@[j]).0@ == self.name(j) && items@[j].1 == self.feature(j),
                out@.len() == i,
                forall|j: int| 0 <= j < i ==> (#[trigger] out@[j]).0 == j && out@[j].1.0@ == self.name(j)
                    && out@[j].1.1 == self.feature(j),
            decreases items@.len() - i,
        {
            let k = items[i].0.clone();
            out.push((i, (k, items[i].1)));
            i = i + 1;
        }
        out
    }
}


/// Writing a distance with `set_distance` and reading it back with
/// `get_distance` in the same unit gives the value back, up to one step of
/// the coarser of that unit and the storage unit (exactly, when the unit is
/// a whole number of storage units).
pub proof fn lemma_set_get_distance(sm: StateModel, state: Seq<StateVar>, name: Seq<char>, x: i64, unit: DistanceUnit)
    requires
        sm.wf(),
        sm.located(state, name),
        sm.feature(sm.index_of(name)) is Distance,
        fits_i64(rescale(x as int, distance_factor(unit), distance_factor(sm.feature(sm.index_of(name))->distance_unit))),
    ensures
        ({
            let a = distance_factor(unit) as int;
            let b = distance_factor(sm.feature(sm.index_of(name))->distance_unit) as int;
            let written = state.update(sm.index_of(name), StateVar(rescale(x as int, a as nat, b as nat) as i64));
            let y = rescale(sm.value_of(written, name) as int, b as nat, a as nat);
            &&& sm.located(written, name)
            &&& x >= 0 ==> 0 <= x - y && (x - y) * a < a + b
            &&& x < 0 ==> 0 <= y - x && (y - x) * a < a + b
            &&& a % b == 0 ==> y == x
        }),
{
    let a = distance_factor(unit);
    let b = distance_factor(sm.feature(sm.index_of(name))->distance_unit);
    lemma_round_trip(x as int, a, b);
    let idx = sm.index_of(name);
    let written = state.update(idx, StateVar(rescale(x as int, a, b) as i64));
    assert(sm.name(idx) == name);
    assert(written.len() == state.len());
}


/// Walks the features of a model in state-vector order.
pub struct StateModelIter<'a> {
    iterable: &'a StateModel,
    index: usize,
}

impl<'a> StateModelIter<'a> {
    pub closed spec fn model(&self) -> StateModel {
        *self.iterable
    }

    /// The index of the next feature handed out.
    pub closed spec fn position(&self) -> int {
        self.index as int
    }

    pub fn new(iterable: &'a StateModel) -> (r: StateModelIter<'a>)
        ensures
            r.model() == *iterable,
            r.position() == 0,
    {
        StateModelIter { iterable, index: 0 }
    }

    /// The next feature and its name, or `None` after the last one.
    pub fn next(&mut self) -> (r: Option<(String, StateFeature)>)
        ensures
            final(self).model() == old(self).model(),
            old(self).position() < old(self).model().n() ==> r is Some && r.unwrap().0@ == old(self).model().name(
                old(self).position(),
            ) && r.unwrap().1 == old(self).model().feature(old(self).position()) && final(self).position() == old(
                self,
            ).position() + 1,
            old(self).position() >= old(self).model().n() ==> r is None && final(self).position() == old(
                self,
            ).position(),
    {
        if self.index >= self.iterable.features.len() {
            return None;
        }
        let k = self.iterable.features[self.index].0.clone();
        let f = self.iterable.features[self.index].1;
        self.index = self.index + 1;
        Some((k, f))
    }
}

} // verus!
