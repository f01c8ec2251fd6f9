use vstd::prelude::*;
use crate::state_model::StateFeature;
use crate::traversal::TraversalModel;
use crate::units::{DistanceUnit, BASE_DISTANCE_UNIT};

verus! {

/// The top-level fields of an application input.
#[derive(Clone, Copy, Debug, PartialEq, Eq, Structural)]
pub enum CompassInputField {
    Queries,
    ConfigInputFile,
}

impl CompassInputField {
    pub open spec fn name(&self) -> Seq<char> {
        match self {
            CompassInputField::Queries => "queries"@,
            CompassInputField::ConfigInputFile => "config_input_file"@,
        }
    }

    pub fn to_str(&self) -> (r: &'static str)
        ensures
            r@ == self.name(),
    {
        match self {
            CompassInputField::Queries => "queries",
            CompassInputField::ConfigInputFile => "config_input_file",
        }
    }

    pub fn to_string(&self) -> (r: String)
        ensures
            r@ == self.name(),
    {
        self.to_str().to_owned()
    }
}

/// Builds the distance traversal: a model that accumulates edge lengths into
/// the `distance` feature, and that feature's declaration.
pub struct DistanceTraversalBuilder {}

impl DistanceTraversalBuilder {
    /// The model and the feature it needs, stored in `distance_unit`
    /// (metres when none is given) and starting at zero.
    pub fn build(&self, distance_unit: Option<DistanceUnit>) -> (r: (TraversalModel, (String, StateFeature)))
        ensures
            r.0 is Distance,
            r.0.written() == "distance"@,
            r.1.0@ == "distance"@,
            r.1.1 == (StateFeature::Distance {
                distance_unit: match distance_unit {
                    Some(u) => u,
                    None => DistanceUnit::Meters,
                },
                initial: 0,
            }),
    {
        let unit = match distance_unit {
            Some(u) => u,
            None => BASE_DISTANCE_UNIT,
        };
        let model = TraversalModel::Distance { feature: String::from_str("distance") };
        let feature = (String::from_str("distance"), StateFeature::Distance { distance_unit: unit, initial: 0 });
        (model, feature)
    }
}

} // verus!
