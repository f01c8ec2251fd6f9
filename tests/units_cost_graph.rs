use routee_compass::cost::{Cost, CostAggregation, CostError};
use routee_compass::graph::{Direction, Edge, EdgeId, Graph, GraphError, Vertex, VertexId};
use routee_compass::input_field::{CompassInputField, DistanceTraversalBuilder};
use routee_compass::state_model::StateFeature;
use routee_compass::units::{rescale_i64, DistanceUnit, EnergyUnit, TimeUnit};

#[test]
fn unit_conversions() {
    assert_eq!(DistanceUnit::Kilometers.convert(1_000_000, &DistanceUnit::Meters), Some(1_000_000_000));
    assert_eq!(DistanceUnit::Meters.convert(1_609_344_000, &DistanceUnit::Miles), Some(1_000_000));
    assert_eq!(DistanceUnit::Feet.convert(1_000_000, &DistanceUnit::Meters), Some(304_800));
    assert_eq!(DistanceUnit::Miles.convert(-1_000_000, &DistanceUnit::Meters), Some(-1_609_344_000));
    assert_eq!(TimeUnit::Hours.convert(1_000_000, &TimeUnit::Seconds), Some(3_600_000_000));
    assert_eq!(EnergyUnit::GallonsGasoline.convert(1_000_000, &EnergyUnit::KilowattHours), Some(33_705_000));
    assert_eq!(TimeUnit::Hours.convert(i64::MAX, &TimeUnit::Milliseconds), None);
    assert_eq!(rescale_i64(7, 1, 2), Some(3));
    assert_eq!(rescale_i64(-7, 1, 2), Some(-3));
}

#[test]
fn unit_identity_and_round_trip() {
    for v in [0i64, 1, -1, 123_456_789, i64::MAX, i64::MIN] {
        assert_eq!(DistanceUnit::Miles.convert(v, &DistanceUnit::Miles), Some(v));
    }
    let x = 1_234_567i64;
    let there = DistanceUnit::Meters.convert(x, &DistanceUnit::Miles).unwrap();
    let back = DistanceUnit::Miles.convert(there, &DistanceUnit::Meters).unwrap();
    assert!(x - back >= 0 && (x - back) * 10_000 < 10_000 + 16_093_440);
}

fn costs(v: &[u64]) -> Vec<(String, Cost)> {
    v.iter().map(|c| (String::from("f"), Cost(*c))).collect()
}

#[test]
fn aggregation_identities() {
    assert_eq!(CostAggregation::Sum.agg(&costs(&[])), Cost(0));
    assert_eq!(CostAggregation::Mul.agg(&costs(&[])), Cost(0));
    assert_eq!(CostAggregation::Sum.agg(&costs(&[3, 4])), Cost(7));
    // 3.0 * 4.0
    assert_eq!(CostAggregation::Mul.agg(&costs(&[3_000_000, 4_000_000])), Cost(12_000_000));
    // 2.0 * 3.0
    assert_eq!(CostAggregation::Mul.agg(&costs(&[2_000_000, 3_000_000])), Cost(6_000_000));
    // products round down to millionths
    assert_eq!(CostAggregation::Mul.agg(&costs(&[3, 500_000])), Cost(1));
    assert_eq!(CostAggregation::Sum.agg(&costs(&[4, 3])), CostAggregation::Sum.agg(&costs(&[3, 4])));
    assert_eq!(CostAggregation::Mul.agg(&costs(&[2_000_000, 3_000_000, 5_000_000])), Cost(30_000_000));
    assert_eq!(CostAggregation::Mul.agg(&costs(&[1_500_000])), Cost(1_500_000));
    assert_eq!(CostAggregation::Sum.agg(&costs(&[u64::MAX, 1])), Cost(u64::MAX));
    assert_eq!(CostAggregation::Mul.agg(&costs(&[u64::MAX, 2_000_000])), Cost(u64::MAX));
    assert_eq!(Cost::zero(), Cost(0));
    assert_eq!(Cost::one(), Cost(1_000_000));
}

#[test]
fn aggregation_of_results() {
    let ok = || vec![Ok((String::from("a"), Cost(2_000_000))), Ok((String::from("b"), Cost(5_000_000)))];
    assert_eq!(CostAggregation::Mul.agg_iter(ok()), Ok(Cost(10_000_000)));
    assert_eq!(CostAggregation::Sum.agg_iter(ok()), Ok(Cost(7_000_000)));
    let bad = vec![
        Ok((String::from("a"), Cost(2))),
        Err(CostError::UnknownFeature(String::from("x"))),
        Err(CostError::UnknownFeature(String::from("y"))),
    ];
    assert_eq!(CostAggregation::Sum.agg_iter(bad), Err(CostError::UnknownFeature(String::from("x"))));
    assert_eq!(CostAggregation::Mul.agg_iter(vec![]), Ok(Cost(0)));
}

fn v(i: u64) -> Vertex {
    Vertex { vertex_id: VertexId(i), x: 0, y: 0 }
}

fn e(id: u64, s: u64, d: u64) -> Edge {
    Edge { edge_id: EdgeId(id), src_vertex_id: VertexId(s), dst_vertex_id: VertexId(d), road_class: 0, distance: 1, grade: 0 }
}

#[test]
fn graph_accessors() {
    let g = Graph::new(vec![v(0), v(1), v(2)], vec![e(0, 0, 1), e(1, 0, 2), e(2, 2, 1)]).unwrap();
    assert_eq!(g.n_edges(), 3);
    assert_eq!(g.n_vertices(), 3);
    assert_eq!(g.all_edge_ids(), vec![EdgeId(0), EdgeId(1), EdgeId(2)]);
    assert_eq!(g.all_vertex_ids(), vec![VertexId(0), VertexId(1), VertexId(2)]);
    assert_eq!(g.all_edges().len(), 3);
    assert_eq!(g.all_vertices()[2], v(2));
    assert_eq!(g.out_edges(VertexId(0)).unwrap(), vec![EdgeId(0), EdgeId(1)]);
    assert_eq!(g.in_edges(VertexId(1)).unwrap(), vec![EdgeId(0), EdgeId(2)]);
    assert_eq!(g.src_vertex(EdgeId(2)).unwrap(), VertexId(2));
    assert_eq!(g.dst_vertex(EdgeId(2)).unwrap(), VertexId(1));
    assert_eq!(g.incident_vertex(EdgeId(1), Direction::Reverse).unwrap(), VertexId(0));
    assert_eq!(g.incident_edges(VertexId(1), Direction::Reverse).unwrap(), vec![EdgeId(0), EdgeId(2)]);
    assert_eq!(
        g.incident_triplets(VertexId(0), Direction::Forward).unwrap(),
        vec![(VertexId(0), EdgeId(0), VertexId(1)), (VertexId(0), EdgeId(1), VertexId(2))]
    );
    let (s, ed, d) = g.edge_triplet_attrs(EdgeId(2)).unwrap();
    assert_eq!((s.vertex_id, ed.edge_id, d.vertex_id), (VertexId(2), EdgeId(2), VertexId(1)));
    let attrs = g.incident_triplet_attributes(VertexId(1), Direction::Reverse).unwrap();
    assert_eq!(attrs.len(), 2);
    assert_eq!(attrs[1].2.vertex_id, VertexId(2));
}

#[test]
fn graph_errors() {
    let g = Graph::new(vec![v(0), v(1)], vec![e(0, 0, 1)]).unwrap();
    assert_eq!(g.edge_attr(EdgeId(9)), Err(GraphError::EdgeAttributeNotFound { edge_id: EdgeId(9) }));
    assert_eq!(g.vertex_attr(VertexId(9)), Err(GraphError::VertexAttributeNotFound { vertex_id: VertexId(9) }));
    assert_eq!(g.out_edges(VertexId(7)), Err(GraphError::VertexWithoutOutEdges { vertex_id: VertexId(7) }));
    assert_eq!(g.in_edges(VertexId(7)), Err(GraphError::VertexWithoutInEdges { vertex_id: VertexId(7) }));
    assert!(matches!(Graph::new(vec![v(1)], vec![]), Err(GraphError::VertexIdNotDense { .. })));
    assert!(matches!(Graph::new(vec![v(0), v(1)], vec![e(1, 0, 1)]), Err(GraphError::EdgeIdNotDense { .. })));
    assert!(matches!(Graph::new(vec![v(0)], vec![e(0, 0, 4)]), Err(GraphError::EdgeEndpointMissing { .. })));
}

#[test]
fn input_field_names() {
    assert_eq!(CompassInputField::Queries.to_str(), "queries");
    assert_eq!(CompassInputField::ConfigInputFile.to_string(), "config_input_file");
}

#[test]
fn distance_builder_defaults_to_meters() {
    let (_, (name, feature)) = DistanceTraversalBuilder {}.build(None);
    assert_eq!(name, "distance");
    assert_eq!(feature, StateFeature::Distance { distance_unit: DistanceUnit::Meters, initial: 0 });
    let (_, (_, feature)) = DistanceTraversalBuilder {}.build(Some(DistanceUnit::Kilometers));
    assert_eq!(feature, StateFeature::Distance { distance_unit: DistanceUnit::Kilometers, initial: 0 });
}

#[test]
fn sum_ignores_order() {
    let a = CostAggregation::Sum.agg(&costs(&[5, 1_000_000, 7, 3]));
    let b = CostAggregation::Sum.agg(&costs(&[3, 7, 5, 1_000_000]));
    assert_eq!(a, b);
    assert_eq!(a, Cost(1_000_015));
}
