use routee_compass::cost::{Cost, CostAggregation, CostFeature, CostModel};
use routee_compass::graph::{Direction, Edge, EdgeId, Graph, Vertex, VertexId};
use routee_compass::search::{run_search, SearchError, SearchOutcome};
use routee_compass::state_model::{StateFeature, StateModel, StateVar};
use routee_compass::traversal::TraversalModel;
use routee_compass::units::{DistanceUnit, EnergyUnit};

const METER: u64 = 1_000_000;

fn vertices(n: u64) -> Vec<Vertex> {
    (0..n).map(|i| Vertex { vertex_id: VertexId(i), x: 0, y: 0 }).collect()
}

fn edge(id: u64, src: u64, dst: u64, meters: u64) -> Edge {
    Edge {
        edge_id: EdgeId(id),
        src_vertex_id: VertexId(src),
        dst_vertex_id: VertexId(dst),
        road_class: 1,
        distance: meters * METER,
        grade: 0,
    }
}

fn distance_setup() -> (StateModel, TraversalModel, CostModel) {
    let sm = StateModel::new(vec![(
        String::from("distance"),
        StateFeature::Distance { distance_unit: DistanceUnit::Meters, initial: 0 },
    )]);
    let tm = TraversalModel::Distance { feature: String::from("distance") };
    let cm = CostModel {
        features: vec![CostFeature { name: String::from("distance"), weight: 1_000_000, rate: 1_000_000 }],
        aggregation: CostAggregation::Sum,
    };
    (sm, tm, cm)
}

fn route_cost(out: &SearchOutcome) -> u64 {
    out.route.iter().map(|t| t.access_cost.0 + t.traversal_cost.0).sum()
}

fn route_ids(out: &SearchOutcome) -> Vec<u64> {
    out.route.iter().map(|t| t.edge_id.0).collect()
}

#[test]
fn line_graph_route() {
    let g = Graph::new(vertices(3), vec![edge(0, 0, 1, 100), edge(1, 1, 2, 200)]).unwrap();
    let (sm, tm, cm) = distance_setup();
    let out = run_search(&g, &sm, &tm, &cm, VertexId(0), Some(VertexId(2)), Direction::Forward).unwrap();
    assert_eq!(route_ids(&out), vec![0, 1]);
    assert_eq!(route_cost(&out), 300 * METER);
    let last = &out.route[1].result_state;
    assert_eq!(last, &vec![StateVar(300 * METER as i64)]);
}

#[test]
fn two_path_graph_prefers_cheaper() {
    let g = Graph::new(
        vertices(4),
        vec![edge(0, 0, 1, 100), edge(1, 1, 3, 100), edge(2, 0, 2, 80), edge(3, 2, 3, 150)],
    )
    .unwrap();
    let (sm, tm, cm) = distance_setup();
    let out = run_search(&g, &sm, &tm, &cm, VertexId(0), Some(VertexId(3)), Direction::Forward).unwrap();
    assert_eq!(route_ids(&out), vec![0, 1]);
    assert_eq!(route_cost(&out), 200 * METER);
}

#[test]
fn unreachable_destination() {
    let g = Graph::new(vertices(2), vec![edge(0, 0, 1, 10)]).unwrap();
    let g3 = Graph::new(vertices(3), vec![edge(0, 0, 1, 10)]).unwrap();
    let (sm, tm, cm) = distance_setup();
    let r = run_search(&g3, &sm, &tm, &cm, VertexId(0), Some(VertexId(2)), Direction::Forward);
    assert!(matches!(r, Err(SearchError::NoPathExists { .. })));
    let r = run_search(&g, &sm, &tm, &cm, VertexId(1), Some(VertexId(0)), Direction::Forward);
    assert!(matches!(r, Err(SearchError::NoPathExists { .. })));
}

#[test]
fn origin_equals_destination_gives_empty_route() {
    let g = Graph::new(vertices(2), vec![edge(0, 0, 1, 10)]).unwrap();
    let (sm, tm, cm) = distance_setup();
    let out = run_search(&g, &sm, &tm, &cm, VertexId(1), Some(VertexId(1)), Direction::Forward).unwrap();
    assert!(out.route.is_empty());
}

#[test]
fn unknown_origin_is_an_error() {
    let g = Graph::new(vertices(2), vec![edge(0, 0, 1, 10)]).unwrap();
    let (sm, tm, cm) = distance_setup();
    assert!(run_search(&g, &sm, &tm, &cm, VertexId(5), None, Direction::Forward).is_err());
}

#[test]
fn tree_only_search_reaches_all() {
    let g = Graph::new(vertices(3), vec![edge(0, 0, 1, 100), edge(1, 1, 2, 200)]).unwrap();
    let (sm, tm, cm) = distance_setup();
    let out = run_search(&g, &sm, &tm, &cm, VertexId(0), None, Direction::Forward).unwrap();
    assert!(out.route.is_empty());
    assert!(out.tree[0].is_none());
    assert_eq!(out.tree[1].as_ref().unwrap().edge_traversal.edge_id, EdgeId(0));
    assert_eq!(out.tree[2].as_ref().unwrap().terminal_vertex, VertexId(2));
}

#[test]
fn reverse_search_matches_forward_cost() {
    let g = Graph::new(
        vertices(4),
        vec![edge(0, 0, 1, 100), edge(1, 1, 3, 100), edge(2, 0, 2, 80), edge(3, 2, 3, 150)],
    )
    .unwrap();
    let (sm, tm, cm) = distance_setup();
    let fwd = run_search(&g, &sm, &tm, &cm, VertexId(0), Some(VertexId(3)), Direction::Forward).unwrap();
    let rev = run_search(&g, &sm, &tm, &cm, VertexId(3), Some(VertexId(0)), Direction::Reverse).unwrap();
    assert_eq!(route_cost(&fwd), route_cost(&rev));
    assert_eq!(route_ids(&rev), vec![1, 0]);
}

#[test]
fn repeated_search_is_identical() {
    let g = Graph::new(
        vertices(4),
        vec![edge(0, 0, 1, 100), edge(1, 1, 3, 100), edge(2, 0, 2, 100), edge(3, 2, 3, 100)],
    )
    .unwrap();
    let (sm, tm, cm) = distance_setup();
    let a = run_search(&g, &sm, &tm, &cm, VertexId(0), Some(VertexId(3)), Direction::Forward).unwrap();
    let b = run_search(&g, &sm, &tm, &cm, VertexId(0), Some(VertexId(3)), Direction::Forward).unwrap();
    assert_eq!(route_ids(&a), route_ids(&b));
    assert_eq!(route_ids(&a), vec![0, 1]);
}

#[test]
fn negative_energy_is_clamped() {
    let g = Graph::new(vertices(2), vec![edge(0, 0, 1, 1000)]).unwrap();
    let sm = StateModel::new(vec![(
        String::from("energy"),
        StateFeature::Energy { energy_unit: EnergyUnit::GallonsGasoline, initial: 0 },
    )]);
    // -0.01 gallons per kilometre
    let tm = TraversalModel::Energy { feature: String::from("energy"), unit: EnergyUnit::GallonsGasoline, rate: -10_000 };
    let cm = CostModel {
        features: vec![CostFeature { name: String::from("energy"), weight: 1_000_000, rate: 1_000_000 }],
        aggregation: CostAggregation::Sum,
    };
    let out = run_search(&g, &sm, &tm, &cm, VertexId(0), Some(VertexId(1)), Direction::Forward).unwrap();
    assert_eq!(out.route.len(), 1);
    assert_eq!(out.route[0].result_state, vec![StateVar(0)]);
    assert_eq!(out.route[0].traversal_cost, Cost(0));
}

#[test]
fn positive_energy_accumulates() {
    let g = Graph::new(vertices(2), vec![edge(0, 0, 1, 2000)]).unwrap();
    let sm = StateModel::new(vec![(
        String::from("energy"),
        StateFeature::Energy { energy_unit: EnergyUnit::KilowattHours, initial: 0 },
    )]);
    // 0.25 kWh per kilometre over 2 km
    let tm = TraversalModel::Energy { feature: String::from("energy"), unit: EnergyUnit::KilowattHours, rate: 250_000 };
    let cm = CostModel {
        features: vec![CostFeature { name: String::from("energy"), weight: 2_000_000, rate: 3_000_000 }],
        aggregation: CostAggregation::Sum,
    };
    let out = run_search(&g, &sm, &tm, &cm, VertexId(0), Some(VertexId(1)), Direction::Forward).unwrap();
    assert_eq!(out.route[0].result_state, vec![StateVar(500_000)]);
    assert_eq!(out.route[0].traversal_cost, Cost(3_000_000));
}

#[test]
fn clamped_energy_keeps_state_across_units() {
    let g = Graph::new(vertices(2), vec![edge(0, 0, 1, 1000)]).unwrap();
    let sm = StateModel::new(vec![(
        String::from("energy"),
        StateFeature::Energy { energy_unit: EnergyUnit::KilowattHours, initial: 1 },
    )]);
    // a negative rate in gallons against a feature stored in kWh
    let tm = TraversalModel::Energy { feature: String::from("energy"), unit: EnergyUnit::GallonsGasoline, rate: -10_000 };
    let cm = CostModel {
        features: vec![CostFeature { name: String::from("energy"), weight: 1_000_000, rate: 1_000_000 }],
        aggregation: CostAggregation::Sum,
    };
    let out = run_search(&g, &sm, &tm, &cm, VertexId(0), Some(VertexId(1)), Direction::Forward).unwrap();
    assert_eq!(out.route[0].result_state, vec![StateVar(1)]);
}

#[test]
fn distance_added_in_storage_unit() {
    let g = Graph::new(vertices(2), vec![edge(0, 0, 1, 1)]).unwrap();
    let sm = StateModel::new(vec![(
        String::from("distance"),
        StateFeature::Distance { distance_unit: DistanceUnit::Kilometers, initial: 7 },
    )]);
    let tm = TraversalModel::Distance { feature: String::from("distance") };
    let cm = CostModel {
        features: vec![CostFeature { name: String::from("distance"), weight: 1_000_000, rate: 1_000_000 }],
        aggregation: CostAggregation::Mul,
    };
    let out = run_search(&g, &sm, &tm, &cm, VertexId(0), Some(VertexId(1)), Direction::Forward).unwrap();
    // 1 m is 0.001 km: 1_000 millionths added to 7
    assert_eq!(out.route[0].result_state, vec![StateVar(1_007)]);
    assert_eq!(out.route[0].traversal_cost, Cost(1_000));
}

#[test]
fn energy_table_uses_each_edges_rate() {
    let g = Graph::new(vertices(3), vec![edge(0, 0, 1, 1000), edge(1, 1, 2, 2000)]).unwrap();
    let sm = StateModel::new(vec![(
        String::from("energy"),
        StateFeature::Energy { energy_unit: EnergyUnit::KilowattHours, initial: 0 },
    )]);
    // 0.1 kWh/km on the first edge, a negative prediction on the second
    let tm = TraversalModel::EnergyTable {
        feature: String::from("energy"),
        unit: EnergyUnit::KilowattHours,
        rates: vec![100_000, -50_000],
    };
    let cm = CostModel {
        features: vec![CostFeature { name: String::from("energy"), weight: 1_000_000, rate: 1_000_000 }],
        aggregation: CostAggregation::Sum,
    };
    let out = run_search(&g, &sm, &tm, &cm, VertexId(0), Some(VertexId(2)), Direction::Forward).unwrap();
    assert_eq!(out.route[0].result_state, vec![StateVar(100_000)]);
    assert_eq!(out.route[1].result_state, vec![StateVar(100_000)]);
    assert_eq!(out.route[1].traversal_cost, Cost(0));
    let short = TraversalModel::EnergyTable { feature: String::from("energy"), unit: EnergyUnit::KilowattHours, rates: vec![1] };
    assert!(matches!(
        run_search(&g, &sm, &short, &cm, VertexId(0), Some(VertexId(2)), Direction::Forward),
        Err(SearchError::TraversalError(_))
    ));
}
