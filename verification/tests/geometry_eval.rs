use lobedo_core::eval::{evaluate_from, EvalError, EvalState};
use lobedo_core::geometry_eval::{
    decimal_chars, evaluate_geometry_graph_with, find_kind, gather_inputs, GeometryEvalState, InputPolicy,
    NodeKindSpec,
};
use lobedo_core::graph::{Graph, NodeDefinition, NodeId, PinDefinition, PinType};
use lobedo_core::params::{NodeParams, ParamValue};

fn def(name: &str, inputs: usize, outputs: usize) -> NodeDefinition {
    let pin = |label: String| PinDefinition { name: label, pin_type: PinType::Geometry };
    NodeDefinition {
        name: name.to_string(),
        category: "Test".to_string(),
        inputs: (0..inputs).map(|i| pin(format!("in{}", i))).collect(),
        outputs: (0..outputs).map(|i| pin(format!("out{}", i))).collect(),
    }
}

fn link(graph: &mut Graph, from: NodeId, to: NodeId, input: usize) {
    let from_pin = graph.node(from).unwrap().outputs[0];
    let to_pin = graph.node(to).unwrap().inputs[input];
    graph.add_link(from_pin, to_pin).unwrap();
}

fn kinds() -> Vec<NodeKindSpec> {
    vec![
        NodeKindSpec { name: "Source".to_string(), policy: InputPolicy::NoInputs },
        NodeKindSpec { name: "Sum".to_string(), policy: InputPolicy::RequireAtLeast(1) },
        NodeKindSpec { name: "Pair".to_string(), policy: InputPolicy::RequireAll },
        NodeKindSpec { name: "Many".to_string(), policy: InputPolicy::RequireAtLeast(2) },
    ]
}

/// Sources give 1; other kinds add up their inputs and one more.
fn compute(kind: usize, _params: &NodeParams, inputs: Vec<u64>) -> Result<u64, String> {
    if kind == 0 {
        Ok(1)
    } else {
        Ok(inputs.iter().sum::<u64>() + 1)
    }
}

#[test]
fn decimal_digits() {
    assert_eq!(decimal_chars(0), vec!['0']);
    assert_eq!(decimal_chars(42).iter().collect::<String>(), "42");
    assert_eq!(decimal_chars(1000).iter().collect::<String>(), "1000");
}

#[test]
fn kind_lookup_takes_first_name() {
    let mut ks = kinds();
    ks.push(NodeKindSpec { name: "Sum".to_string(), policy: InputPolicy::NoInputs });
    assert_eq!(find_kind(&ks, "Sum"), Some(1));
    assert_eq!(find_kind(&ks, "Nope"), None);
}

#[test]
fn geometry_chain_computes_and_caches() {
    let mut graph = Graph::default();
    let a = graph.add_node(def("Source", 0, 1));
    let b = graph.add_node(def("Sum", 1, 1));
    link(&mut graph, a, b, 0);
    let mut state = GeometryEvalState::new();
    let first = evaluate_geometry_graph_with(&graph, b, &mut state, &kinds(), compute).unwrap();
    assert!(first.report.output_valid);
    assert_eq!(first.output, Some(2));
    assert_eq!(first.report.computed, vec![a, b]);
    assert_eq!(state.geometry_for_node(a), Some(&1));
    let second = evaluate_geometry_graph_with(&graph, b, &mut state, &kinds(), compute).unwrap();
    assert_eq!(second.report.cache_hits, 2);
    assert_eq!(second.report.computed.len(), 0);
    assert_eq!(second.output, Some(2));
    assert_eq!(state.eval_state().stats.hits, 2);
    assert_eq!(state.eval_state().stats.misses, 2);
}

#[test]
fn geometry_unknown_kind_fails_and_clears_outputs() {
    let mut graph = Graph::default();
    let a = graph.add_node(def("Source", 0, 1));
    let b = graph.add_node(def("Mystery", 1, 1));
    let c = graph.add_node(def("Sum", 1, 1));
    link(&mut graph, a, b, 0);
    link(&mut graph, b, c, 0);
    let mut state = GeometryEvalState::new();
    let r = evaluate_geometry_graph_with(&graph, c, &mut state, &kinds(), compute).unwrap();
    assert!(!r.report.output_valid);
    assert_eq!(r.output, None);
    assert!(r.report.errors.iter().any(|e| matches!(e, EvalError::Node { node, message }
        if *node == b && message == "unknown node type Mystery")));
    assert!(r.report.errors.iter().any(|e| matches!(e, EvalError::Upstream { node, upstream }
        if *node == c && upstream == &vec![b])));
    // the failed feeder, named by the upstream error, loses its output; the source keeps its own
    assert_eq!(state.geometry_for_node(b), None);
    assert_eq!(state.geometry_for_node(c), None);
    assert_eq!(state.geometry_for_node(a), Some(&1));
}

#[test]
fn geometry_require_all_names_missing_input() {
    let mut graph = Graph::default();
    let a = graph.add_node(def("Source", 0, 1));
    let p = graph.add_node(def("Pair", 2, 1));
    link(&mut graph, a, p, 0);
    let mut state = GeometryEvalState::new();
    let r = evaluate_geometry_graph_with(&graph, p, &mut state, &kinds(), compute).unwrap();
    assert!(r.report.errors.iter().any(|e| matches!(e, EvalError::Node { node, message }
        if *node == p && message == "missing input 'in1'")));
}

#[test]
fn geometry_require_at_least_counts_inputs() {
    let mut graph = Graph::default();
    let a = graph.add_node(def("Source", 0, 1));
    let m = graph.add_node(def("Many", 3, 1));
    link(&mut graph, a, m, 1);
    let mut state = GeometryEvalState::new();
    let r = evaluate_geometry_graph_with(&graph, m, &mut state, &kinds(), compute).unwrap();
    assert!(r.report.errors.iter().any(|e| matches!(e, EvalError::Node { node, message }
        if *node == m && message == "Many requires at least 2 inputs")));

    let mut graph = Graph::default();
    let s = graph.add_node(def("Sum", 1, 1));
    let mut state = GeometryEvalState::new();
    let r = evaluate_geometry_graph_with(&graph, s, &mut state, &kinds(), compute).unwrap();
    assert!(r.report.errors.iter().any(|e| matches!(e, EvalError::Node { node, message }
        if *node == s && message == "Sum requires at least 1 input")));
}

#[test]
fn geometry_compute_error_is_node_error() {
    let mut graph = Graph::default();
    let a = graph.add_node(def("Source", 0, 1));
    let mut state: GeometryEvalState<u64> = GeometryEvalState::new();
    let r = evaluate_geometry_graph_with(&graph, a, &mut state, &kinds(), |_k: usize, _p: &NodeParams, _i: Vec<u64>| {
        Err::<u64, String>("boom".to_string())
    })
    .unwrap();
    assert!(r.report.errors.iter().any(|e| matches!(e, EvalError::Node { node, message } if *node == a && message == "boom")));
    assert_eq!(r.output, None);
}

#[test]
fn gather_inputs_reports_missing_upstream_output() {
    let mut graph = Graph::default();
    let a = graph.add_node(def("Source", 0, 1));
    let b = graph.add_node(def("Sum", 1, 1));
    link(&mut graph, a, b, 0);
    let state: GeometryEvalState<u64> = GeometryEvalState::new();
    let r = gather_inputs(&graph, b, &state, &kinds());
    assert_eq!(r.err(), Some(format!("missing upstream output NodeId({})", a.0)));
}

#[test]
fn geometry_mid_change_recomputes_downstream_only() {
    let mut graph = Graph::default();
    let a = graph.add_node(def("Source", 0, 1));
    let b = graph.add_node(def("Sum", 1, 1));
    let c = graph.add_node(def("Sum", 1, 1));
    link(&mut graph, a, b, 0);
    link(&mut graph, b, c, 0);
    let mut state = GeometryEvalState::new();
    evaluate_geometry_graph_with(&graph, c, &mut state, &kinds(), compute).unwrap();
    graph.set_param(b, "twist".to_string(), ParamValue::Int(1)).unwrap();
    let r = evaluate_geometry_graph_with(&graph, c, &mut state, &kinds(), compute).unwrap();
    assert_eq!(r.report.computed, vec![b, c]);
    assert_eq!(r.report.cache_hits, 1);
    assert_eq!(r.output, Some(3));
}

#[test]
fn eval_counters_follow_reports() {
    let mut graph = Graph::default();
    let a = graph.add_node(def("Source", 0, 1));
    let mut st = EvalState::new();
    let first = evaluate_from(&graph, a, &mut st).unwrap();
    assert_eq!(first.cache_misses, first.computed.len() as u64);
    let second = evaluate_from(&graph, a, &mut st).unwrap();
    assert_eq!(st.stats.hits, first.cache_hits + second.cache_hits);
    assert_eq!(st.stats.misses, first.cache_misses + second.cache_misses);
    assert_eq!(st.node_output_version(a), Some(1));
    assert!(second.node_report(a).unwrap().cache_hit);
    assert_eq!(first.node_report(a).unwrap().output_version, 1);
    assert!(first.node_report(NodeId(99)).is_none());
}

#[test]
fn eval_counters_accessor_matches_field() {
    let mut graph = Graph::default();
    let a = graph.add_node(def("Source", 0, 1));
    let mut st = EvalState::new();
    evaluate_from(&graph, a, &mut st).unwrap();
    evaluate_from(&graph, a, &mut st).unwrap();
    assert_eq!(st.cache_stats().hits, st.stats.hits);
    assert_eq!(st.cache_stats().misses, st.stats.misses);
}
