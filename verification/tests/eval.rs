use lobedo_core::eval::{evaluate_from, evaluate_from_with, DirtyReason, EvalError, EvalState};
use lobedo_core::graph::{Graph, NodeDefinition, NodeId, PinDefinition, PinType};
use lobedo_core::params::ParamValue;

fn node_def(name: &str, inputs: usize, outputs: usize) -> NodeDefinition {
    let make_pin = |label: &str| PinDefinition { name: label.to_string(), pin_type: PinType::Mesh };
    NodeDefinition {
        name: name.to_string(),
        category: "Eval".to_string(),
        inputs: (0..inputs).map(|i| make_pin(&format!("in{}", i))).collect(),
        outputs: (0..outputs).map(|i| make_pin(&format!("out{}", i))).collect(),
    }
}

fn connect(graph: &mut Graph, from: NodeId, to: NodeId) {
    let from_pin = graph.node(from).unwrap().outputs[0];
    let to_pin = graph.node(to).unwrap().inputs[0];
    graph.add_link(from_pin, to_pin).unwrap();
}

fn chain() -> (Graph, NodeId, NodeId, NodeId) {
    let mut graph = Graph::default();
    let a = graph.add_node(node_def("A", 0, 1));
    let b = graph.add_node(node_def("B", 1, 1));
    let c = graph.add_node(node_def("C", 1, 0));
    connect(&mut graph, a, b);
    connect(&mut graph, b, c);
    (graph, a, b, c)
}

#[test]
fn cache_hits_when_unchanged() {
    let (graph, _a, _b, c) = chain();
    let mut state = EvalState::new();
    let first = evaluate_from(&graph, c, &mut state).unwrap();
    assert_eq!(first.computed.len(), 3);
    let second = evaluate_from(&graph, c, &mut state).unwrap();
    assert_eq!(second.computed.len(), 0);
    assert_eq!(second.cache_hits, 3);
}

#[test]
fn upstream_change_recomputes_downstream() {
    let (mut graph, a, _b, c) = chain();
    let mut state = EvalState::new();
    evaluate_from(&graph, c, &mut state).unwrap();
    graph.set_param(a, "size".to_string(), ParamValue::Float(2.0f32.to_bits())).unwrap();
    let report = evaluate_from(&graph, c, &mut state).unwrap();
    assert_eq!(report.computed.len(), 3);
}

#[test]
fn mid_change_skips_upstream() {
    let (mut graph, _a, b, c) = chain();
    let mut state = EvalState::new();
    evaluate_from(&graph, c, &mut state).unwrap();
    graph.set_param(b, "twist".to_string(), ParamValue::Float(1.0f32.to_bits())).unwrap();
    let report = evaluate_from(&graph, c, &mut state).unwrap();
    assert_eq!(report.computed.len(), 2);
    assert_eq!(report.computed[0], b);
    assert_eq!(report.computed[1], c);
}

#[test]
fn error_propagates_downstream() {
    let (graph, _a, b, c) = chain();
    let mut state = EvalState::new();
    let report = evaluate_from_with(&graph, c, &mut state, |node_id, _params| {
        if node_id == b {
            Err("boom".to_string())
        } else {
            Ok(())
        }
    })
    .unwrap();
    assert!(!report.output_valid);
    assert!(report.errors.iter().any(|err| matches!(err, EvalError::Node { node, .. } if *node == b)));
    assert!(report.errors.iter().any(|err| matches!(err, EvalError::Upstream { node, .. } if *node == c)));
}

#[test]
fn first_evaluation_reports_new_nodes_and_versions() {
    let (graph, a, b, c) = chain();
    let mut state = EvalState::new();
    assert_eq!(state.node_output_version(a), None);
    let report = evaluate_from(&graph, c, &mut state).unwrap();
    assert_eq!(report.ordered, vec![a, b, c]);
    assert_eq!(report.dirty.len(), 3);
    assert!(report.dirty.iter().all(|d| d.reason == DirtyReason::NewNode));
    assert_eq!(state.node_output_version(a), Some(1));
    assert_eq!(state.stats.misses, 3);
    evaluate_from(&graph, c, &mut state).unwrap();
    assert_eq!(state.stats.hits, 3);
    assert_eq!(state.node_output_version(c), Some(1));
}

#[test]
fn param_change_is_reported_as_param_dirty() {
    let (mut graph, _a, b, c) = chain();
    let mut state = EvalState::new();
    evaluate_from(&graph, c, &mut state).unwrap();
    graph.set_param(b, "k".to_string(), ParamValue::Int(5)).unwrap();
    let report = evaluate_from(&graph, c, &mut state).unwrap();
    assert_eq!(report.dirty.len(), 2);
    assert_eq!(report.dirty[0].node, b);
    assert_eq!(report.dirty[0].reason, DirtyReason::ParamChanged);
    assert_eq!(report.dirty[1].node, c);
    assert_eq!(report.dirty[1].reason, DirtyReason::UpstreamChanged);
    assert_eq!(state.node_output_version(b), Some(2));
}
