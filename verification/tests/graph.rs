use lobedo_core::graph::{Graph, GraphError, NodeDefinition, PinDefinition, PinType, PinKind, NodeId};
use lobedo_core::params::ParamValue;

fn demo_node(name: &str) -> NodeDefinition {
    NodeDefinition {
        name: name.to_string(),
        category: "Demo".to_string(),
        inputs: vec![PinDefinition { name: "in".to_string(), pin_type: PinType::Mesh }],
        outputs: vec![PinDefinition { name: "out".to_string(), pin_type: PinType::Mesh }],
    }
}

fn node_def(name: &str, inputs: usize, outputs: usize) -> NodeDefinition {
    let make_pin = |label: &str| PinDefinition { name: label.to_string(), pin_type: PinType::Mesh };
    NodeDefinition {
        name: name.to_string(),
        category: "Demo".to_string(),
        inputs: (0..inputs).map(|i| make_pin(&format!("in{}", i))).collect(),
        outputs: (0..outputs).map(|i| make_pin(&format!("out{}", i))).collect(),
    }
}

#[test]
fn add_and_remove_node() {
    let mut graph = Graph::default();
    let node_id = graph.add_node(demo_node("NodeA"));
    assert!(graph.node(node_id).is_some());
    assert!(graph.remove_node(node_id));
    assert!(graph.node(node_id).is_none());
}

#[test]
fn rejects_incompatible_links() {
    let mut graph = Graph::default();
    let a = graph.add_node(NodeDefinition {
        name: "A".to_string(),
        category: "Demo".to_string(),
        inputs: vec![],
        outputs: vec![PinDefinition { name: "out".to_string(), pin_type: PinType::Float }],
    });
    let b = graph.add_node(NodeDefinition {
        name: "B".to_string(),
        category: "Demo".to_string(),
        inputs: vec![PinDefinition { name: "in".to_string(), pin_type: PinType::Mesh }],
        outputs: vec![],
    });
    let from = graph.node(a).unwrap().outputs[0];
    let to = graph.node(b).unwrap().inputs[0];
    let result = graph.add_link(from, to);
    assert!(matches!(result, Err(GraphError::IncompatiblePinTypes { .. })));
}

#[test]
fn accepts_valid_links() {
    let mut graph = Graph::default();
    let a = graph.add_node(demo_node("A"));
    let b = graph.add_node(demo_node("B"));
    let from = graph.node(a).unwrap().outputs[0];
    let to = graph.node(b).unwrap().inputs[0];
    let result = graph.add_link(from, to);
    assert!(result.is_ok());
}

#[test]
fn topo_sort_orders_upstream_first() {
    let mut graph = Graph::default();
    let source = graph.add_node(node_def("Source", 0, 1));
    let mid = graph.add_node(node_def("Mid", 1, 1));
    let output = graph.add_node(node_def("Output", 1, 0));
    let source_out = graph.node(source).unwrap().outputs[0];
    let mid_in = graph.node(mid).unwrap().inputs[0];
    let mid_out = graph.node(mid).unwrap().outputs[0];
    let output_in = graph.node(output).unwrap().inputs[0];
    graph.add_link(source_out, mid_in).unwrap();
    graph.add_link(mid_out, output_in).unwrap();
    let order = graph.topo_sort_from(output).unwrap();
    let pos_source = order.iter().position(|id| *id == source).unwrap();
    let pos_mid = order.iter().position(|id| *id == mid).unwrap();
    let pos_output = order.iter().position(|id| *id == output).unwrap();
    assert!(pos_source < pos_mid);
    assert!(pos_mid < pos_output);
}

#[test]
fn topo_sort_detects_cycles() {
    let mut graph = Graph::default();
    let a = graph.add_node(node_def("A", 1, 1));
    let b = graph.add_node(node_def("B", 1, 1));
    let a_out = graph.node(a).unwrap().outputs[0];
    let a_in = graph.node(a).unwrap().inputs[0];
    let b_out = graph.node(b).unwrap().outputs[0];
    let b_in = graph.node(b).unwrap().inputs[0];
    graph.add_link(a_out, b_in).unwrap();
    graph.add_link(b_out, a_in).unwrap();
    let result = graph.topo_sort_from(a);
    assert!(matches!(result, Err(GraphError::CycleDetected(_))));
}

#[test]
fn cycle_path_starts_at_output_and_repeats_a_node() {
    let mut graph = Graph::default();
    let a = graph.add_node(node_def("A", 1, 1));
    let b = graph.add_node(node_def("B", 1, 1));
    let a_out = graph.node(a).unwrap().outputs[0];
    let a_in = graph.node(a).unwrap().inputs[0];
    let b_out = graph.node(b).unwrap().outputs[0];
    let b_in = graph.node(b).unwrap().inputs[0];
    graph.add_link(a_out, b_in).unwrap();
    graph.add_link(b_out, a_in).unwrap();
    match graph.topo_sort_from(a) {
        Err(GraphError::CycleDetected(path)) => assert_eq!(path, vec![a, b, a]),
        other => panic!("unexpected {:?}", other),
    }
}

#[test]
fn topo_sort_missing_output() {
    let graph = Graph::default();
    assert!(matches!(graph.topo_sort_from(NodeId(7)), Err(GraphError::MissingNode(NodeId(7)))));
}

#[test]
fn ids_are_allocated_in_sequence() {
    let mut graph = Graph::default();
    let a = graph.add_node(node_def("A", 2, 1));
    let b = graph.add_node(node_def("B", 1, 0));
    assert_eq!(a, NodeId(1));
    assert_eq!(b, NodeId(2));
    let na = graph.node(a).unwrap();
    assert_eq!(na.inputs.iter().map(|p| p.0).collect::<Vec<_>>(), vec![1, 2]);
    assert_eq!(na.outputs.iter().map(|p| p.0).collect::<Vec<_>>(), vec![3]);
    assert_eq!(graph.node(b).unwrap().inputs[0].0, 4);
    let pin = graph.pin(na.outputs[0]).unwrap();
    assert_eq!(pin.kind, PinKind::Output);
    assert_eq!(pin.node, a);
}

#[test]
fn add_link_error_order() {
    let mut graph = Graph::default();
    let a = graph.add_node(demo_node("A"));
    let b = graph.add_node(demo_node("B"));
    let c = graph.add_node(demo_node("C"));
    let a_out = graph.node(a).unwrap().outputs[0];
    let a_in = graph.node(a).unwrap().inputs[0];
    let b_in = graph.node(b).unwrap().inputs[0];
    let c_out = graph.node(c).unwrap().outputs[0];
    assert!(matches!(graph.add_link(lobedo_core::graph::PinId(99), b_in), Err(GraphError::MissingPin(_))));
    assert!(matches!(graph.add_link(a_in, b_in), Err(GraphError::WrongPinDirection { .. })));
    graph.add_link(a_out, b_in).unwrap();
    assert!(matches!(graph.add_link(c_out, b_in), Err(GraphError::InputAlreadyConnected { .. })));
    assert_eq!(graph.links().len(), 1);
    assert!(graph.remove_link_between(a_out, b_in));
    assert!(!graph.remove_link_between(a_out, b_in));
    assert_eq!(graph.links().len(), 0);
}

#[test]
fn geometry_pins_accept_mesh_and_splats() {
    let mut graph = Graph::default();
    let a = graph.add_node(NodeDefinition {
        name: "A".to_string(),
        category: "Demo".to_string(),
        inputs: vec![],
        outputs: vec![PinDefinition { name: "out".to_string(), pin_type: PinType::Geometry }],
    });
    let b = graph.add_node(NodeDefinition {
        name: "B".to_string(),
        category: "Demo".to_string(),
        inputs: vec![PinDefinition { name: "in".to_string(), pin_type: PinType::Splats }],
        outputs: vec![],
    });
    let from = graph.node(a).unwrap().outputs[0];
    let to = graph.node(b).unwrap().inputs[0];
    assert!(graph.add_link(from, to).is_ok());
    assert!(graph.migrate_geometry_pins());
    assert_eq!(graph.pin(to).unwrap().pin_type, PinType::Geometry);
    assert!(!graph.migrate_geometry_pins());
}

#[test]
fn remove_node_drops_its_links() {
    let mut graph = Graph::default();
    let a = graph.add_node(node_def("A", 0, 1));
    let b = graph.add_node(node_def("B", 1, 1));
    let c = graph.add_node(node_def("C", 1, 0));
    let a_out = graph.node(a).unwrap().outputs[0];
    let b_in = graph.node(b).unwrap().inputs[0];
    let b_out = graph.node(b).unwrap().outputs[0];
    let c_in = graph.node(c).unwrap().inputs[0];
    graph.add_link(a_out, b_in).unwrap();
    graph.add_link(b_out, c_in).unwrap();
    assert!(graph.remove_node(b));
    assert_eq!(graph.links().len(), 0);
    assert!(graph.pin(b_in).is_none());
    assert!(graph.upstream_nodes(c).is_empty());
    assert!(!graph.remove_node(b));
    assert_eq!(graph.remove_links_for_pin(a_out), 0);
}

#[test]
fn display_and_template_flags() {
    let mut graph = Graph::default();
    let a = graph.add_node(demo_node("A"));
    let b = graph.add_node(demo_node("B"));
    assert_eq!(graph.display_node(), None);
    graph.set_display_node(Some(b)).unwrap();
    assert_eq!(graph.display_node(), Some(b));
    graph.toggle_display_node(a).unwrap();
    assert_eq!(graph.display_node(), Some(a));
    graph.toggle_display_node(a).unwrap();
    assert_eq!(graph.display_node(), None);
    assert!(matches!(graph.set_display_node(Some(NodeId(42))), Err(GraphError::MissingNode(NodeId(42)))));
    graph.set_template_node(b, true).unwrap();
    graph.toggle_template_node(a).unwrap();
    assert_eq!(graph.template_nodes(), vec![a, b]);
    graph.toggle_template_node(a).unwrap();
    assert_eq!(graph.template_nodes(), vec![b]);
}

#[test]
fn set_param_bumps_version_only_on_change() {
    let mut graph = Graph::default();
    let a = graph.add_node(demo_node("A"));
    graph.set_param(a, "size".to_string(), ParamValue::Float(2.0f32.to_bits())).unwrap();
    assert_eq!(graph.node(a).unwrap().param_version, 1);
    graph.set_param(a, "size".to_string(), ParamValue::Float(2.0f32.to_bits())).unwrap();
    assert_eq!(graph.node(a).unwrap().param_version, 1);
    graph.set_param(a, "zero".to_string(), ParamValue::Float(0.0f32.to_bits())).unwrap();
    graph.set_param(a, "zero".to_string(), ParamValue::Float((-0.0f32).to_bits())).unwrap();
    assert_eq!(graph.node(a).unwrap().param_version, 2);
    graph.set_param(a, "nan".to_string(), ParamValue::Float(f32::NAN.to_bits())).unwrap();
    graph.set_param(a, "nan".to_string(), ParamValue::Float(f32::NAN.to_bits())).unwrap();
    assert_eq!(graph.node(a).unwrap().param_version, 4);
    graph.set_param(a, "mode".to_string(), ParamValue::Int(3)).unwrap();
    assert_eq!(graph.node(a).unwrap().params.get_int("mode", 0), 3);
    assert_eq!(graph.node(a).unwrap().params.get_int("size", 7), 7);
    assert!(graph.set_param(NodeId(9), "x".to_string(), ParamValue::Bool(true)).is_err());
}

#[test]
fn rename_and_position() {
    let mut graph = Graph::default();
    let a = graph.add_node(demo_node("Old"));
    let b = graph.add_node(demo_node("Old"));
    let c = graph.add_node(demo_node("Other"));
    assert_eq!(graph.rename_nodes("Old", "New"), 2);
    assert_eq!(graph.node(a).unwrap().name, "New");
    assert_eq!(graph.node(b).unwrap().name, "New");
    assert_eq!(graph.node(c).unwrap().name, "Other");
    assert_eq!(graph.node_position(a), None);
    graph.set_node_position(a, [1.5f32.to_bits(), 2.0f32.to_bits()]).unwrap();
    assert_eq!(graph.node_position(a), Some([1.5f32.to_bits(), 2.0f32.to_bits()]));
}
