use nova::autodiff::graph::{ComputationGraph, NodeId, OpType};

#[test]
fn create_node() {
    let mut graph = ComputationGraph::new();
    let id = graph.create_node(OpType::Parameter, 1, 1);
    assert_eq!(id, NodeId::new(0));
    assert!(graph.has_node(id));
}

#[test]
fn create_multiple_nodes() {
    let mut graph = ComputationGraph::new();
    let n1 = graph.create_node(OpType::Parameter, 1, 1);
    let n2 = graph.create_node(OpType::Constant, 2, 1);
    let n3 = graph.create_node(OpType::Add, 3, 1);
    assert_eq!(graph.node_count(), 3);
    assert_ne!(n1, n2);
    assert_ne!(n2, n3);
}

#[test]
fn add_inputs() {
    let mut graph = ComputationGraph::new();
    let n1 = graph.create_node(OpType::Parameter, 1, 1);
    let n2 = graph.create_node(OpType::Parameter, 1, 1);
    let n3 = graph.create_node(OpType::Add, 1, 1);
    graph.add_input(n3, n1).expect("add input");
    graph.add_input(n3, n2).expect("add input");
    let node = graph.get_node(n3).expect("node");
    assert_eq!(node.inputs.len(), 2);
}

#[test]
fn set_output() {
    let mut graph = ComputationGraph::new();
    let n = graph.create_node(OpType::Add, 1, 1);
    graph.set_output(n, "(batch, features)", "Float").expect("set output");
    let node = graph.get_node(n).expect("node");
    assert_eq!(node.output_shape, "(batch, features)");
    assert_eq!(node.output_type, "Float");
}

#[test]
fn is_leaf() {
    let mut graph = ComputationGraph::new();
    let param = graph.create_node(OpType::Parameter, 1, 1);
    let const_node = graph.create_node(OpType::Constant, 1, 1);
    let add_node = graph.create_node(OpType::Add, 1, 1);
    assert!(graph.get_node(param).unwrap().is_leaf());
    assert!(graph.get_node(const_node).unwrap().is_leaf());
    assert!(!graph.get_node(add_node).unwrap().is_leaf());
}

#[test]
fn simple_topological_sort() {
    let mut graph = ComputationGraph::new();
    let n1 = graph.create_node(OpType::Parameter, 1, 1);
    let n2 = graph.create_node(OpType::Parameter, 1, 1);
    let n3 = graph.create_node(OpType::Add, 1, 1);
    graph.add_input(n3, n1).expect("add input");
    graph.add_input(n3, n2).expect("add input");
    graph.compute_reverse_order(n3).expect("compute order");
    let order = graph.get_reverse_order();
    assert_eq!(order.len(), 3);
    assert_eq!(order[0], n3);
    assert!(order[1] == n1 || order[1] == n2);
    assert!(order[2] == n1 || order[2] == n2);
}

#[test]
fn reverse_order_puts_every_consumer_before_its_inputs() {
    // a chain x -> y -> z plus a shortcut x -> z
    let mut graph = ComputationGraph::new();
    let x = graph.create_node(OpType::Parameter, 1, 1);
    let y = graph.create_node(OpType::Sin, 2, 1);
    let z = graph.create_node(OpType::Mul, 3, 1);
    graph.add_input(y, x).unwrap();
    graph.add_input(z, y).unwrap();
    graph.add_input(z, x).unwrap();
    graph.compute_reverse_order(z).unwrap();
    let order = graph.get_reverse_order().to_vec();
    assert_eq!(order, vec![z, y, x]);
}

#[test]
fn cycle_is_reported() {
    let mut graph = ComputationGraph::new();
    let a = graph.create_node(OpType::Add, 1, 1);
    let b = graph.create_node(OpType::Add, 1, 1);
    graph.add_input(a, b).unwrap();
    graph.add_input(b, a).unwrap();
    let err = graph.compute_reverse_order(a).unwrap_err();
    assert_eq!(err, "Cycle detected in computation graph");
    assert!(graph.get_reverse_order().is_empty());
}

#[test]
fn missing_nodes_are_reported() {
    let mut graph = ComputationGraph::new();
    let a = graph.create_node(OpType::Add, 1, 1);
    assert_eq!(graph.add_input(NodeId::new(7), a).unwrap_err(), "Node n7 not found");
    assert!(graph.set_output(NodeId::new(3), "(1)", "Float").is_err());
}

#[test]
fn clear_empties_the_graph() {
    let mut graph = ComputationGraph::new();
    graph.create_node(OpType::Parameter, 1, 1);
    graph.clear();
    assert_eq!(graph.node_count(), 0);
    assert_eq!(graph.create_node(OpType::Parameter, 1, 1), NodeId::new(0));
}

#[test]
fn node_ids_count_creations_since_new_or_clear() {
    let mut graph = ComputationGraph::new();
    for k in 0..5u32 {
        assert!(!graph.has_node(NodeId::new(k)));
        let id = graph.create_node(OpType::Add, 1, 1);
        assert_eq!(id, NodeId::new(k));
        assert_eq!(graph.node_count(), (k + 1) as usize);
    }
    graph.clear();
    assert_eq!(graph.node_count(), 0);
    assert_eq!(graph.create_node(OpType::Constant, 2, 2), NodeId::new(0));
}
