use std::time::Instant;
use vvdaw::graph::{output_node, AudioGraph, Connection, PluginSource};
use vvdaw::heap::MinHeap;
use vvdaw::topology::sort_positions;

/// Add a stereo node whose plugin initialised successfully.
fn add(graph: &mut AudioGraph) -> usize {
    graph.add_node(PluginSource::Unknown, Ok((2, 2))).unwrap()
}

fn position(order: &[usize], id: usize) -> usize {
    order.iter().position(|&x| x == id).unwrap()
}

#[test]
fn test_empty_graph_topological_sort() {
    let graph = AudioGraph::new();
    let result = graph.topological_sort();
    assert!(result.is_ok());
    assert_eq!(result.unwrap(), Vec::<usize>::new());
}

#[test]
fn test_single_node_topological_sort() {
    let mut graph = AudioGraph::new();
    let node_a = add(&mut graph);

    let result = graph.topological_sort();
    assert!(result.is_ok());
    assert_eq!(result.unwrap(), vec![node_a]);
}

#[test]
fn test_linear_chain_topological_sort() {
    let mut graph = AudioGraph::new();
    let node_a = add(&mut graph);
    let node_b = add(&mut graph);
    let node_c = add(&mut graph);

    graph.connect(node_a, node_b).unwrap();
    graph.connect(node_b, node_c).unwrap();

    let result = graph.topological_sort();
    assert!(result.is_ok());
    let order = result.unwrap();

    let pos_a = position(&order, node_a);
    let pos_b = position(&order, node_b);
    let pos_c = position(&order, node_c);

    assert!(pos_a < pos_b);
    assert!(pos_b < pos_c);
}

#[test]
fn test_parallel_paths_topological_sort() {
    let mut graph = AudioGraph::new();
    let node_a = add(&mut graph);
    let node_b = add(&mut graph);
    let node_c = add(&mut graph);
    let node_d = add(&mut graph);

    // A -> B -> D
    // A -> C -> D
    graph.connect(node_a, node_b).unwrap();
    graph.connect(node_a, node_c).unwrap();
    graph.connect(node_b, node_d).unwrap();
    graph.connect(node_c, node_d).unwrap();

    let result = graph.topological_sort();
    assert!(result.is_ok());
    let order = result.unwrap();

    let pos_a = position(&order, node_a);
    let pos_b = position(&order, node_b);
    let pos_c = position(&order, node_c);
    let pos_d = position(&order, node_d);

    assert!(pos_a < pos_b);
    assert!(pos_a < pos_c);
    assert!(pos_b < pos_d);
    assert!(pos_c < pos_d);
}

#[test]
fn test_disconnected_nodes_topological_sort() {
    let mut graph = AudioGraph::new();
    let node_a = add(&mut graph);
    let node_b = add(&mut graph);
    let node_c = add(&mut graph);

    let result = graph.topological_sort();
    assert!(result.is_ok());
    let order = result.unwrap();

    assert_eq!(order.len(), 3);
    assert!(order.contains(&node_a));
    assert!(order.contains(&node_b));
    assert!(order.contains(&node_c));
}

#[test]
fn test_simple_cycle_detection() {
    let mut graph = AudioGraph::new();
    let node_a = add(&mut graph);
    let node_b = add(&mut graph);
    let node_c = add(&mut graph);

    // A -> B -> C -> A
    graph.connect(node_a, node_b).unwrap();
    graph.connect(node_b, node_c).unwrap();
    graph.connect(node_c, node_a).unwrap();

    let result = graph.topological_sort();
    assert!(result.is_err());
    let remaining = result.unwrap_err();

    assert_eq!(remaining.len(), 3);
    assert!(remaining.contains(&node_a));
    assert!(remaining.contains(&node_b));
    assert!(remaining.contains(&node_c));
}

#[test]
fn test_self_loop_cycle_detection() {
    let mut graph = AudioGraph::new();
    let node_a = add(&mut graph);

    graph.connect(node_a, node_a).unwrap();

    let result = graph.topological_sort();
    assert!(result.is_err());
    let remaining = result.unwrap_err();

    assert_eq!(remaining.len(), 1);
    assert!(remaining.contains(&node_a));
}

#[test]
fn test_partial_cycle_detection() {
    let mut graph = AudioGraph::new();
    let node_a = add(&mut graph);
    let node_b = add(&mut graph);
    let node_c = add(&mut graph);
    let node_d = add(&mut graph);

    // A -> B -> C -> B, D independent
    graph.connect(node_a, node_b).unwrap();
    graph.connect(node_b, node_c).unwrap();
    graph.connect(node_c, node_b).unwrap();

    let result = graph.topological_sort();
    assert!(result.is_err());
    let remaining = result.unwrap_err();

    assert!(remaining.contains(&node_b));
    assert!(remaining.contains(&node_c));
    assert!(!remaining.contains(&node_a));
    assert!(!remaining.contains(&node_d));
}

#[test]
fn test_processing_order_updates_on_add() {
    let mut graph = AudioGraph::new();

    assert_eq!(graph.processing_order().len(), 0);

    let node_a = add(&mut graph);
    assert_eq!(graph.processing_order().len(), 1);
    assert_eq!(graph.processing_order()[0], node_a);

    let _node_b = add(&mut graph);
    assert_eq!(graph.processing_order().len(), 2);
}

#[test]
fn test_processing_order_updates_on_remove() {
    let mut graph = AudioGraph::new();
    let node_a = add(&mut graph);
    let node_b = add(&mut graph);

    graph.connect(node_a, node_b).unwrap();

    assert_eq!(graph.processing_order().len(), 2);

    graph.remove_node(node_a);
    assert_eq!(graph.processing_order().len(), 1);
    assert_eq!(graph.processing_order()[0], node_b);
}

#[test]
fn test_processing_order_respects_dependencies() {
    let mut graph = AudioGraph::new();
    let node_a = add(&mut graph);
    let node_b = add(&mut graph);
    let node_c = add(&mut graph);

    graph.connect(node_c, node_b).unwrap();
    graph.connect(node_b, node_a).unwrap();

    let order = graph.processing_order().clone();
    let pos_a = position(&order, node_a);
    let pos_b = position(&order, node_b);
    let pos_c = position(&order, node_c);

    assert!(pos_c < pos_b);
    assert!(pos_b < pos_a);
}

#[test]
fn test_cycle_fallback_to_linear_order() {
    let mut graph = AudioGraph::new();
    let node_a = add(&mut graph);
    let node_b = add(&mut graph);

    graph.connect(node_a, node_b).unwrap();
    graph.connect(node_b, node_a).unwrap();

    assert_eq!(graph.processing_order().len(), 2);

    let mut expected = vec![node_a, node_b];
    expected.sort_unstable();
    assert_eq!(*graph.processing_order(), expected);
}

#[test]
fn test_connection_management() {
    let mut graph = AudioGraph::new();
    let node_a = add(&mut graph);
    let node_b = add(&mut graph);

    assert!(graph.connect(node_a, node_b).is_ok());

    assert!(graph.connect(999, node_b).is_err());
    assert!(graph.connect(node_a, 999).is_err());

    graph.disconnect(node_a, node_b);

    let result = graph.topological_sort().unwrap();
    assert_eq!(result.len(), 2);
}

#[test]
fn test_remove_node_removes_connections() {
    let mut graph = AudioGraph::new();
    let node_a = add(&mut graph);
    let node_b = add(&mut graph);
    let node_c = add(&mut graph);

    graph.connect(node_a, node_b).unwrap();
    graph.connect(node_b, node_c).unwrap();

    graph.remove_node(node_b);

    assert_eq!(graph.nodes().len(), 2);
    assert_eq!(graph.connections().len(), 0);

    let result = graph.topological_sort().unwrap();
    assert_eq!(result.len(), 2);
    assert!(result.contains(&node_a));
    assert!(result.contains(&node_c));
}

#[test]
fn test_large_graph_performance() {
    let mut graph = AudioGraph::new();
    let mut nodes = Vec::new();

    for _ in 0..100 {
        nodes.push(add(&mut graph));
    }

    for i in 0..49 {
        graph.connect(nodes[i], nodes[i + 1]).unwrap();
    }

    for i in 50..75 {
        graph.connect(nodes[49], nodes[i]).unwrap();
        graph.connect(nodes[i], nodes[99]).unwrap();
    }

    for i in 75..90 {
        graph.connect(nodes[i - 25], nodes[i]).unwrap();
        graph.connect(nodes[i], nodes[i + 5]).unwrap();
    }

    assert_eq!(graph.processing_order().len(), 100);

    let result = graph.topological_sort();
    assert!(result.is_ok());
    let order = result.unwrap();
    assert_eq!(order.len(), 100);

    let pos_0 = position(&order, nodes[0]);
    let pos_49 = position(&order, nodes[49]);
    assert!(pos_0 < pos_49);

    let pos_99 = position(&order, nodes[99]);
    assert!(pos_49 < pos_99);

    graph.connect(nodes[10], nodes[90]).unwrap();
    assert_eq!(graph.processing_order().len(), 100);

    graph.remove_node(nodes[50]);
    assert_eq!(graph.processing_order().len(), 99);
}

#[test]
fn processing_order_places_smallest_ready_id_first() {
    let mut graph = AudioGraph::new();
    let a = add(&mut graph);
    let b = add(&mut graph);
    let c = add(&mut graph);
    let d = add(&mut graph);
    // d feeds a; b and c are free
    graph.connect(d, a).unwrap();
    assert_eq!(*graph.processing_order(), vec![b, c, d, a]);
}

#[test]
fn cycle_reports_waiting_nodes_in_id_order() {
    let mut graph = AudioGraph::new();
    let a = add(&mut graph);
    let b = add(&mut graph);
    let c = add(&mut graph);
    graph.connect(c, b).unwrap();
    graph.connect(b, c).unwrap();
    graph.connect(a, b).unwrap();
    assert_eq!(graph.topological_sort(), Err(vec![b, c]));
    assert_eq!(*graph.processing_order(), vec![a, b, c]);
}

#[test]
fn connect_twice_keeps_one_connection() {
    let mut graph = AudioGraph::new();
    let a = add(&mut graph);
    let b = add(&mut graph);
    graph.connect(a, b).unwrap();
    graph.connect(a, b).unwrap();
    assert_eq!(*graph.connections(), vec![Connection { from: a, to: b }]);
    graph.disconnect(a, b);
    assert!(graph.connections().is_empty());
    // disconnecting again changes nothing
    graph.disconnect(a, b);
    assert!(graph.connections().is_empty());
}

#[test]
fn connect_error_messages_name_the_missing_node() {
    let mut graph = AudioGraph::new();
    let a = add(&mut graph);
    assert_eq!(graph.connect(7, a), Err("Source node 7 not found".to_string()));
    assert_eq!(graph.connect(a, 12), Err("Destination node 12 not found".to_string()));
    assert!(graph.connections().is_empty());
}

#[test]
fn failed_initialisation_uses_up_an_id() {
    let mut graph = AudioGraph::new();
    let err = vvdaw::errors::PluginError::InitializationFailed("boom".to_string());
    assert_eq!(graph.add_node(PluginSource::Unknown, Err(err.clone())), Err(err));
    assert!(graph.nodes().is_empty());
    let a = add(&mut graph);
    assert_eq!(a, 1);
    assert_eq!(graph.nodes()[0].id(), 1);
    assert_eq!(graph.nodes()[0].inputs(), 2);
    assert_eq!(graph.nodes()[0].outputs(), 2);
}

#[test]
fn removed_ids_are_not_reused() {
    let mut graph = AudioGraph::new();
    let a = add(&mut graph);
    let removed = graph.remove_node(a).unwrap();
    assert_eq!(removed.id(), a);
    assert!(!graph.contains_node(a));
    assert!(graph.remove_node(a).is_none());
    let b = add(&mut graph);
    assert_ne!(a, b);
    assert!(graph.node(b).is_some());
    assert!(graph.node(a).is_none());
}

#[test]
fn config_is_kept() {
    let mut graph = AudioGraph::with_config(44100, 128);
    assert_eq!(graph.sample_rate(), 44100);
    assert_eq!(graph.block_size(), 128);
    graph.set_config(96000, 64);
    assert_eq!(graph.sample_rate(), 96000);
    assert_eq!(graph.block_size(), 64);
    let default = AudioGraph::new();
    assert_eq!(default.sample_rate(), 48000);
    assert_eq!(default.block_size(), 512);
}

#[test]
fn test_very_large_graph_benchmark() {
    let mut graph = AudioGraph::new();
    let mut nodes = Vec::new();

    let start = Instant::now();
    for _ in 0..1000 {
        nodes.push(add(&mut graph));
    }
    println!("Created 1000 nodes in {:?}", start.elapsed());

    let connection_start = Instant::now();
    for i in 0..999 {
        graph.connect(nodes[i], nodes[i + 1]).unwrap();
    }
    for i in (0..500).step_by(2) {
        graph.connect(nodes[i], nodes[i + 500]).unwrap();
    }
    println!("Created ~1500 connections in {:?}", connection_start.elapsed());

    let sort_start = Instant::now();
    let result = graph.topological_sort();
    let sort_time = sort_start.elapsed();
    println!("Topological sort on 1000 nodes in {:?}", sort_time);

    assert!(result.is_ok());
    assert_eq!(result.unwrap().len(), 1000);
    assert!(sort_time.as_millis() < 100, "Topological sort took {}ms (expected < 100ms)", sort_time.as_millis());
}

#[test]
fn min_heap_pops_smallest_first() {
    let mut heap = MinHeap::new();
    assert_eq!(heap.pop(), None);
    for x in [5usize, 1, 9, 3, 1, 7] {
        heap.push(x);
    }
    assert_eq!(heap.len(), 6);
    let mut out = Vec::new();
    while let Some(x) = heap.pop() {
        out.push(x);
    }
    assert_eq!(out, vec![1, 1, 3, 5, 7, 9]);
    assert_eq!(heap.len(), 0);
}

#[test]
fn sort_positions_takes_smallest_ready_position() {
    // 3 -> 0, 2 -> 1: positions 2 and 3 are ready first, then 0 and 1
    let ids = vec![10, 20, 30, 40];
    let ep = vec![(3, 0), (2, 1)];
    assert_eq!(sort_positions(&ids, &ep), Ok(vec![30, 20, 40, 10]));
    // a cycle between positions 0 and 1 leaves them unplaced
    let ep = vec![(0, 1), (1, 0), (2, 3)];
    assert_eq!(sort_positions(&ids, &ep), Err(vec![10, 20]));
}

#[test]
fn disconnect_right_after_connect_restores_the_graph() {
    let mut graph = AudioGraph::new();
    let a = add(&mut graph);
    let b = add(&mut graph);
    let c = add(&mut graph);
    graph.connect(b, a).unwrap();
    graph.connect(c, b).unwrap();
    let before_conns = graph.connections().clone();
    let before_order = graph.processing_order().clone();
    assert!(graph.connect(a, c).is_ok());
    graph.disconnect(a, c);
    assert_eq!(graph.connections(), &before_conns);
    assert_eq!(graph.processing_order(), &before_order);
    assert_eq!(graph.nodes().len(), 3);
}

#[test]
fn output_comes_from_the_last_node_that_ran() {
    let order = vec![3, 1, 2];
    assert_eq!(output_node(&order, &vec![true, true, false]), Some(1));
    assert_eq!(output_node(&order, &vec![true, true, true]), Some(2));
    assert_eq!(output_node(&order, &vec![false, false, false]), None);
    assert_eq!(output_node(&Vec::new(), &Vec::new()), None);
}
