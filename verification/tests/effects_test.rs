use joylight_backend::effects::graph::{link, EffectGraph};
use joylight_backend::effects::io::{EffectError, NodeDataset};
use joylight_backend::effects::node::{
    EffectNodeDefinition, InputLink, InputSlots, NodeParameterDefinition, NodeParameterSet, NodeParameterValue, NodeType,
};
use joylight_backend::parameters::ViewValue;

type Processor = Box<dyn Fn(&NodeDataset, &NodeParameterSet, usize) -> Result<NodeDataset, String>>;

fn f64_value(x: f64) -> ViewValue {
    ViewValue::F64(x.to_bits())
}

fn as_number(v: &ViewValue) -> Option<f64> {
    match v {
        ViewValue::F64(b) => Some(f64::from_bits(*b)),
        _ => None,
    }
}

fn constant(x: f64) -> EffectNodeDefinition<Processor> {
    EffectNodeDefinition {
        name: "Constant".to_string(),
        help: None,
        parameters: vec![NodeParameterDefinition { name: "value".to_string(), default_value: NodeParameterValue::Number(x.to_bits()) }],
        node_type: NodeType::Input,
        processor: Box::new(move |_, _, _| Ok(NodeDataset::new_single(vec![f64_value(x)]))),
    }
}

fn sum() -> EffectNodeDefinition<Processor> {
    EffectNodeDefinition {
        name: "Sum".to_string(),
        help: Some("Adds its inputs".to_string()),
        parameters: vec![],
        node_type: NodeType::Processing,
        processor: Box::new(|inputs, _, _| {
            let mut total = 0.0;
            for packet in inputs.packets() {
                for v in packet {
                    total += as_number(v).ok_or_else(|| "not a number".to_string())?;
                }
            }
            Ok(NodeDataset::new_single(vec![f64_value(total)]))
        }),
    }
}

fn failing() -> EffectNodeDefinition<Processor> {
    EffectNodeDefinition {
        name: "Fail".to_string(),
        help: None,
        parameters: vec![],
        node_type: NodeType::Output,
        processor: Box::new(|_, _, _| Err("broken".to_string())),
    }
}

#[test]
fn datasets_keep_their_packets_in_order() {
    let ds = NodeDataset::from_packets(vec![vec![f64_value(1.0)], vec![], vec![ViewValue::I64(3), f64_value(2.0)]]);
    assert_eq!(ds.len(), 3);
    let packets = ds.packets();
    assert_eq!(packets[0].len(), 1);
    assert!(packets[1].is_empty());
    assert!(matches!(packets[2][0], ViewValue::I64(3)));
    assert!(ds.check_count(3).is_ok());
    assert!(matches!(ds.check_count(2), Err(EffectError::WrongInputCount { expected: 2, actual: 3 })));

    let copy = ds.copy_dataset();
    assert_eq!(copy.len(), 3);
    assert!(matches!(copy.packets()[2][1], ViewValue::F64(b) if b == 2.0f64.to_bits()));

    let single = NodeDataset::new_single(vec![f64_value(5.0)]);
    assert_eq!(single.len(), 1);
    assert_eq!(NodeDataset::new().len(), 0);

    let generated = NodeDataset::new_from_generator(4, || vec![f64_value(0.5)]);
    assert_eq!(generated.len(), 4);
    let tried: Result<NodeDataset, String> = NodeDataset::try_new_from_generator(2, || Ok(vec![]));
    assert_eq!(tried.unwrap().len(), 2);
    let refused: Result<NodeDataset, String> = NodeDataset::try_new_from_generator(2, || Err("no".to_string()));
    assert!(refused.is_err());
    let none: Result<NodeDataset, String> = NodeDataset::try_new_from_generator(0, || Err("no".to_string()));
    assert_eq!(none.unwrap().len(), 0);
}

#[test]
fn map_values_maps_each_packet() {
    let ds = NodeDataset::from_packets(vec![vec![f64_value(1.0)], vec![f64_value(2.0), f64_value(3.0)]]);
    let lengths: Result<NodeDataset, String> = ds.map_values(|p| Ok(vec![ViewValue::I64(p.len() as i64)]));
    let lengths = lengths.unwrap();
    assert!(matches!(lengths.packets()[0][0], ViewValue::I64(1)));
    assert!(matches!(lengths.packets()[1][0], ViewValue::I64(2)));
    let failed: Result<NodeDataset, String> = ds.map_values(|_| Err("stop".to_string()));
    assert!(matches!(failed, Err(ref m) if m == "stop"));
}

#[test]
fn input_slots_and_node_parameters() {
    let mut slots = InputSlots::new();
    slots.push(None);
    slots.push(Some(InputLink { node: 4, output_id: 1 }));
    assert_eq!(slots.slots().len(), 2);
    assert!(slots.slots()[0].is_none());
    assert_eq!(slots.slots()[1].unwrap().node, 4);

    let def = constant(2.5);
    let node = def.build("c");
    assert_eq!(node.label, "c");
    assert_eq!(node.output_count, 0);
    assert!(node.inputs.slots().is_empty());
    assert_eq!(node.parameters.values().len(), 1);
    assert!(matches!(node.parameters.values()[0], NodeParameterValue::Number(b) if b == 2.5f64.to_bits()));
    assert_eq!(NodeParameterSet::new().values().len(), 0);
}

#[test]
fn sorting_puts_dependencies_first() {
    let (one, two, add) = (constant(1.0), constant(2.0), sum());
    let mut graph: EffectGraph<Processor> = EffectGraph::new();
    let s = graph.add_node(add.build("sum"));
    let a = graph.add_node(one.build("one"));
    let b = graph.add_node(two.build("two"));
    assert_eq!((s, a, b), (0, 1, 2));
    assert_eq!(graph.order(), &vec![0, 1, 2]);
    link(&mut graph, a, s, 0);
    link(&mut graph, b, s, 0);

    assert!(graph.node_topological_sort().is_ok());
    let order = graph.order().clone();
    assert_eq!(order.len(), 3);
    let pos = |n: usize| order.iter().position(|&x| x == n).unwrap();
    assert!(pos(a) < pos(s));
    assert!(pos(b) < pos(s));

    assert!(graph.process().is_ok());
    let out = graph.nodes[s].current_value.packets();
    assert_eq!(out.len(), 1);
    assert_eq!(as_number(&out[0][0]), Some(3.0));
    // the sort asked each input node for one output
    assert_eq!(graph.nodes[a].output_count, 1);
}

#[test]
fn process_sorts_an_unsorted_graph() {
    let (one, add) = (constant(4.0), sum());
    let mut graph: EffectGraph<Processor> = EffectGraph::default();
    let a = graph.add_node(one.build("one"));
    let s = graph.add_node(add.build("sum"));
    link(&mut graph, a, s, 0);
    link(&mut graph, a, s, 0);
    assert!(graph.process().is_ok());
    assert_eq!(as_number(&graph.nodes[s].current_value.packets()[0][0]), Some(8.0));
}

#[test]
fn sorting_refuses_cycles_and_empty_graphs() {
    let mut empty: EffectGraph<Processor> = EffectGraph::new();
    assert!(matches!(empty.node_topological_sort(), Err(EffectError::EmptyGraph)));

    let (x, y) = (sum(), sum());
    let mut graph: EffectGraph<Processor> = EffectGraph::new();
    let a = graph.add_node(x.build("a"));
    let b = graph.add_node(y.build("b"));
    link(&mut graph, a, b, 0);
    link(&mut graph, b, a, 0);
    assert!(matches!(graph.node_topological_sort(), Err(EffectError::Cycle)));
    assert_eq!(graph.order(), &vec![0, 1]);
    // the search reached both nodes before it met the cycle, and counted their links
    assert_eq!(graph.nodes[a].output_count, 1);
    assert_eq!(graph.nodes[b].output_count, 1);

    let z = sum();
    let mut self_loop: EffectGraph<Processor> = EffectGraph::new();
    let c = self_loop.add_node(z.build("c"));
    link(&mut self_loop, c, c, 0);
    assert!(matches!(self_loop.node_topological_sort(), Err(EffectError::Cycle)));
    assert_eq!(self_loop.nodes[c].output_count, 1);
}

#[test]
fn processing_stops_at_the_first_failure() {
    let (one, fail) = (constant(1.0), failing());
    let mut graph: EffectGraph<Processor> = EffectGraph::new();
    let a = graph.add_node(one.build("one"));
    let f = graph.add_node(fail.build("fail"));
    link(&mut graph, a, f, 0);
    match graph.process() {
        Err(EffectError::Processor { node, message }) => {
            assert_eq!(node, f);
            assert_eq!(message, "broken");
        }
        other => panic!("unexpected result: {:?}", other),
    }
    assert_eq!(as_number(&graph.nodes[a].current_value.packets()[0][0]), Some(1.0));
}

#[test]
fn asking_for_a_missing_output_fails() {
    let (one, add) = (constant(1.0), sum());
    let mut graph: EffectGraph<Processor> = EffectGraph::new();
    let a = graph.add_node(one.build("one"));
    let s = graph.add_node(add.build("sum"));
    link(&mut graph, a, s, 1);
    match graph.process() {
        Err(EffectError::MissingOutput { node, from, output_id, available }) => {
            assert_eq!((node, from, output_id, available), (s, a, 1, 1));
        }
        other => panic!("unexpected result: {:?}", other),
    }
}

#[test]
fn dot_source_lists_nodes_and_links() {
    let (one, add) = (constant(1.0), sum());
    let mut graph: EffectGraph<Processor> = EffectGraph::new();
    let a = graph.add_node(one.build("one"));
    let s = graph.add_node(add.build("sum"));
    link(&mut graph, a, s, 0);
    assert_eq!(
        graph.dot_source(),
        "digraph G {\n  one [label=\"one\"];\n  sum [label=\"sum\"];\n  sum -> one;\n}\n"
    );
    let empty: EffectGraph<Processor> = EffectGraph::new();
    assert_eq!(empty.dot_source(), "digraph G {\n}\n");
}

#[test]
fn processors_receive_the_node_parameters() {
    let echo: EffectNodeDefinition<Processor> = EffectNodeDefinition {
        name: "Echo".to_string(),
        help: None,
        parameters: vec![NodeParameterDefinition { name: "value".to_string(), default_value: NodeParameterValue::Number(6.5f64.to_bits()) }],
        node_type: NodeType::Input,
        processor: Box::new(|_, ps, _| match ps.values().first() {
            Some(NodeParameterValue::Number(b)) => Ok(NodeDataset::new_single(vec![ViewValue::F64(*b)])),
            _ => Err("no parameter".to_string()),
        }),
    };
    let mut graph: EffectGraph<Processor> = EffectGraph::new();
    let e = graph.add_node(echo.build("echo"));
    assert!(graph.process().is_ok());
    assert_eq!(as_number(&graph.nodes[e].current_value.packets()[0][0]), Some(6.5));
}
