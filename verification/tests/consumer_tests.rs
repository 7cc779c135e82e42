use emberplus::consumer::{is_traversable, EmberConsumer, TreeEvent, TreeNode};
use emberplus::glow::{
    Element, ElementCollection, InvocationResult, Node, NodeContents, ParameterContents,
    QualifiedParameter, Root, RootElement, RootElementCollection, StreamCollection, TaggedElement,
    TaggedRootElement, Value,
};
use emberplus::oid::RelativeOid;

fn node_contents(identifier: &str) -> NodeContents {
    NodeContents {
        identifier: Some(identifier.to_string()),
        description: None,
        is_root: None,
        is_online: Some(true),
        schema_identifiers: None,
        template_reference: None,
    }
}

fn empty_parameter_contents(identifier: &str) -> ParameterContents {
    ParameterContents {
        identifier: Some(identifier.to_string()),
        description: None,
        param_value: None,
        minimum: None,
        maximum: None,
        access: None,
        format: None,
        enumeration: None,
        factor: None,
        is_online: None,
        formula: None,
        step: None,
        default: None,
        parameter_type: None,
        stream_identifier: None,
        enum_map: None,
        stream_descriptor: None,
        schema_identifiers: None,
        template_reference: None,
    }
}

#[test]
fn two_level_tree_session() {
    // a provider exposing node 1 with parameter 1.1: exactly two
    // GetDirectory commands leave (root and node 1), exactly one
    // FullTreeReceived arrives, and both elements are dispatched
    let mut engine = EmberConsumer::new(false);
    let mut requests: Vec<Root> = Vec::new();
    let root_oid = RelativeOid::root();
    engine.fetch_recursive(&root_oid, &TreeNode::Root, &mut requests);
    assert_eq!(1, requests.len());
    assert_eq!(1, engine.in_flight_count());

    // the provider answers the root query with node 1
    let answer1 = Root::Elements(RootElementCollection(vec![TaggedRootElement(
        RootElement::Element(Element::Node(Node {
            number: 1,
            contents: Some(node_contents("Device")),
            children: None,
        })),
    )]));
    let (requests1, events1) = engine.process_ember_message(answer1);
    assert_eq!(1, requests1.len());
    assert_eq!(1, engine.in_flight_count());
    assert_eq!(1, events1.len());
    match &events1[0] {
        TreeEvent::Element(parent, TreeNode::Node(n)) => {
            assert!(parent.is_root());
            assert_eq!(1, n.number);
        }
        _ => panic!("expected the node element"),
    }

    // the provider answers node 1's query with parameter 1.1
    let answer2 = Root::Elements(RootElementCollection(vec![TaggedRootElement(
        RootElement::QualifiedParameter(QualifiedParameter {
            path: RelativeOid(vec![1, 1]),
            contents: Some(empty_parameter_contents("P1")),
            children: None,
        }),
    )]));
    let (requests2, events2) = engine.process_ember_message(answer2);
    assert_eq!(0, requests2.len());
    assert_eq!(0, engine.in_flight_count());
    assert_eq!(2, events2.len());
    match &events2[0] {
        TreeEvent::Element(parent, TreeNode::QualifiedParameter(p)) => {
            assert_eq!(RelativeOid(vec![1]), *parent);
            assert_eq!(RelativeOid(vec![1, 1]), p.path);
        }
        _ => panic!("expected the parameter element"),
    }
    match &events2[1] {
        TreeEvent::FullTreeReceived(count) => assert_eq!(1, *count),
        _ => panic!("expected the full-tree announcement"),
    }
}

#[test]
fn directory_is_requested_once_per_identifier() {
    // the same node arriving twice asks for its directory only once
    let mut engine = EmberConsumer::new(false);
    let node = || {
        Root::Elements(RootElementCollection(vec![TaggedRootElement(RootElement::Element(
            Element::Node(Node {
                number: 5,
                contents: Some(node_contents("N")),
                children: None,
            }),
        ))]))
    };
    let (r1, _) = engine.process_ember_message(node());
    let (r2, _) = engine.process_ember_message(node());
    assert_eq!(1, r1.len());
    assert_eq!(0, r2.len());
    assert_eq!(1, engine.explored_count());
}

#[test]
fn offline_nodes_are_skipped_unless_asked_for() {
    let offline_node = || {
        Root::Elements(RootElementCollection(vec![TaggedRootElement(RootElement::Element(
            Element::Node(Node {
                number: 9,
                contents: Some(NodeContents {
                    identifier: Some("off".to_string()),
                    description: None,
                    is_root: None,
                    is_online: Some(false),
                    schema_identifiers: None,
                    template_reference: None,
                }),
                children: None,
            }),
        ))]))
    };
    let mut skipping = EmberConsumer::new(false);
    let (requests, _) = skipping.process_ember_message(offline_node());
    assert_eq!(0, requests.len());

    let mut querying = EmberConsumer::new(true);
    let (requests, _) = querying.process_ember_message(offline_node());
    assert_eq!(1, requests.len());
}

#[test]
fn nested_children_are_walked() {
    // a container with materialized children dispatches the leaves under
    // the container's identifier
    let tree = Root::Elements(RootElementCollection(vec![TaggedRootElement(
        RootElement::Element(Element::Node(Node {
            number: 1,
            contents: None,
            children: Some(ElementCollection(vec![
                TaggedElement(Element::Node(Node {
                    number: 2,
                    contents: Some(node_contents("inner")),
                    children: None,
                })),
                TaggedElement(Element::Node(Node {
                    number: 3,
                    contents: Some(node_contents("other")),
                    children: None,
                })),
            ])),
        })),
    )]));
    let mut engine = EmberConsumer::new(false);
    let (requests, events) = engine.process_ember_message(tree);
    assert_eq!(2, requests.len());
    assert_eq!(2, events.len());
    match &events[0] {
        TreeEvent::Element(parent, TreeNode::Node(n)) => {
            assert_eq!(RelativeOid(vec![1]), *parent);
            assert_eq!(2, n.number);
        }
        _ => panic!("expected the first child"),
    }
    assert_eq!(2, engine.explored_count());
    assert!(engine.is_explored(&RelativeOid(vec![1, 2])));
    assert!(engine.is_explored(&RelativeOid(vec![1, 3])));
    assert!(engine.is_in_flight(&RelativeOid(vec![1, 2])));
}

#[test]
fn streams_and_invocation_results_are_not_traversable() {
    let streams = Root::Streams(StreamCollection(vec![]));
    assert!(!is_traversable(&streams));
    let result = Root::InvocationResult(InvocationResult {
        invocation_id: 1,
        success: Some(true),
        result: None,
    });
    assert!(!is_traversable(&result));
    let _ = Value::Null;
}
