use psi_protocol::node::{NodeMessage, NodeState};

#[test]
fn node_start_node() {
    let data = vec![1, 2, 3];
    let mut node = NodeState::new(&data);

    let message = node.start();

    assert_eq!(
        message,
        NodeMessage::HasQuery {
            location: 0,
            value: 1
        }
    );
}

#[test]
fn node_basic_has_query() {
    let data = vec![1, 2, 3];
    let mut node = NodeState::new(&data);
    let response1 = node.receive(NodeMessage::HasQuery {
        location: 0,
        value: 1,
    });
    assert_eq!(
        response1,
        NodeMessage::HasResponse {
            location: 0,
            has: true
        }
    );

    let response2 = node.receive(NodeMessage::HasQuery {
        location: 1,
        value: 1,
    });
    assert_eq!(
        response2,
        NodeMessage::HasResponse {
            location: 1,
            has: false
        }
    );

    let response3 = node.receive(NodeMessage::HasQuery {
        location: 9,
        value: 1,
    });
    // expect end when either side runs out of elements
    assert_eq!(response3, NodeMessage::End);
}

#[test]
fn node_common_state_for_querier() {
    let data = vec![1, 2, 3];
    let mut node = NodeState::new(&data);

    node.receive(NodeMessage::HasResponse {
        location: 0,
        has: true,
    });
    node.receive(NodeMessage::HasResponse {
        location: 2,
        has: true,
    });

    assert_eq!(node.common, vec![1, 3]);
}

#[test]
fn node_common_state_for_responder() {
    let data = vec![1, 2, 3];
    let mut node = NodeState::new(&data);

    node.receive(NodeMessage::HasQuery {
        location: 0,
        value: 1,
    });
    node.receive(NodeMessage::HasQuery {
        location: 2,
        value: 3,
    });

    assert_eq!(node.common, vec![1, 3]);
}

#[test]
fn node_bad_response() {
    let data = vec![1, 2, 3];
    let mut node = NodeState::new(&data);

    let response = node.receive(NodeMessage::HasResponse {
        location: 9,
        has: true,
    });

    assert_eq!(response, NodeMessage::End);
}
