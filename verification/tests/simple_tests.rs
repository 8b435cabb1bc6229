use psi_protocol::simple::{protocol, NodeMessage, NodeState};

#[test]
fn simple_start_node() {
    let data = vec![1, 2, 3];
    let mut node = NodeState::new(&data);

    let message = node.start();

    assert_eq!(
        message,
        NodeMessage::HasQuery {
            location: 0,
            value: 1
        }
    );
}

#[test]
fn simple_basic_has_query() {
    let data = vec![1, 2, 3];
    let mut node = NodeState::new(&data);
    let response1 = node.receive(NodeMessage::HasQuery {
        location: 0,
        value: 1,
    });
    assert_eq!(
        response1,
        NodeMessage::HasResponse {
            location: 0,
            has: true
        }
    );

    let response2 = node.receive(NodeMessage::HasQuery {
        location: 1,
        value: 1,
    });
    assert_eq!(
        response2,
        NodeMessage::HasResponse {
            location: 1,
            has: false
        }
    );

    let response3 = node.receive(NodeMessage::HasQuery {
        location: 9,
        value: 1,
    });
    // expect end when either side runs out of elements
    assert_eq!(response3, NodeMessage::End);
}

#[test]
fn simple_common_state_for_querier() {
    let data = vec![1, 2, 3];
    let mut node = NodeState::new(&data);

    node.receive(NodeMessage::HasResponse {
        location: 0,
        has: true,
    });
    node.receive(NodeMessage::HasResponse {
        location: 2,
        has: true,
    });

    assert_eq!(node.common, vec![1, 3]);
}

#[test]
fn simple_common_state_for_responder() {
    let data = vec![1, 2, 3];
    let mut node = NodeState::new(&data);

    node.receive(NodeMessage::HasQuery {
        location: 0,
        value: 1,
    });
    node.receive(NodeMessage::HasQuery {
        location: 2,
        value: 3,
    });

    assert_eq!(node.common, vec![1, 3]);
}

#[test]
fn simple_bad_response() {
    let data = vec![1, 2, 3];
    let mut node = NodeState::new(&data);

    let response = node.receive(NodeMessage::HasResponse {
        location: 9,
        has: true,
    });

    assert_eq!(response, NodeMessage::End);
}

#[test]
fn basic_protocol() {
    let data = vec![1];
    let mut node1 = NodeState::new(&data);
    let mut node2 = NodeState::new(&data);

    protocol(&mut node1, &mut node2);

    assert_eq!(node1.common, vec![1]);
    assert_eq!(node2.common, vec![1]);
}

#[test]
fn basic_protocol_partial() {
    let data = vec![7, 9];
    let data2 = vec![8, 9];
    let mut node1 = NodeState::new(&data);
    let mut node2 = NodeState::new(&data2);

    protocol(&mut node1, &mut node2);

    assert_eq!(node1.common, vec![9]);
    assert_eq!(node2.common, vec![9]);
}

#[test]
fn protocol_odd_lengths() {
    let data = vec![7, 9, 10, 11, 12, 13, 14];
    let data2 = vec![8, 9];
    let mut node1 = NodeState::new(&data);
    let mut node2 = NodeState::new(&data2);

    let iterations = protocol(&mut node1, &mut node2);

    assert_eq!(node1.common, vec![9]);
    assert_eq!(node2.common, vec![9]);

    // prove that we dont spin through elements once the other side hung up
    assert_eq!(iterations, 4);
}

#[test]
fn protocol_odd_lengths_reversed() {
    let data = vec![8, 9];
    let data2 = vec![7, 9, 10, 11, 12, 13, 14];
    let mut node1 = NodeState::new(&data);
    let mut node2 = NodeState::new(&data2);

    let iterations = protocol(&mut node1, &mut node2);

    assert_eq!(node1.common, vec![9]);
    assert_eq!(node2.common, vec![9]);

    // initiator hangs up quicker because it's shorter, so only 2 loops
    assert_eq!(iterations, 3);
}

#[test]
fn empty_initiator_ends_at_once() {
    let data: Vec<u32> = vec![];
    let data2 = vec![1, 2];
    let mut node1 = NodeState::new(&data);
    let mut node2 = NodeState::new(&data2);

    let iterations = protocol(&mut node1, &mut node2);

    assert_eq!(node1.common, Vec::<u32>::new());
    assert_eq!(node2.common, Vec::<u32>::new());
    assert_eq!(iterations, 1);
}
