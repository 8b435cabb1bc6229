//! Position-wise comparison protocol.
//!
//! Two nodes each hold a sequence of numbers and take turns asking the peer
//! whether it holds the same value at the same position.  An element counts
//! as common only when both sides store it at one shared index, so
//! `[1, 2, 3]` against `[3, 2, 1]` has only `2` in common.  The session ends
//! as soon as either side runs past the end of its own sequence.

use vstd::prelude::*;

verus! {

/// One message of the position-wise comparison protocol.
#[derive(PartialEq, Eq, Structural, Debug, Clone, Copy)]
pub enum NodeMessage {
    /// "Do you hold `value` at index `location`?"
    HasQuery { location: usize, value: u32 },
    /// The answer to a `HasQuery` about the same `location`.
    HasResponse { location: usize, has: bool },
    /// Either side has run out of elements; the session is over.
    End,
}

/// The abstract value of a [`NodeState`]: the node's private sequence, the
/// index of the next element it will ask about, and the elements found on
/// both sides so far, in discovery order.
pub ghost struct StateV {
    pub data: Seq<u32>,
    pub index: int,
    pub common: Seq<u32>,
}

impl StateV {
    /// Issue the next query: ask about `data[index]` and move past it, or
    /// report `End` once the sequence is exhausted.
    pub open spec fn advance(self) -> (StateV, NodeMessage) {
        if self.index < self.data.len() {
            (
                StateV { index: self.index + 1, ..self },
                NodeMessage::HasQuery {
                    location: self.index as usize,
                    value: self.data[self.index],
                },
            )
        } else {
            (self, NodeMessage::End)
        }
    }

    /// The node's whole transition relation: the state after consuming
    /// `message` together with the reply it sends back.  It is total: every
    /// message produces exactly one reply.
    pub open spec fn step(self, message: NodeMessage) -> (StateV, NodeMessage) {
        match message {
            NodeMessage::HasQuery { location, value } => {
                if location < self.data.len() {
                    if self.data[location as int] == value {
                        (
                            StateV { common: self.common.push(value), ..self },
                            NodeMessage::HasResponse { location, has: true },
                        )
                    } else {
                        (self, NodeMessage::HasResponse { location, has: false })
                    }
                } else {
                    (self, NodeMessage::End)
                }
            }
            NodeMessage::HasResponse { location, has } => {
                if has {
                    if location < self.data.len() {
                        StateV {
                            common: self.common.push(self.data[location as int]),
                            ..self
                        }.advance()
                    } else {
                        (self, NodeMessage::End)
                    }
                } else {
                    self.advance()
                }
            }
            NodeMessage::End => (self, NodeMessage::End),
        }
    }
}

/// One side of the position-wise comparison session.
pub struct NodeState {
    data: Vec<u32>,
    index: usize,
    /// Elements confirmed to sit at the same position on both sides.
    pub common: Vec<u32>,
}

impl View for NodeState {
    type V = StateV;

    closed spec fn view(&self) -> StateV {
        StateV { data: self.data@, index: self.index as int, common: self.common@ }
    }
}

impl NodeState {
    /// A fresh node holding a copy of `data`, positioned before the first
    /// element, with nothing recorded as common yet.
    pub fn new(data: &Vec<u32>) -> (r: Self)
        ensures
            r@.data == data@,
            r@.index == 0,
            r@.common == Seq::<u32>::empty(),
    {
        let owned = vstd::slice::slice_to_vec(data.as_slice());
        NodeState { data: owned, index: 0, common: Vec::new() }
    }

    /// Call on the initiator node to get the first message.
    pub fn start(&mut self) -> (message: NodeMessage)
        ensures
            (*final(self))@ == old(self)@.advance().0,
            message == old(self)@.advance().1,
    {
        self.next_query()
    }

    /// Feed messages from the other peer in here; the reply and the new
    /// state are exactly those of [`StateV::step`].
    pub fn receive(&mut self, message: NodeMessage) -> (reply: NodeMessage)
        ensures
            (*final(self))@ == old(self)@.step(message).0,
            reply == old(self)@.step(message).1,
    {
        match message {
            NodeMessage::HasQuery { location, value } => {
                if location < self.data.len() {
                    if self.data[location] == value {
                        self.common.push(value);
                        NodeMessage::HasResponse { location, has: true }
                    } else {
                        NodeMessage::HasResponse { location, has: false }
                    }
                } else {
                    NodeMessage::End
                }
            }
            NodeMessage::HasResponse { location, has } => {
                if has {
                    if location < self.data.len() {
                        let value = self.data[location];
                        self.common.push(value);
                        self.next_query()
                    } else {
                        NodeMessage::End
                    }
                } else {
                    self.next_query()
                }
            }
            NodeMessage::End => NodeMessage::End,
        }
    }

    fn next_query(&mut self) -> (message: NodeMessage)
        ensures
            (*final(self))@ == old(self)@.advance().0,
            message == old(self)@.advance().1,
    {
        if self.index < self.data.len() {
            let message = NodeMessage::HasQuery {
                location: self.index,
                value: self.data[self.index],
            };
            self.index = self.index + 1;
            message
        } else {
            NodeMessage::End
        }
    }
}

/// The elements that sit at the same position in both sequences, looking at
/// the first `n` positions only, in order of discovery.
pub open spec fn matched_prefix(a: Seq<u32>, b: Seq<u32>, n: int) -> Seq<u32>
    decreases n,
{
    if n <= 0 {
        Seq::empty()
    } else {
        let rest = matched_prefix(a, b, n - 1);
        if a[n - 1] == b[n - 1] {
            rest.push(a[n - 1])
        } else {
            rest
        }
    }
}

/// The number of positions both sequences have.
pub open spec fn shorter_len(a: Seq<u32>, b: Seq<u32>) -> int {
    if a.len() <= b.len() {
        a.len() as int
    } else {
        b.len() as int
    }
}

/// Drive two fresh nodes against each other until either side reports
/// `End`, and count how many turns the exchange took.  Both sides end up
/// with exactly the elements the two sequences share position by position.
/// The turn count shows that neither side keeps querying once the other has
/// hung up: one extra turn to notice the initiator's own `End`, or two when
/// the responder ran out first.
pub fn protocol(node1: &mut NodeState, node2: &mut NodeState) -> (counter: usize)
    requires
        old(node1)@.index == 0,
        old(node1)@.common == Seq::<u32>::empty(),
        old(node2)@.common == Seq::<u32>::empty(),
        old(node1)@.data.len() + 2 <= usize::MAX,
    ensures
        (*final(node1))@.data == old(node1)@.data,
        (*final(node2))@.data == old(node2)@.data,
        (*final(node1))@.common == matched_prefix(
            old(node1)@.data,
            old(node2)@.data,
            shorter_len(old(node1)@.data, old(node2)@.data),
        ),
        (*final(node2))@.common == (*final(node1))@.common,
        counter == (if old(node1)@.data.len() <= old(node2)@.data.len() {
            old(node1)@.data.len() + 1
        } else {
            old(node2)@.data.len() + 2
        }),
{
    let ghost a = node1@.data;
    let ghost b = node2@.data;
    let mut message = node1.start();
    let mut counter: usize = 0;
    loop
        invariant_except_break
            (message matches NodeMessage::HasQuery { location, value } ==> {
                &&& location < a.len()
                &&& location <= b.len()
                &&& value == a[location as int]
                &&& node1@.index == location + 1
                &&& node1@.common == matched_prefix(a, b, location as int)
                &&& node2@.common == node1@.common
                &&& counter == location
            }),
            (message is End ==> {
                &&& node1@.common == matched_prefix(a, b, shorter_len(a, b))
                &&& node2@.common == node1@.common
                &&& counter == (if a.len() <= b.len() {
                    a.len() as int
                } else {
                    b.len() + 1int
                })
            }),
        invariant
            node1@.data == a,
            node2@.data == b,
            a.len() + 2 <= usize::MAX,
            (message is HasQuery || message is End),
        ensures
            (message is End),
            node1@.data == a,
            node2@.data == b,
            node1@.common == matched_prefix(a, b, shorter_len(a, b)),
            node2@.common == node1@.common,
            counter == (if a.len() <= b.len() {
                a.len() + 1
            } else {
                b.len() + 2
            }),
        decreases (if message is End {
            0int
        } else {
            a.len() + 1 - node1@.index
        }),
    {
        counter += 1;
        let response = node2.receive(message);
        if message == NodeMessage::End {
            break ;
        }
        message = node1.receive(response);
    }
    counter
}

} // verus!
