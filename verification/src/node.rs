//! Position-wise comparison protocol, second cut.
//!
//! The same exchange as [`crate::simple`]: each node owns a sequence of
//! numbers, answers queries about single positions, and records a value as
//! common only when both sides hold it at the same index.  This variant
//! keeps its messages unshareable (no `Copy`), as a step towards a wire
//! format, and leaves the driver loop to the caller.

use vstd::prelude::*;

verus! {

/// One message of the position-wise comparison protocol.
#[derive(PartialEq, Debug)]
pub enum NodeMessage {
    /// "Do you hold `value` at index `location`?"
    HasQuery { location: usize, value: u32 },
    /// The answer to a `HasQuery` about the same `location`.
    HasResponse { location: usize, has: bool },
    /// Either side has run out of elements; the session is over.
    End,
}

/// The abstract value of a [`NodeState`]: the node's private sequence, the
/// index of the next element it will ask about, and the elements found on
/// both sides so far, in discovery order.
pub ghost struct StateV {
    pub data: Seq<u32>,
    pub index: int,
    pub common: Seq<u32>,
}

impl StateV {
    /// Issue the next query: ask about `data[index]` and move past it, or
    /// report `End` once the sequence is exhausted.
    pub open spec fn advance(self) -> (StateV, NodeMessage) {
        if self.index < self.data.len() {
            (
                StateV { index: self.index + 1, ..self },
                NodeMessage::HasQuery {
                    location: self.index as usize,
                    value: self.data[self.index],
                },
            )
        } else {
            (self, NodeMessage::End)
        }
    }

    /// The node's whole transition relation: the state after consuming
    /// `message` together with the reply it sends back.  It is total: every
    /// message produces exactly one reply.
    pub open spec fn step(self, message: NodeMessage) -> (StateV, NodeMessage) {
        match message {
            NodeMessage::HasQuery { location, value } => {
                if location < self.data.len() {
                    if self.data[location as int] == value {
                        (
                            StateV { common: self.common.push(value), ..self },
                            NodeMessage::HasResponse { location, has: true },
                        )
                    } else {
                        (self, NodeMessage::HasResponse { location, has: false })
                    }
                } else {
                    (self, NodeMessage::End)
                }
            }
            NodeMessage::HasResponse { location, has } => {
                if has {
                    if location < self.data.len() {
                        StateV {
                            common: self.common.push(self.data[location as int]),
                            ..self
                        }.advance()
                    } else {
                        (self, NodeMessage::End)
                    }
                } else {
                    self.advance()
                }
            }
            NodeMessage::End => (self, NodeMessage::End),
        }
    }
}

/// One side of the position-wise comparison session.
pub struct NodeState {
    data: Vec<u32>,
    index: usize,
    /// Elements confirmed to sit at the same position on both sides.
    pub common: Vec<u32>,
}

impl View for NodeState {
    type V = StateV;

    closed spec fn view(&self) -> StateV {
        StateV { data: self.data@, index: self.index as int, common: self.common@ }
    }
}

impl NodeState {
    /// A fresh node holding a copy of `data`, positioned before the first
    /// element, with nothing recorded as common yet.
    pub fn new(data: &Vec<u32>) -> (r: Self)
        ensures
            r@.data == data@,
            r@.index == 0,
            r@.common == Seq::<u32>::empty(),
    {
        let owned = vstd::slice::slice_to_vec(data.as_slice());
        NodeState { data: owned, index: 0, common: Vec::new() }
    }

    /// Call on the initiator node to get the first message.
    pub fn start(&mut self) -> (message: NodeMessage)
        ensures
            (*final(self))@ == old(self)@.advance().0,
            message == old(self)@.advance().1,
    {
        self.next_query()
    }

    /// Feed messages from the other peer in here; the reply and the new
    /// state are exactly those of [`StateV::step`].
    pub fn receive(&mut self, message: NodeMessage) -> (reply: NodeMessage)
        ensures
            (*final(self))@ == old(self)@.step(message).0,
            reply == old(self)@.step(message).1,
    {
        match message {
            NodeMessage::HasQuery { location, value } => {
                if location < self.data.len() {
                    if self.data[location] == value {
                        self.common.push(value);
                        NodeMessage::HasResponse { location, has: true }
                    } else {
                        NodeMessage::HasResponse { location, has: false }
                    }
                } else {
                    NodeMessage::End
                }
            }
            NodeMessage::HasResponse { location, has } => {
                if has {
                    if location < self.data.len() {
                        let value = self.data[location];
                        self.common.push(value);
                        self.next_query()
                    } else {
                        NodeMessage::End
                    }
                } else {
                    self.next_query()
                }
            }
            NodeMessage::End => NodeMessage::End,
        }
    }

    fn next_query(&mut self) -> (message: NodeMessage)
        ensures
            (*final(self))@ == old(self)@.advance().0,
            message == old(self)@.advance().1,
    {
        if self.index < self.data.len() {
            let message = NodeMessage::HasQuery {
                location: self.index,
                value: self.data[self.index],
            };
            self.index = self.index + 1;
            message
        } else {
            NodeMessage::End
        }
    }
}

} // verus!
