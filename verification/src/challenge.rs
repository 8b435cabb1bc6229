//! Salted-hash challenge/response protocol.
//!
//! Two nodes each own a private sequence of elements.  The leader opens the
//! session with `Start`; the follower picks a session salt, digests its own
//! data, and answers with `Initialize`.  The leader then walks its elements
//! in order, sending each digest as a `ChallengeQuery`.  A follower that
//! holds a matching digest must prove it still has the plaintext: it picks a
//! fresh salt, digests the element again, and returns both in a
//! `ChallengeReponse`, which the leader re-computes on its own copy before
//! recording the element as common.  `Done` ends the session; `Fail` reports
//! a protocol violation and ends it too.

use vstd::prelude::*;
use vstd::string::StringExecFns;
use rand::Rng;

verus! {

/// The digest of `value` under `salt`.  The placeholder hash of this library
/// simply appends the salt to the value; a production deployment would
/// substitute a real cryptographic digest with the same shape.
pub open spec fn hash_of(value: Seq<char>, salt: Seq<char>) -> Seq<char> {
    value + salt
}

/// The views of a sequence of owned strings.
pub open spec fn views(s: Seq<String>) -> Seq<Seq<char>> {
    s.map_values(|x: String| x@)
}

/// Every element of `data` digested under the one session `salt`.
pub open spec fn hashes(data: Seq<Seq<char>>, salt: Seq<char>) -> Seq<Seq<char>> {
    data.map_values(|v: Seq<char>| hash_of(v, salt))
}

/// Set-style insertion into a duplicate-free sequence: append `x` only if it
/// is not already present.
pub open spec fn insert_new(common: Seq<Seq<char>>, x: Seq<char>) -> Seq<Seq<char>> {
    if common.contains(x) {
        common
    } else {
        common.push(x)
    }
}

/// Compute the salted digest of one element.
pub fn hash_value(value: &String, salt: &String) -> (r: String)
    ensures
        r@ == hash_of(value@, salt@),
{
    value.clone().concat(salt.as_str())
}

/// Relies on rand: `rng()` is the thread-local generator and every
/// `Alphanumeric` sample is one alphanumeric ASCII byte, so eight samples
/// mapped to `char` collect into a string of exactly eight characters.
/// Nothing else can be promised of a random salt.
#[verifier::external_body]
fn generate_salt() -> (r: String)
    ensures
        r@.len() == 8,
{
    rand::rng().sample_iter(&rand::distr::Alphanumeric).take(8).map(char::from).collect()
}

/// Equal digests under one salt can only come from equal values.
pub proof fn lemma_hash_right_cancel(x: Seq<char>, y: Seq<char>, salt: Seq<char>)
    requires
        hash_of(x, salt) == hash_of(y, salt),
    ensures
        x == y,
{
    assert(hash_of(x, salt).len() == x.len() + salt.len());
    assert(hash_of(y, salt).len() == y.len() + salt.len());
    assert(x.len() == y.len());
    assert(x =~= y) by {
        assert(forall|i: int|
            0 <= i < x.len() ==> x[i] == (x + salt)[i] && y[i] == (y + salt)[i]);
    }
}

/// Equal digests of one value can only come from equal salts.
pub proof fn lemma_hash_left_cancel(value: Seq<char>, s1: Seq<char>, s2: Seq<char>)
    requires
        hash_of(value, s1) == hash_of(value, s2),
    ensures
        s1 == s2,
{
    assert(hash_of(value, s1).len() == value.len() + s1.len());
    assert(hash_of(value, s2).len() == value.len() + s2.len());
    assert(s1.len() == s2.len());
    assert(s1 =~= s2) by {
        assert(forall|i: int|
            0 <= i < s1.len()
                ==> s1[i] == (value + s1)[value.len() + i] && s2[i] == (value + s2)[value.len()
                + i]);
    }
}

/// Law: under one salt, two elements collide exactly when they are equal.
pub proof fn lemma_hash_injective(x: Seq<char>, y: Seq<char>, salt: Seq<char>)
    ensures
        hash_of(x, salt) == hash_of(y, salt) <==> x == y,
{
    if hash_of(x, salt) == hash_of(y, salt) {
        lemma_hash_right_cancel(x, y, salt);
    }
}

/// Law: digest derivation is idempotent — deriving the digest list twice
/// with the same salt gives the same list — while changing the salt changes
/// the digest of every element.
pub proof fn lemma_hash_derivation(data: Seq<Seq<char>>, s1: Seq<char>, s2: Seq<char>)
    ensures
        s1 == s2 ==> hashes(data, s1) == hashes(data, s2),
        s1 != s2 ==> forall|i: int|
            0 <= i < data.len() ==> hashes(data, s1)[i] != hashes(data, s2)[i],
{
    if s1 != s2 {
        assert forall|i: int| 0 <= i < data.len() implies hashes(data, s1)[i] != hashes(
            data,
            s2,
        )[i] by {
            if hash_of(data[i], s1) == hash_of(data[i], s2) {
                lemma_hash_left_cancel(data[i], s1, s2);
            }
        }
    }
}

/// A pair proving that the responder holds the plaintext of a matched
/// digest: a fresh salt together with the digest of the element under it.
#[derive(PartialEq, Debug)]
pub struct ChallengeReponsePair {
    pub salt: String,
    pub hash: String,
}

impl Clone for ChallengeReponsePair {
    fn clone(&self) -> (res: Self)
        ensures
            res == *self,
    {
        ChallengeReponsePair { salt: self.salt.clone(), hash: self.hash.clone() }
    }
}

/// One message of the challenge/response protocol.  The leader initiates;
/// the follower chooses the session salt and answers challenges.
#[derive(PartialEq, Debug)]
pub enum NodeMessage {
    /// The leader opens the session.
    Start,
    /// The follower agrees and fixes the session salt.
    Initialize { salt: String },
    /// The leader asks whether the peer holds this salted digest.
    ChallengeQuery { hash: String },
    /// The follower's answer: `None` for "not mine", or a fresh proof that
    /// it holds the plaintext.
    ChallengeReponse(Option<ChallengeReponsePair>),
    /// A protocol violation; the session is over.
    Fail { reason: String },
    /// Either side may hang up at any time.
    Done,
}

impl Clone for NodeMessage {
    fn clone(&self) -> (res: Self)
        ensures
            res == *self,
    {
        match self {
            NodeMessage::Start => NodeMessage::Start,
            NodeMessage::Initialize { salt } => NodeMessage::Initialize { salt: salt.clone() },
            NodeMessage::ChallengeQuery { hash } => NodeMessage::ChallengeQuery {
                hash: hash.clone(),
            },
            NodeMessage::ChallengeReponse(response) => NodeMessage::ChallengeReponse(
                match response {
                    Some(pair) => Some(pair.clone()),
                    None => None,
                },
            ),
            NodeMessage::Fail { reason } => NodeMessage::Fail { reason: reason.clone() },
            NodeMessage::Done => NodeMessage::Done,
        }
    }
}

/// The fixed role of a node: the leader drives the challenge loop, the
/// follower answers.
pub enum NodeType {
    Leader,
    Follower,
}

/// The abstract value of a [`Node`]: its role, the views of its private
/// elements, the cursor into them, whether the first challenge is still
/// pending, the session salt, the digest list, and the elements found on
/// both sides so far.
pub ghost struct NodeV {
    pub role: NodeType,
    pub data: Seq<Seq<char>>,
    pub index: int,
    pub first: bool,
    pub salt: Option<Seq<char>>,
    pub hashed: Seq<Seq<char>>,
    pub common: Seq<Seq<char>>,
}

impl NodeV {
    /// The digest list always mirrors the data under the session salt, the
    /// cursor never runs past the digest list, and the common list holds no
    /// element twice.
    pub open spec fn wf(self) -> bool {
        &&& match self.salt {
            Some(s) => self.hashed == hashes(self.data, s),
            None => self.hashed.len() == 0,
        }
        &&& 0 <= self.index <= self.hashed.len()
        &&& self.common.no_duplicates()
    }

    /// A node that has not taken part in any exchange yet.
    pub open spec fn fresh(self) -> bool {
        &&& self.salt is None
        &&& self.index == 0
        &&& self.first
        &&& self.hashed.len() == 0
        &&& self.common.len() == 0
    }

    /// The set of elements recorded as common, order forgotten.
    pub open spec fn common_set(self) -> Set<Seq<char>> {
        self.common.to_set()
    }

    /// Where the cursor lands for the next challenge: the very first
    /// challenge uses the element already under the cursor; every later one
    /// moves the cursor forward first.  The cursor never leaves the digest
    /// list behind.
    pub open spec fn advance_index(self) -> int {
        if self.first {
            self.index
        } else if self.index < self.hashed.len() {
            self.index + 1
        } else {
            self.index
        }
    }

    /// The leader's challenge emission: `post` is `self` with the cursor
    /// moved, and `out` is the digest under the new cursor, or `Done` once
    /// the data is exhausted.
    pub open spec fn advanced(self, post: NodeV, out: NodeMessage) -> bool {
        let i = self.advance_index();
        &&& post == NodeV { index: i, first: false, ..self }
        &&& if i < self.hashed.len() {
            out matches NodeMessage::ChallengeQuery { hash } && hash@ == self.hashed[i]
        } else {
            out is Done
        }
    }

    /// The leader's transition relation for one received message.
    pub open spec fn leader_step(self, message: NodeMessage, post: NodeV, out: NodeMessage) -> bool {
        match message {
            NodeMessage::Initialize { salt } => {
                if self.salt is Some {
                    post == self && out is Fail
                } else {
                    NodeV {
                        salt: Some(salt@),
                        hashed: hashes(self.data, salt@),
                        ..self
                    }.advanced(post, out)
                }
            },
            NodeMessage::ChallengeReponse(response) => match response {
                None => self.advanced(post, out),
                Some(pair) => {
                    if self.index < self.data.len() {
                        let mid = if pair.hash@ == hash_of(self.data[self.index], pair.salt@) {
                            NodeV { common: insert_new(self.common, self.data[self.index]), ..self }
                        } else {
                            self
                        };
                        mid.advanced(post, out)
                    } else {
                        post == self && out is Fail
                    }
                },
            },
            NodeMessage::Done => post == self && out is Done,
            NodeMessage::Fail { .. } => post == self && out is Fail,
            _ => post == self && out is Fail,
        }
    }

    /// The follower's answer to a `ChallengeQuery` whose digest it holds at
    /// index `j`: it records the element as common and returns a proof pair
    /// made of a fresh salt and the element digested again under it.
    pub open spec fn matched_response(
        self,
        hash: Seq<char>,
        post: NodeV,
        out: NodeMessage,
        j: int,
    ) -> bool {
        &&& 0 <= j < self.hashed.len()
        &&& self.hashed[j] == hash
        &&& post == NodeV { common: insert_new(self.common, self.data[j]), ..self }
        &&& out matches NodeMessage::ChallengeReponse(Some(pair)) && pair.salt@.len() == 8
            && pair.hash@ == hash_of(self.data[j], pair.salt@)
    }

    /// The follower's transition relation for one received message.
    pub open spec fn follower_step(
        self,
        message: NodeMessage,
        post: NodeV,
        out: NodeMessage,
    ) -> bool {
        match message {
            NodeMessage::Start => {
                if self.salt is Some {
                    post == self && out is Fail
                } else {
                    out matches NodeMessage::Initialize { salt } && salt@.len() == 8 && post
                        == NodeV { salt: Some(salt@), hashed: hashes(self.data, salt@), ..self }
                }
            },
            NodeMessage::Initialize { .. } => post == self && out is Fail,
            NodeMessage::ChallengeQuery { hash } => {
                if self.hashed.contains(hash@) {
                    exists|j: int| #[trigger] self.matched_response(hash@, post, out, j)
                } else {
                    post == self && out matches NodeMessage::ChallengeReponse(None)
                }
            },
            NodeMessage::Done => post == self && out is Done,
            NodeMessage::Fail { .. } => post == self && out is Fail,
            NodeMessage::ChallengeReponse(_) => post == self && out is Fail,
        }
    }

    /// The whole transition relation: which step applies is fixed by the
    /// node's role.  It is total: every message yields exactly one reply.
    pub open spec fn step(self, message: NodeMessage, post: NodeV, out: NodeMessage) -> bool {
        match self.role {
            NodeType::Leader => self.leader_step(message, post, out),
            NodeType::Follower => self.follower_step(message, post, out),
        }
    }
}

/// Law: a node whose session salt is already set answers any further
/// `Initialize` — and a follower any further `Start` — with `Fail`, leaving
/// its state untouched.
pub proof fn lemma_reinitialization_rejected(
    pre: NodeV,
    message: NodeMessage,
    post: NodeV,
    out: NodeMessage,
)
    requires
        pre.salt is Some,
        message is Initialize || (pre.role is Follower && message is Start),
        pre.step(message, post, out),
    ensures
        out is Fail,
        post == pre,
{
}

/// Law: a follower that holds no digest matching a `ChallengeQuery` answers
/// `ChallengeReponse(None)` and records nothing.
pub proof fn lemma_unmatched_query_refused(
    pre: NodeV,
    message: NodeMessage,
    post: NodeV,
    out: NodeMessage,
)
    requires
        pre.role is Follower,
        message matches NodeMessage::ChallengeQuery { hash } && !pre.hashed.contains(hash@),
        pre.step(message, post, out),
    ensures
        out matches NodeMessage::ChallengeReponse(None),
        post == pre,
{
}

/// One party's session state.
pub struct Node {
    node_type: NodeType,
    data: Vec<String>,
    data_index: usize,
    first_challenge: bool,
    salt: Option<String>,
    data_hashed: Vec<String>,
    /// Elements confirmed present on both sides.
    pub data_common: Vec<String>,
}

impl View for Node {
    type V = NodeV;

    closed spec fn view(&self) -> NodeV {
        NodeV {
            role: self.node_type,
            data: views(self.data@),
            index: self.data_index as int,
            first: self.first_challenge,
            salt: self.salt.deep_view(),
            hashed: views(self.data_hashed@),
            common: views(self.data_common@),
        }
    }
}

/// Look `target` up in `hashed`; any index holding it will do.
fn find_hash(hashed: &Vec<String>, target: &String) -> (r: Option<usize>)
    ensures
        match r {
            Some(j) => j < hashed@.len() && views(hashed@)[j as int] == target@,
            None => !views(hashed@).contains(target@),
        },
{
    let mut j: usize = 0;
    while j < hashed.len()
        invariant
            j <= hashed@.len(),
            forall|k: int| 0 <= k < j ==> views(hashed@)[k] != target@,
        decreases hashed@.len() - j,
    {
        if hashed[j] == *target {
            return Some(j);
        }
        j += 1;
    }
    None
}

impl Node {
    /// A fresh node with the given role, owning a copy of `data`.
    pub fn new(data: &[String], node_type: NodeType) -> (r: Node)
        ensures
            r@.wf(),
            r@.fresh(),
            r@.role == node_type,
            r@.data == views(data@),
    {
        let mut owned: Vec<String> = Vec::new();
        let mut i: usize = 0;
        while i < data.len()
            invariant
                i <= data@.len(),
                owned@.len() == i,
                forall|k: int| 0 <= k < i ==> owned@[k] == data@[k],
            decreases data@.len() - i,
        {
            let element = data[i].clone();
            owned.push(element);
            i += 1;
        }
        proof {
            assert(views(owned@) =~= views(data@));
        }
        Node {
            node_type,
            data: owned,
            data_index: 0,
            first_challenge: true,
            salt: None,
            data_hashed: Vec::new(),
            data_common: Vec::new(),
        }
    }

    /// Open the session.  Only a leader may start; a follower answers with
    /// `Fail` instead, preserving the rule that every call yields a message.
    pub fn start(&mut self) -> (out: NodeMessage)
        ensures
            *final(self) == *old(self),
            old(self)@.role is Leader <==> out is Start,
            old(self)@.role is Follower <==> out is Fail,
    {
        match self.node_type {
            NodeType::Leader => NodeMessage::Start,
            NodeType::Follower => NodeMessage::Fail {
                reason: "Cannot call start on follower node".to_owned(),
            },
        }
    }

    /// Consume one inbound message and produce the reply.  The new state and
    /// the reply are exactly those of [`NodeV::step`]; the relation is total,
    /// so no inbound message is ever left unanswered.
    pub fn recieve_message(&mut self, message: NodeMessage) -> (out: NodeMessage)
        requires
            old(self)@.wf(),
        ensures
            (*final(self))@.wf(),
            old(self)@.step(message, (*final(self))@, out),
            (*final(self))@.role == old(self)@.role,
            (*final(self))@.data == old(self)@.data,
    {
        match self.node_type {
            NodeType::Leader => match message {
                NodeMessage::Initialize { salt } => {
                    if self.salt.is_some() {
                        NodeMessage::Fail {
                            reason: "Node recieved initialize when already initialized".to_owned(),
                        }
                    } else {
                        self.salt = Some(salt);
                        self.hash_data();
                        self.next_challenge()
                    }
                },
                NodeMessage::ChallengeReponse(response) => match response {
                    None => self.next_challenge(),
                    Some(response2) => {
                        if self.data_index < self.data.len() {
                            let new_hash = hash_value(&self.data[self.data_index], &response2.salt);
                            if new_hash == response2.hash {
                                let original_data = self.data[self.data_index].clone();
                                self.insert_common(original_data);
                            }
                            self.next_challenge()
                        } else {
                            NodeMessage::Fail {
                                reason: "Protocol responder gave bad new salt challenge for current data".to_owned(),
                            }
                        }
                    },
                },
                NodeMessage::Done => NodeMessage::Done,
                NodeMessage::Fail { reason } => NodeMessage::Fail {
                    reason: "Protocol responder failed: ".to_owned().concat(reason.as_str()),
                },
                _ => NodeMessage::Fail {
                    reason: "Unsupported message for this node state".to_owned(),
                },
            },
            NodeType::Follower => match message {
                NodeMessage::Start => {
                    if self.salt.is_some() {
                        NodeMessage::Fail {
                            reason: "Recieved start when already initialized".to_owned(),
                        }
                    } else {
                        let salt = generate_salt();
                        self.salt = Some(salt.clone());
                        self.hash_data();
                        NodeMessage::Initialize { salt }
                    }
                },
                NodeMessage::Initialize { salt: _ } => NodeMessage::Fail {
                    reason: "Node recieved initialize when already initialized".to_owned(),
                },
                NodeMessage::ChallengeQuery { hash } => {
                    let found = find_hash(&self.data_hashed, &hash);
                    match found {
                        None => NodeMessage::ChallengeReponse(None),
                        Some(index) => {
                            let original_data = self.data[index].clone();
                            let new_salt = generate_salt();
                            let new_hash = hash_value(&original_data, &new_salt);
                            self.insert_common(original_data);
                            let reply = NodeMessage::ChallengeReponse(
                                Some(ChallengeReponsePair { salt: new_salt, hash: new_hash }),
                            );
                            proof {
                                assert(old(self)@.hashed[index as int] == hash@);
                                assert(old(self)@.hashed.contains(hash@));
                                assert(old(self)@.matched_response(hash@, self@, reply, index as int));
                            }
                            reply
                        },
                    }
                },
                NodeMessage::Done => NodeMessage::Done,
                NodeMessage::Fail { reason: _ } => NodeMessage::Fail {
                    reason: "Protocol leader failed".to_owned(),
                },
                NodeMessage::ChallengeReponse(_) => NodeMessage::Fail {
                    reason: "Received challenge response".to_owned(),
                },
            },
        }
    }

    /// Append `x` to the common list unless it is already there, keeping the
    /// list duplicate-free.
    fn insert_common(&mut self, x: String)
        requires
            old(self)@.common.no_duplicates(),
        ensures
            (*final(self))@ == (NodeV { common: insert_new(old(self)@.common, x@), ..old(self)@ }),
            (*final(self))@.common.no_duplicates(),
    {
        let mut i: usize = 0;
        let mut present = false;
        while i < self.data_common.len()
            invariant
                i <= self.data_common@.len(),
                *self == *old(self),
                present <==> exists|k: int|
                    0 <= k < i && views(self.data_common@)[k] == x@,
            decreases self.data_common@.len() - i,
        {
            if self.data_common[i] == x {
                present = true;
                proof {
                    assert(views(self.data_common@)[i as int] == x@);
                }
            } else {
                proof {
                    assert(views(self.data_common@)[i as int] != x@);
                }
            }
            i += 1;
        }
        if !present {
            self.data_common.push(x);
            proof {
                assert(views(self.data_common@) =~= views(old(self).data_common@).push(x@));
                assert(views(self.data_common@).no_duplicates());
            }
        }
    }

    /// Move the cursor as [`NodeV::advance_index`] says and emit the digest
    /// it lands on, or `Done` once the data is exhausted.
    fn next_challenge(&mut self) -> (out: NodeMessage)
        ensures
            old(self)@.advanced((*final(self))@, out),
    {
        if self.first_challenge {
            self.first_challenge = false;
        } else if self.data_index < self.data_hashed.len() {
            self.data_index = self.data_index + 1;
        }
        if self.data_index < self.data_hashed.len() {
            NodeMessage::ChallengeQuery { hash: self.data_hashed[self.data_index].clone() }
        } else {
            NodeMessage::Done
        }
    }

    /// Digest the whole data list under the session salt; before
    /// initialization there is no salt and nothing to do.
    fn hash_data(&mut self)
        ensures
            old(self)@.salt is Some ==> (*final(self))@ == (NodeV {
                hashed: hashes(old(self)@.data, old(self)@.salt->0),
                ..old(self)@
            }),
            old(self)@.salt is None ==> *final(self) == *old(self),
    {
        let salt = match &self.salt {
            None => {
                return ;
            },
            Some(s) => s.clone(),
        };
        let ghost pre = *self;
        let mut hashed: Vec<String> = Vec::new();
        let mut i: usize = 0;
        while i < self.data.len()
            invariant
                *self == pre,
                salt@ == pre@.salt->0,
                i <= self.data@.len(),
                hashed@.len() == i,
                forall|k: int|
                    0 <= k < i ==> views(hashed@)[k] == hash_of(pre@.data[k], pre@.salt->0),
            decreases self.data@.len() - i,
        {
            let ghost previous = hashed@;
            let digest = hash_value(&self.data[i], &salt);
            hashed.push(digest);
            proof {
                assert forall|k: int| 0 <= k < i + 1 implies views(hashed@)[k] == hash_of(
                    pre@.data[k],
                    pre@.salt->0,
                ) by {
                    assert(views(hashed@)[k] == hashed@[k]@);
                    if k < i {
                        assert(hashed@[k] == previous[k]);
                        assert(views(previous)[k] == previous[k]@);
                    } else {
                        assert(hashed@[k] == digest);
                        assert(digest@ == hash_of(pre.data@[k]@, salt@));
                        assert(pre@.data[k] == pre.data@[k]@);
                    }
                }
            }
            i += 1;
        }
        proof {
            assert(views(hashed@) =~= hashes(pre@.data, pre@.salt->0));
        }
        self.data_hashed = hashed;
    }
}

/// A digest computed under `s` is in the digest list of `b` exactly when
/// the plaintext is in `b`: the placeholder hash has no collisions.
proof fn lemma_digest_membership(b: Seq<Seq<char>>, x: Seq<char>, s: Seq<char>)
    ensures
        hashes(b, s).contains(hash_of(x, s)) <==> b.contains(x),
{
    if hashes(b, s).contains(hash_of(x, s)) {
        let j = choose|j: int|
            0 <= j < hashes(b, s).len() && hashes(b, s)[j] == hash_of(x, s);
        assert(hashes(b, s)[j] == hash_of(b[j], s));
        lemma_hash_right_cancel(b[j], x, s);
        assert(b[j] == x);
    }
    if b.contains(x) {
        let j = choose|j: int| 0 <= j < b.len() && b[j] == x;
        assert(hashes(b, s)[j] == hash_of(x, s));
    }
}

/// How the leader's common set moves when the cursor passes element `i`:
/// it gains `a[i]` exactly when the follower also holds it.
proof fn lemma_common_set_update(a: Seq<Seq<char>>, b: Seq<Seq<char>>, i: int, c: Seq<Seq<char>>)
    requires
        0 <= i < a.len(),
        c.to_set() == a.take(i).to_set().intersect(b.to_set()),
    ensures
        b.contains(a[i]) ==> insert_new(c, a[i]).to_set() == a.take(i + 1).to_set().intersect(
            b.to_set(),
        ),
        !b.contains(a[i]) ==> c.to_set() == a.take(i + 1).to_set().intersect(b.to_set()),
{
    a.lemma_take_succ_push(i);
    a.take(i).lemma_push_to_set_commute(a[i]);
    assert(a.take(i + 1).to_set() =~= a.take(i).to_set().insert(a[i]));
    if b.contains(a[i]) {
        if c.contains(a[i]) {
            assert(c.to_set() =~= a.take(i + 1).to_set().intersect(b.to_set()));
        } else {
            c.lemma_push_to_set_commute(a[i]);
            assert(c.push(a[i]).to_set() =~= a.take(i + 1).to_set().intersect(b.to_set()));
        }
    } else {
        assert(c.to_set() =~= a.take(i + 1).to_set().intersect(b.to_set()));
    }
}

/// An empty common list matches the intersection seen through an empty
/// prefix of the leader's data.
proof fn lemma_common_set_start(a: Seq<Seq<char>>, b: Seq<Seq<char>>, c: Seq<Seq<char>>)
    requires
        c.len() == 0,
    ensures
        c.to_set() == a.take(0).to_set().intersect(b.to_set()),
{
    assert(c.to_set() =~= a.take(0).to_set().intersect(b.to_set()));
}

/// Drive a fresh leader and a fresh follower to completion, alternating
/// turns as the transport would, and count the turns.  Both sides end up
/// with the same common list, and that list holds exactly the elements the
/// two data sets share — whatever order either side stores them in.  When
/// the two sets share nothing, both common lists stay empty.  The exchange
/// takes one turn per leader element plus one for `Start` and one for
/// `Done`, however long the follower's data is.
pub fn protocol(leader: &mut Node, follower: &mut Node) -> (rounds: usize)
    requires
        old(leader)@.wf(),
        old(leader)@.fresh(),
        (old(leader)@.role is Leader),
        old(follower)@.wf(),
        old(follower)@.fresh(),
        (old(follower)@.role is Follower),
        old(leader)@.data.len() + 2 <= usize::MAX,
    ensures
        (*final(leader))@.data == old(leader)@.data,
        (*final(follower))@.data == old(follower)@.data,
        (*final(leader))@.common_set() == old(leader)@.data.to_set().intersect(
            old(follower)@.data.to_set(),
        ),
        (*final(follower))@.common == (*final(leader))@.common,
        (*final(follower))@.common_set() == (*final(leader))@.common_set(),
        (*final(leader))@.wf(),
        (*final(follower))@.wf(),
        (old(leader)@.data.to_set().disjoint(old(follower)@.data.to_set())
            ==> (*final(leader))@.common.len() == 0 && (*final(follower))@.common.len() == 0),
        rounds == old(leader)@.data.len() + 2,
{
    let ghost a = leader@.data;
    let ghost b = follower@.data;
    let mut message = leader.start();
    let mut rounds: usize = 0;
    loop
        invariant_except_break
            (message is Start ==> leader@.fresh() && follower@.fresh() && rounds == 0),
            (message matches NodeMessage::ChallengeQuery { hash } ==> {
                &&& follower@.salt is Some
                &&& leader@.salt == follower@.salt
                &&& leader@.hashed == hashes(a, follower@.salt->0)
                &&& follower@.hashed == hashes(b, follower@.salt->0)
                &&& !leader@.first
                &&& 0 <= leader@.index < a.len()
                &&& hash@ == hash_of(a[leader@.index], follower@.salt->0)
                &&& leader@.common == follower@.common
                &&& leader@.common.to_set() == a.take(leader@.index).to_set().intersect(b.to_set())
                &&& rounds == leader@.index + 1
            }),
            (message is Done ==> {
                &&& leader@.common == follower@.common
                &&& leader@.common.to_set() == a.to_set().intersect(b.to_set())
                &&& rounds == a.len() + 1
            }),
        invariant
            leader@.wf(),
            follower@.wf(),
            (leader@.role is Leader),
            (follower@.role is Follower),
            leader@.data == a,
            follower@.data == b,
            a.len() + 2 <= usize::MAX,
            (message is Start || message is ChallengeQuery || message is Done),
        ensures
            (message is Done),
            leader@.data == a,
            follower@.data == b,
            leader@.common == follower@.common,
            leader@.common.to_set() == a.to_set().intersect(b.to_set()),
            rounds == a.len() + 2,
        decreases (if message is Start {
            a.len() + 2int
        } else if message is ChallengeQuery {
            a.len() + 1 - leader@.index
        } else {
            0int
        }),
    {
        rounds += 1;
        let ghost pre_follower = follower@;
        let reply = follower.recieve_message(message.clone());
        if matches!(&message, NodeMessage::Fail { .. }) {
            break ;
        }
        if matches!(&message, NodeMessage::Done) {
            break ;
        }
        let ghost pre_leader = leader@;
        proof {
            match &message {
                NodeMessage::ChallengeQuery { hash } => {
                    let s = pre_follower.salt->0;
                    let i = pre_leader.index;
                    lemma_digest_membership(b, a[i], s);
                    if pre_follower.hashed.contains(hash@) {
                        let j = choose|j: int|
                            #[trigger] pre_follower.matched_response(hash@, follower@, reply, j);
                        assert(hashes(b, s)[j] == hash_of(b[j], s));
                        lemma_hash_right_cancel(b[j], a[i], s);
                        assert(follower@.common == insert_new(pre_leader.common, a[i]));
                        lemma_common_set_update(a, b, i, pre_leader.common);
                    } else {
                        lemma_common_set_update(a, b, i, pre_leader.common);
                    }
                },
                _ => {},
            }
        }
        message = leader.recieve_message(reply);
        proof {
            if pre_leader.fresh() {
                // The `Initialize` round: both sides have just digested
                // their data and nothing is common yet.
                assert(leader@.common.len() == 0);
                assert(follower@.common.len() == 0);
                assert(leader@.common =~= follower@.common);
                lemma_common_set_start(a, b, leader@.common);
            }
            if message is Done {
                a.lemma_take_len();
                assert(a.take(a.len() as int) == a);
            }
        }
    }
    proof {
        if a.to_set().disjoint(b.to_set()) {
            assert(a.to_set().intersect(b.to_set()) =~= Set::<Seq<char>>::empty());
            assert(leader@.common.to_set() =~= Set::<Seq<char>>::empty());
            leader@.common.lemma_cardinality_of_empty_set_is_0();
            follower@.common.lemma_cardinality_of_empty_set_is_0();
        }
    }
    rounds
}

/// Turn borrowed string slices into owned strings.
pub fn fix_array(input: Vec<&str>) -> (r: Vec<String>)
    ensures
        r@.len() == input@.len(),
        forall|i: int| 0 <= i < r@.len() ==> r@[i]@ == input@[i]@,
{
    let mut out: Vec<String> = Vec::new();
    let mut i: usize = 0;
    while i < input.len()
        invariant
            i <= input@.len(),
            out@.len() == i,
            forall|k: int| 0 <= k < i ==> out@[k]@ == input@[k]@,
        decreases input@.len() - i,
    {
        let element = input[i].to_owned();
        out.push(element);
        i += 1;
    }
    out
}

} // verus!
