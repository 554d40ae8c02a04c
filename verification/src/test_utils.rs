//! A small cast for trying the messenger out: a message with two variants, a
//! handler that checks what arrives against what was announced, a router
//! that adds nothing to a destination, and a line of connected nodes.

use crate::bytes::bytes_eq;
use crate::crypto::{hmac_sha256_of, public_key_of};
use crate::keys::{node_secret_label, KeysManager, PublicKey};
use crate::messenger::{
    buffer_views, connected_spec, drained_spec, message_views, queue_of,
    CustomOnionMessageContents, CustomOnionMessageHandler, DecodeError, Init, InitFeatures,
    MessageRouter, OffersMessage, OffersMessageHandler, OnionMessageSpec, OnionMessenger,
    PeerBufferSpec,
};
use crate::route::{Destination, DestinationSpec, OnionMessagePath, PathSpec};
use std::collections::VecDeque;
use vstd::prelude::*;

verus! {

/// A router that knows no node: the route to a destination is the
/// destination.
pub struct TestMessageRouter {}

impl MessageRouter for TestMessageRouter {
    open spec fn finds(
        &self,
        sender: Seq<u8>,
        peers: Seq<Seq<u8>>,
        destination: DestinationSpec,
        found: Option<PathSpec>,
    ) -> bool {
        found == Some(PathSpec { intermediate_nodes: Seq::empty(), destination })
    }

    fn find_path(&self, sender: PublicKey, peers: Vec<PublicKey>, destination: Destination) -> (path:
        Result<OnionMessagePath, ()>)
        ensures
            path matches Ok(found) && found@ == (PathSpec {
                intermediate_nodes: Seq::empty(),
                destination: destination@,
            }),
    {
        let path = OnionMessagePath { intermediate_nodes: Vec::new(), destination };
        assert(path@.intermediate_nodes =~= Seq::<Seq<u8>>::empty());
        Ok(path)
    }
}

/// A handler that never answers.
pub struct TestOffersMessageHandler {}

impl OffersMessageHandler for TestOffersMessageHandler {
    open spec fn handles(
        &self,
        tlv_type: u64,
        bytes: Seq<u8>,
        after: Self,
        answer: Option<(u64, Seq<u8>)>,
    ) -> bool {
        answer is None && after == *self
    }

    fn handle_message(&mut self, message: OffersMessage) -> (answer: Option<OffersMessage>)
        ensures
            answer is None,
    {
        None
    }
}

/// A message that asks, and the message that answers it.
#[derive(Clone, Copy, Debug, PartialEq, Eq, Structural)]
pub enum TestCustomMessage {
    Request,
    Response,
}

/// Record type of a request.
pub const CUSTOM_REQUEST_MESSAGE_TYPE: u64 = 4242;

/// Record type of a response.
pub const CUSTOM_RESPONSE_MESSAGE_TYPE: u64 = 4343;

/// The byte that a request is made of.
pub const CUSTOM_REQUEST_MESSAGE_BYTE: u8 = 42;

/// The byte that a response is made of.
pub const CUSTOM_RESPONSE_MESSAGE_BYTE: u8 = 43;

/// The record type of `message`.
pub open spec fn test_message_type(message: TestCustomMessage) -> u64 {
    match message {
        TestCustomMessage::Request => 4242,
        TestCustomMessage::Response => 4343,
    }
}

/// The bytes of `message`: 32 times 42 for a request, 32 times 43 for a
/// response.
pub open spec fn test_message_bytes(message: TestCustomMessage) -> Seq<u8> {
    match message {
        TestCustomMessage::Request => Seq::new(32, |i: int| 42u8),
        TestCustomMessage::Response => Seq::new(32, |i: int| 43u8),
    }
}

/// The message that bytes of type `message_type` hold: none for a type that
/// is neither a request's nor a response's, and an error where the bytes of
/// a known type are not those of its message.
pub open spec fn test_message_read(message_type: u64, buffer: Seq<u8>) -> Result<
    Option<TestCustomMessage>,
    DecodeError,
> {
    if message_type == 4242 {
        if buffer == test_message_bytes(TestCustomMessage::Request) {
            Ok(Some(TestCustomMessage::Request))
        } else {
            Err(DecodeError::InvalidValue)
        }
    } else if message_type == 4343 {
        if buffer == test_message_bytes(TestCustomMessage::Response) {
            Ok(Some(TestCustomMessage::Response))
        } else {
            Err(DecodeError::InvalidValue)
        }
    } else {
        Ok(None)
    }
}

/// 32 bytes, all `byte`.
fn filled(byte: u8) -> (out: Vec<u8>)
    ensures
        out@ == Seq::new(32, |i: int| byte),
{
    let mut out: Vec<u8> = Vec::new();
    let mut i: usize = 0;
    while i < 32
        invariant
            i <= 32,
            out@.len() == i,
            forall|j: int| 0 <= j < i ==> out@[j] == byte,
        decreases 32 - i,
    {
        out.push(byte);
        i = i + 1;
    }
    assert(out@ =~= Seq::new(32, |i: int| byte));
    out
}

impl CustomOnionMessageContents for TestCustomMessage {
    open spec fn has_type(&self, tlv_type: u64) -> bool {
        tlv_type == test_message_type(*self)
    }

    open spec fn has_bytes(&self, bytes: Seq<u8>) -> bool {
        bytes == test_message_bytes(*self)
    }

    fn tlv_type(&self) -> (tlv_type: u64)
        ensures
            tlv_type == test_message_type(*self),
    {
        match self {
            TestCustomMessage::Request => CUSTOM_REQUEST_MESSAGE_TYPE,
            TestCustomMessage::Response => CUSTOM_RESPONSE_MESSAGE_TYPE,
        }
    }

    fn write(&self) -> (bytes: Vec<u8>)
        ensures
            bytes@ == test_message_bytes(*self),
    {
        match self {
            TestCustomMessage::Request => filled(CUSTOM_REQUEST_MESSAGE_BYTE),
            TestCustomMessage::Response => filled(CUSTOM_RESPONSE_MESSAGE_BYTE),
        }
    }
}

/// A handler that is told which messages to expect, in order, and notes
/// whether what arrives is what it was told. It answers a request with a
/// response and a response with nothing.
pub struct TestCustomMessageHandler {
    expected_messages: VecDeque<TestCustomMessage>,
    surprised: bool,
}

impl TestCustomMessageHandler {
    /// The messages that are still expected, the next one first.
    pub closed spec fn expected(&self) -> Seq<TestCustomMessage> {
        self.expected_messages@
    }

    /// Whether a message has arrived that was not the next one expected.
    pub closed spec fn was_surprised(&self) -> bool {
        self.surprised
    }

    /// A handler that expects nothing.
    pub fn new() -> (handler: Self)
        ensures
            handler.expected() == Seq::<TestCustomMessage>::empty(),
            !handler.was_surprised(),
    {
        Self { expected_messages: VecDeque::new(), surprised: false }
    }

    /// Announces `message` to the handler: it is expected after all that is
    /// expected already.
    pub fn expect_message(&mut self, message: TestCustomMessage)
        ensures
            final(self).expected() == old(self).expected().push(message),
            final(self).was_surprised() == old(self).was_surprised(),
    {
        self.expected_messages.push_back(message);
    }

    /// Whether every message announced has arrived, in order, and no other.
    pub fn is_satisfied(&self) -> (satisfied: bool)
        ensures
            satisfied == (self.expected().len() == 0 && !self.was_surprised()),
    {
        self.expected_messages.len() == 0 && !self.surprised
    }
}

impl CustomOnionMessageHandler for TestCustomMessageHandler {
    type CustomMessage = TestCustomMessage;

    open spec fn reads(
        &self,
        message_type: u64,
        buffer: Seq<u8>,
        read: Result<Option<TestCustomMessage>, DecodeError>,
    ) -> bool {
        read == test_message_read(message_type, buffer)
    }

    open spec fn handles(
        &self,
        msg: TestCustomMessage,
        after: Self,
        answer: Option<TestCustomMessage>,
    ) -> bool {
        &&& answer == match msg {
            TestCustomMessage::Request => Some(TestCustomMessage::Response),
            TestCustomMessage::Response => None,
        }
        &&& after.expected() == if self.expected().len() > 0 {
            self.expected().subrange(1, self.expected().len() as int)
        } else {
            self.expected()
        }
        &&& after.was_surprised() == (self.was_surprised() || self.expected().len() == 0
            || self.expected()[0] != msg)
    }

    fn handle_custom_message(&mut self, msg: TestCustomMessage) -> (answer: Option<TestCustomMessage>)
        ensures
            answer == match msg {
                TestCustomMessage::Request => Some(TestCustomMessage::Response),
                TestCustomMessage::Response => None,
            },
            final(self).expected() == if old(self).expected().len() > 0 {
                old(self).expected().subrange(1, old(self).expected().len() as int)
            } else {
                old(self).expected()
            },
            final(self).was_surprised() == (old(self).was_surprised() || old(self).expected().len()
                == 0 || old(self).expected()[0] != msg),
    {
        match self.expected_messages.pop_front() {
            Some(expected) => {
                if expected != msg {
                    self.surprised = true;
                }
            },
            None => {
                self.surprised = true;
            },
        }
        match msg {
            TestCustomMessage::Request => Some(TestCustomMessage::Response),
            TestCustomMessage::Response => None,
        }
    }

    fn read_custom_message(&self, message_type: u64, buffer: &[u8]) -> (message: Result<
        Option<TestCustomMessage>,
        DecodeError,
    >)
        ensures
            message == test_message_read(message_type, buffer@),
    {
        if message_type == CUSTOM_REQUEST_MESSAGE_TYPE {
            let contents = filled(CUSTOM_REQUEST_MESSAGE_BYTE);
            if bytes_eq(buffer, contents.as_slice()) {
                Ok(Some(TestCustomMessage::Request))
            } else {
                Err(DecodeError::InvalidValue)
            }
        } else if message_type == CUSTOM_RESPONSE_MESSAGE_TYPE {
            let contents = filled(CUSTOM_RESPONSE_MESSAGE_BYTE);
            if bytes_eq(buffer, contents.as_slice()) {
                Ok(Some(TestCustomMessage::Response))
            } else {
                Err(DecodeError::InvalidValue)
            }
        } else {
            Ok(None)
        }
    }
}

/// A node of the cast: a messenger with the test router and handlers.
pub struct MessengerNode {
    pub messenger: OnionMessenger<
        TestMessageRouter,
        TestOffersMessageHandler,
        TestCustomMessageHandler,
    >,
}

impl MessengerNode {
    /// The identity of the node.
    pub fn get_node_pk(&self) -> (id: PublicKey)
        ensures
            id@ == self.messenger.keys().id(),
    {
        self.messenger.get_node_id()
    }
}

/// The seed of the keys of node `i` of a cast.
pub open spec fn seed_of(i: u8) -> Seq<u8> {
    Seq::new(32, |j: int| i)
}

/// The identity of the node whose keys come from `seed`, if they are valid.
pub open spec fn node_id_of(seed: Seq<u8>) -> Option<Seq<u8>> {
    match public_key_of(hmac_sha256_of(seed, node_secret_label())@) {
        Some(key) => Some(key@),
        None => None,
    }
}

/// The buffers of node `i` in a line of nodes with the identities `ids`:
/// one for the node before it, then one for the node behind it.
pub open spec fn neighbours(ids: Seq<Seq<u8>>, i: int) -> Seq<PeerBufferSpec> {
    let before = if i > 0 {
        connected_spec(Seq::empty(), ids[i - 1], true)
    } else {
        Seq::empty()
    };
    if i + 1 < ids.len() {
        connected_spec(before, ids[i + 1], true)
    } else {
        before
    }
}

/// The seed of node `i` as an array.
fn node_seed(i: u8) -> (seed: [u8; 32])
    ensures
        seed@ == seed_of(i),
{
    let mut seed: [u8; 32] = [0u8; 32];
    let mut j: usize = 0;
    while j < 32
        invariant
            j <= 32,
            forall|k: int| 0 <= k < j ==> seed@[k] == i,
        decreases 32 - j,
    {
        seed[j] = i;
        j = j + 1;
    }
    assert(seed@ =~= seed_of(i));
    seed
}

/// Creates `num_messengers` nodes in a line, node `i` with keys from the
/// seed made of 32 bytes `i`, each connected to the node before it and the
/// node behind it. There is no cast where a seed gives no valid keys.
pub fn create_nodes(num_messengers: u8) -> (nodes: Option<Vec<MessengerNode>>)
    requires
        num_messengers > 0,
    ensures
        match nodes {
            Some(made) => {
                &&& made@.len() == num_messengers
                &&& forall|i: int|
                    0 <= i < num_messengers ==> {
                        &&& (#[trigger] made@[i]).messenger.wf()
                        &&& node_id_of(seed_of(i as u8)) == Some(made@[i].messenger.keys().id())
                        &&& made@[i].messenger.keys().entropy_seed() == seed_of(i as u8)
                        &&& made@[i].messenger.keys().drawn() == 0
                        &&& made@[i].messenger.custom().expected() == Seq::<
                            TestCustomMessage,
                        >::empty()
                        &&& !made@[i].messenger.custom().was_surprised()
                    }
                &&& forall|i: int|
                    0 <= i < num_messengers ==> (#[trigger] made@[i]).messenger.pending()
                        == neighbours(
                        Seq::new(num_messengers as nat, |k: int| node_id_of(seed_of(k as u8))->0),
                        i,
                    )
            },
            None => exists|i: int|
                0 <= i < num_messengers && #[trigger] node_id_of(seed_of(i as u8)) is None,
        },
{
    let n = num_messengers as usize;
    let ghost all = Seq::new(num_messengers as nat, |k: int| node_id_of(seed_of(k as u8))->0);
    let mut ids: Vec<PublicKey> = Vec::new();
    let mut i: usize = 0;
    while i < n
        invariant
            i <= n,
            n == num_messengers,
            ids@.len() == i,
            forall|k: int| 0 <= k < i ==> node_id_of(seed_of(k as u8)) == Some((#[trigger] ids@[k])@),
        decreases n - i,
    {
        let seed = node_seed(i as u8);
        match KeysManager::new(&seed) {
            Some(keys) => {
                ids.push(keys.get_node_id());
            },
            None => {
                assert(node_id_of(seed_of(i as u8)) is None);
                return None;
            },
        }
        i = i + 1;
    }
    let mut features = InitFeatures::empty();
    features.set_onion_messages_optional();
    let init = Init { features };
    let mut nodes: Vec<MessengerNode> = Vec::new();
    let mut i: usize = 0;
    while i < n
        invariant
            i <= n,
            n == num_messengers,
            ids@.len() == n,
            init.features.onion_messages,
            all == Seq::new(num_messengers as nat, |k: int| node_id_of(seed_of(k as u8))->0),
            forall|k: int| 0 <= k < n ==> node_id_of(seed_of(k as u8)) == Some((#[trigger] ids@[k])@),
            nodes@.len() == i,
            forall|k: int|
                0 <= k < i ==> {
                    &&& (#[trigger] nodes@[k]).messenger.wf()
                    &&& node_id_of(seed_of(k as u8)) == Some(nodes@[k].messenger.keys().id())
                    &&& nodes@[k].messenger.keys().entropy_seed() == seed_of(k as u8)
                    &&& nodes@[k].messenger.keys().drawn() == 0
                    &&& nodes@[k].messenger.custom().expected() == Seq::<TestCustomMessage>::empty()
                    &&& !nodes@[k].messenger.custom().was_surprised()
                    &&& nodes@[k].messenger.pending() == neighbours(all, k)
                },
        decreases n - i,
    {
        let seed = node_seed(i as u8);
        let keys = match KeysManager::new(&seed) {
            Some(keys) => keys,
            None => {
                assert(node_id_of(seed_of(i as u8)) is None);
                return None;
            },
        };
        let mut messenger = OnionMessenger::new(
            keys,
            TestMessageRouter {  },
            TestOffersMessageHandler {  },
            TestCustomMessageHandler::new(),
        );
        if i > 0 {
            assert(all[i - 1] == ids@[i - 1]@);
            let _connected = messenger.peer_connected(&ids[i - 1], &init, false);
        }
        if i + 1 < n {
            assert(all[i + 1] == ids@[i + 1]@);
            let _connected = messenger.peer_connected(&ids[i + 1], &init, true);
        }
        nodes.push(MessengerNode { messenger });
        i = i + 1;
    }
    Some(nodes)
}

/// Whether exactly one message waits for `peer`.
pub open spec fn has_one_for(buffers: Seq<PeerBufferSpec>, peer: Seq<u8>) -> bool {
    match queue_of(buffers, peer) {
        Some(queue) => queue.len() == 1,
        None => false,
    }
}

/// The first message that waits for `peer`.
pub open spec fn first_for(buffers: Seq<PeerBufferSpec>, peer: Seq<u8>) -> OnionMessageSpec {
    queue_of(buffers, peer)->0[0]
}

/// Whether every node of `path` is well-formed.
pub open spec fn all_wf(path: Seq<MessengerNode>) -> bool {
    forall|i: int| 0 <= i < path.len() ==> (#[trigger] path[i]).messenger.wf()
}

/// Whether `after` is `before` with its waiting messages released: the
/// same peers with nothing waiting, and nothing else changed.
pub open spec fn released(before: MessengerNode, after: MessengerNode) -> bool {
    &&& after.messenger.pending() == drained_spec(before.messenger.pending())
    &&& after.messenger.keys() == before.messenger.keys()
    &&& after.messenger.same_collaborators(before.messenger)
}

/// One step of a walk, from node `i` to node `i + 1`: node `i` has released
/// its messages, node `i + 1` has handled the one message that waited for
/// it, and no other node has changed.
pub open spec fn stepped(before: Seq<MessengerNode>, after: Seq<MessengerNode>, i: nat) -> bool {
    &&& after.len() == before.len()
    &&& i + 1 < before.len()
    &&& forall|k: int| 0 <= k < before.len() && k != i && k != i + 1 ==> after[k] == before[k]
    &&& released(before[i as int], after[i as int])
    &&& before[i as int + 1].messenger.handled(
        after[i as int + 1].messenger,
        first_for(before[i as int].messenger.pending(), before[i as int + 1].messenger.keys().id()),
    )
}

/// The walk along `before` from node `i` on, which leaves `after`.
///
/// At the last node the walk has passed, and nothing changes. Before it,
/// node `i` releases its messages. Where exactly one waits for node `i + 1`,
/// that node handles it and the walk goes on from there. Where none or
/// several wait, the walk has not passed, and every node behind node `i`
/// is as it was.
pub open spec fn walked(
    before: Seq<MessengerNode>,
    after: Seq<MessengerNode>,
    i: nat,
    passed: bool,
) -> bool
    decreases before.len() - i,
{
    if i + 1 >= before.len() {
        passed && after == before
    } else if has_one_for(
        before[i as int].messenger.pending(),
        before[i as int + 1].messenger.keys().id(),
    ) {
        exists|mid: Seq<MessengerNode>| #[trigger]
            stepped(before, mid, i) && walked(mid, after, i + 1, passed)
    } else {
        &&& !passed
        &&& after.len() == before.len()
        &&& released(before[i as int], after[i as int])
        &&& forall|k: int| 0 <= k < before.len() && k != i ==> after[k] == before[k]
    }
}

/// Walks along `path` from node `i` on.
fn walk(path: &mut Vec<MessengerNode>, i: usize) -> (passed: bool)
    requires
        i < old(path)@.len(),
        all_wf(old(path)@),
    ensures
        final(path)@.len() == old(path)@.len(),
        all_wf(final(path)@),
        forall|k: int|
            0 <= k < old(path)@.len() ==> (#[trigger] final(path)@[k]).messenger.keys().id()
                == old(path)@[k].messenger.keys().id(),
        walked(old(path)@, final(path)@, i as nat, passed),
    decreases old(path)@.len() - i,
{
    let n = path.len();
    if i + 1 >= n {
        return true;
    }
    let ghost before = path@;
    let mut sender = path.remove(i);
    assert(sender == before[i as int]);
    let sender_id = sender.get_node_pk();
    let events = sender.messenger.release_pending_msgs();
    let ghost drained = sender;
    path.insert(i, sender);
    assert(path@ =~= before.update(i as int, drained));
    let ghost middle = path@;
    let mut receiver = path.remove(i + 1);
    assert(receiver == before[i + 1]);
    let receiver_id = receiver.get_node_pk();
    let passed = match events.get(&receiver_id) {
        Some(messages) => {
            if messages.len() == 1 {
                assert(message_views(messages@)[0] == messages@[0]@);
                assert(has_one_for(
                    before[i as int].messenger.pending(),
                    before[i + 1].messenger.keys().id(),
                ));
                receiver.messenger.handle_onion_message(&sender_id, &messages[0]);
                true
            } else {
                false
            }
        },
        None => false,
    };
    let ghost taken = receiver;
    path.insert(i + 1, receiver);
    assert(path@ =~= middle.update(i + 1, taken));
    let ghost mid = path@;
    assert(all_wf(mid)) by {
        assert forall|k: int| 0 <= k < mid.len() implies (#[trigger] mid[k]).messenger.wf() by {
            if k != i && k != i + 1 {
                assert(mid[k] == before[k]);
            }
        }
    }
    assert forall|k: int| 0 <= k < n implies (#[trigger] mid[k]).messenger.keys().id()
        == before[k].messenger.keys().id() by {
        if k != i && k != i + 1 {
            assert(mid[k] == before[k]);
        }
    }
    assert(passed == has_one_for(
        before[i as int].messenger.pending(),
        before[i + 1].messenger.keys().id(),
    ));
    if !passed {
        assert(taken == before[i + 1]);
        assert forall|k: int| 0 <= k < before.len() && k != i implies mid[k] == before[k] by {}
        return false;
    }
    assert(stepped(before, mid, i as nat));
    let rest = walk(path, i + 1);
    assert(walked(mid, path@, (i + 1) as nat, rest));
    rest
}

/// Carries a message along `path`: each node but the last releases what
/// waits in its buffers and hands the one message for its successor to it.
///
/// The result tells whether every node had exactly one message for its
/// successor. Where a node has none, or several, the walk ends there: that
/// node has released its messages, and the nodes behind it are as they
/// were.
pub fn pass_along_path(path: &mut Vec<MessengerNode>) -> (passed: bool)
    requires
        old(path)@.len() > 0,
        all_wf(old(path)@),
    ensures
        final(path)@.len() == old(path)@.len(),
        all_wf(final(path)@),
        forall|i: int|
            0 <= i < old(path)@.len() ==> (#[trigger] final(path)@[i]).messenger.keys().id()
                == old(path)@[i].messenger.keys().id(),
        old(path)@.len() == 1 ==> passed && final(path)@ == old(path)@,
        walked(old(path)@, final(path)@, 0, passed),
{
    walk(path, 0)
}

} // verus!
