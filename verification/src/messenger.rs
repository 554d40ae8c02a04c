//! The messenger: it sends, forwards and delivers onion messages, and keeps
//! the messages that wait for each connected peer.

use crate::blinded_path::{advanced_path_of, BlindedPath, BlindedPathSpec};
use crate::keys::{entropy_of, next_draw, KeysManager, PublicKey};
use crate::route::{
    create_onion_message, create_spec, lemma_plain_hops_take_103_bytes, len_option,
    path_option_view, peel_onion_message, peel_onion_spec, planned_len, planned_payload_len,
    reply_bytes_of, resolve_spec,
    Destination, DestinationSpec, OnionMessagePath, PathSpec, PeeledOnion, PeeledOnionSpec,
    SendError,
};
use vstd::prelude::*;

verus! {

/// Bytes of waiting messages, over all peers, from which nothing more is
/// queued.
pub const MAX_TOTAL_BUFFER_SIZE: usize = 134_217_728;

/// Bytes of waiting messages for one peer from which nothing more is queued
/// for that peer.
pub const MAX_PER_PEER_BUFFER_SIZE: usize = 262_144;

/// Bytes that an onion message takes on the wire besides its hop data.
pub const MESSAGE_OVERHEAD: usize = 101;

/// The layered packet inside an onion message.
#[derive(Clone, Debug, PartialEq, Eq)]
pub struct Packet {
    pub version: u8,
    pub public_key: PublicKey,
    pub hop_data: Vec<u8>,
    pub hmac: [u8; 32],
}

/// A packet as plain values.
pub ghost struct PacketSpec {
    pub version: u8,
    pub public_key: Seq<u8>,
    pub hop_data: Seq<u8>,
    pub hmac: Seq<u8>,
}

impl View for Packet {
    type V = PacketSpec;

    open spec fn view(&self) -> PacketSpec {
        PacketSpec {
            version: self.version,
            public_key: self.public_key@,
            hop_data: self.hop_data@,
            hmac: self.hmac@,
        }
    }
}

/// An onion message as it travels between two peers.
#[derive(Clone, Debug, PartialEq, Eq)]
pub struct OnionMessage {
    pub blinding_point: PublicKey,
    pub onion_routing_packet: Packet,
}

/// An onion message as plain values.
pub ghost struct OnionMessageSpec {
    pub blinding_point: Seq<u8>,
    pub packet: PacketSpec,
}

impl View for OnionMessage {
    type V = OnionMessageSpec;

    open spec fn view(&self) -> OnionMessageSpec {
        OnionMessageSpec { blinding_point: self.blinding_point@, packet: self.onion_routing_packet@ }
    }
}

/// The views of `messages`, in order.
pub open spec fn message_views(messages: Seq<OnionMessage>) -> Seq<OnionMessageSpec> {
    Seq::new(messages.len(), |i: int| messages[i]@)
}

/// Bytes that `message` takes on the wire.
pub open spec fn message_len(message: OnionMessageSpec) -> nat {
    101 + message.packet.hop_data.len()
}

/// The messages that wait for one peer, oldest first.
#[derive(Clone, Debug, PartialEq, Eq)]
pub struct PeerBuffer {
    pub peer: PublicKey,
    pub messages: Vec<OnionMessage>,
}

/// A peer's buffer as plain values.
pub ghost struct PeerBufferSpec {
    pub peer: Seq<u8>,
    pub messages: Seq<OnionMessageSpec>,
}

impl View for PeerBuffer {
    type V = PeerBufferSpec;

    open spec fn view(&self) -> PeerBufferSpec {
        PeerBufferSpec { peer: self.peer@, messages: message_views(self.messages@) }
    }
}

/// The views of `buffers`, in order.
pub open spec fn buffer_views(buffers: Seq<PeerBuffer>) -> Seq<PeerBufferSpec> {
    Seq::new(buffers.len(), |i: int| buffers[i]@)
}

/// Bytes that the messages of `queue` take on the wire.
pub open spec fn queue_bytes(queue: Seq<OnionMessageSpec>) -> nat
    decreases queue.len(),
{
    if queue.len() == 0 {
        0
    } else {
        queue_bytes(queue.drop_last()) + message_len(queue.last())
    }
}

/// Bytes that all waiting messages take on the wire.
pub open spec fn total_bytes(buffers: Seq<PeerBufferSpec>) -> nat
    decreases buffers.len(),
{
    if buffers.len() == 0 {
        0
    } else {
        total_bytes(buffers.drop_last()) + queue_bytes(buffers.last().messages)
    }
}

/// Bytes that the messages waiting for `peer` take on the wire.
pub open spec fn peer_bytes(buffers: Seq<PeerBufferSpec>, peer: Seq<u8>) -> nat
    decreases buffers.len(),
{
    if buffers.len() == 0 {
        0
    } else {
        peer_bytes(buffers.drop_last(), peer) + if buffers.last().peer == peer {
            queue_bytes(buffers.last().messages)
        } else {
            0
        }
    }
}

/// Whether nothing more may be queued for `peer`: the waiting messages take
/// the total limit or more, or those for `peer` take the limit of one peer
/// or more.
pub open spec fn buffer_full(buffers: Seq<PeerBufferSpec>, peer: Seq<u8>) -> bool {
    total_bytes(buffers) >= 134_217_728 || peer_bytes(buffers, peer) >= 262_144
}

/// Where the buffer of `peer` stands in `buffers`, if it has one.
pub open spec fn position(buffers: Seq<PeerBufferSpec>, peer: Seq<u8>) -> Option<int>
    decreases buffers.len(),
{
    if buffers.len() == 0 {
        None
    } else {
        match position(buffers.drop_last(), peer) {
            Some(k) => Some(k),
            None => if buffers.last().peer == peer {
                Some(buffers.len() - 1)
            } else {
                None
            },
        }
    }
}

/// The messages that wait for `peer`, if it is connected.
pub open spec fn queue_of(buffers: Seq<PeerBufferSpec>, peer: Seq<u8>) -> Option<
    Seq<OnionMessageSpec>,
> {
    match position(buffers, peer) {
        Some(k) => Some(buffers[k].messages),
        None => None,
    }
}

/// Whether the hop data of `message` has one of the two packet sizes.
pub open spec fn message_sized(message: OnionMessageSpec) -> bool {
    message.packet.hop_data.len() == 1300 || message.packet.hop_data.len() == 32768
}

/// Whether every waiting message has hop data of one of the two packet
/// sizes.
pub open spec fn packets_sized(buffers: Seq<PeerBufferSpec>) -> bool {
    forall|i: int, j: int|
        0 <= i < buffers.len() && 0 <= j < buffers[i].messages.len() ==> message_sized(
            #[trigger] buffers[i].messages[j],
        )
}

/// The identities of the peers of `buffers`, in order.
pub open spec fn peers_of(buffers: Seq<PeerBufferSpec>) -> Seq<Seq<u8>> {
    Seq::new(buffers.len(), |i: int| buffers[i].peer)
}

/// No peer has two buffers.
pub open spec fn peers_distinct(buffers: Seq<PeerBufferSpec>) -> bool {
    forall|i: int, j: int|
        0 <= i < j < buffers.len() ==> (#[trigger] buffers[i]).peer != (#[trigger] buffers[j]).peer
}

/// `position` finds the first buffer of the peer, and none only where the
/// peer has none.
pub proof fn lemma_position(buffers: Seq<PeerBufferSpec>, peer: Seq<u8>)
    ensures
        match position(buffers, peer) {
            Some(k) => 0 <= k < buffers.len() && buffers[k].peer == peer && forall|j: int|
                0 <= j < k ==> (#[trigger] buffers[j]).peer != peer,
            None => forall|j: int| 0 <= j < buffers.len() ==> (#[trigger] buffers[j]).peer != peer,
        },
    decreases buffers.len(),
{
    if buffers.len() > 0 {
        lemma_position(buffers.drop_last(), peer);
        let front = buffers.drop_last();
        assert forall|j: int| 0 <= j < front.len() implies front[j] == buffers[j] by {}
        match position(front, peer) {
            Some(k) => {
                assert forall|j: int| 0 <= j < k implies (#[trigger] buffers[j]).peer != peer by {
                    assert(front[j] == buffers[j]);
                }
            },
            None => {
                assert forall|j: int| 0 <= j < buffers.len() - 1 implies (#[trigger] buffers[j]).peer
                    != peer by {
                    assert(front[j] == buffers[j]);
                }
            },
        }
    }
}

/// A buffer that holds the peer's identity at `k`, with no earlier one, is
/// the one that `position` finds.
pub proof fn lemma_position_is(buffers: Seq<PeerBufferSpec>, peer: Seq<u8>, k: int)
    requires
        0 <= k < buffers.len(),
        buffers[k].peer == peer,
        forall|j: int| 0 <= j < k ==> (#[trigger] buffers[j]).peer != peer,
    ensures
        position(buffers, peer) == Some(k),
{
    lemma_position(buffers, peer);
}

/// The first `i` messages of a queue take no more than the whole queue, and
/// one message more adds its length.
pub proof fn lemma_queue_bytes_take(queue: Seq<OnionMessageSpec>, i: int)
    requires
        0 <= i <= queue.len(),
    ensures
        queue_bytes(queue.take(i)) <= queue_bytes(queue),
        i < queue.len() ==> queue_bytes(queue.take(i + 1)) == queue_bytes(queue.take(i))
            + message_len(queue[i]),
    decreases queue.len() - i,
{
    if i < queue.len() {
        assert(queue.take(i + 1).drop_last() =~= queue.take(i));
        assert(queue.take(i + 1).last() == queue[i]);
        lemma_queue_bytes_take(queue, i + 1);
    } else {
        assert(queue.take(i) =~= queue);
    }
}

/// The first `j` buffers take no more than all of them, and one buffer more
/// adds its queue.
pub proof fn lemma_total_bytes_take(buffers: Seq<PeerBufferSpec>, j: int)
    requires
        0 <= j <= buffers.len(),
    ensures
        total_bytes(buffers.take(j)) <= total_bytes(buffers),
        j < buffers.len() ==> total_bytes(buffers.take(j + 1)) == total_bytes(buffers.take(j))
            + queue_bytes(buffers[j].messages),
    decreases buffers.len() - j,
{
    if j < buffers.len() {
        assert(buffers.take(j + 1).drop_last() =~= buffers.take(j));
        assert(buffers.take(j + 1).last() == buffers[j]);
        lemma_total_bytes_take(buffers, j + 1);
    } else {
        assert(buffers.take(j) =~= buffers);
    }
}

/// The first `j` buffers hold no more for a peer than all of them, and one
/// buffer more adds its queue where it is the peer's.
pub proof fn lemma_peer_bytes_take(buffers: Seq<PeerBufferSpec>, peer: Seq<u8>, j: int)
    requires
        0 <= j <= buffers.len(),
    ensures
        peer_bytes(buffers.take(j), peer) <= peer_bytes(buffers, peer),
        j < buffers.len() ==> peer_bytes(buffers.take(j + 1), peer) == peer_bytes(
            buffers.take(j),
            peer,
        ) + if buffers[j].peer == peer {
            queue_bytes(buffers[j].messages)
        } else {
            0
        },
    decreases buffers.len() - j,
{
    if j < buffers.len() {
        assert(buffers.take(j + 1).drop_last() =~= buffers.take(j));
        assert(buffers.take(j + 1).last() == buffers[j]);
        lemma_peer_bytes_take(buffers, peer, j + 1);
    } else {
        assert(buffers.take(j) =~= buffers);
    }
}

/// Finds the buffer of `peer`.
pub fn find_peer(buffers: &Vec<PeerBuffer>, peer: &PublicKey) -> (found: Option<usize>)
    ensures
        match found {
            Some(k) => position(buffer_views(buffers@), peer@) == Some(k as int) && k
                < buffers@.len(),
            None => position(buffer_views(buffers@), peer@) is None,
        },
{
    let ghost views = buffer_views(buffers@);
    let mut k: usize = 0;
    while k < buffers.len()
        invariant
            k <= buffers@.len(),
            views == buffer_views(buffers@),
            forall|j: int| 0 <= j < k ==> (#[trigger] views[j]).peer != peer@,
        decreases buffers@.len() - k,
    {
        assert(views[k as int] == buffers@[k as int]@);
        if buffers[k].peer.same_as(peer) {
            proof {
                lemma_position_is(views, peer@, k as int);
            }
            return Some(k);
        }
        k = k + 1;
    }
    proof {
        lemma_position(views, peer@);
    }
    None
}

/// Whether nothing more may be queued for `peer`.
pub fn outbound_buffer_full(buffers: &Vec<PeerBuffer>, peer: &PublicKey) -> (full: bool)
    ensures
        full == buffer_full(buffer_views(buffers@), peer@),
{
    let ghost views = buffer_views(buffers@);
    let n = buffers.len();
    let mut total: usize = 0;
    let mut own: usize = 0;
    let mut j: usize = 0;
    assert(views.take(0) =~= Seq::<PeerBufferSpec>::empty());
    while j < n
        invariant
            j <= n,
            n == buffers@.len(),
            views == buffer_views(buffers@),
            total == total_bytes(views.take(j as int)),
            own == peer_bytes(views.take(j as int), peer@),
            total < MAX_TOTAL_BUFFER_SIZE,
            own < MAX_PER_PEER_BUFFER_SIZE,
        decreases n - j,
    {
        let buffer = &buffers[j];
        let ghost queue = views[j as int].messages;
        assert(views[j as int] == buffer@);
        let mine = buffer.peer.same_as(peer);
        let m = buffer.messages.len();
        let ghost total_before = total;
        let ghost own_before = own;
        let mut i: usize = 0;
        assert(queue.take(0) =~= Seq::<OnionMessageSpec>::empty());
        proof {
            lemma_total_bytes_take(views, j as int);
            lemma_peer_bytes_take(views, peer@, j as int);
            lemma_total_bytes_take(views, j + 1);
            lemma_peer_bytes_take(views, peer@, j + 1);
        }
        while i < m
            invariant
                i <= m,
                j < n,
                n == buffers@.len(),
                views == buffer_views(buffers@),
                m == buffer.messages@.len(),
                queue == message_views(buffer.messages@),
                mine == (views[j as int].peer == peer@),
                total == total_before + queue_bytes(queue.take(i as int)),
                own == own_before + if mine {
                    queue_bytes(queue.take(i as int))
                } else {
                    0
                },
                total < MAX_TOTAL_BUFFER_SIZE,
                own < MAX_PER_PEER_BUFFER_SIZE,
                total_before + queue_bytes(queue) <= total_bytes(views),
                mine ==> own_before + queue_bytes(queue) <= peer_bytes(views, peer@),
            decreases m - i,
        {
            let len = buffer.messages[i].onion_routing_packet.hop_data.len();
            assert(queue[i as int] == buffer.messages@[i as int]@);
            proof {
                lemma_queue_bytes_take(queue, i as int);
                lemma_queue_bytes_take(queue, i + 1);
            }
            assert(message_len(queue[i as int]) == 101 + len);
            let room = MAX_TOTAL_BUFFER_SIZE - total;
            if room <= MESSAGE_OVERHEAD || len >= room - MESSAGE_OVERHEAD {
                assert(total_before + queue_bytes(queue.take(i + 1)) >= MAX_TOTAL_BUFFER_SIZE);
                return true;
            }
            total = total + MESSAGE_OVERHEAD + len;
            if mine {
                let own_room = MAX_PER_PEER_BUFFER_SIZE - own;
                if own_room <= MESSAGE_OVERHEAD || len >= own_room - MESSAGE_OVERHEAD {
                    assert(own_before + queue_bytes(queue.take(i + 1))
                        >= MAX_PER_PEER_BUFFER_SIZE);
                    return true;
                }
                own = own + MESSAGE_OVERHEAD + len;
            }
            i = i + 1;
        }
        assert(queue.take(m as int) =~= queue);
        j = j + 1;
    }
    assert(views.take(n as int) =~= views);
    false
}

/// The buffers after `message` was queued for `peer`, or why it was not:
/// `BufferFull` where nothing more may be queued for the peer,
/// `InvalidFirstHop` where the peer is not connected.
#[verifier::opaque]
pub open spec fn enqueue_spec(
    buffers: Seq<PeerBufferSpec>,
    peer: Seq<u8>,
    message: OnionMessageSpec,
) -> Result<Seq<PeerBufferSpec>, SendError> {
    if buffer_full(buffers, peer) {
        Err(SendError::BufferFull)
    } else {
        match position(buffers, peer) {
            None => Err(SendError::InvalidFirstHop),
            Some(k) => Ok(
                buffers.update(
                    k,
                    PeerBufferSpec { peer: buffers[k].peer, messages: buffers[k].messages.push(message) },
                ),
            ),
        }
    }
}

/// The buffers after `message` was forwarded to `peer`: queued where that is
/// possible, dropped where it is not.
pub open spec fn forwarded_spec(
    buffers: Seq<PeerBufferSpec>,
    peer: Seq<u8>,
    message: OnionMessageSpec,
) -> Seq<PeerBufferSpec> {
    match enqueue_spec(buffers, peer, message) {
        Ok(after) => after,
        Err(_) => buffers,
    }
}

/// The buffers after `peer` has connected: where it supports onion
/// messages it has an empty buffer, a new one or its old one emptied.
pub open spec fn connected_spec(buffers: Seq<PeerBufferSpec>, peer: Seq<u8>, supported: bool) -> Seq<
    PeerBufferSpec,
> {
    if !supported {
        buffers
    } else {
        match position(buffers, peer) {
            Some(k) => buffers.update(k, PeerBufferSpec { peer, messages: Seq::empty() }),
            None => buffers.push(PeerBufferSpec { peer, messages: Seq::empty() }),
        }
    }
}

/// The buffers after `peer` has disconnected: its buffer is gone.
pub open spec fn disconnected_spec(buffers: Seq<PeerBufferSpec>, peer: Seq<u8>) -> Seq<
    PeerBufferSpec,
> {
    match position(buffers, peer) {
        Some(k) => buffers.remove(k),
        None => buffers,
    }
}

/// The buffers after all waiting messages were released: the same peers,
/// with nothing waiting.
pub open spec fn drained_spec(buffers: Seq<PeerBufferSpec>) -> Seq<PeerBufferSpec> {
    Seq::new(
        buffers.len(),
        |i: int| PeerBufferSpec { peer: buffers[i].peer, messages: Seq::empty() },
    )
}

/// The buffers after the node with `node_id` and `node_secret` has sent a
/// message of type `tlv_type` along `path`, or why it has not. The message is
/// made first; only then the buffer of the first hop is looked at.
pub open spec fn send_spec(
    buffers: Seq<PeerBufferSpec>,
    node_id: Seq<u8>,
    node_secret: Seq<u8>,
    path: PathSpec,
    tlv_type: u64,
    bytes: Seq<u8>,
    reply_path: Option<BlindedPathSpec>,
    session_secret: Seq<u8>,
    prng_seed: Seq<u8>,
) -> Result<Seq<PeerBufferSpec>, SendError> {
    match create_spec(
        node_id,
        node_secret,
        path,
        tlv_type,
        bytes,
        reply_path,
        session_secret,
        prng_seed,
    ) {
        Err(error) => Err(error),
        Ok(created) => enqueue_spec(buffers, created.first_hop, created.message),
    }
}

/// A message with a reserved type is never sent, whatever it holds and
/// wherever it is to go.
pub proof fn lemma_reserved_type_is_rejected(
    buffers: Seq<PeerBufferSpec>,
    node_id: Seq<u8>,
    node_secret: Seq<u8>,
    path: PathSpec,
    tlv_type: u64,
    bytes: Seq<u8>,
    reply_path: Option<BlindedPathSpec>,
    session_secret: Seq<u8>,
    prng_seed: Seq<u8>,
)
    requires
        tlv_type < 64,
    ensures
        send_spec(
            buffers,
            node_id,
            node_secret,
            path,
            tlv_type,
            bytes,
            reply_path,
            session_secret,
            prng_seed,
        ) == Err::<Seq<PeerBufferSpec>, SendError>(SendError::InvalidMessage),
{
    reveal(create_spec);
}

/// A message that may be sent is not sent to a blinded path of fewer than
/// two hops, whatever stands before the path.
pub proof fn lemma_short_blinded_path_is_rejected(
    buffers: Seq<PeerBufferSpec>,
    node_id: Seq<u8>,
    node_secret: Seq<u8>,
    path: PathSpec,
    tlv_type: u64,
    bytes: Seq<u8>,
    reply_path: Option<BlindedPathSpec>,
    session_secret: Seq<u8>,
    prng_seed: Seq<u8>,
)
    requires
        tlv_type >= 64,
        path.destination matches DestinationSpec::BlindedPath(blinded) && blinded.blinded_hops.len()
            < 2,
    ensures
        send_spec(
            buffers,
            node_id,
            node_secret,
            path,
            tlv_type,
            bytes,
            reply_path,
            session_secret,
            prng_seed,
        ) == Err::<Seq<PeerBufferSpec>, SendError>(SendError::TooFewBlindedHops),
{
    reveal(create_spec);
}

/// A route to a node over 318 intermediate nodes or more is never sent
/// along: the records of its hops exceed the big packet, whatever the
/// message holds and whatever the keys are.
pub proof fn lemma_long_route_is_too_big(
    buffers: Seq<PeerBufferSpec>,
    node_id: Seq<u8>,
    node_secret: Seq<u8>,
    path: PathSpec,
    tlv_type: u64,
    bytes: Seq<u8>,
    reply_path: Option<BlindedPathSpec>,
    session_secret: Seq<u8>,
    prng_seed: Seq<u8>,
)
    requires
        tlv_type >= 64,
        path.destination is Node,
        path.intermediate_nodes.len() >= 318,
    ensures
        send_spec(
            buffers,
            node_id,
            node_secret,
            path,
            tlv_type,
            bytes,
            reply_path,
            session_secret,
            prng_seed,
        ) == Err::<Seq<PeerBufferSpec>, SendError>(SendError::TooBigPacket),
{
    reveal(create_spec);
    match reply_bytes_of(reply_path) {
        Some(reply) => {
            let hops = resolve_spec(path);
            let before = path.intermediate_nodes.len();
            lemma_plain_hops_take_103_bytes(path, before, bytes.len(), len_option(reply));
            assert(103 * before >= 32754) by (nonlinear_arith)
                requires
                    before >= 318,
            ;
            assert(planned_len(hops, hops.len(), None, bytes.len(), len_option(reply))
                == planned_len(hops, before, None, bytes.len(), len_option(reply))
                + planned_payload_len(hops, before as int, None, bytes.len(), len_option(reply))
                + 34);
        },
        None => {},
    }
}

/// A sender that introduces a blinded path itself sends what it would send
/// along the path with its own hop taken off: for a path of three hops or
/// more, reached without intermediate nodes, whose second node is not the
/// sender again, the outcome is the same whether the sender is given the
/// whole path or the advanced one.
pub proof fn lemma_own_introduction_is_skipped(
    buffers: Seq<PeerBufferSpec>,
    node_id: Seq<u8>,
    node_secret: Seq<u8>,
    blinded: BlindedPathSpec,
    advanced: BlindedPathSpec,
    tlv_type: u64,
    bytes: Seq<u8>,
    reply_path: Option<BlindedPathSpec>,
    session_secret: Seq<u8>,
    prng_seed: Seq<u8>,
)
    requires
        blinded.introduction_node_id == node_id,
        blinded.blinded_hops.len() >= 3,
        advanced_path_of(blinded, node_secret) == Some(advanced),
        advanced.introduction_node_id != node_id,
    ensures
        send_spec(
            buffers,
            node_id,
            node_secret,
            PathSpec {
                intermediate_nodes: Seq::empty(),
                destination: DestinationSpec::BlindedPath(blinded),
            },
            tlv_type,
            bytes,
            reply_path,
            session_secret,
            prng_seed,
        ) == send_spec(
            buffers,
            node_id,
            node_secret,
            PathSpec {
                intermediate_nodes: Seq::empty(),
                destination: DestinationSpec::BlindedPath(advanced),
            },
            tlv_type,
            bytes,
            reply_path,
            session_secret,
            prng_seed,
        ),
{
    reveal(create_spec);
}

/// A queue of messages with small packets takes 1401 bytes for each.
pub proof fn lemma_small_queue_bytes(queue: Seq<OnionMessageSpec>)
    requires
        forall|i: int| 0 <= i < queue.len() ==> (#[trigger] queue[i]).packet.hop_data.len() == 1300,
    ensures
        queue_bytes(queue) == 1401 * queue.len(),
    decreases queue.len(),
{
    if queue.len() > 0 {
        let front = queue.drop_last();
        assert forall|i: int| 0 <= i < front.len() implies (#[trigger] front[i]).packet.hop_data.len()
            == 1300 by {
            assert(front[i] == queue[i]);
        }
        lemma_small_queue_bytes(front);
        assert(message_len(queue.last()) == 1401);
    }
}

/// Where no peer has two buffers, the bytes that wait for a peer are those
/// of its one buffer.
pub proof fn lemma_peer_bytes_of_one_buffer(buffers: Seq<PeerBufferSpec>, peer: Seq<u8>)
    requires
        peers_distinct(buffers),
    ensures
        peer_bytes(buffers, peer) == match queue_of(buffers, peer) {
            Some(queue) => queue_bytes(queue),
            None => 0,
        },
    decreases buffers.len(),
{
    if buffers.len() > 0 {
        let front = buffers.drop_last();
        assert forall|i: int, j: int| 0 <= i < j < front.len() implies (#[trigger] front[i]).peer != (
        #[trigger] front[j]).peer by {
            assert(front[i] == buffers[i]);
            assert(front[j] == buffers[j]);
        }
        lemma_peer_bytes_of_one_buffer(front, peer);
        lemma_position(front, peer);
        match position(front, peer) {
            Some(k) => {
                assert(front[k] == buffers[k]);
                assert(buffers[k].peer != buffers[buffers.len() - 1].peer);
            },
            None => {},
        }
    }
}

/// Backpressure: while all waiting messages stay under the total limit, a
/// connected peer for which only messages with small packets wait can be
/// sent another one if and only if fewer than 188 wait for it.
pub proof fn lemma_small_packets_fill_a_buffer_at_188(
    buffers: Seq<PeerBufferSpec>,
    peer: Seq<u8>,
    message: OnionMessageSpec,
)
    requires
        peers_distinct(buffers),
        total_bytes(buffers) < 134_217_728,
        queue_of(buffers, peer) matches Some(queue) && forall|i: int|
            0 <= i < queue.len() ==> (#[trigger] queue[i]).packet.hop_data.len() == 1300,
    ensures
        enqueue_spec(buffers, peer, message) is Ok <==> queue_of(buffers, peer)->0.len() < 188,
        enqueue_spec(buffers, peer, message) is Err ==> enqueue_spec(buffers, peer, message)
            == Err::<Seq<PeerBufferSpec>, SendError>(SendError::BufferFull),
{
    reveal(enqueue_spec);
    lemma_peer_bytes_of_one_buffer(buffers, peer);
    lemma_small_queue_bytes(queue_of(buffers, peer)->0);
}

/// A message of the application's own kind.
pub trait CustomOnionMessageContents {
    /// Whether `tlv_type` is a record type that `tlv_type` may give for this
    /// message. A type of message that says nothing of its record type
    /// leaves this as it is: every type is possible.
    open spec fn has_type(&self, tlv_type: u64) -> bool {
        true
    }

    /// Whether `bytes` are bytes that `write` may give for this message. A
    /// type of message that says nothing of its bytes leaves this as it is.
    open spec fn has_bytes(&self, bytes: Seq<u8>) -> bool {
        true
    }

    /// The record type under which the message travels. Types below 64 are
    /// reserved, and a message that has one is not sent.
    fn tlv_type(&self) -> (tlv_type: u64)
        ensures
            self.has_type(tlv_type),
    ;

    /// The message as bytes.
    fn write(&self) -> (bytes: Vec<u8>)
        ensures
            self.has_bytes(bytes@),
    ;
}

/// Why bytes were not read as a message.
#[derive(Clone, Copy, Debug, PartialEq, Eq, Structural)]
pub enum DecodeError {
    /// The bytes hold a value that the message cannot have.
    InvalidValue,
}

/// Receives the application's own messages.
///
/// A handler may say what it does: `reads` and `handles` relate what goes in
/// to what comes out. A handler that says nothing leaves them as they are,
/// and then everything is possible.
pub trait CustomOnionMessageHandler: Sized {
    /// The application's messages.
    type CustomMessage: CustomOnionMessageContents;

    /// Whether `read` is what `read_custom_message` may give for `buffer`
    /// under `message_type`.
    open spec fn reads(
        &self,
        message_type: u64,
        buffer: Seq<u8>,
        read: Result<Option<Self::CustomMessage>, DecodeError>,
    ) -> bool {
        true
    }

    /// Whether the handler may take `msg` by answering `answer` and becoming
    /// `after`.
    open spec fn handles(
        &self,
        msg: Self::CustomMessage,
        after: Self,
        answer: Option<Self::CustomMessage>,
    ) -> bool {
        true
    }

    /// Takes a message that arrived, and may answer it.
    fn handle_custom_message(&mut self, msg: Self::CustomMessage) -> (answer: Option<
        Self::CustomMessage,
    >)
        ensures
            old(self).handles(msg, *final(self), answer),
    ;

    /// Reads a message of the given type. A type that the handler does not
    /// know is no message, and no error.
    fn read_custom_message(&self, message_type: u64, buffer: &[u8]) -> (read: Result<
        Option<Self::CustomMessage>,
        DecodeError,
    >)
        ensures
            self.reads(message_type, buffer@, read),
    ;
}

/// A message of the offers protocol, carried as it is.
#[derive(Clone, Debug, PartialEq, Eq)]
pub struct OffersMessage {
    pub tlv_type: u64,
    pub bytes: Vec<u8>,
}

/// An offers message that may be absent, as plain values.
pub open spec fn offers_view(message: Option<OffersMessage>) -> Option<(u64, Seq<u8>)> {
    match message {
        Some(message) => Some((message.tlv_type, message.bytes@)),
        None => None,
    }
}

/// Receives messages of the offers protocol.
///
/// A handler may say what it does by `handles`; one that says nothing leaves
/// it as it is, and then everything is possible.
pub trait OffersMessageHandler: Sized {
    /// Whether the handler may take the message of type `tlv_type` that
    /// `bytes` hold by answering `answer` and becoming `after`.
    open spec fn handles(
        &self,
        tlv_type: u64,
        bytes: Seq<u8>,
        after: Self,
        answer: Option<(u64, Seq<u8>)>,
    ) -> bool {
        true
    }

    /// Takes a message that arrived, and may answer it.
    fn handle_message(&mut self, message: OffersMessage) -> (answer: Option<OffersMessage>)
        ensures
            old(self).handles(message.tlv_type, message.bytes@, *final(self), offers_view(answer)),
    ;
}

/// Finds routes for messages that come without one.
///
/// A router may say what it finds by `finds`; one that says nothing leaves
/// it as it is, and then everything is possible.
pub trait MessageRouter: Sized {
    /// Whether `found` is what the router may find for a message from
    /// `sender`, which is connected to `peers`, to `destination`.
    open spec fn finds(
        &self,
        sender: Seq<u8>,
        peers: Seq<Seq<u8>>,
        destination: DestinationSpec,
        found: Option<PathSpec>,
    ) -> bool {
        true
    }

    /// A route from `sender`, which is connected to `peers`, to
    /// `destination`.
    fn find_path(&self, sender: PublicKey, peers: Vec<PublicKey>, destination: Destination) -> (path:
        Result<OnionMessagePath, ()>)
        ensures
            self.finds(
                sender@,
                crate::keys::key_views(peers@),
                destination@,
                match path {
                    Ok(found) => Some(found@),
                    Err(_) => None,
                },
            ),
    ;
}

/// Whether messages of type `tlv_type` belong to the offers protocol.
pub open spec fn is_offers_type_spec(tlv_type: u64) -> bool {
    tlv_type == 64 || tlv_type == 66 || tlv_type == 68
}

/// Whether messages of type `tlv_type` belong to the offers protocol.
pub fn is_offers_type(tlv_type: u64) -> (offers: bool)
    ensures
        offers == is_offers_type_spec(tlv_type),
{
    tlv_type == 64 || tlv_type == 66 || tlv_type == 68
}

/// What an onion message carries to its recipient.
pub enum OnionMessageContents<T: CustomOnionMessageContents> {
    /// A message of the offers protocol.
    Offers(OffersMessage),
    /// A message of the application's own kind.
    Custom(T),
}

impl<T: CustomOnionMessageContents> OnionMessageContents<T> {
    /// Whether `tlv_type` is a record type that the message may travel
    /// under: its own for an offers message, one that the message allows for
    /// a message of the application.
    pub open spec fn has_type(&self, tlv_type: u64) -> bool {
        match self {
            OnionMessageContents::Offers(message) => tlv_type == message.tlv_type,
            OnionMessageContents::Custom(message) => message.has_type(tlv_type),
        }
    }

    /// Whether `bytes` may be the bytes of the message.
    pub open spec fn has_bytes(&self, bytes: Seq<u8>) -> bool {
        match self {
            OnionMessageContents::Offers(message) => bytes == message.bytes@,
            OnionMessageContents::Custom(message) => message.has_bytes(bytes),
        }
    }

    /// The record type under which the message travels.
    pub fn tlv_type(&self) -> (tlv_type: u64)
        ensures
            self.has_type(tlv_type),
    {
        match self {
            OnionMessageContents::Offers(message) => message.tlv_type,
            OnionMessageContents::Custom(message) => message.tlv_type(),
        }
    }

    /// The message as bytes.
    pub fn write(&self) -> (bytes: Vec<u8>)
        ensures
            self.has_bytes(bytes@),
    {
        match self {
            OnionMessageContents::Offers(message) => crate::bytes::copy_bytes(
                message.bytes.as_slice(),
            ),
            OnionMessageContents::Custom(message) => message.write(),
        }
    }
}

/// The message that a handler has read, if it has read one: what the handler
/// does not know, and what it cannot read, is no message.
pub fn message_read<M>(read: Result<Option<M>, DecodeError>) -> (message: Option<M>)
    ensures
        message == match read {
            Ok(Some(found)) => Some(found),
            Ok(None) => None,
            Err(_) => None,
        },
{
    match read {
        Ok(Some(found)) => Some(found),
        Ok(None) => None,
        Err(_) => None,
    }
}

/// The answer of the offers handler as the contents of a message.
pub fn offers_answer<T: CustomOnionMessageContents>(reply: Option<OffersMessage>) -> (answer: Option<
    OnionMessageContents<T>,
>)
    ensures
        answer == match reply {
            Some(message) => Some(OnionMessageContents::<T>::Offers(message)),
            None => None,
        },
{
    match reply {
        Some(message) => Some(OnionMessageContents::Offers(message)),
        None => None,
    }
}

/// The answer of the handler of the application's own messages as the
/// contents of a message.
pub fn custom_answer<T: CustomOnionMessageContents>(reply: Option<T>) -> (answer: Option<
    OnionMessageContents<T>,
>)
    ensures
        answer == match reply {
            Some(message) => Some(OnionMessageContents::<T>::Custom(message)),
            None => None,
        },
{
    match reply {
        Some(message) => Some(OnionMessageContents::Custom(message)),
        None => None,
    }
}

/// What a peer says it supports when it connects.
#[derive(Clone, Copy, Debug, PartialEq, Eq, Structural)]
pub struct InitFeatures {
    pub onion_messages: bool,
}

impl InitFeatures {
    /// No feature at all.
    pub fn empty() -> (features: InitFeatures)
        ensures
            !features.onion_messages,
    {
        InitFeatures { onion_messages: false }
    }

    /// Says that onion messages are supported.
    pub fn set_onion_messages_optional(&mut self)
        ensures
            final(self).onion_messages,
    {
        self.onion_messages = true;
    }

    /// Whether onion messages are supported.
    pub fn supports_onion_messages(&self) -> (supported: bool)
        ensures
            supported == self.onion_messages,
    {
        self.onion_messages
    }
}

/// The first message of a peer that connects.
#[derive(Clone, Copy, Debug, PartialEq, Eq, Structural)]
pub struct Init {
    pub features: InitFeatures,
}

/// The messages released for the transport, by peer.
pub struct PendingMessages {
    pub buffers: Vec<PeerBuffer>,
}

impl PendingMessages {
    /// The messages released for `peer`, oldest first, if it is connected.
    pub fn get(&self, peer: &PublicKey) -> (queue: Option<&Vec<OnionMessage>>)
        ensures
            match queue {
                Some(found) => queue_of(buffer_views(self.buffers@), peer@) == Some(
                    message_views(found@),
                ),
                None => queue_of(buffer_views(self.buffers@), peer@) is None,
            },
    {
        match find_peer(&self.buffers, peer) {
            Some(k) => {
                assert(buffer_views(self.buffers@)[k as int] == self.buffers@[k as int]@);
                Some(&self.buffers[k].messages)
            },
            None => None,
        }
    }
}

/// Sends, forwards and delivers onion messages for one node.
pub struct OnionMessenger<MR: MessageRouter, OMH: OffersMessageHandler, CMH: CustomOnionMessageHandler> {
    pub keys_manager: KeysManager,
    pending_messages: Vec<PeerBuffer>,
    pub message_router: MR,
    pub offers_handler: OMH,
    pub custom_handler: CMH,
}

impl<
    MR: MessageRouter,
    OMH: OffersMessageHandler,
    CMH: CustomOnionMessageHandler,
> OnionMessenger<MR, OMH, CMH> {
    /// The buffers of the connected peers, in the order in which the peers
    /// connected.
    pub closed spec fn pending(&self) -> Seq<PeerBufferSpec> {
        buffer_views(self.pending_messages@)
    }

    /// The keys of the node.
    pub closed spec fn keys(&self) -> KeysManager {
        self.keys_manager
    }

    /// The router of the node.
    pub closed spec fn router(&self) -> MR {
        self.message_router
    }

    /// The handler of offers messages.
    pub closed spec fn offers(&self) -> OMH {
        self.offers_handler
    }

    /// The handler of the application's own messages.
    pub closed spec fn custom(&self) -> CMH {
        self.custom_handler
    }

    /// Whether `self` has the router and the handlers of `other`, in the
    /// state in which `other` has them.
    pub open spec fn same_collaborators(&self, other: Self) -> bool {
        &&& self.router() == other.router()
        &&& self.offers() == other.offers()
        &&& self.custom() == other.custom()
    }

    /// The buffers after this node has sent a message of type `tlv_type`
    /// along `path`, with a session secret and noise drawn from its entropy,
    /// or why it has not.
    pub open spec fn send_outcome(
        &self,
        path: PathSpec,
        tlv_type: u64,
        bytes: Seq<u8>,
        reply_path: Option<BlindedPathSpec>,
    ) -> Result<Seq<PeerBufferSpec>, SendError> {
        send_spec(
            self.pending(),
            self.keys().id(),
            self.keys().secret(),
            path,
            tlv_type,
            bytes,
            reply_path,
            entropy_of(self.keys().entropy_seed(), self.keys().drawn()),
            entropy_of(self.keys().entropy_seed(), next_draw(self.keys().drawn())),
        )
    }

    /// Whether `self` is in the state of `other`: the same buffers, keys,
    /// router and handlers.
    pub open spec fn same_state(&self, other: Self) -> bool {
        &&& self.pending() == other.pending()
        &&& self.keys() == other.keys()
        &&& self.same_collaborators(other)
    }

    /// No peer has two buffers, and every waiting message has hop data of
    /// one of the two packet sizes.
    pub open spec fn wf(&self) -> bool {
        peers_distinct(self.pending()) && packets_sized(self.pending())
    }

    /// What `send_onion_message` does with `message`: under a type that the
    /// message allows, it rejects a reserved type with `InvalidMessage`
    /// before anything is drawn, and else gives the outcome of sending the
    /// bytes that the message allows under that type, for which two blocks
    /// of entropy are drawn. On failure the buffers stay as they are.
    #[verifier::opaque]
    pub open spec fn sent<T: CustomOnionMessageContents>(
        &self,
        after: Self,
        path: PathSpec,
        message: OnionMessageContents<T>,
        reply_path: Option<BlindedPathSpec>,
        result: Result<(), SendError>,
    ) -> bool {
        &&& after.same_collaborators(*self)
        &&& after.keys().secret() == self.keys().secret()
        &&& after.keys().id() == self.keys().id()
        &&& after.keys().entropy_seed() == self.keys().entropy_seed()
        &&& exists|tlv_type: u64| #[trigger]
            message.has_type(tlv_type) && if tlv_type < 64 {
                &&& result == Err::<(), SendError>(SendError::InvalidMessage)
                &&& after.pending() == self.pending()
                &&& after.keys() == self.keys()
            } else {
                exists|bytes: Seq<u8>| #[trigger]
                    message.has_bytes(bytes) && after.keys().drawn() == next_draw(
                        next_draw(self.keys().drawn()),
                    ) && match self.send_outcome(path, tlv_type, bytes, reply_path) {
                        Ok(queued) => result is Ok && after.pending() == queued,
                        Err(error) => result == Err::<(), SendError>(error) && after.pending()
                            == self.pending(),
                    }
            }
    }

    /// What `dispatch` does with a message of type `tlv_type` for this node:
    /// a message of the offers protocol is taken by the offers handler, and
    /// the other handler is left alone; any other message is read by the
    /// handler of the application's messages and, where it reads one, taken
    /// by it, while the offers handler is left alone. What is not read is
    /// no message: nothing changes and there is no answer. Buffers, keys and
    /// router stay as they are.
    pub open spec fn dispatched(
        &self,
        after: Self,
        tlv_type: u64,
        bytes: Seq<u8>,
        answer: Option<OnionMessageContents<CMH::CustomMessage>>,
    ) -> bool {
        &&& after.pending() == self.pending()
        &&& after.keys() == self.keys()
        &&& after.router() == self.router()
        &&& if is_offers_type_spec(tlv_type) {
            &&& after.custom() == self.custom()
            &&& !(answer matches Some(OnionMessageContents::Custom(_)))
            &&& self.offers().handles(
                tlv_type,
                bytes,
                after.offers(),
                match answer {
                    Some(OnionMessageContents::Offers(message)) => Some(
                        (message.tlv_type, message.bytes@),
                    ),
                    _ => None,
                },
            )
        } else {
            &&& after.offers() == self.offers()
            &&& !(answer matches Some(OnionMessageContents::Offers(_)))
            &&& exists|read: Result<Option<CMH::CustomMessage>, DecodeError>| #[trigger]
                self.custom().reads(tlv_type, bytes, read) && match read {
                    Ok(Some(message)) => self.custom().handles(
                        message,
                        after.custom(),
                        match answer {
                            Some(OnionMessageContents::Custom(reply)) => Some(reply),
                            _ => None,
                        },
                    ),
                    _ => after.custom() == self.custom() && answer is None,
                }
        }
    }

    /// What becomes of a handler's answer, where the router has found
    /// `found` and the send has ended in `result`: with an answer and a
    /// reply path, the router is asked for a route to the reply path, and
    /// along the route that it finds the answer is sent as a message without
    /// a reply path of its own. Without an answer, a reply path or a route,
    /// nothing changes.
    pub open spec fn answered(
        &self,
        after: Self,
        answer: Option<OnionMessageContents<CMH::CustomMessage>>,
        reply_path: Option<BlindedPathSpec>,
        found: Option<PathSpec>,
        result: Result<(), SendError>,
    ) -> bool {
        match answer {
            Some(message) => match reply_path {
                Some(path) => self.router().finds(
                    self.keys().id(),
                    peers_of(self.pending()),
                    DestinationSpec::BlindedPath(path),
                    found,
                ) && match found {
                    Some(route) => self.sent(after, route, message, None, result),
                    None => after.same_state(*self),
                },
                None => after.same_state(*self),
            },
            None => after.same_state(*self),
        }
    }

    /// What `deliver` does with a message for this node: the message is
    /// dispatched, and the answer, if there is one, is answered, for what
    /// the router finds and however the send ends.
    pub open spec fn delivered(
        &self,
        after: Self,
        tlv_type: u64,
        bytes: Seq<u8>,
        reply_path: Option<BlindedPathSpec>,
    ) -> bool {
        exists|
            mid: Self,
            answer: Option<OnionMessageContents<CMH::CustomMessage>>,
            found: Option<PathSpec>,
            result: Result<(), SendError>,
        |
            #![trigger self.dispatched(mid, tlv_type, bytes, answer), mid.answered(after, answer, reply_path, found, result)]
            self.dispatched(mid, tlv_type, bytes, answer) && mid.answered(
                after,
                answer,
                reply_path,
                found,
                result,
            )
    }

    /// What `handle_onion_message` does with `msg`: a message that the node
    /// cannot open changes nothing; a message to hand on is queued for the
    /// next node where that is possible, and nothing else changes; a message
    /// for this node is delivered.
    pub open spec fn handled(&self, after: Self, msg: OnionMessageSpec) -> bool {
        match peel_onion_spec(self.keys().secret(), msg) {
            None => after.same_state(*self),
            Some(PeeledOnionSpec::Forward { next_node_id, message }) => {
                &&& after.pending() == forwarded_spec(self.pending(), next_node_id, message)
                &&& after.keys() == self.keys()
                &&& after.same_collaborators(*self)
            },
            Some(PeeledOnionSpec::Receive { tlv_type, bytes, reply_path, .. }) => self.delivered(
                after,
                tlv_type,
                bytes,
                reply_path,
            ),
        }
    }

    /// A messenger for the node of `keys_manager`, with no peer connected.
    pub fn new(keys_manager: KeysManager, message_router: MR, offers_handler: OMH, custom_handler: CMH) -> (messenger:
        Self)
        ensures
            messenger.wf(),
            messenger.pending() == Seq::<PeerBufferSpec>::empty(),
            messenger.keys() == keys_manager,
            messenger.router() == message_router,
            messenger.offers() == offers_handler,
            messenger.custom() == custom_handler,
    {
        let messenger = OnionMessenger {
            keys_manager,
            pending_messages: Vec::new(),
            message_router,
            offers_handler,
            custom_handler,
        };
        assert(messenger.pending() =~= Seq::<PeerBufferSpec>::empty());
        messenger
    }

    /// The identity of the node.
    pub fn get_node_id(&self) -> (id: PublicKey)
        ensures
            id@ == self.keys().id(),
    {
        self.keys_manager.get_node_id()
    }

    /// Queues `message` for `peer`.
    fn enqueue(&mut self, peer: &PublicKey, message: OnionMessage) -> (done: Result<(), SendError>)
        requires
            old(self).wf(),
            message_sized(message@),
        ensures
            final(self).wf(),
            final(self).keys() == old(self).keys(),
            final(self).same_collaborators(*old(self)),
            match done {
                Ok(_) => enqueue_spec(old(self).pending(), peer@, message@) == Ok::<
                    Seq<PeerBufferSpec>,
                    SendError,
                >(final(self).pending()),
                Err(error) => enqueue_spec(old(self).pending(), peer@, message@) == Err::<
                    Seq<PeerBufferSpec>,
                    SendError,
                >(error) && final(self).pending() == old(self).pending(),
            },
    {
        reveal(enqueue_spec);
        if outbound_buffer_full(&self.pending_messages, peer) {
            return Err(SendError::BufferFull);
        }
        match find_peer(&self.pending_messages, peer) {
            None => Err(SendError::InvalidFirstHop),
            Some(k) => {
                let ghost before = self.pending();
                let ghost view = message@;
                assert(before[k as int] == self.pending_messages@[k as int]@);
                let mut buffer = self.pending_messages.remove(k);
                let ghost queue = message_views(buffer.messages@);
                buffer.messages.push(message);
                assert(message_views(buffer.messages@) =~= queue.push(view));
                self.pending_messages.insert(k, buffer);
                let ghost after = before.update(
                    k as int,
                    PeerBufferSpec { peer: before[k as int].peer, messages: queue.push(view) },
                );
                assert(self.pending() =~= after);
                assert forall|i: int, j: int| 0 <= i < j < after.len() implies (#[trigger] after[i]).peer
                    != (#[trigger] after[j]).peer by {
                    assert(after[i].peer == before[i].peer);
                    assert(after[j].peer == before[j].peer);
                }
                assert forall|i: int, j: int|
                    0 <= i < after.len() && 0 <= j < after[i].messages.len() implies message_sized(
                    #[trigger] after[i].messages[j],
                ) by {
                    if i == k && j == queue.len() {
                    } else {
                        assert(after[i].messages[j] == before[i].messages[j]);
                    }
                }
                Ok(())
            },
        }
    }

    /// Takes note that a peer has connected. A peer that supports onion
    /// messages gets an empty buffer; what waited for it from an earlier
    /// connection is dropped.
    pub fn peer_connected(&mut self, their_node_id: &PublicKey, init: &Init, inbound: bool) -> (done:
        Result<(), ()>)
        requires
            old(self).wf(),
        ensures
            done is Ok,
            final(self).wf(),
            final(self).keys() == old(self).keys(),
            final(self).same_collaborators(*old(self)),
            final(self).pending() == connected_spec(
                old(self).pending(),
                their_node_id@,
                init.features.onion_messages,
            ),
    {
        if init.features.supports_onion_messages() {
            let ghost before = self.pending();
            let fresh = PeerBuffer { peer: *their_node_id, messages: Vec::new() };
            assert(fresh@.messages =~= Seq::<OnionMessageSpec>::empty());
            proof {
                lemma_position(before, their_node_id@);
            }
            match find_peer(&self.pending_messages, their_node_id) {
                Some(k) => {
                    let _old = self.pending_messages.remove(k);
                    self.pending_messages.insert(k, fresh);
                    let ghost after = before.update(
                        k as int,
                        PeerBufferSpec { peer: their_node_id@, messages: Seq::empty() },
                    );
                    assert(self.pending() =~= after);
                    assert forall|i: int, j: int| 0 <= i < j < after.len() implies (
                    #[trigger] after[i]).peer != (#[trigger] after[j]).peer by {
                        assert(after[i].peer == before[i].peer);
                        assert(after[j].peer == before[j].peer);
                    }
                    assert forall|i: int, j: int|
                        0 <= i < after.len() && 0 <= j < after[i].messages.len() implies message_sized(
                        #[trigger] after[i].messages[j],
                    ) by {
                        assert(after[i].messages[j] == before[i].messages[j]);
                    }
                },
                None => {
                    self.pending_messages.push(fresh);
                    let ghost after = before.push(
                        PeerBufferSpec { peer: their_node_id@, messages: Seq::empty() },
                    );
                    assert(self.pending() =~= after);
                    assert forall|i: int, j: int| 0 <= i < j < after.len() implies (
                    #[trigger] after[i]).peer != (#[trigger] after[j]).peer by {
                        assert(after[i] == before[i]);
                        if j < before.len() {
                            assert(after[j] == before[j]);
                        }
                    }
                    assert forall|i: int, j: int|
                        0 <= i < after.len() && 0 <= j < after[i].messages.len() implies message_sized(
                        #[trigger] after[i].messages[j],
                    ) by {
                        assert(after[i].messages[j] == before[i].messages[j]);
                    }
                },
            }
        }
        Ok(())
    }

    /// Takes note that a peer has disconnected: its buffer is dropped with
    /// what waits in it.
    pub fn peer_disconnected(&mut self, their_node_id: &PublicKey)
        requires
            old(self).wf(),
        ensures
            final(self).wf(),
            final(self).keys() == old(self).keys(),
            final(self).same_collaborators(*old(self)),
            final(self).pending() == disconnected_spec(old(self).pending(), their_node_id@),
    {
        let ghost before = self.pending();
        match find_peer(&self.pending_messages, their_node_id) {
            Some(k) => {
                let _old = self.pending_messages.remove(k);
                let ghost after = before.remove(k as int);
                assert(self.pending() =~= after);
                assert forall|i: int, j: int| 0 <= i < j < after.len() implies (
                #[trigger] after[i]).peer != (#[trigger] after[j]).peer by {
                    let a = if i < k { i } else { i + 1 };
                    let b = if j < k { j } else { j + 1 };
                    assert(after[i] == before[a]);
                    assert(after[j] == before[b]);
                }
                assert forall|i: int, j: int|
                    0 <= i < after.len() && 0 <= j < after[i].messages.len() implies message_sized(
                    #[trigger] after[i].messages[j],
                ) by {
                    let a = if i < k { i } else { i + 1 };
                    assert(after[i].messages[j] == before[a].messages[j]);
                }
            },
            None => {},
        }
    }

    /// Hands all waiting messages to the transport, by peer, each peer's
    /// messages in the order in which they were queued. The peers stay
    /// connected, with nothing waiting.
    pub fn release_pending_msgs(&mut self) -> (released: PendingMessages)
        requires
            old(self).wf(),
        ensures
            final(self).wf(),
            final(self).keys() == old(self).keys(),
            final(self).same_collaborators(*old(self)),
            buffer_views(released.buffers@) == old(self).pending(),
            final(self).pending() == drained_spec(old(self).pending()),
    {
        let ghost before = self.pending();
        let n = self.pending_messages.len();
        let mut fresh: Vec<PeerBuffer> = Vec::new();
        let mut i: usize = 0;
        while i < n
            invariant
                i <= n,
                n == self.pending_messages@.len(),
                before == buffer_views(self.pending_messages@),
                fresh@.len() == i,
                forall|j: int|
                    0 <= j < i ==> (#[trigger] fresh@[j])@ == (PeerBufferSpec {
                        peer: before[j].peer,
                        messages: Seq::empty(),
                    }),
            decreases n - i,
        {
            let buffer = PeerBuffer { peer: self.pending_messages[i].peer, messages: Vec::new() };
            assert(buffer@.messages =~= Seq::<OnionMessageSpec>::empty());
            assert(before[i as int] == self.pending_messages@[i as int]@);
            fresh.push(buffer);
            i = i + 1;
        }
        assert(buffer_views(fresh@) =~= drained_spec(before));
        core::mem::swap(&mut self.pending_messages, &mut fresh);
        let ghost after = self.pending();
        assert forall|i: int, j: int| 0 <= i < j < after.len() implies (#[trigger] after[i]).peer != (
        #[trigger] after[j]).peer by {
            assert(after[i].peer == before[i].peer);
            assert(after[j].peer == before[j].peer);
        }
        PendingMessages { buffers: fresh }
    }

    /// Sends the message of type `tlv_type` that `bytes` hold along `path`,
    /// with `reply_path` for the answer where one is given.
    ///
    /// The session secret and the noise of the packet are drawn from the
    /// node's entropy, in this order. On failure nothing is queued.
    pub fn send_encoded_message(
        &mut self,
        path: OnionMessagePath,
        tlv_type: u64,
        bytes: &Vec<u8>,
        reply_path: Option<BlindedPath>,
    ) -> (sent: Result<(), SendError>)
        requires
            old(self).wf(),
        ensures
            final(self).wf(),
            final(self).keys().secret() == old(self).keys().secret(),
            final(self).keys().id() == old(self).keys().id(),
            final(self).keys().entropy_seed() == old(self).keys().entropy_seed(),
            final(self).keys().drawn() == next_draw(next_draw(old(self).keys().drawn())),
            final(self).same_collaborators(*old(self)),
            match sent {
                Ok(_) => old(self).send_outcome(
                    path@,
                    tlv_type,
                    bytes@,
                    path_option_view(reply_path),
                ) == Ok::<Seq<PeerBufferSpec>, SendError>(final(self).pending()),
                Err(error) => old(self).send_outcome(
                    path@,
                    tlv_type,
                    bytes@,
                    path_option_view(reply_path),
                ) == Err::<Seq<PeerBufferSpec>, SendError>(error) && final(self).pending() == old(self).pending(),
            },
    {
        let session_secret = self.keys_manager.get_secure_random_bytes();
        let prng_seed = self.keys_manager.get_secure_random_bytes();
        match create_onion_message(
            &self.keys_manager,
            path,
            tlv_type,
            bytes,
            reply_path,
            &session_secret,
            &prng_seed,
        ) {
            Ok((peer, message)) => self.enqueue(&peer, message),
            Err(error) => Err(error),
        }
    }

    /// Sends `message` along `path`, with `reply_path` for the answer where
    /// one is given.
    ///
    /// A message whose type is below 64 is rejected with `InvalidMessage`
    /// before it is asked for its bytes and before anything is drawn.
    /// Otherwise the outcome is that of `send_encoded_message` for the
    /// message's type and bytes. On failure nothing is queued.
    pub fn send_onion_message<T: CustomOnionMessageContents>(
        &mut self,
        path: OnionMessagePath,
        message: OnionMessageContents<T>,
        reply_path: Option<BlindedPath>,
    ) -> (sent: Result<(), SendError>)
        requires
            old(self).wf(),
        ensures
            final(self).wf(),
            final(self).keys().secret() == old(self).keys().secret(),
            final(self).keys().id() == old(self).keys().id(),
            final(self).keys().entropy_seed() == old(self).keys().entropy_seed(),
            old(self).sent(*final(self), path@, message, path_option_view(reply_path), sent),
    {
        reveal(OnionMessenger::sent);
        let ghost start = *self;
        let ghost route = path@;
        let ghost reply = path_option_view(reply_path);
        let tlv_type = message.tlv_type();
        assert(message.has_type(tlv_type));
        if tlv_type < 64 {
            return Err(SendError::InvalidMessage);
        }
        let bytes = message.write();
        assert(message.has_bytes(bytes@));
        let sent = self.send_encoded_message(path, tlv_type, &bytes, reply_path);
        assert(start.sent(*self, route, message, reply, sent));
        sent
    }

    /// The identities of the connected peers.
    pub fn connected_peers(&self) -> (peers: Vec<PublicKey>)
        ensures
            crate::keys::key_views(peers@) == peers_of(self.pending()),
    {
        let mut peers: Vec<PublicKey> = Vec::new();
        let mut i: usize = 0;
        while i < self.pending_messages.len()
            invariant
                i <= self.pending_messages@.len(),
                peers@.len() == i,
                forall|j: int|
                    0 <= j < i ==> (#[trigger] peers@[j])@ == buffer_views(
                        self.pending_messages@,
                    )[j].peer,
            decreases self.pending_messages@.len() - i,
        {
            peers.push(self.pending_messages[i].peer);
            i = i + 1;
        }
        assert(crate::keys::key_views(peers@) =~= peers_of(self.pending()));
        peers
    }

    /// Hands a message that arrived for this node to the handler of its
    /// type, and gives back the handler's answer where there is one.
    ///
    /// A message of the offers protocol goes to the offers handler and to no
    /// other; any other message is read by the handler of the application's
    /// own messages and, where that handler knows it, taken by it. What the
    /// handler cannot read is no message.
    fn dispatch(&mut self, tlv_type: u64, bytes: Vec<u8>) -> (answer: Option<
        OnionMessageContents<CMH::CustomMessage>,
    >)
        ensures
            old(self).dispatched(*final(self), tlv_type, bytes@, answer),
    {
        if is_offers_type(tlv_type) {
            offers_answer(self.offers_handler.handle_message(OffersMessage { tlv_type, bytes }))
        } else {
            let read = self.custom_handler.read_custom_message(tlv_type, bytes.as_slice());
            let ghost seen = read;
            assert(old(self).custom().reads(tlv_type, bytes@, seen));
            match message_read(read) {
                Some(message) => custom_answer(self.custom_handler.handle_custom_message(message)),
                None => None,
            }
        }
    }

    /// Takes an onion message that a peer has sent.
    ///
    /// The node takes its layer off. A message that it cannot open is
    /// dropped, and so is one that is to be handed on to a peer that is not
    /// connected or whose buffer is full; a message handed on is queued for
    /// the next node. A message for this node goes to the handler of its
    /// type; where the handler answers and the message came with a reply
    /// path, the answer is sent along a route that the router finds to that
    /// path, and dropped where that fails.
    pub fn handle_onion_message(&mut self, peer_node_id: &PublicKey, msg: &OnionMessage)
        requires
            old(self).wf(),
        ensures
            final(self).wf(),
            final(self).keys().secret() == old(self).keys().secret(),
            final(self).keys().id() == old(self).keys().id(),
            final(self).keys().entropy_seed() == old(self).keys().entropy_seed(),
            old(self).handled(*final(self), msg@),
    {
        let peeled = match peel_onion_message(&self.keys_manager, msg) {
            Some(peeled) => peeled,
            None => {
                return ;
            },
        };
        match peeled {
            PeeledOnion::Forward { next_node_id, message } => {
                let _dropped = self.enqueue(&next_node_id, message);
            },
            PeeledOnion::Receive { tlv_type, bytes, reply_path, path_id } => {
                self.deliver(tlv_type, bytes, reply_path);
            },
        }
    }

    /// Hands a message for this node to its handler and sends the handler's
    /// answer, if there is one, towards `reply_path`, if there is one.
    ///
    /// The answer goes along the route that the router finds to the reply
    /// path, as a message without a reply path of its own; an answer that
    /// has no route, or that cannot be sent, is dropped.
    fn deliver(&mut self, tlv_type: u64, bytes: Vec<u8>, reply_path: Option<BlindedPath>)
        requires
            old(self).wf(),
        ensures
            final(self).wf(),
            final(self).keys().secret() == old(self).keys().secret(),
            final(self).keys().id() == old(self).keys().id(),
            final(self).keys().entropy_seed() == old(self).keys().entropy_seed(),
            old(self).delivered(*final(self), tlv_type, bytes@, path_option_view(reply_path)),
    {
        let ghost given = bytes@;
        let ghost towards = path_option_view(reply_path);
        let answer = self.dispatch(tlv_type, bytes);
        let ghost mid = *self;
        let ghost told = answer;
        assert(old(self).dispatched(mid, tlv_type, given, told));
        self.respond(answer, reply_path);
        proof {
            let (found, result) = choose|found: Option<PathSpec>, result: Result<(), SendError>| #[trigger]
                mid.answered(*self, told, towards, found, result);
            assert(mid.answered(*self, told, towards, found, result));
        }
    }

    /// Sends a handler's answer, if there is one, towards `reply_path`, if
    /// there is one, along the route that the router finds.
    fn respond(
        &mut self,
        answer: Option<OnionMessageContents<CMH::CustomMessage>>,
        reply_path: Option<BlindedPath>,
    )
        requires
            old(self).wf(),
        ensures
            final(self).wf(),
            final(self).keys().secret() == old(self).keys().secret(),
            final(self).keys().id() == old(self).keys().id(),
            final(self).keys().entropy_seed() == old(self).keys().entropy_seed(),
            exists|found: Option<PathSpec>, result: Result<(), SendError>| #[trigger]
                old(self).answered(
                    *final(self),
                    answer,
                    path_option_view(reply_path),
                    found,
                    result,
                ),
    {
        let ghost told = answer;
        let ghost towards = path_option_view(reply_path);
        let ghost idle = Ok::<(), SendError>(());
        let message = match answer {
            Some(message) => message,
            None => {
                assert(old(self).answered(*self, told, towards, None, idle));
                return ;
            },
        };
        let reply_path = match reply_path {
            Some(path) => path,
            None => {
                assert(old(self).answered(*self, told, towards, None, idle));
                return ;
            },
        };
        let sender = self.keys_manager.get_node_id();
        let peers = self.connected_peers();
        let destination = Destination::BlindedPath(reply_path);
        let found = self.message_router.find_path(sender, peers, destination);
        let ghost route = if found is Ok {
            Some(found->Ok_0@)
        } else {
            None
        };
        let path = match found {
            Ok(path) => path,
            Err(_) => {
                assert(old(self).answered(*self, told, towards, route, idle));
                return ;
            },
        };
        let sent = self.send_onion_message(path, message, None);
        assert(old(self).answered(*self, told, towards, route, sent));
    }
}

} // verus!
