//! From a path and a message to an onion message, and back: which hops a
//! path resolves to, what each hop is told, how the sender builds the
//! message and what a node finds when it takes its layer off.

use crate::blinded_path::{
    advance_path_by_one, advanced_path_of, chain_after, chain_after_of, chain_start,
    chain_start_of, hop_keys, hop_keys_of, hop_views, parse_path, path_bytes, path_wf,
    BlindedPath, BlindedPathSpec, HopKeys, HopKeysSpec, KeyChain, KeyChainSpec,
};
use crate::bytes::copy_bytes;
use crate::keys::{
    key_views, next_hop_pubkey, next_hop_pubkey_of, node_blinding_factor, node_blinding_factor_of,
    node_ecdh_of, KeysManager, PublicKey,
};
use crate::messenger::{OnionMessage, OnionMessageSpec, Packet, PacketSpec};
use crate::packet::{
    construct_onion_message_packet, hop_data_len_for, layer, noise_of, payloads_of, peel_layer,
    peel_spec, secrets_of, HopRecord,
};
use crate::payload::{
    control_bytes, decode_control, decode_control_spec, decode_raw_payload, encode_control,
    encode_raw_payload, open, open_spec, parse_raw_payload, raw_payload_bytes, raw_payload_wf,
    seal, seal_spec, ControlSpec, ControlTlvs, RawPayload, RawPayloadSpec,
};
use vstd::prelude::*;

verus! {

/// Where a message is to go.
#[derive(Clone, Debug, PartialEq, Eq)]
pub enum Destination {
    /// A node known by its identity.
    Node(PublicKey),
    /// A recipient that hides behind a blinded path.
    BlindedPath(BlindedPath),
}

/// A destination as plain values.
pub ghost enum DestinationSpec {
    Node(Seq<u8>),
    BlindedPath(BlindedPathSpec),
}

impl View for Destination {
    type V = DestinationSpec;

    open spec fn view(&self) -> DestinationSpec {
        match self {
            Destination::Node(key) => DestinationSpec::Node(key@),
            Destination::BlindedPath(path) => DestinationSpec::BlindedPath(path@),
        }
    }
}

/// Hops that `destination` adds to a route: one for a node, its blinded hops
/// for a blinded path.
pub open spec fn destination_hops(destination: DestinationSpec) -> nat {
    match destination {
        DestinationSpec::Node(_) => 1,
        DestinationSpec::BlindedPath(path) => path.blinded_hops.len(),
    }
}

impl Destination {
    /// Hops that this destination adds to a route.
    pub fn num_hops(&self) -> (hops: usize)
        ensures
            hops == destination_hops(self@),
    {
        match self {
            Destination::Node(_) => 1,
            Destination::BlindedPath(path) => path.blinded_hops.len(),
        }
    }
}

/// The route that a sender intends: nodes to pass, in order, and the
/// destination behind them.
#[derive(Clone, Debug, PartialEq, Eq)]
pub struct OnionMessagePath {
    pub intermediate_nodes: Vec<PublicKey>,
    pub destination: Destination,
}

/// A route as plain values.
pub ghost struct PathSpec {
    pub intermediate_nodes: Seq<Seq<u8>>,
    pub destination: DestinationSpec,
}

impl View for OnionMessagePath {
    type V = PathSpec;

    open spec fn view(&self) -> PathSpec {
        PathSpec {
            intermediate_nodes: key_views(self.intermediate_nodes@),
            destination: self.destination@,
        }
    }
}

/// Why a message was not sent.
#[derive(Clone, Copy, Debug, PartialEq, Eq, Structural)]
pub enum SendError {
    /// A key on the route, or one derived for it, is not a valid key.
    Secp256k1,
    /// The hops' records do not fit the big packet.
    TooBigPacket,
    /// The blinded path given as destination has fewer than two hops.
    TooFewBlindedHops,
    /// The first node of the route is not a connected peer.
    InvalidFirstHop,
    /// The message has a reserved type.
    InvalidMessage,
    /// The buffer of the first node of the route is full.
    BufferFull,
    /// The sender introduces the blinded path but cannot take its first hop
    /// off.
    BlindedPathAdvanceFailed,
}

/// One hop of a resolved route.
pub struct PlannedHop {
    /// The identity by which the hop before reaches this hop.
    pub node_id: PublicKey,
    /// The key to which this hop's layer is encrypted.
    pub key: PublicKey,
    /// For a blinded hop, the instructions that came sealed with the path.
    pub encrypted_payload: Option<Vec<u8>>,
}

/// A planned hop as plain values.
pub ghost struct PlannedHopSpec {
    pub node_id: Seq<u8>,
    pub key: Seq<u8>,
    pub encrypted_payload: Option<Seq<u8>>,
}

impl View for PlannedHop {
    type V = PlannedHopSpec;

    open spec fn view(&self) -> PlannedHopSpec {
        PlannedHopSpec {
            node_id: self.node_id@,
            key: self.key@,
            encrypted_payload: match self.encrypted_payload {
                Some(sealed) => Some(sealed@),
                None => None,
            },
        }
    }
}

/// The views of `hops`, in order.
pub open spec fn planned_views(hops: Seq<PlannedHop>) -> Seq<PlannedHopSpec> {
    Seq::new(hops.len(), |i: int| hops[i]@)
}

/// The hop that a node known by `key` makes on a route.
pub open spec fn plain_hop(key: Seq<u8>) -> PlannedHopSpec {
    PlannedHopSpec { node_id: key, key, encrypted_payload: None }
}

/// The hop that blinded hop `k` of `path` makes on a route. The first is
/// reached by the identity of the introduction node, the others are known by
/// their blinded identities alone.
pub open spec fn blinded_hop(path: BlindedPathSpec, k: int) -> PlannedHopSpec {
    PlannedHopSpec {
        node_id: if k == 0 {
            path.introduction_node_id
        } else {
            path.blinded_hops[k].blinded_node_id
        },
        key: path.blinded_hops[k].blinded_node_id,
        encrypted_payload: Some(path.blinded_hops[k].encrypted_payload),
    }
}

/// The hops that `path` resolves to: the intermediate nodes, then the
/// destination node or, for a blinded path, the introduction node with the
/// first blinded hop and the blinded hops behind it.
pub open spec fn resolve_spec(path: PathSpec) -> Seq<PlannedHopSpec> {
    Seq::new(
        path.intermediate_nodes.len() + destination_hops(path.destination),
        |i: int|
            if i < path.intermediate_nodes.len() {
                plain_hop(path.intermediate_nodes[i])
            } else {
                match path.destination {
                    DestinationSpec::Node(key) => plain_hop(key),
                    DestinationSpec::BlindedPath(blinded) => blinded_hop(
                        blinded,
                        i - path.intermediate_nodes.len(),
                    ),
                }
            },
    )
}

/// The peer that a message on `path` is handed to first.
pub open spec fn first_hop_of(path: PathSpec) -> Seq<u8> {
    if path.intermediate_nodes.len() > 0 {
        path.intermediate_nodes[0]
    } else {
        match path.destination {
            DestinationSpec::Node(key) => key,
            DestinationSpec::BlindedPath(blinded) => blinded.introduction_node_id,
        }
    }
}

/// Resolves `path` to its hops.
pub fn resolve_path(path: &OnionMessagePath) -> (hops: Vec<PlannedHop>)
    ensures
        planned_views(hops@) == resolve_spec(path@),
{
    let ghost want = resolve_spec(path@);
    let mut hops: Vec<PlannedHop> = Vec::new();
    let n = path.intermediate_nodes.len();
    let mut i: usize = 0;
    while i < n
        invariant
            i <= n,
            n == path.intermediate_nodes@.len(),
            want == resolve_spec(path@),
            hops@.len() == i,
            forall|j: int| 0 <= j < i ==> (#[trigger] hops@[j])@ == want[j],
        decreases n - i,
    {
        let key = path.intermediate_nodes[i];
        assert(key_views(path.intermediate_nodes@)[i as int] == key@);
        hops.push(PlannedHop { node_id: key, key, encrypted_payload: None });
        i = i + 1;
    }
    match &path.destination {
        Destination::Node(key) => {
            hops.push(PlannedHop { node_id: *key, key: *key, encrypted_payload: None });
        },
        Destination::BlindedPath(blinded) => {
            let m = blinded.blinded_hops.len();
            let mut k: usize = 0;
            while k < m
                invariant
                    k <= m,
                    m == blinded.blinded_hops@.len(),
                    n == path.intermediate_nodes@.len(),
                    path.destination == Destination::BlindedPath(*blinded),
                    want == resolve_spec(path@),
                    hops@.len() == n + k,
                    forall|j: int| 0 <= j < n + k ==> (#[trigger] hops@[j])@ == want[j],
                decreases m - k,
            {
                let hop = &blinded.blinded_hops[k];
                assert(hop_views(blinded.blinded_hops@)[k as int] == hop@);
                let node_id = if k == 0 {
                    blinded.introduction_node_id
                } else {
                    hop.blinded_node_id
                };
                let sealed = copy_bytes(hop.encrypted_payload.as_slice());
                hops.push(
                    PlannedHop { node_id, key: hop.blinded_node_id, encrypted_payload: Some(sealed) },
                );
                k = k + 1;
            }
        },
    }
    assert(planned_views(hops@) =~= want);
    hops
}

/// The peer that a message on `path` is handed to first.
pub fn first_hop(path: &OnionMessagePath) -> (peer: PublicKey)
    ensures
        peer@ == first_hop_of(path@),
{
    if path.intermediate_nodes.len() > 0 {
        assert(key_views(path.intermediate_nodes@)[0] == path.intermediate_nodes@[0]@);
        path.intermediate_nodes[0]
    } else {
        match &path.destination {
            Destination::Node(key) => *key,
            Destination::BlindedPath(blinded) => blinded.introduction_node_id,
        }
    }
}

/// What the last hop is to receive.
pub ghost struct MessageSpec {
    pub tlv_type: u64,
    pub bytes: Seq<u8>,
    pub reply_path: Option<Seq<u8>>,
}

/// The instructions that the sender writes for hop `i`: receive at the last
/// hop; else hand on to the next hop, with the blinding point of the blinded
/// path where the next hop is its first.
pub open spec fn control_for(
    hops: Seq<PlannedHopSpec>,
    i: int,
    intro_blinding: Option<Seq<u8>>,
) -> ControlSpec {
    if i + 1 < hops.len() {
        ControlSpec::Forward {
            next_node_id: hops[i + 1].node_id,
            next_blinding_override: if hops[i + 1].encrypted_payload is Some {
                intro_blinding
            } else {
                None
            },
        }
    } else {
        ControlSpec::Receive { path_id: None }
    }
}

/// The records of the payload of hop `i`: its instructions, sealed by the
/// sender or as they came with the blinded path, and at the last hop the
/// message with its reply path.
pub open spec fn hop_raw_payload(
    hops: Seq<PlannedHopSpec>,
    i: int,
    keys: HopKeysSpec,
    intro_blinding: Option<Seq<u8>>,
    message: MessageSpec,
) -> RawPayloadSpec {
    let sealed = match hops[i].encrypted_payload {
        Some(sealed) => sealed,
        None => seal_spec(control_bytes(control_for(hops, i, intro_blinding)), keys.control_secret),
    };
    if i + 1 == hops.len() {
        RawPayloadSpec {
            reply_path: message.reply_path,
            sealed,
            message: Some((message.tlv_type, message.bytes)),
        }
    } else {
        RawPayloadSpec { reply_path: None, sealed, message: None }
    }
}

/// Bytes of the instructions that the sender seals for hop `i`, before they
/// are sealed: nothing for the last hop, else a next node and, where the next
/// hop is the first of a blinded path, a blinding point.
pub open spec fn planned_control_len(
    hops: Seq<PlannedHopSpec>,
    i: int,
    intro_blinding: Option<Seq<u8>>,
) -> nat {
    if i + 1 < hops.len() {
        if hops[i + 1].encrypted_payload is Some && intro_blinding is Some {
            86
        } else {
            43
        }
    } else {
        0
    }
}

/// Bytes of the payload of hop `i`, known before any key is derived: the
/// record of the sealed instructions and, at the last hop, the records of
/// the message and of the reply path.
pub open spec fn planned_payload_len(
    hops: Seq<PlannedHopSpec>,
    i: int,
    intro_blinding: Option<Seq<u8>>,
    message_len: nat,
    reply_len: Option<nat>,
) -> nat {
    let sealed = match hops[i].encrypted_payload {
        Some(sealed) => sealed.len(),
        None => planned_control_len(hops, i, intro_blinding) + 16,
    };
    let last = if i + 1 == hops.len() {
        10 + message_len + match reply_len {
            Some(len) => 10 + len,
            None => 0,
        }
    } else {
        0
    };
    10 + sealed + last
}

/// Bytes that the records of the first `n` hops will take in the packet.
pub open spec fn planned_len(
    hops: Seq<PlannedHopSpec>,
    n: nat,
    intro_blinding: Option<Seq<u8>>,
    message_len: nat,
    reply_len: Option<nat>,
) -> nat
    decreases n,
{
    if n == 0 {
        0
    } else {
        planned_len(hops, (n - 1) as nat, intro_blinding, message_len, reply_len)
            + planned_payload_len(hops, n - 1, intro_blinding, message_len, reply_len) + 34
    }
}

/// The length of bytes that may be absent.
pub open spec fn len_option(bytes: Option<Seq<u8>>) -> Option<nat> {
    match bytes {
        Some(bytes) => Some(bytes.len()),
        None => None,
    }
}

/// The records of more hops take no less room.
pub proof fn lemma_planned_len_monotonic(
    hops: Seq<PlannedHopSpec>,
    n: nat,
    m: nat,
    intro_blinding: Option<Seq<u8>>,
    message_len: nat,
    reply_len: Option<nat>,
)
    requires
        n <= m,
    ensures
        planned_len(hops, n, intro_blinding, message_len, reply_len) <= planned_len(
            hops,
            m,
            intro_blinding,
            message_len,
            reply_len,
        ),
    decreases m,
{
    if n < m {
        lemma_planned_len_monotonic(
            hops,
            n,
            (m - 1) as nat,
            intro_blinding,
            message_len,
            reply_len,
        );
    }
}

/// On a route to a node, every hop before the last takes 103 bytes of the
/// packet.
pub proof fn lemma_plain_hops_take_103_bytes(
    path: PathSpec,
    n: nat,
    message_len: nat,
    reply_len: Option<nat>,
)
    requires
        path.destination is Node,
        n <= path.intermediate_nodes.len(),
    ensures
        planned_len(resolve_spec(path), n, None, message_len, reply_len) == 103 * n,
    decreases n,
{
    if n > 0 {
        lemma_plain_hops_take_103_bytes(path, (n - 1) as nat, message_len, reply_len);
        let hops = resolve_spec(path);
        assert(hops[n - 1].encrypted_payload is None);
        assert(hops[n as int].encrypted_payload is None);
    }
}

/// The room that the records will take depends on whether there is a
/// blinding point, not on which.
pub proof fn lemma_planned_len_ignores_the_point(
    hops: Seq<PlannedHopSpec>,
    n: nat,
    intro_blinding: Option<Seq<u8>>,
    message_len: nat,
    reply_len: Option<nat>,
)
    ensures
        planned_len(hops, n, intro_blinding, message_len, reply_len) == planned_len(
            hops,
            n,
            if intro_blinding is Some {
                Some(Seq::<u8>::empty())
            } else {
                None
            },
            message_len,
            reply_len,
        ),
    decreases n,
{
    if n > 0 {
        lemma_planned_len_ignores_the_point(
            hops,
            (n - 1) as nat,
            intro_blinding,
            message_len,
            reply_len,
        );
    }
}

/// Whether the records of `hops` will fit the big packet.
pub fn planned_records_fit(
    hops: &Vec<PlannedHop>,
    intro_blinding: bool,
    message_len: usize,
    reply_len: Option<usize>,
) -> (fit: bool)
    ensures
        fit == (planned_len(
            planned_views(hops@),
            hops@.len(),
            if intro_blinding {
                Some(Seq::<u8>::empty())
            } else {
                None
            },
            message_len as nat,
            match reply_len {
                Some(len) => Some(len as nat),
                None => None,
            },
        ) <= 32768),
{
    let ghost views = planned_views(hops@);
    let ghost intro = if intro_blinding {
        Some(Seq::<u8>::empty())
    } else {
        None
    };
    let ghost reply = match reply_len {
        Some(len) => Some(len as nat),
        None => None,
    };
    let n = hops.len();
    let mut total: usize = 0;
    let mut i: usize = 0;
    while i < n
        invariant
            i <= n,
            n == hops@.len(),
            views == planned_views(hops@),
            intro == if intro_blinding {
                Some(Seq::<u8>::empty())
            } else {
                None::<Seq<u8>>
            },
            reply == match reply_len {
                Some(len) => Some(len as nat),
                None => None::<nat>,
            },
            total == planned_len(views, i as nat, intro, message_len as nat, reply),
            total <= 32768,
        decreases n - i,
    {
        assert(views[i as int] == hops@[i as int]@);
        let sealed: usize = match &hops[i].encrypted_payload {
            Some(sealed) => sealed.len(),
            None => {
                if i + 1 < n {
                    assert(views[i + 1] == hops@[i + 1]@);
                    if hops[i + 1].encrypted_payload.is_some() && intro_blinding {
                        102
                    } else {
                        59
                    }
                } else {
                    16
                }
            },
        };
        let mut parts: usize = 44;
        let mut fits = sealed <= 32768;
        if i + 1 == n {
            if message_len > 32768 {
                fits = false;
            } else {
                parts = parts + 10 + message_len;
            }
            match reply_len {
                Some(len) => {
                    if len > 32768 {
                        fits = false;
                    } else {
                        parts = parts + 10 + len;
                    }
                },
                None => {},
            }
        }
        proof {
            lemma_planned_len_monotonic(views, (i + 1) as nat, n as nat, intro, message_len as nat, reply);
        }
        if !fits || parts + sealed > 32768 || total > 32768 - (parts + sealed) {
            return false;
        }
        total = total + parts + sealed;
        i = i + 1;
    }
    true
}

/// A hop's payload and the secret under which its layer is encrypted.
pub ghost struct RecordSpec {
    pub payload: Seq<u8>,
    pub secret: Seq<u8>,
}

/// The views of `records`, in order.
pub open spec fn record_views(records: Seq<HopRecord>) -> Seq<RecordSpec> {
    Seq::new(
        records.len(),
        |i: int| RecordSpec { payload: records[i].payload@, secret: records[i].shared_secret@ },
    )
}

/// The payloads of `records`, in order.
pub open spec fn record_payloads(records: Seq<RecordSpec>) -> Seq<Seq<u8>> {
    Seq::new(records.len(), |i: int| records[i].payload)
}

/// The secrets of `records`, in order.
pub open spec fn record_secrets(records: Seq<RecordSpec>) -> Seq<Seq<u8>> {
    Seq::new(records.len(), |i: int| records[i].secret)
}

/// The records of `hops` from hop `i` on, where the sender's chain stands at
/// `chain` before hop `i`. A key that is not valid fails with `Secp256k1`, a
/// payload that cannot be written with `TooBigPacket`.
pub open spec fn records_from(
    hops: Seq<PlannedHopSpec>,
    i: nat,
    chain: KeyChainSpec,
    intro_blinding: Option<Seq<u8>>,
    message: MessageSpec,
) -> Result<Seq<RecordSpec>, SendError>
    decreases hops.len() - i,
{
    if i >= hops.len() {
        Ok(Seq::empty())
    } else {
        match hop_keys_of(chain, hops[i as int].key, hops[i as int].encrypted_payload is Some) {
            None => Err(SendError::Secp256k1),
            Some(keys) => {
                let raw = hop_raw_payload(hops, i as int, keys, intro_blinding, message);
                if !raw_payload_wf(raw) {
                    Err(SendError::TooBigPacket)
                } else {
                    let record = RecordSpec {
                        payload: raw_payload_bytes(raw),
                        secret: keys.onion_secret,
                    };
                    if i + 1 == hops.len() {
                        Ok(seq![record])
                    } else {
                        match chain_after_of(chain, keys) {
                            None => Err(SendError::Secp256k1),
                            Some(next) => match records_from(
                                hops,
                                i + 1,
                                next,
                                intro_blinding,
                                message,
                            ) {
                                Ok(rest) => Ok(seq![record] + rest),
                                Err(error) => Err(error),
                            },
                        }
                    }
                }
            },
        }
    }
}

/// Whether the hops are reached by identities that are keys, and a
/// blinding point, where there is one, is a key.
pub open spec fn plan_wf(hops: Seq<PlannedHopSpec>, intro_blinding: Option<Seq<u8>>) -> bool {
    &&& forall|i: int| 0 <= i < hops.len() ==> (#[trigger] hops[i]).node_id.len() == 33
    &&& intro_blinding matches Some(point) ==> point.len() == 33
}

/// The payload that the sender writes for hop `i` takes the room that was
/// planned for it, whatever the keys are.
pub proof fn lemma_payload_takes_the_planned_room(
    hops: Seq<PlannedHopSpec>,
    i: int,
    keys: HopKeysSpec,
    intro_blinding: Option<Seq<u8>>,
    message: MessageSpec,
)
    requires
        0 <= i < hops.len(),
        plan_wf(hops, intro_blinding),
    ensures
        raw_payload_bytes(hop_raw_payload(hops, i, keys, intro_blinding, message)).len()
            == planned_payload_len(
            hops,
            i,
            intro_blinding,
            message.bytes.len(),
            len_option(message.reply_path),
        ),
{
    let raw = hop_raw_payload(hops, i, keys, intro_blinding, message);
    let control = control_for(hops, i, intro_blinding);
    crate::payload::lemma_raw_payload_bytes_len(raw);
    if i + 1 < hops.len() {
        assert(hops[i + 1].node_id.len() == 33);
    }
    crate::payload::lemma_control_bytes_len(control);
    crate::payload::lemma_open_sealed(control_bytes(control), keys.control_secret);
}

/// The records that the sender builds take the room that was planned for
/// them, so that the size of the packet is known before a key is derived.
pub proof fn lemma_records_take_the_planned_room(
    hops: Seq<PlannedHopSpec>,
    i: nat,
    chain: KeyChainSpec,
    intro_blinding: Option<Seq<u8>>,
    message: MessageSpec,
)
    requires
        i <= hops.len(),
        plan_wf(hops, intro_blinding),
    ensures
        records_from(hops, i, chain, intro_blinding, message) matches Ok(records) ==> {
            &&& records.len() == hops.len() - i
            &&& crate::packet::records_len(record_payloads(records), records.len()) + planned_len(
                hops,
                i,
                intro_blinding,
                message.bytes.len(),
                len_option(message.reply_path),
            ) == planned_len(
                hops,
                hops.len(),
                intro_blinding,
                message.bytes.len(),
                len_option(message.reply_path),
            )
        },
    decreases hops.len() - i,
{
    if i < hops.len() {
        match hop_keys_of(chain, hops[i as int].key, hops[i as int].encrypted_payload is Some) {
            None => {},
            Some(keys) => {
                let raw = hop_raw_payload(hops, i as int, keys, intro_blinding, message);
                lemma_payload_takes_the_planned_room(hops, i as int, keys, intro_blinding, message);
                let payload = raw_payload_bytes(raw);
                if raw_payload_wf(raw) {
                    let record = RecordSpec { payload, secret: keys.onion_secret };
                    if i + 1 == hops.len() {
                        let records = seq![record];
                        assert(record_payloads(records) =~= seq![payload] + Seq::<Seq<u8>>::empty());
                        crate::packet::lemma_records_len_prepend(payload, Seq::empty(), 0);
                    } else {
                        match chain_after_of(chain, keys) {
                            None => {},
                            Some(next) => {
                                lemma_records_take_the_planned_room(
                                    hops,
                                    i + 1,
                                    next,
                                    intro_blinding,
                                    message,
                                );
                                match records_from(hops, i + 1, next, intro_blinding, message) {
                                    Ok(rest) => {
                                        let records = seq![record] + rest;
                                        assert(record_payloads(records) =~= seq![payload]
                                            + record_payloads(rest));
                                        crate::packet::lemma_records_len_prepend(
                                            payload,
                                            record_payloads(rest),
                                            rest.len(),
                                        );
                                    },
                                    Err(_) => {},
                                }
                            },
                        }
                    }
                }
            },
        }
    }
}

/// The size of the packet depends on the room planned for the records
/// alone: the hop data is 1300 bytes long where the plan takes no more, and
/// 32768 bytes long where it takes more than that and fits.
pub proof fn lemma_planned_room_decides_the_size(
    hops: Seq<PlannedHopSpec>,
    chain: KeyChainSpec,
    intro_blinding: Option<Seq<u8>>,
    message: MessageSpec,
)
    requires
        plan_wf(hops, intro_blinding),
        records_from(hops, 0, chain, intro_blinding, message) is Ok,
    ensures
        ({
            let records = records_from(hops, 0, chain, intro_blinding, message)->Ok_0;
            let planned = planned_len(
                hops,
                hops.len(),
                intro_blinding,
                message.bytes.len(),
                len_option(message.reply_path),
            );
            hop_data_len_for(record_payloads(records)) == if planned <= 1300 {
                Some(1300nat)
            } else if planned <= 32768 {
                Some(32768nat)
            } else {
                None
            }
        }),
{
    lemma_records_take_the_planned_room(hops, 0, chain, intro_blinding, message);
}

/// The view of a key that may be absent.
pub open spec fn key_option_view(key: Option<PublicKey>) -> Option<Seq<u8>> {
    match key {
        Some(key) => Some(key@),
        None => None,
    }
}

/// The view of bytes that may be absent.
pub open spec fn bytes_option_view(bytes: Option<Vec<u8>>) -> Option<Seq<u8>> {
    match bytes {
        Some(bytes) => Some(bytes@),
        None => None,
    }
}

/// The view of a blinded path that may be absent.
pub open spec fn path_option_view(path: Option<BlindedPath>) -> Option<BlindedPathSpec> {
    match path {
        Some(path) => Some(path@),
        None => None,
    }
}

/// Writes the payload of hop `i`.
fn hop_payload(
    hops: &Vec<PlannedHop>,
    i: usize,
    keys: &HopKeys,
    intro_blinding: Option<PublicKey>,
    tlv_type: u64,
    bytes: &Vec<u8>,
    reply_path: &Option<Vec<u8>>,
) -> (out: Option<Vec<u8>>)
    requires
        i < hops@.len(),
    ensures
        ({
            let raw = hop_raw_payload(
                planned_views(hops@),
                i as int,
                keys@,
                key_option_view(intro_blinding),
                MessageSpec { tlv_type, bytes: bytes@, reply_path: bytes_option_view(*reply_path) },
            );
            match out {
                Some(written) => raw_payload_wf(raw) && written@ == raw_payload_bytes(raw),
                None => !raw_payload_wf(raw),
            }
        }),
{
    let ghost views = planned_views(hops@);
    let n = hops.len();
    assert(views[i as int] == hops@[i as int]@);
    let sealed = match &hops[i].encrypted_payload {
        Some(sealed) => copy_bytes(sealed.as_slice()),
        None => {
            let control = if i + 1 < n {
                assert(views[i + 1] == hops@[i + 1]@);
                ControlTlvs::Forward {
                    next_node_id: hops[i + 1].node_id,
                    next_blinding_override: if hops[i + 1].encrypted_payload.is_some() {
                        intro_blinding
                    } else {
                        None
                    },
                }
            } else {
                ControlTlvs::Receive { path_id: None }
            };
            assert(control@ == control_for(views, i as int, key_option_view(intro_blinding)));
            let plain = encode_control(&control);
            seal(plain.as_slice(), &keys.control_secret)
        },
    };
    let raw = if i + 1 == n {
        RawPayload {
            reply_path: match reply_path {
                Some(path) => Some(copy_bytes(path.as_slice())),
                None => None,
            },
            sealed,
            message: Some((tlv_type, copy_bytes(bytes.as_slice()))),
        }
    } else {
        RawPayload { reply_path: None, sealed, message: None }
    };
    encode_raw_payload(&raw)
}

/// Builds the records of `hops` from hop `i` on behind `done`.
fn build_records(
    hops: &Vec<PlannedHop>,
    i: usize,
    chain: KeyChain,
    intro_blinding: Option<PublicKey>,
    tlv_type: u64,
    bytes: &Vec<u8>,
    reply_path: &Option<Vec<u8>>,
    done: Vec<HopRecord>,
) -> (records: Result<Vec<HopRecord>, SendError>)
    requires
        i <= hops@.len(),
    ensures
        ({
            let want = records_from(
                planned_views(hops@),
                i as nat,
                chain@,
                key_option_view(intro_blinding),
                MessageSpec { tlv_type, bytes: bytes@, reply_path: bytes_option_view(*reply_path) },
            );
            match records {
                Ok(built) => want matches Ok(rest) && record_views(built@) == record_views(done@)
                    + rest,
                Err(error) => want == Err::<Seq<RecordSpec>, SendError>(error),
            }
        }),
    decreases hops@.len() - i,
{
    let ghost views = planned_views(hops@);
    let mut done = done;
    if i >= hops.len() {
        assert(record_views(done@) + Seq::<RecordSpec>::empty() =~= record_views(done@));
        return Ok(done);
    }
    assert(views[i as int] == hops@[i as int]@);
    let keys = match hop_keys(&chain, &hops[i].key, hops[i].encrypted_payload.is_some()) {
        Some(keys) => keys,
        None => {
            return Err(SendError::Secp256k1);
        },
    };
    let payload = match hop_payload(hops, i, &keys, intro_blinding, tlv_type, bytes, reply_path) {
        Some(payload) => payload,
        None => {
            return Err(SendError::TooBigPacket);
        },
    };
    let record = HopRecord { payload, shared_secret: keys.onion_secret };
    let ghost before = record_views(done@);
    let ghost view = RecordSpec { payload: record.payload@, secret: record.shared_secret@ };
    done.push(record);
    assert(record_views(done@) =~= before + seq![view]);
    if i + 1 == hops.len() {
        return Ok(done);
    }
    let next = match chain_after(&chain, &keys) {
        Some(next) => next,
        None => {
            return Err(SendError::Secp256k1);
        },
    };
    let built = build_records(hops, i + 1, next, intro_blinding, tlv_type, bytes, reply_path, done);
    proof {
        if built is Ok {
            let rest = records_from(
                views,
                (i + 1) as nat,
                next@,
                key_option_view(intro_blinding),
                MessageSpec { tlv_type, bytes: bytes@, reply_path: bytes_option_view(*reply_path) },
            )->Ok_0;
            assert(before + seq![view] + rest =~= before + (seq![view] + rest));
        }
    }
    built
}

/// The route that the node `node_id` sends along: `path` itself, unless the
/// node is the introduction node of a blinded path that is reached without
/// intermediate nodes; then the path advanced by one hop, or
/// `BlindedPathAdvanceFailed` where the node cannot advance it.
pub open spec fn effective_path(path: PathSpec, node_id: Seq<u8>, node_secret: Seq<u8>) -> Result<
    PathSpec,
    SendError,
> {
    match path.destination {
        DestinationSpec::BlindedPath(blinded) => if path.intermediate_nodes.len() == 0
            && blinded.introduction_node_id == node_id {
            match advanced_path_of(blinded, node_secret) {
                Some(advanced) => Ok(
                    PathSpec {
                        intermediate_nodes: path.intermediate_nodes,
                        destination: DestinationSpec::BlindedPath(advanced),
                    },
                ),
                None => Err(SendError::BlindedPathAdvanceFailed),
            }
        } else {
            Ok(path)
        },
        DestinationSpec::Node(_) => Ok(path),
    }
}

/// An onion message ready to be sent, and the peer to hand it to.
pub ghost struct CreatedSpec {
    pub first_hop: Seq<u8>,
    pub message: OnionMessageSpec,
}

/// The blinding point of the blinded path that `path` leads to, if it leads
/// to one.
pub open spec fn intro_blinding_of(path: PathSpec) -> Option<Seq<u8>> {
    match path.destination {
        DestinationSpec::BlindedPath(blinded) => Some(blinded.blinding_point),
        DestinationSpec::Node(_) => None,
    }
}

/// The reply path as the last hop's payload carries it; none where it
/// cannot be written.
pub open spec fn reply_bytes_of(reply_path: Option<BlindedPathSpec>) -> Option<Option<Seq<u8>>> {
    match reply_path {
        Some(path) => if path_wf(path) {
            Some(Some(path_bytes(path)))
        } else {
            None
        },
        None => Some(None),
    }
}

/// The onion message that the node with `node_id` and `node_secret` makes of
/// a message of type `tlv_type` for `path`, with keys that start from
/// `session_secret` and noise from `prng_seed`, or the reason why it makes
/// none. The checks come in this order: the message type, the length of a
/// blinded path, the sender's own hop, the room that the hops' records will
/// take, and only then the keys and payloads of the hops.
#[verifier::opaque]
pub open spec fn create_spec(
    node_id: Seq<u8>,
    node_secret: Seq<u8>,
    path: PathSpec,
    tlv_type: u64,
    bytes: Seq<u8>,
    reply_path: Option<BlindedPathSpec>,
    session_secret: Seq<u8>,
    prng_seed: Seq<u8>,
) -> Result<CreatedSpec, SendError> {
    if tlv_type < 64 {
        Err(SendError::InvalidMessage)
    } else if path.destination matches DestinationSpec::BlindedPath(blinded)
        && blinded.blinded_hops.len() < 2 {
        Err(SendError::TooFewBlindedHops)
    } else {
        match effective_path(path, node_id, node_secret) {
            Err(error) => Err(error),
            Ok(route) => match reply_bytes_of(reply_path) {
                None => Err(SendError::TooBigPacket),
                Some(reply) => if planned_len(
                    resolve_spec(route),
                    resolve_spec(route).len(),
                    intro_blinding_of(route),
                    bytes.len(),
                    len_option(reply),
                ) > 32768 {
                    Err(SendError::TooBigPacket)
                } else {
                    match chain_start_of(session_secret) {
                    None => Err(SendError::Secp256k1),
                    Some(chain) => match records_from(
                        resolve_spec(route),
                        0,
                        chain,
                        intro_blinding_of(route),
                        MessageSpec { tlv_type, bytes, reply_path: reply },
                    ) {
                        Err(error) => Err(error),
                        Ok(records) => match hop_data_len_for(record_payloads(records)) {
                            None => Err(SendError::TooBigPacket),
                            Some(cap) => {
                                let outer = layer(
                                    record_payloads(records),
                                    record_secrets(records),
                                    noise_of(prng_seed, cap),
                                    0,
                                );
                                Ok(
                                    CreatedSpec {
                                        first_hop: first_hop_of(route),
                                        message: OnionMessageSpec {
                                            blinding_point: if route.intermediate_nodes.len() == 0
                                                && intro_blinding_of(route) is Some {
                                                intro_blinding_of(route)->0
                                            } else {
                                                chain.blinding_point
                                            },
                                            packet: PacketSpec {
                                                version: 0,
                                                public_key: chain.onion_point,
                                                hop_data: outer.hop_data,
                                                hmac: outer.hmac,
                                            },
                                        },
                                    },
                                )
                            },
                        },
                    },
                    }
                },
            },
        }
    }
}

/// The route that the node of `keys` sends along for `path`: `path` itself,
/// or the path advanced by one hop where the node introduces it.
pub fn effective_route(keys: &KeysManager, path: OnionMessagePath) -> (route: Result<
    OnionMessagePath,
    SendError,
>)
    ensures
        match route {
            Ok(found) => effective_path(path@, keys.id(), keys.secret()) == Ok::<
                PathSpec,
                SendError,
            >(found@),
            Err(error) => effective_path(path@, keys.id(), keys.secret()) == Err::<
                PathSpec,
                SendError,
            >(error),
        },
{
    let own_id = keys.get_node_id();
    let OnionMessagePath { intermediate_nodes, destination } = path;
    let destination = match destination {
        Destination::BlindedPath(blinded) => {
            let mut blinded = blinded;
            if intermediate_nodes.len() == 0 && blinded.introduction_node_id.same_as(&own_id) {
                match advance_path_by_one(&mut blinded, keys) {
                    Ok(_) => {},
                    Err(_) => {
                        return Err(SendError::BlindedPathAdvanceFailed);
                    },
                }
            }
            Destination::BlindedPath(blinded)
        },
        Destination::Node(key) => Destination::Node(key),
    };
    Ok(OnionMessagePath { intermediate_nodes, destination })
}

/// Makes the onion message for a message of type `tlv_type` on `path`.
///
/// Nothing is built for a reserved message type, for a blinded path of
/// fewer than two hops, or where the hops' records exceed the big packet.
pub fn create_onion_message(
    keys: &KeysManager,
    path: OnionMessagePath,
    tlv_type: u64,
    bytes: &Vec<u8>,
    reply_path: Option<BlindedPath>,
    session_secret: &[u8; 32],
    prng_seed: &[u8; 32],
) -> (created: Result<(PublicKey, OnionMessage), SendError>)
    ensures
        ({
            let want = create_spec(
                keys.id(),
                keys.secret(),
                path@,
                tlv_type,
                bytes@,
                path_option_view(reply_path),
                session_secret@,
                prng_seed@,
            );
            match created {
                Ok((peer, message)) => want == Ok::<CreatedSpec, SendError>(
                    CreatedSpec { first_hop: peer@, message: message@ },
                ) && (message.onion_routing_packet.hop_data@.len() == 1300
                    || message.onion_routing_packet.hop_data@.len() == 32768),
                Err(error) => want == Err::<CreatedSpec, SendError>(error),
            }
        }),
{
    reveal(create_spec);
    if tlv_type < 64 {
        return Err(SendError::InvalidMessage);
    }
    match &path.destination {
        Destination::BlindedPath(blinded) => {
            if blinded.blinded_hops.len() < 2 {
                return Err(SendError::TooFewBlindedHops);
            }
        },
        Destination::Node(_) => {},
    }
    let route = match effective_route(keys, path) {
        Ok(route) => route,
        Err(error) => {
            return Err(error);
        },
    };
    let reply = match &reply_path {
        Some(reply) => match reply.write() {
            Some(written) => Some(written),
            None => {
                return Err(SendError::TooBigPacket);
            },
        },
        None => None,
    };
    let intro_blinding = match &route.destination {
        Destination::BlindedPath(blinded) => Some(blinded.blinding_point),
        Destination::Node(_) => None,
    };
    let hops = resolve_path(&route);
    let reply_len = match &reply {
        Some(written) => Some(written.len()),
        None => None,
    };
    proof {
        lemma_planned_len_ignores_the_point(
            resolve_spec(route@),
            hops@.len(),
            intro_blinding_of(route@),
            bytes@.len(),
            len_option(bytes_option_view(reply)),
        );
    }
    if !planned_records_fit(&hops, intro_blinding.is_some(), bytes.len(), reply_len) {
        return Err(SendError::TooBigPacket);
    }
    let chain = match chain_start(session_secret) {
        Some(chain) => chain,
        None => {
            return Err(SendError::Secp256k1);
        },
    };
    let blinding_point = match intro_blinding {
        Some(point) => if route.intermediate_nodes.len() == 0 {
            point
        } else {
            chain.blinding_point
        },
        None => chain.blinding_point,
    };
    let public_key = chain.onion_point;
    let peer = first_hop(&route);
    let empty: Vec<HopRecord> = Vec::new();
    assert(record_views(empty@) =~= Seq::<RecordSpec>::empty());
    let ghost start = chain@;
    let records = match build_records(&hops, 0, chain, intro_blinding, tlv_type, bytes, &reply, empty) {
        Ok(records) => records,
        Err(error) => {
            return Err(error);
        },
    };
    proof {
        let rest = records_from(
            resolve_spec(route@),
            0,
            start,
            intro_blinding_of(route@),
            MessageSpec { tlv_type, bytes: bytes@, reply_path: bytes_option_view(reply) },
        )->Ok_0;
        assert(record_views(records@) =~= rest);
        assert(payloads_of(records@) =~= record_payloads(rest));
        assert(secrets_of(records@) =~= record_secrets(rest));
    }
    match construct_onion_message_packet(&records, prng_seed) {
        Some(built) => Ok(
            (
                peer,
                OnionMessage {
                    blinding_point,
                    onion_routing_packet: Packet {
                        version: 0,
                        public_key,
                        hop_data: built.hop_data,
                        hmac: built.hmac,
                    },
                },
            ),
        ),
        None => Err(SendError::TooBigPacket),
    }
}

/// What a node finds when it takes its layer off an onion message.
pub enum PeeledOnion {
    /// The message is to be handed on to `next_node_id`.
    Forward { next_node_id: PublicKey, message: OnionMessage },
    /// The message is for this node.
    Receive {
        tlv_type: u64,
        bytes: Vec<u8>,
        reply_path: Option<BlindedPath>,
        path_id: Option<[u8; 32]>,
    },
}

/// A peeled onion message as plain values.
pub ghost enum PeeledOnionSpec {
    Forward { next_node_id: Seq<u8>, message: OnionMessageSpec },
    Receive {
        tlv_type: u64,
        bytes: Seq<u8>,
        reply_path: Option<BlindedPathSpec>,
        path_id: Option<Seq<u8>>,
    },
}

impl View for PeeledOnion {
    type V = PeeledOnionSpec;

    open spec fn view(&self) -> PeeledOnionSpec {
        match self {
            PeeledOnion::Forward { next_node_id, message } => PeeledOnionSpec::Forward {
                next_node_id: next_node_id@,
                message: message@,
            },
            PeeledOnion::Receive { tlv_type, bytes, reply_path, path_id } => PeeledOnionSpec::Receive {
                tlv_type: *tlv_type,
                bytes: bytes@,
                reply_path: path_option_view(*reply_path),
                path_id: match path_id {
                    Some(id) => Some(id@),
                    None => None,
                },
            },
        }
    }
}

/// The reply path that a payload carries, read from its bytes; none where
/// the bytes are not a path.
pub open spec fn reply_path_of(raw: Option<Seq<u8>>) -> Option<Option<BlindedPathSpec>> {
    match raw {
        Some(bytes) => match parse_path(bytes) {
            Some(path) => Some(Some(path)),
            None => None,
        },
        None => Some(None),
    }
}

/// What the hop that shares `control` and `onion` with the sender makes of
/// the payload `raw` and the instructions `instructions` found in it, where
/// `message` is the onion message received and `next_hmac`, `next_hop_data`
/// what remains of its packet. A forwarding hop's payload holds nothing but
/// instructions; a receiving hop's payload holds a message.
pub open spec fn interpret_spec(
    message: OnionMessageSpec,
    control: Seq<u8>,
    onion: Seq<u8>,
    raw: RawPayloadSpec,
    instructions: ControlSpec,
    next_hmac: Seq<u8>,
    next_hop_data: Seq<u8>,
) -> Option<PeeledOnionSpec> {
    match instructions {
        ControlSpec::Forward { next_node_id, next_blinding_override } => {
            if raw.message is Some || raw.reply_path is Some {
                None
            } else {
                match next_hop_pubkey_of(message.packet.public_key, onion) {
                    None => None,
                    Some(public_key) => {
                        let point = match next_blinding_override {
                            Some(point) => Some(point),
                            None => next_hop_pubkey_of(message.blinding_point, control),
                        };
                        match point {
                            None => None,
                            Some(blinding_point) => Some(
                                PeeledOnionSpec::Forward {
                                    next_node_id,
                                    message: OnionMessageSpec {
                                        blinding_point,
                                        packet: PacketSpec {
                                            version: 0,
                                            public_key,
                                            hop_data: next_hop_data,
                                            hmac: next_hmac,
                                        },
                                    },
                                },
                            ),
                        }
                    },
                }
            }
        },
        ControlSpec::Receive { path_id } => match raw.message {
            None => None,
            Some(found) => match reply_path_of(raw.reply_path) {
                None => None,
                Some(reply_path) => Some(
                    PeeledOnionSpec::Receive {
                        tlv_type: found.0,
                        bytes: found.1,
                        reply_path,
                        path_id,
                    },
                ),
            },
        },
    }
}

/// What the sender writes for a hop that is not blinded is what the hop
/// reads with the secret under which its instructions were sealed: the
/// records of the payload, and in them the instructions, which forward at
/// every hop but the last and carry a message at the last hop alone.
pub proof fn lemma_hop_reads_what_was_written(
    hops: Seq<PlannedHopSpec>,
    i: int,
    keys: HopKeysSpec,
    intro_blinding: Option<Seq<u8>>,
    message: MessageSpec,
)
    requires
        0 <= i < hops.len(),
        hops[i].encrypted_payload is None,
        i + 1 < hops.len() ==> hops[i + 1].node_id.len() == 33,
        intro_blinding matches Some(point) ==> point.len() == 33,
        raw_payload_wf(hop_raw_payload(hops, i, keys, intro_blinding, message)),
    ensures
        ({
            let raw = hop_raw_payload(hops, i, keys, intro_blinding, message);
            let control = control_for(hops, i, intro_blinding);
            &&& parse_raw_payload(raw_payload_bytes(raw)) == Some(raw)
            &&& open_spec(raw.sealed, keys.control_secret) == Some(control_bytes(control))
            &&& decode_control_spec(control_bytes(control)) == Some(control)
            &&& control is Forward <==> i + 1 < hops.len()
            &&& raw.message is Some <==> i + 1 == hops.len()
        }),
{
    let raw = hop_raw_payload(hops, i, keys, intro_blinding, message);
    let control = control_for(hops, i, intro_blinding);
    crate::payload::lemma_parse_raw_payload_bytes(raw);
    crate::payload::lemma_open_sealed(control_bytes(control), keys.control_secret);
    crate::payload::lemma_decode_control_bytes(control);
}

/// A hop whose instructions forward hands the rest of the packet on to the
/// node that the instructions name, or drops the message where a key that
/// it derives is not valid.
pub proof fn lemma_forwarding_hop_hands_on(
    message: OnionMessageSpec,
    control: Seq<u8>,
    onion: Seq<u8>,
    sealed: Seq<u8>,
    next_node_id: Seq<u8>,
    next_blinding_override: Option<Seq<u8>>,
    next_hmac: Seq<u8>,
    next_hop_data: Seq<u8>,
)
    ensures
        match interpret_spec(
            message,
            control,
            onion,
            RawPayloadSpec { reply_path: None, sealed, message: None },
            ControlSpec::Forward { next_node_id, next_blinding_override },
            next_hmac,
            next_hop_data,
        ) {
            Some(PeeledOnionSpec::Forward { next_node_id: to, message: handed }) => {
                &&& to == next_node_id
                &&& handed.packet.hop_data == next_hop_data
                &&& handed.packet.hmac == next_hmac
                &&& next_blinding_override matches Some(point) ==> handed.blinding_point == point
            },
            Some(PeeledOnionSpec::Receive { .. }) => false,
            None => true,
        },
{
}

/// The last hop, where it is not blinded, receives the message that was
/// sent, with its type, its bytes and its reply path.
pub proof fn lemma_last_hop_receives_the_message(
    received: OnionMessageSpec,
    control: Seq<u8>,
    onion: Seq<u8>,
    hops: Seq<PlannedHopSpec>,
    keys: HopKeysSpec,
    intro_blinding: Option<Seq<u8>>,
    tlv_type: u64,
    bytes: Seq<u8>,
    reply_path: Option<BlindedPathSpec>,
    next_hmac: Seq<u8>,
    next_hop_data: Seq<u8>,
)
    requires
        hops.len() > 0,
        hops[hops.len() - 1].encrypted_payload is None,
        reply_bytes_of(reply_path) is Some,
    ensures
        ({
            let raw = hop_raw_payload(
                hops,
                hops.len() - 1,
                keys,
                intro_blinding,
                MessageSpec { tlv_type, bytes, reply_path: reply_bytes_of(reply_path)->0 },
            );
            &&& control_for(hops, hops.len() - 1, intro_blinding) == (ControlSpec::Receive {
                path_id: None,
            })
            &&& interpret_spec(
                received,
                control,
                onion,
                raw,
                ControlSpec::Receive { path_id: None },
                next_hmac,
                next_hop_data,
            ) == Some(PeeledOnionSpec::Receive { tlv_type, bytes, reply_path, path_id: None })
        }),
{
    match reply_path {
        Some(path) => {
            crate::blinded_path::lemma_parse_path_bytes(path);
        },
        None => {},
    }
}

/// What the node with secret key `node_secret` finds when it takes its layer
/// off `message`; nothing where a key is not valid, the tag is wrong, or the
/// payload is not one.
#[verifier::opaque]
pub open spec fn peel_onion_spec(node_secret: Seq<u8>, message: OnionMessageSpec) -> Option<
    PeeledOnionSpec,
> {
    if message.packet.version != 0 {
        None
    } else {
        match node_ecdh_of(node_secret, message.blinding_point, None) {
            None => None,
            Some(control) => match node_ecdh_of(
                node_secret,
                message.packet.public_key,
                Some(node_blinding_factor_of(control)),
            ) {
                None => None,
                Some(onion) => match peel_spec(onion, message.packet.hop_data, message.packet.hmac) {
                    Err(_) => None,
                    Ok(peeled) => match parse_raw_payload(peeled.payload) {
                        None => None,
                        Some(raw) => match open_spec(raw.sealed, control) {
                            None => None,
                            Some(plain) => match decode_control_spec(plain) {
                                None => None,
                                Some(instructions) => interpret_spec(
                                    message,
                                    control,
                                    onion,
                                    raw,
                                    instructions,
                                    peeled.next_hmac,
                                    peeled.next_hop_data,
                                ),
                            },
                        },
                    },
                },
            },
        }
    }
}

/// The onion message that reaches hop `i` of a route under the blinding
/// point `blinding_point` and the packet key `public_key`: the layer of the
/// packet that was built for that hop.
pub open spec fn message_at_hop(
    payloads: Seq<Seq<u8>>,
    secrets: Seq<Seq<u8>>,
    noise: Seq<u8>,
    i: nat,
    blinding_point: Seq<u8>,
    public_key: Seq<u8>,
) -> OnionMessageSpec {
    OnionMessageSpec {
        blinding_point,
        packet: PacketSpec {
            version: 0,
            public_key,
            hop_data: layer(payloads, secrets, noise, i).hop_data,
            hmac: layer(payloads, secrets, noise, i).hmac,
        },
    }
}

/// What hop `i` is to find: the message at the last hop, and before it the
/// next node with the onion message for the next hop, under the keys that
/// follow the present ones; nothing where a following key is not valid.
pub open spec fn expected_at_hop(
    hops: Seq<PlannedHopSpec>,
    i: nat,
    keys: HopKeysSpec,
    intro_blinding: Option<Seq<u8>>,
    tlv_type: u64,
    bytes: Seq<u8>,
    reply_path: Option<BlindedPathSpec>,
    payloads: Seq<Seq<u8>>,
    secrets: Seq<Seq<u8>>,
    noise: Seq<u8>,
    blinding_point: Seq<u8>,
    public_key: Seq<u8>,
) -> Option<PeeledOnionSpec> {
    if i + 1 >= hops.len() {
        Some(PeeledOnionSpec::Receive { tlv_type, bytes, reply_path, path_id: None })
    } else {
        match next_hop_pubkey_of(public_key, keys.onion_secret) {
            None => None,
            Some(next_key) => {
                let point = if hops[i as int + 1].encrypted_payload is Some && intro_blinding is Some {
                    intro_blinding
                } else {
                    next_hop_pubkey_of(blinding_point, keys.control_secret)
                };
                match point {
                    None => None,
                    Some(next_point) => Some(
                        PeeledOnionSpec::Forward {
                            next_node_id: hops[i as int + 1].node_id,
                            message: message_at_hop(
                                payloads,
                                secrets,
                                noise,
                                i + 1,
                                next_point,
                                next_key,
                            ),
                        },
                    ),
                }
            },
        }
    }
}

/// Every hop that is not blinded opens its layer, once it derives the
/// secrets that the sender derived for it: the node that shares
/// `keys.control_secret` under the blinding point and `keys.onion_secret`
/// under the packet key finds, in the onion message built for hop `i`, the
/// message itself at the last hop, and before it the next node and the
/// onion message built for the next hop. That the node derives these
/// secrets is the agreement of the curve, which is not proved here.
pub proof fn lemma_hop_opens_its_layer(
    hops: Seq<PlannedHopSpec>,
    i: nat,
    keys: HopKeysSpec,
    intro_blinding: Option<Seq<u8>>,
    tlv_type: u64,
    bytes: Seq<u8>,
    reply_path: Option<BlindedPathSpec>,
    payloads: Seq<Seq<u8>>,
    secrets: Seq<Seq<u8>>,
    noise: Seq<u8>,
    node_secret: Seq<u8>,
    blinding_point: Seq<u8>,
    public_key: Seq<u8>,
)
    requires
        i < hops.len(),
        payloads.len() == hops.len(),
        hops[i as int].encrypted_payload is None,
        plan_wf(hops, intro_blinding),
        reply_bytes_of(reply_path) is Some,
        raw_payload_wf(
            hop_raw_payload(
                hops,
                i as int,
                keys,
                intro_blinding,
                MessageSpec { tlv_type, bytes, reply_path: reply_bytes_of(reply_path)->0 },
            ),
        ),
        payloads[i as int] == raw_payload_bytes(
            hop_raw_payload(
                hops,
                i as int,
                keys,
                intro_blinding,
                MessageSpec { tlv_type, bytes, reply_path: reply_bytes_of(reply_path)->0 },
            ),
        ),
        secrets[i as int] == keys.onion_secret,
        noise.len() == 1300 || noise.len() == 32768,
        crate::packet::records_len(payloads, payloads.len()) <= noise.len(),
        node_ecdh_of(node_secret, blinding_point, None) == Some(keys.control_secret),
        node_ecdh_of(
            node_secret,
            public_key,
            Some(node_blinding_factor_of(keys.control_secret)),
        ) == Some(keys.onion_secret),
    ensures
        peel_onion_spec(
            node_secret,
            message_at_hop(payloads, secrets, noise, i, blinding_point, public_key),
        ) == expected_at_hop(
            hops,
            i,
            keys,
            intro_blinding,
            tlv_type,
            bytes,
            reply_path,
            payloads,
            secrets,
            noise,
            blinding_point,
            public_key,
        ),
{
    reveal(peel_onion_spec);
    let message = MessageSpec { tlv_type, bytes, reply_path: reply_bytes_of(reply_path)->0 };
    let received = message_at_hop(payloads, secrets, noise, i, blinding_point, public_key);
    let raw = hop_raw_payload(hops, i as int, keys, intro_blinding, message);
    let control = control_for(hops, i as int, intro_blinding);
    crate::packet::lemma_peel_yields_payload_and_next_layer(payloads, secrets, noise, i);
    if i + 1 < hops.len() {
        assert(hops[i as int + 1].node_id.len() == 33);
    }
    lemma_hop_reads_what_was_written(hops, i as int, keys, intro_blinding, message);
    let peeled = peel_spec(keys.onion_secret, received.packet.hop_data, received.packet.hmac)->Ok_0;
    if i + 1 == hops.len() {
        lemma_last_hop_receives_the_message(
            received,
            keys.control_secret,
            keys.onion_secret,
            hops,
            keys,
            intro_blinding,
            tlv_type,
            bytes,
            reply_path,
            peeled.next_hmac,
            peeled.next_hop_data,
        );
    }
}

/// The sender's chain as it stands before hop `i`, where it started from
/// `start`; none where a key on the way is not valid.
pub open spec fn chain_before(hops: Seq<PlannedHopSpec>, start: KeyChainSpec, i: nat) -> Option<
    KeyChainSpec,
>
    decreases i,
{
    if i == 0 {
        Some(start)
    } else {
        match chain_before(hops, start, (i - 1) as nat) {
            None => None,
            Some(chain) => match hop_keys_of(
                chain,
                hops[i - 1].key,
                hops[i - 1].encrypted_payload is Some,
            ) {
                None => None,
                Some(keys) => chain_after_of(chain, keys),
            },
        }
    }
}

/// What the sender shares with hop `i`, where its chain started from
/// `start`.
pub open spec fn keys_at(hops: Seq<PlannedHopSpec>, start: KeyChainSpec, i: nat) -> Option<
    HopKeysSpec,
> {
    match chain_before(hops, start, i) {
        Some(chain) => hop_keys_of(chain, hops[i as int].key, hops[i as int].encrypted_payload is Some),
        None => None,
    }
}

/// The record that the sender builds for hop `i` under `keys`.
pub open spec fn record_at(
    hops: Seq<PlannedHopSpec>,
    i: nat,
    keys: HopKeysSpec,
    intro_blinding: Option<Seq<u8>>,
    message: MessageSpec,
) -> RecordSpec {
    RecordSpec {
        payload: raw_payload_bytes(hop_raw_payload(hops, i as int, keys, intro_blinding, message)),
        secret: keys.onion_secret,
    }
}

/// The records that the sender builds from hop `j` on are, hop by hop, the
/// records built under the keys that its chain gives for each hop.
pub proof fn lemma_records_come_from_the_chain(
    hops: Seq<PlannedHopSpec>,
    j: nat,
    start: KeyChainSpec,
    intro_blinding: Option<Seq<u8>>,
    message: MessageSpec,
)
    requires
        j <= hops.len(),
        chain_before(hops, start, j) is Some,
        records_from(hops, j, chain_before(hops, start, j)->0, intro_blinding, message) is Ok,
    ensures
        ({
            let rest = records_from(
                hops,
                j,
                chain_before(hops, start, j)->0,
                intro_blinding,
                message,
            )->Ok_0;
            &&& rest.len() == hops.len() - j
            &&& forall|i: nat|
                j <= i < hops.len() ==> {
                    &&& (#[trigger] keys_at(hops, start, i)) is Some
                    &&& raw_payload_wf(
                        hop_raw_payload(
                            hops,
                            i as int,
                            keys_at(hops, start, i)->0,
                            intro_blinding,
                            message,
                        ),
                    )
                    &&& rest[i - j] == record_at(
                        hops,
                        i,
                        keys_at(hops, start, i)->0,
                        intro_blinding,
                        message,
                    )
                }
        }),
    decreases hops.len() - j,
{
    let chain = chain_before(hops, start, j)->0;
    let rest = records_from(hops, j, chain, intro_blinding, message)->Ok_0;
    if j < hops.len() {
        let keys = hop_keys_of(chain, hops[j as int].key, hops[j as int].encrypted_payload is Some)->0;
        assert(keys_at(hops, start, j) == Some(keys));
        let record = record_at(hops, j, keys, intro_blinding, message);
        if j + 1 == hops.len() {
            assert(rest == seq![record]);
            assert forall|i: nat| j <= i < hops.len() implies {
                &&& (#[trigger] keys_at(hops, start, i)) is Some
                &&& raw_payload_wf(
                    hop_raw_payload(
                        hops,
                        i as int,
                        keys_at(hops, start, i)->0,
                        intro_blinding,
                        message,
                    ),
                )
                &&& rest[i - j] == record_at(
                    hops,
                    i,
                    keys_at(hops, start, i)->0,
                    intro_blinding,
                    message,
                )
            } by {
                assert(i == j);
            }
        } else {
            let next = chain_after_of(chain, keys)->0;
            assert(chain_before(hops, start, j + 1) == Some(next));
            lemma_records_come_from_the_chain(hops, j + 1, start, intro_blinding, message);
            let tail = records_from(hops, j + 1, next, intro_blinding, message)->Ok_0;
            assert(rest == seq![record] + tail);
            assert forall|i: nat| j <= i < hops.len() implies {
                &&& (#[trigger] keys_at(hops, start, i)) is Some
                &&& raw_payload_wf(
                    hop_raw_payload(
                        hops,
                        i as int,
                        keys_at(hops, start, i)->0,
                        intro_blinding,
                        message,
                    ),
                )
                &&& rest[i - j] == record_at(
                    hops,
                    i,
                    keys_at(hops, start, i)->0,
                    intro_blinding,
                    message,
                )
            } by {
                if i > j {
                    assert(rest[i - j] == tail[i - (j + 1)]);
                }
            }
        }
    }
}

/// Every hop of a route to a node opens the onion message built for it,
/// once it derives the secrets that the sender derived for it: hop `i`,
/// which receives the layer for hop `i` under some blinding point and packet
/// key, finds the message at the last hop and before it the next node with
/// the onion message for the next hop.
pub proof fn lemma_every_hop_opens_what_was_sent(
    node_id: Seq<u8>,
    node_secret: Seq<u8>,
    path: PathSpec,
    tlv_type: u64,
    bytes: Seq<u8>,
    reply_path: Option<BlindedPathSpec>,
    session_secret: Seq<u8>,
    prng_seed: Seq<u8>,
    i: nat,
    hop_secret: Seq<u8>,
    blinding_point: Seq<u8>,
    public_key: Seq<u8>,
)
    requires
        path.destination is Node,
        plan_wf(resolve_spec(path), None),
        i < resolve_spec(path).len(),
        create_spec(
            node_id,
            node_secret,
            path,
            tlv_type,
            bytes,
            reply_path,
            session_secret,
            prng_seed,
        ) is Ok,
        ({
            let keys = keys_at(resolve_spec(path), chain_start_of(session_secret)->0, i)->0;
            &&& node_ecdh_of(hop_secret, blinding_point, None) == Some(keys.control_secret)
            &&& node_ecdh_of(
                hop_secret,
                public_key,
                Some(node_blinding_factor_of(keys.control_secret)),
            ) == Some(keys.onion_secret)
        }),
    ensures
        ({
            let hops = resolve_spec(path);
            let chain = chain_start_of(session_secret)->0;
            let records = records_from(
                hops,
                0,
                chain,
                None,
                MessageSpec { tlv_type, bytes, reply_path: reply_bytes_of(reply_path)->0 },
            )->Ok_0;
            let payloads = record_payloads(records);
            let secrets = record_secrets(records);
            let noise = noise_of(prng_seed, hop_data_len_for(payloads)->0);
            &&& keys_at(hops, chain, i) is Some
            &&& create_spec(
                node_id,
                node_secret,
                path,
                tlv_type,
                bytes,
                reply_path,
                session_secret,
                prng_seed,
            )->Ok_0.message == message_at_hop(
                payloads,
                secrets,
                noise,
                0,
                chain.blinding_point,
                chain.onion_point,
            )
            &&& peel_onion_spec(
                hop_secret,
                message_at_hop(payloads, secrets, noise, i, blinding_point, public_key),
            ) == expected_at_hop(
                hops,
                i,
                keys_at(hops, chain, i)->0,
                None,
                tlv_type,
                bytes,
                reply_path,
                payloads,
                secrets,
                noise,
                blinding_point,
                public_key,
            )
        }),
{
    reveal(create_spec);
    let hops = resolve_spec(path);
    let chain = chain_start_of(session_secret)->0;
    let message = MessageSpec { tlv_type, bytes, reply_path: reply_bytes_of(reply_path)->0 };
    let records = records_from(hops, 0, chain, None, message)->Ok_0;
    let payloads = record_payloads(records);
    let secrets = record_secrets(records);
    let cap = hop_data_len_for(payloads)->0;
    assert(chain_before(hops, chain, 0) == Some(chain));
    lemma_records_come_from_the_chain(hops, 0, chain, None, message);
    let keys = keys_at(hops, chain, i)->0;
    assert(keys_at(hops, chain, i) is Some);
    assert(records[i as int] == record_at(hops, i, keys, None, message));
    assert(payloads[i as int] == records[i as int].payload);
    assert(secrets[i as int] == records[i as int].secret);
    assert(hops[i as int].encrypted_payload is None);
    lemma_hop_opens_its_layer(
        hops,
        i,
        keys,
        None,
        tlv_type,
        bytes,
        reply_path,
        payloads,
        secrets,
        noise_of(prng_seed, cap),
        hop_secret,
        blinding_point,
        public_key,
    );
}

/// The first hop of a route to a node opens what was sent to it, once it
/// derives the secrets that the sender derived for it: on a route without
/// intermediate nodes the destination finds the message, with its type, its
/// bytes and its reply path; on a longer route the first node finds the
/// second node and the onion message built for it.
pub proof fn lemma_first_hop_opens_what_was_sent(
    node_id: Seq<u8>,
    node_secret: Seq<u8>,
    path: PathSpec,
    tlv_type: u64,
    bytes: Seq<u8>,
    reply_path: Option<BlindedPathSpec>,
    session_secret: Seq<u8>,
    prng_seed: Seq<u8>,
    first_secret: Seq<u8>,
)
    requires
        path.destination is Node,
        plan_wf(resolve_spec(path), None),
        create_spec(
            node_id,
            node_secret,
            path,
            tlv_type,
            bytes,
            reply_path,
            session_secret,
            prng_seed,
        ) is Ok,
        ({
            let chain = chain_start_of(session_secret)->0;
            let keys = hop_keys_of(chain, resolve_spec(path)[0].key, false)->0;
            &&& node_ecdh_of(first_secret, chain.blinding_point, None) == Some(keys.control_secret)
            &&& node_ecdh_of(
                first_secret,
                chain.onion_point,
                Some(node_blinding_factor_of(keys.control_secret)),
            ) == Some(keys.onion_secret)
        }),
    ensures
        ({
            let created = create_spec(
                node_id,
                node_secret,
                path,
                tlv_type,
                bytes,
                reply_path,
                session_secret,
                prng_seed,
            )->Ok_0;
            let hops = resolve_spec(path);
            let chain = chain_start_of(session_secret)->0;
            let keys = hop_keys_of(chain, hops[0].key, false)->0;
            let records = records_from(
                hops,
                0,
                chain,
                None,
                MessageSpec { tlv_type, bytes, reply_path: reply_bytes_of(reply_path)->0 },
            )->Ok_0;
            let cap = hop_data_len_for(record_payloads(records))->0;
            &&& created.first_hop == hops[0].node_id
            &&& peel_onion_spec(first_secret, created.message) == expected_at_hop(
                hops,
                0,
                keys,
                None,
                tlv_type,
                bytes,
                reply_path,
                record_payloads(records),
                record_secrets(records),
                noise_of(prng_seed, cap),
                chain.blinding_point,
                chain.onion_point,
            )
            &&& hops.len() == 1 ==> peel_onion_spec(first_secret, created.message) == Some(
                PeeledOnionSpec::Receive { tlv_type, bytes, reply_path, path_id: None },
            )
        }),
{
    reveal(create_spec);
    let hops = resolve_spec(path);
    let chain = chain_start_of(session_secret)->0;
    let message = MessageSpec { tlv_type, bytes, reply_path: reply_bytes_of(reply_path)->0 };
    let keys = hop_keys_of(chain, hops[0].key, false)->0;
    let records = records_from(hops, 0, chain, None, message)->Ok_0;
    let payloads = record_payloads(records);
    let secrets = record_secrets(records);
    let cap = hop_data_len_for(payloads)->0;
    assert(hops[0].encrypted_payload is None);
    lemma_records_take_the_planned_room(hops, 0, chain, None, message);
    assert(payloads.len() == hops.len());
    assert(records[0].secret == keys.onion_secret);
    assert(payloads[0] == records[0].payload);
    assert(secrets[0] == records[0].secret);
    lemma_hop_opens_its_layer(
        hops,
        0,
        keys,
        None,
        tlv_type,
        bytes,
        reply_path,
        payloads,
        secrets,
        noise_of(prng_seed, cap),
        first_secret,
        chain.blinding_point,
        chain.onion_point,
    );
}

/// Takes this node's layer off `message`.
///
/// A message handed on has hop data as long as the hop data received.
pub fn peel_onion_message(keys: &KeysManager, message: &OnionMessage) -> (found: Option<PeeledOnion>)
    ensures
        match found {
            Some(peeled) => peel_onion_spec(keys.secret(), message@) == Some(peeled@),
            None => peel_onion_spec(keys.secret(), message@) is None,
        },
        found matches Some(PeeledOnion::Forward { message: next, .. }) ==> {
            &&& next.onion_routing_packet.hop_data@.len()
                == message.onion_routing_packet.hop_data@.len()
            &&& next.onion_routing_packet.hop_data@.len() == 1300
                || next.onion_routing_packet.hop_data@.len() == 32768
        },
{
    reveal(peel_onion_spec);
    let packet = &message.onion_routing_packet;
    if packet.version != 0 {
        return None;
    }
    let control = match keys.ecdh(&message.blinding_point, None) {
        Some(control) => control,
        None => {
            return None;
        },
    };
    let factor = node_blinding_factor(&control);
    let onion = match keys.ecdh(&packet.public_key, Some(&factor)) {
        Some(onion) => onion,
        None => {
            return None;
        },
    };
    let peeled = match peel_layer(&onion, &packet.hop_data, &packet.hmac) {
        Ok(peeled) => peeled,
        Err(_) => {
            return None;
        },
    };
    let raw = match decode_raw_payload(peeled.payload.as_slice()) {
        Some(raw) => raw,
        None => {
            return None;
        },
    };
    let plain = match open(raw.sealed.as_slice(), &control) {
        Some(plain) => plain,
        None => {
            return None;
        },
    };
    let instructions = match decode_control(plain.as_slice()) {
        Some(instructions) => instructions,
        None => {
            return None;
        },
    };
    match instructions {
        ControlTlvs::Forward { next_node_id, next_blinding_override } => {
            if raw.message.is_some() || raw.reply_path.is_some() {
                return None;
            }
            let public_key = match next_hop_pubkey(&packet.public_key, &onion) {
                Some(key) => key,
                None => {
                    return None;
                },
            };
            let blinding_point = match next_blinding_override {
                Some(point) => point,
                None => match next_hop_pubkey(&message.blinding_point, &control) {
                    Some(point) => point,
                    None => {
                        return None;
                    },
                },
            };
            Some(
                PeeledOnion::Forward {
                    next_node_id,
                    message: OnionMessage {
                        blinding_point,
                        onion_routing_packet: Packet {
                            version: 0,
                            public_key,
                            hop_data: peeled.next_hop_data,
                            hmac: peeled.next_hmac,
                        },
                    },
                },
            )
        },
        ControlTlvs::Receive { path_id } => {
            let (tlv_type, bytes) = match raw.message {
                Some(found) => found,
                None => {
                    return None;
                },
            };
            let reply_path = match raw.reply_path {
                Some(written) => match BlindedPath::read(written.as_slice()) {
                    Some(path) => Some(path),
                    None => {
                        return None;
                    },
                },
                None => None,
            };
            Some(PeeledOnion::Receive { tlv_type, bytes, reply_path, path_id })
        },
    }
}

} // verus!
