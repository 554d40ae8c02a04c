//! What a hop reads under its layer: typed records, the routing
//! instructions sealed for that hop, and the payload built from both.
//!
//! A record is an eight-byte type, a two-byte length and that many bytes of
//! value. A forwarding hop's payload holds one record, the sealed
//! instructions. The payload of the hop that receives holds an optional
//! reply path, the sealed instructions and the message, in this order.
//! Whether a hop forwards or receives is told by its instructions alone.

use crate::bytes::{
    array32_at, array33_at, be_u16, be_u64, bytes_eq, lemma_be_u16_round_trip,
    lemma_be_u64_round_trip, push_be_u16, push_be_u64, push_bytes, read_be_u16, read_be_u64,
    slice_to_vec, u16_from_be, u64_from_be,
};
use crate::crypto::{hmac_sha256, hmac_sha256_of};
use crate::keys::PublicKey;
use crate::packet::{derive_mu, derive_rho, mu_of, rho_of};
use crate::stream::{apply_keystream, lemma_stream_xor_involution, stream_xor};
use vstd::prelude::*;

verus! {

/// Record type of a reply path.
pub const TLV_REPLY_PATH: u64 = 2;

/// Record type of the sealed instructions.
pub const TLV_ENCRYPTED_DATA: u64 = 4;

/// Instruction type of the next node's identity.
pub const TLV_NEXT_NODE_ID: u64 = 4;

/// Instruction type of a path identifier.
pub const TLV_PATH_ID: u64 = 6;

/// Instruction type of a blinding point that replaces the derived one.
pub const TLV_NEXT_BLINDING_OVERRIDE: u64 = 8;

/// The lowest record type that a message may have.
pub const MIN_MESSAGE_TYPE: u64 = 64;

/// Length of the tag that closes sealed instructions.
pub const SEAL_TAG_LEN: usize = 16;

/// Bytes that a record takes before its value.
pub const TLV_HEADER_LEN: usize = 10;

/// The longest value that a record can hold.
pub const MAX_TLV_VALUE_LEN: usize = 0xffff;

/// The bytes of one record.
#[verifier::opaque]
pub open spec fn tlv_bytes(tlv_type: u64, value: Seq<u8>) -> Seq<u8> {
    be_u64(tlv_type) + be_u16(value.len() as u16) + value
}

/// A record found in a byte string, and where it ends.
pub ghost struct TlvSpec {
    pub tlv_type: u64,
    pub value: Seq<u8>,
    pub end: int,
}

/// The record that starts at `at` in `data`, if a whole one does.
#[verifier::opaque]
pub open spec fn tlv_at(data: Seq<u8>, at: int) -> Option<TlvSpec> {
    if at < 0 || at + 10 > data.len() {
        None
    } else {
        let n = u16_from_be(data[at + 8], data[at + 9]) as int;
        if at + 10 + n > data.len() {
            None
        } else {
            Some(
                TlvSpec {
                    tlv_type: u64_from_be(data.subrange(at, at + 8)),
                    value: data.subrange(at + 10, at + 10 + n),
                    end: at + 10 + n,
                },
            )
        }
    }
}

/// A record written between `before` and `after` is the record read where
/// `before` ends.
pub proof fn lemma_tlv_at_written(before: Seq<u8>, tlv_type: u64, value: Seq<u8>, after: Seq<u8>)
    requires
        value.len() <= 0xffff,
    ensures
        tlv_bytes(tlv_type, value).len() == 10 + value.len(),
        tlv_at(before + tlv_bytes(tlv_type, value) + after, before.len() as int) == Some(
            TlvSpec { tlv_type, value, end: (before.len() + 10 + value.len()) as int },
        ),
{
    reveal(tlv_bytes);
    reveal(tlv_at);
    let data = before + tlv_bytes(tlv_type, value) + after;
    let at = before.len() as int;
    lemma_be_u64_round_trip(tlv_type);
    lemma_be_u16_round_trip(value.len() as u16);
    assert(data.subrange(at, at + 8) =~= be_u64(tlv_type));
    assert(data[at + 8] == be_u16(value.len() as u16)[0]);
    assert(data[at + 9] == be_u16(value.len() as u16)[1]);
    assert(data.subrange(at + 10, at + 10 + value.len()) =~= value);
}

/// A record takes ten bytes besides its value.
pub proof fn lemma_tlv_bytes_len(tlv_type: u64, value: Seq<u8>)
    ensures
        tlv_bytes(tlv_type, value).len() == 10 + value.len(),
{
    reveal(tlv_bytes);
}

/// A record read from a byte string.
pub struct Tlv {
    pub tlv_type: u64,
    pub value: Vec<u8>,
    pub end: usize,
}

impl View for Tlv {
    type V = TlvSpec;

    open spec fn view(&self) -> TlvSpec {
        TlvSpec { tlv_type: self.tlv_type, value: self.value@, end: self.end as int }
    }
}

/// Reads the record that starts at `at`.
pub fn read_tlv(data: &[u8], at: usize) -> (found: Option<Tlv>)
    ensures
        match found {
            Some(tlv) => tlv_at(data@, at as int) == Some(tlv@),
            None => tlv_at(data@, at as int) is None,
        },
{
    reveal(tlv_at);
    let len = data.len();
    if at > len || len - at < TLV_HEADER_LEN {
        return None;
    }
    let tlv_type = read_be_u64(data, at);
    let n = read_be_u16(data, at + 8) as usize;
    if len - at - TLV_HEADER_LEN < n {
        return None;
    }
    let value = slice_to_vec(data, at + TLV_HEADER_LEN, at + TLV_HEADER_LEN + n);
    Some(Tlv { tlv_type, value, end: at + TLV_HEADER_LEN + n })
}

/// Appends one record to `out`.
pub fn write_tlv(out: &mut Vec<u8>, tlv_type: u64, value: &[u8])
    requires
        value@.len() <= 0xffff,
    ensures
        final(out)@ == old(out)@ + tlv_bytes(tlv_type, value@),
{
    reveal(tlv_bytes);
    push_be_u64(out, tlv_type);
    push_be_u16(out, value.len() as u16);
    push_bytes(out, value);
    assert(out@ =~= old(out)@ + tlv_bytes(tlv_type, value@));
}

/// `plain` sealed for the holder of `shared`: encrypted, and closed with a
/// tag over the ciphertext.
pub open spec fn seal_spec(plain: Seq<u8>, shared: Seq<u8>) -> Seq<u8> {
    let cipher = stream_xor(plain, rho_of(shared), 0);
    cipher + hmac_sha256_of(mu_of(shared), cipher)@.subrange(0, 16)
}

/// What the holder of `shared` finds in `sealed`, if the tag is right.
pub open spec fn open_spec(sealed: Seq<u8>, shared: Seq<u8>) -> Option<Seq<u8>> {
    if sealed.len() < 16 {
        None
    } else {
        let cipher = sealed.subrange(0, sealed.len() - 16);
        let tag = sealed.subrange(sealed.len() - 16, sealed.len() as int);
        if hmac_sha256_of(mu_of(shared), cipher)@.subrange(0, 16) != tag {
            None
        } else {
            Some(stream_xor(cipher, rho_of(shared), 0))
        }
    }
}

/// Opening what was sealed with the same secret gives the plain text back.
pub proof fn lemma_open_sealed(plain: Seq<u8>, shared: Seq<u8>)
    ensures
        open_spec(seal_spec(plain, shared), shared) == Some(plain),
        seal_spec(plain, shared).len() == plain.len() + 16,
{
    let cipher = stream_xor(plain, rho_of(shared), 0);
    let sealed = seal_spec(plain, shared);
    assert(sealed.subrange(0, sealed.len() - 16) =~= cipher);
    assert(sealed.subrange(sealed.len() - 16, sealed.len() as int) =~= hmac_sha256_of(
        mu_of(shared),
        cipher,
    )@.subrange(0, 16));
    lemma_stream_xor_involution(plain, rho_of(shared), 0);
}

/// Seals `plain` for the holder of `shared`.
pub fn seal(plain: &[u8], shared: &[u8; 32]) -> (sealed: Vec<u8>)
    ensures
        sealed@ == seal_spec(plain@, shared@),
{
    let rho = derive_rho(shared);
    let mu = derive_mu(shared);
    let mut sealed: Vec<u8> = Vec::new();
    push_bytes(&mut sealed, plain);
    assert(sealed@ =~= plain@);
    let len: usize = sealed.len();
    apply_keystream(&mut sealed, &rho, 0);
    let tag = hmac_sha256(mu.as_slice(), sealed.as_slice());
    let short = slice_to_vec(tag.as_slice(), 0, SEAL_TAG_LEN);
    push_bytes(&mut sealed, short.as_slice());
    sealed
}

/// Opens `sealed` with `shared`; nothing comes out where the tag is wrong.
pub fn open(sealed: &[u8], shared: &[u8; 32]) -> (plain: Option<Vec<u8>>)
    ensures
        match plain {
            Some(found) => open_spec(sealed@, shared@) == Some(found@),
            None => open_spec(sealed@, shared@) is None,
        },
{
    let len = sealed.len();
    if len < SEAL_TAG_LEN {
        return None;
    }
    let rho = derive_rho(shared);
    let mu = derive_mu(shared);
    let mut cipher = slice_to_vec(sealed, 0, len - SEAL_TAG_LEN);
    let tag = slice_to_vec(sealed, len - SEAL_TAG_LEN, len);
    let expected = hmac_sha256(mu.as_slice(), cipher.as_slice());
    let short = slice_to_vec(expected.as_slice(), 0, SEAL_TAG_LEN);
    if !bytes_eq(short.as_slice(), tag.as_slice()) {
        return None;
    }
    apply_keystream(&mut cipher, &rho, 0);
    Some(cipher)
}

/// The routing instructions of one hop.
#[derive(Clone, Copy, Debug, PartialEq, Eq)]
pub enum ControlTlvs {
    /// Hand the message on to `next_node_id`, with the given blinding point
    /// in place of the derived one where there is one.
    Forward { next_node_id: PublicKey, next_blinding_override: Option<PublicKey> },
    /// The message is for this node.
    Receive { path_id: Option<[u8; 32]> },
}

/// Routing instructions as plain values.
pub ghost enum ControlSpec {
    Forward { next_node_id: Seq<u8>, next_blinding_override: Option<Seq<u8>> },
    Receive { path_id: Option<Seq<u8>> },
}

impl View for ControlTlvs {
    type V = ControlSpec;

    open spec fn view(&self) -> ControlSpec {
        match *self {
            ControlTlvs::Forward { next_node_id, next_blinding_override } => ControlSpec::Forward {
                next_node_id: next_node_id@,
                next_blinding_override: match next_blinding_override {
                    Some(point) => Some(point@),
                    None => None,
                },
            },
            ControlTlvs::Receive { path_id } => ControlSpec::Receive {
                path_id: match path_id {
                    Some(id) => Some(id@),
                    None => None,
                },
            },
        }
    }
}

/// Whether the fields of `control` have the lengths of keys and identifiers.
pub open spec fn control_wf(control: ControlSpec) -> bool {
    match control {
        ControlSpec::Forward { next_node_id, next_blinding_override } => {
            &&& next_node_id.len() == 33
            &&& next_blinding_override matches Some(point) ==> point.len() == 33
        },
        ControlSpec::Receive { path_id } => path_id matches Some(id) ==> id.len() == 32,
    }
}

/// The bytes of routing instructions before they are sealed.
pub open spec fn control_bytes(control: ControlSpec) -> Seq<u8> {
    match control {
        ControlSpec::Forward { next_node_id, next_blinding_override } => tlv_bytes(4, next_node_id)
            + match next_blinding_override {
            Some(point) => tlv_bytes(8, point),
            None => Seq::empty(),
        },
        ControlSpec::Receive { path_id } => match path_id {
            Some(id) => tlv_bytes(6, id),
            None => Seq::empty(),
        },
    }
}

/// The routing instructions that `data` holds, if it holds any: nothing or a
/// path identifier for a receiving hop; a next node, perhaps followed by a
/// blinding point, for a forwarding hop.
pub open spec fn decode_control_spec(data: Seq<u8>) -> Option<ControlSpec> {
    if data.len() == 0 {
        Some(ControlSpec::Receive { path_id: None })
    } else {
        match tlv_at(data, 0) {
            None => None,
            Some(first) => if first.tlv_type == 6 {
                if first.value.len() == 32 && first.end == data.len() {
                    Some(ControlSpec::Receive { path_id: Some(first.value) })
                } else {
                    None
                }
            } else if first.tlv_type == 4 && first.value.len() == 33 {
                if first.end == data.len() {
                    Some(
                        ControlSpec::Forward {
                            next_node_id: first.value,
                            next_blinding_override: None,
                        },
                    )
                } else {
                    match tlv_at(data, first.end) {
                        None => None,
                        Some(second) => if second.tlv_type == 8 && second.value.len() == 33
                            && second.end == data.len() {
                            Some(
                                ControlSpec::Forward {
                                    next_node_id: first.value,
                                    next_blinding_override: Some(second.value),
                                },
                            )
                        } else {
                            None
                        },
                    }
                }
            } else {
                None
            },
        }
    }
}

/// Reading back the bytes of routing instructions gives the instructions.
pub proof fn lemma_decode_control_bytes(control: ControlSpec)
    requires
        control_wf(control),
    ensures
        decode_control_spec(control_bytes(control)) == Some(control),
{
    let empty = Seq::<u8>::empty();
    match control {
        ControlSpec::Forward { next_node_id, next_blinding_override } => {
            match next_blinding_override {
                Some(point) => {
                    lemma_tlv_at_written(empty, 4, next_node_id, tlv_bytes(8, point));
                    lemma_tlv_at_written(tlv_bytes(4, next_node_id), 8, point, empty);
                    assert(empty + tlv_bytes(4, next_node_id) + tlv_bytes(8, point)
                        =~= control_bytes(control));
                    assert(tlv_bytes(4, next_node_id) + tlv_bytes(8, point) + empty
                        =~= control_bytes(control));
                },
                None => {
                    lemma_tlv_at_written(empty, 4, next_node_id, empty);
                    assert(empty + tlv_bytes(4, next_node_id) + empty =~= control_bytes(control));
                },
            }
        },
        ControlSpec::Receive { path_id } => {
            match path_id {
                Some(id) => {
                    lemma_tlv_at_written(empty, 6, id, empty);
                    assert(empty + tlv_bytes(6, id) + empty =~= control_bytes(control));
                },
                None => {},
            }
        },
    }
}

/// Bytes that routing instructions take before they are sealed.
pub open spec fn control_len(control: ControlSpec) -> nat {
    match control {
        ControlSpec::Forward { next_blinding_override, .. } => if next_blinding_override is Some {
            86
        } else {
            43
        },
        ControlSpec::Receive { path_id } => if path_id is Some {
            42
        } else {
            0
        },
    }
}

/// Well-formed routing instructions take the bytes that `control_len`
/// gives.
pub proof fn lemma_control_bytes_len(control: ControlSpec)
    requires
        control_wf(control),
    ensures
        control_bytes(control).len() == control_len(control),
{
    match control {
        ControlSpec::Forward { next_node_id, next_blinding_override } => {
            lemma_tlv_bytes_len(4, next_node_id);
            match next_blinding_override {
                Some(point) => {
                    lemma_tlv_bytes_len(8, point);
                },
                None => {},
            }
        },
        ControlSpec::Receive { path_id } => {
            match path_id {
                Some(id) => {
                    lemma_tlv_bytes_len(6, id);
                },
                None => {},
            }
        },
    }
}

/// Writes routing instructions as bytes.
pub fn encode_control(control: &ControlTlvs) -> (out: Vec<u8>)
    ensures
        out@ == control_bytes(control@),
        control_wf(control@),
{
    let mut out: Vec<u8> = Vec::new();
    match control {
        ControlTlvs::Forward { next_node_id, next_blinding_override } => {
            write_tlv(&mut out, TLV_NEXT_NODE_ID, next_node_id.bytes.as_slice());
            match next_blinding_override {
                Some(point) => {
                    write_tlv(&mut out, TLV_NEXT_BLINDING_OVERRIDE, point.bytes.as_slice());
                },
                None => {},
            }
            assert(out@ =~= control_bytes(control@));
        },
        ControlTlvs::Receive { path_id } => {
            match path_id {
                Some(id) => {
                    write_tlv(&mut out, TLV_PATH_ID, id.as_slice());
                },
                None => {},
            }
            assert(out@ =~= control_bytes(control@));
        },
    }
    out
}

/// Reads routing instructions from bytes.
pub fn decode_control(data: &[u8]) -> (control: Option<ControlTlvs>)
    ensures
        match control {
            Some(found) => decode_control_spec(data@) == Some(found@),
            None => decode_control_spec(data@) is None,
        },
{
    let len = data.len();
    if len == 0 {
        return Some(ControlTlvs::Receive { path_id: None });
    }
    let first = match read_tlv(data, 0) {
        Some(first) => first,
        None => {
            return None;
        },
    };
    if first.tlv_type == TLV_PATH_ID {
        if first.value.len() == 32 && first.end == len {
            let id = array32_at(first.value.as_slice(), 0);
            assert(id@ =~= first.value@);
            return Some(ControlTlvs::Receive { path_id: Some(id) });
        }
        return None;
    }
    if first.tlv_type != TLV_NEXT_NODE_ID || first.value.len() != 33 {
        return None;
    }
    let next_node_id = PublicKey { bytes: array33_at(first.value.as_slice(), 0) };
    assert(next_node_id@ =~= first.value@);
    if first.end == len {
        return Some(ControlTlvs::Forward { next_node_id, next_blinding_override: None });
    }
    let second = match read_tlv(data, first.end) {
        Some(second) => second,
        None => {
            return None;
        },
    };
    if second.tlv_type == TLV_NEXT_BLINDING_OVERRIDE && second.value.len() == 33 && second.end
        == len {
        let point = PublicKey { bytes: array33_at(second.value.as_slice(), 0) };
        assert(point@ =~= second.value@);
        return Some(ControlTlvs::Forward { next_node_id, next_blinding_override: Some(point) });
    }
    None
}

/// The records of a hop's payload, before the instructions are opened.
pub ghost struct RawPayloadSpec {
    pub reply_path: Option<Seq<u8>>,
    pub sealed: Seq<u8>,
    pub message: Option<(u64, Seq<u8>)>,
}

/// Whether every value of `raw` fits a record and the message type is one
/// that a message may have.
pub open spec fn raw_payload_wf(raw: RawPayloadSpec) -> bool {
    &&& raw.reply_path matches Some(path) ==> path.len() <= 0xffff
    &&& raw.sealed.len() <= 0xffff
    &&& raw.message matches Some(message) ==> message.0 >= 64 && message.1.len() <= 0xffff
}

/// The bytes of a hop's payload.
pub open spec fn raw_payload_bytes(raw: RawPayloadSpec) -> Seq<u8> {
    (match raw.reply_path {
        Some(path) => tlv_bytes(2, path),
        None => Seq::empty(),
    }) + tlv_bytes(4, raw.sealed) + (match raw.message {
        Some(message) => tlv_bytes(message.0, message.1),
        None => Seq::empty(),
    })
}

/// Bytes that a hop's payload takes.
pub open spec fn raw_payload_len(raw: RawPayloadSpec) -> nat {
    (match raw.reply_path {
        Some(path) => 10 + path.len(),
        None => 0,
    }) + 10 + raw.sealed.len() + (match raw.message {
        Some(message) => 10 + message.1.len(),
        None => 0,
    })
}

/// A payload takes ten bytes for each of its records besides their values.
pub proof fn lemma_raw_payload_bytes_len(raw: RawPayloadSpec)
    ensures
        raw_payload_bytes(raw).len() == raw_payload_len(raw),
{
    lemma_tlv_bytes_len(4, raw.sealed);
    match raw.reply_path {
        Some(path) => {
            lemma_tlv_bytes_len(2, path);
        },
        None => {},
    }
    match raw.message {
        Some(message) => {
            lemma_tlv_bytes_len(message.0, message.1);
        },
        None => {},
    }
}

/// The message record that starts at `at`, which must be the last record of
/// `data`; no message where `data` ends at `at`.
pub open spec fn message_at(data: Seq<u8>, at: int) -> Option<Option<(u64, Seq<u8>)>> {
    if at == data.len() {
        Some(None)
    } else {
        match tlv_at(data, at) {
            Some(last) => if last.tlv_type >= 64 && last.end == data.len() {
                Some(Some((last.tlv_type, last.value)))
            } else {
                None
            },
            None => None,
        }
    }
}

/// The records that `data` holds, if it is a hop's payload: an optional
/// reply path, the sealed instructions, an optional message, and no more.
pub open spec fn parse_raw_payload(data: Seq<u8>) -> Option<RawPayloadSpec> {
    match tlv_at(data, 0) {
        None => None,
        Some(first) => if first.tlv_type == 2 {
            match tlv_at(data, first.end) {
                None => None,
                Some(second) => if second.tlv_type == 4 {
                    match message_at(data, second.end) {
                        Some(message) => Some(
                            RawPayloadSpec {
                                reply_path: Some(first.value),
                                sealed: second.value,
                                message,
                            },
                        ),
                        None => None,
                    }
                } else {
                    None
                },
            }
        } else if first.tlv_type == 4 {
            match message_at(data, first.end) {
                Some(message) => Some(
                    RawPayloadSpec { reply_path: None, sealed: first.value, message },
                ),
                None => None,
            }
        } else {
            None
        },
    }
}

/// Reading back the bytes of a payload gives its records.
pub proof fn lemma_parse_raw_payload_bytes(raw: RawPayloadSpec)
    requires
        raw_payload_wf(raw),
    ensures
        parse_raw_payload(raw_payload_bytes(raw)) == Some(raw),
{
    let empty = Seq::<u8>::empty();
    let data = raw_payload_bytes(raw);
    let head = match raw.reply_path {
        Some(path) => tlv_bytes(2, path),
        None => empty,
    };
    let tail = match raw.message {
        Some(message) => tlv_bytes(message.0, message.1),
        None => empty,
    };
    let sealed = tlv_bytes(4, raw.sealed);
    assert(data =~= head + sealed + tail);
    lemma_tlv_at_written(head, 4, raw.sealed, tail);
    match raw.reply_path {
        Some(path) => {
            lemma_tlv_at_written(empty, 2, path, sealed + tail);
            assert(empty + tlv_bytes(2, path) + (sealed + tail) =~= data);
        },
        None => {},
    }
    match raw.message {
        Some(message) => {
            lemma_tlv_at_written(head + sealed, message.0, message.1, empty);
            assert(head + sealed + tlv_bytes(message.0, message.1) + empty =~= data);
        },
        None => {},
    }
    assert(message_at(data, (head.len() + sealed.len()) as int) == Some(raw.message));
}

/// The records of a hop's payload.
pub struct RawPayload {
    pub reply_path: Option<Vec<u8>>,
    pub sealed: Vec<u8>,
    pub message: Option<(u64, Vec<u8>)>,
}

impl View for RawPayload {
    type V = RawPayloadSpec;

    open spec fn view(&self) -> RawPayloadSpec {
        RawPayloadSpec {
            reply_path: match self.reply_path {
                Some(path) => Some(path@),
                None => None,
            },
            sealed: self.sealed@,
            message: match self.message {
                Some(message) => Some((message.0, message.1@)),
                None => None,
            },
        }
    }
}

/// Writes a hop's payload, or nothing where a value is too long for a
/// record or the message type is reserved.
pub fn encode_raw_payload(raw: &RawPayload) -> (out: Option<Vec<u8>>)
    ensures
        match out {
            Some(bytes) => raw_payload_wf(raw@) && bytes@ == raw_payload_bytes(raw@),
            None => !raw_payload_wf(raw@),
        },
{
    let mut out: Vec<u8> = Vec::new();
    match &raw.reply_path {
        Some(path) => {
            if path.len() > MAX_TLV_VALUE_LEN {
                return None;
            }
            write_tlv(&mut out, TLV_REPLY_PATH, path.as_slice());
        },
        None => {},
    }
    if raw.sealed.len() > MAX_TLV_VALUE_LEN {
        return None;
    }
    write_tlv(&mut out, TLV_ENCRYPTED_DATA, raw.sealed.as_slice());
    match &raw.message {
        Some(message) => {
            if message.0 < MIN_MESSAGE_TYPE || message.1.len() > MAX_TLV_VALUE_LEN {
                return None;
            }
            write_tlv(&mut out, message.0, message.1.as_slice());
        },
        None => {},
    }
    assert(out@ =~= raw_payload_bytes(raw@));
    Some(out)
}

/// Reads the message record that must end `data`, if there is one.
fn read_message(data: &[u8], at: usize) -> (found: Option<Option<(u64, Vec<u8>)>>)
    ensures
        match found {
            Some(Some(message)) => message_at(data@, at as int) == Some(
                Some((message.0, message.1@)),
            ),
            Some(None) => message_at(data@, at as int) == Some(None::<(u64, Seq<u8>)>),
            None => message_at(data@, at as int) is None,
        },
{
    if at == data.len() {
        return Some(None);
    }
    match read_tlv(data, at) {
        Some(last) => {
            if last.tlv_type >= MIN_MESSAGE_TYPE && last.end == data.len() {
                Some(Some((last.tlv_type, last.value)))
            } else {
                None
            }
        },
        None => None,
    }
}

/// Reads the records of a hop's payload.
pub fn decode_raw_payload(data: &[u8]) -> (raw: Option<RawPayload>)
    ensures
        match raw {
            Some(found) => parse_raw_payload(data@) == Some(found@),
            None => parse_raw_payload(data@) is None,
        },
{
    let first = match read_tlv(data, 0) {
        Some(first) => first,
        None => {
            return None;
        },
    };
    if first.tlv_type == TLV_REPLY_PATH {
        let second = match read_tlv(data, first.end) {
            Some(second) => second,
            None => {
                return None;
            },
        };
        if second.tlv_type != TLV_ENCRYPTED_DATA {
            return None;
        }
        match read_message(data, second.end) {
            Some(message) => Some(
                RawPayload { reply_path: Some(first.value), sealed: second.value, message },
            ),
            None => None,
        }
    } else if first.tlv_type == TLV_ENCRYPTED_DATA {
        match read_message(data, first.end) {
            Some(message) => Some(RawPayload { reply_path: None, sealed: first.value, message }),
            None => None,
        }
    } else {
        None
    }
}

} // verus!
