use hmac::{Hmac, Mac};
use sha2::Sha256;
use std::collections::HashMap;
use vstd::prelude::*;
use vstd::string::*;
use vstd::utf8::encode_utf8;
use crate::card::AgentCard;
use crate::hexcodec::{hex_decode, hex_decode_bytes, hex_encode, hex_lower, law_binary_round_trip};
use crate::text::{decimal, decimal_string};

verus! {

/// The type of an A2A protocol message.
#[derive(Debug, Clone, PartialEq)]
pub enum A2AMessageType {
    Discover,
    Advertise(AgentCard),
    Query { intent: String },
    Response { result: String },
    Delegate { task: String, target: String },
    Notify { event: String },
    Subscribe { topics: Vec<String> },
    Unsubscribe,
    Heartbeat,
    Error { code: u32, message: String },
}

/// Flexible message payload.
#[derive(Debug, PartialEq)]
pub enum A2APayload {
    Text(String),
    Json(String),
    Binary(Vec<u8>),
    MultiPart(Vec<A2APayload>),
}

/// Two payloads have the same variant and content, part by part for multipart ones.
pub open spec fn same_payload(a: A2APayload, b: A2APayload) -> bool
    decreases a,
{
    match a {
        A2APayload::Text(x) => b is Text && b->Text_0@ == x@,
        A2APayload::Json(x) => b is Json && b->Json_0@ == x@,
        A2APayload::Binary(x) => b is Binary && b->Binary_0@ == x@,
        A2APayload::MultiPart(xs) => {
            &&& b is MultiPart
            &&& b->MultiPart_0@.len() == xs@.len()
            &&& forall|i: int|
                0 <= i < xs@.len() ==> same_payload(#[trigger] xs@[i], b->MultiPart_0@[i])
        },
    }
}

impl Clone for A2APayload {
    fn clone(&self) -> (copy: Self)
        ensures
            same_payload(*self, copy),
        decreases self,
    {
        match self {
            A2APayload::Text(t) => A2APayload::Text(t.clone()),
            A2APayload::Json(t) => A2APayload::Json(t.clone()),
            A2APayload::Binary(b) => A2APayload::Binary(b.clone()),
            A2APayload::MultiPart(parts) => {
                let mut copies: Vec<A2APayload> = Vec::new();
                let n = parts.len();
                for i in 0..n
                    invariant
                        n == parts.len(),
                        *self == A2APayload::MultiPart(*parts),
                        copies@.len() == i,
                        forall|j: int| 0 <= j < i ==> same_payload(#[trigger] parts@[j], copies@[j]),
                {
                    assert(decreases_to!(*self => self->MultiPart_0));
                    assert(decreases_to!(*parts => parts@));
                    assert(decreases_to!(parts@ => parts@[i as int]));
                    assert(decreases_to!(self => parts@[i as int]));
                    copies.push(parts[i].clone());
                }
                A2APayload::MultiPart(copies)
            },
        }
    }
}

impl A2APayload {
    /// Extract text content, if this is a `Text` payload.
    pub fn as_text(&self) -> (text: Option<&str>)
        ensures
            match self {
                A2APayload::Text(t) => text matches Some(s) && s@ == t@,
                _ => text is None,
            },
    {
        match self {
            A2APayload::Text(t) => Some(t.as_str()),
            _ => None,
        }
    }

    /// The JSON text, if this is a `Json` payload; parsing it into a typed value is
    /// left to the caller.
    pub fn json_text(&self) -> (text: Option<&str>)
        ensures
            match self {
                A2APayload::Json(t) => text matches Some(s) && s@ == t@,
                _ => text is None,
            },
    {
        match self {
            A2APayload::Json(t) => Some(t.as_str()),
            _ => None,
        }
    }
}

/// A single protocol message exchanged between agents.
#[derive(Debug, Clone, PartialEq)]
pub struct A2AMessage {
    pub id: String,
    pub from: String,
    pub to: String,
    pub message_type: A2AMessageType,
    pub payload: A2APayload,
    pub metadata: HashMap<String, String>,
    pub timestamp: u64,
    pub ttl: Option<u64>,
    pub signature: Option<String>,
}

/// What HMAC-SHA256 computes for a key and a message (the `hmac` crate over `sha2`'s
/// SHA-256).
pub uninterp spec fn hmac_sha256(key: Seq<u8>, data: Seq<u8>) -> Seq<u8>;

/// Calls `Hmac::<Sha256>::new_from_slice`, `Mac::update` and `Mac::finalize`: the
/// HMAC-SHA256 tag of `data` under `key`. Any key length is accepted (a long key is
/// hashed first), so the key setup never fails. The tag is that function of the key
/// and the data, and has the SHA-256 output size of 32 bytes.
#[verifier::external_body]
fn hmac_sha256_tag(key: &[u8], data: &[u8]) -> (tag: Vec<u8>)
    ensures
        tag@ == hmac_sha256(key@, data@),
        tag@.len() == 32,
{
    let mut mac = Hmac::<Sha256>::new_from_slice(key).expect("HMAC accepts keys of any length");
    mac.update(data);
    mac.finalize().into_bytes().to_vec()
}

/// The bytes of a hexadecimal signature text, or nothing when it is not valid hex.
pub open spec fn decoded_or_empty(text: Seq<char>) -> Seq<u8> {
    match hex_decode(encode_utf8(text)) {
        Some(bytes) => bytes,
        None => seq![],
    }
}

impl A2AMessage {
    /// The canonical text that a signature covers:
    /// `id|from|to|message_type_json|payload_json|timestamp`.
    pub open spec fn signing_text(self, message_type_json: Seq<char>, payload_json: Seq<char>) -> Seq<char> {
        self.id@ + seq!['|'] + self.from@ + seq!['|'] + self.to@ + seq!['|']
            + message_type_json + seq!['|'] + payload_json + seq!['|']
            + decimal(self.timestamp as nat)
    }

    /// The HMAC-SHA256 tag of the message's signing text under `key`.
    pub open spec fn tag(self, key: Seq<u8>, message_type_json: Seq<char>, payload_json: Seq<char>) -> Seq<u8> {
        hmac_sha256(key, encode_utf8(self.signing_text(message_type_json, payload_json)))
    }

    /// The same message with another signature field.
    pub open spec fn with_signature(self, signature: Option<String>) -> A2AMessage {
        A2AMessage { signature, ..self }
    }

    /// `self` is `before` signed with `key`: the signature is the lowercase hex text of
    /// the tag, and every other field is unchanged.
    pub open spec fn signed_from(self, before: A2AMessage, key: Seq<u8>, message_type_json: Seq<char>, payload_json: Seq<char>) -> bool {
        &&& self == before.with_signature(self.signature)
        &&& self.signature matches Some(sig)
        &&& sig@ == hex_lower(before.tag(key, message_type_json, payload_json))
    }

    /// The message carries a signature whose hex decoding equals the tag under `key`.
    pub open spec fn verifies(self, key: Seq<u8>, message_type_json: Seq<char>, payload_json: Seq<char>) -> bool {
        &&& self.signature matches Some(sig)
        &&& decoded_or_empty(sig@) == self.tag(key, message_type_json, payload_json)
    }

    /// The canonical string of the fields that take part in signing; the message type
    /// and payload enter as their JSON texts.
    pub fn signing_payload(&self, message_type_json: &str, payload_json: &str) -> (text: String)
        ensures
            text@ == self.signing_text(message_type_json@, payload_json@),
    {
        proof {
            reveal_strlit("|");
        }
        let mut text = String::from_str(self.id.as_str());
        text.append("|");
        text.append(self.from.as_str());
        text.append("|");
        text.append(self.to.as_str());
        text.append("|");
        text.append(message_type_json);
        text.append("|");
        text.append(payload_json);
        text.append("|");
        let stamp = decimal_string(self.timestamp);
        text.append(stamp.as_str());
        text
    }

    /// Sign this message in place with an HMAC-SHA256 key of any length;
    /// `message_type_json` and `payload_json` are the JSON texts of the message type
    /// and the payload. The signature is 64 lowercase hex digits.
    pub fn sign(&mut self, key: &[u8], message_type_json: &str, payload_json: &str)
        ensures
            final(self).signed_from(*old(self), key@, message_type_json@, payload_json@),
            final(self).signature matches Some(sig) && sig@.len() == 64,
    {
        let data = self.signing_payload(message_type_json, payload_json);
        let tag = hmac_sha256_tag(key, data.as_str().as_bytes());
        self.signature = Some(hex_encode(tag.as_slice()));
    }

    /// Verify the HMAC signature on this message under a key of any length, comparing
    /// the decoded bytes in constant time. An unsigned message, or one whose signature
    /// is not the hex text of 32 bytes, never verifies.
    pub fn verify(&self, key: &[u8], message_type_json: &str, payload_json: &str) -> (valid: bool)
        ensures
            valid == self.verifies(key@, message_type_json@, payload_json@),
            valid ==> (self.signature matches Some(sig) && hex_decode(encode_utf8(sig@)) matches Some(
                bytes,
            ) && bytes.len() == 32),
    {
        let sig = match &self.signature {
            Some(s) => s.clone(),
            None => return false,
        };
        let data = self.signing_payload(message_type_json, payload_json);
        let tag = hmac_sha256_tag(key, data.as_str().as_bytes());
        let expected = hex_encode(tag.as_slice());
        let sig_bytes = match hex_decode_bytes(sig.as_str().as_bytes()) {
            Ok(v) => v,
            Err(_) => Vec::new(),
        };
        let expected_bytes = match hex_decode_bytes(expected.as_str().as_bytes()) {
            Ok(v) => v,
            Err(_) => Vec::new(),
        };
        proof {
            law_binary_round_trip(tag@);
        }
        assert(sig_bytes@ == decoded_or_empty(sig@));
        assert(expected_bytes@ == tag@);
        if sig_bytes.len() != expected_bytes.len() {
            return false;
        }
        let n = sig_bytes.len();
        let mut acc: u8 = 0;
        for i in 0..n
            invariant
                n == sig_bytes.len(),
                n == expected_bytes.len(),
                acc == 0 <==> forall|j: int| 0 <= j < i ==> sig_bytes@[j] == expected_bytes@[j],
        {
            let a = sig_bytes[i];
            let b = expected_bytes[i];
            let next = acc | (a ^ b);
            assert(next == 0 <==> (acc == 0 && a == b)) by (bit_vector)
                requires
                    next == acc | (a ^ b),
            ;
            acc = next;
        }
        assert(acc == 0 ==> sig_bytes@ =~= expected_bytes@);
        acc == 0
    }
}

/// A message signed with a key verifies under that key with the same JSON texts.
pub proof fn law_signed_message_verifies(
    before: A2AMessage,
    after: A2AMessage,
    key: Seq<u8>,
    message_type_json: Seq<char>,
    payload_json: Seq<char>,
)
    requires
        after.signed_from(before, key, message_type_json, payload_json),
    ensures
        after.verifies(key, message_type_json, payload_json),
{
    assert(after.signing_text(message_type_json, payload_json) == before.signing_text(message_type_json, payload_json));
    law_binary_round_trip(before.tag(key, message_type_json, payload_json));
}

/// Signing twice with the same key gives the same signature text and leaves every
/// other field as the first signing left it.
pub proof fn law_sign_twice_same_signature(
    original: A2AMessage,
    once: A2AMessage,
    twice: A2AMessage,
    key: Seq<u8>,
    message_type_json: Seq<char>,
    payload_json: Seq<char>,
)
    requires
        once.signed_from(original, key, message_type_json, payload_json),
        twice.signed_from(once, key, message_type_json, payload_json),
    ensures
        twice.signature->0@ == once.signature->0@,
        twice.with_signature(None) == once.with_signature(None),
{
    assert(once.signing_text(message_type_json, payload_json) == original.signing_text(message_type_json, payload_json));
}

/// A message without a signature never verifies.
pub proof fn law_unsigned_never_verifies(
    message: A2AMessage,
    key: Seq<u8>,
    message_type_json: Seq<char>,
    payload_json: Seq<char>,
)
    requires
        message.signature is None,
    ensures
        !message.verifies(key, message_type_json, payload_json),
{
}

/// The signing text, and with it the tag, is the same for two messages that differ
/// only in message type, payload, metadata, TTL or signature (the type and payload
/// enter through their JSON texts).
pub proof fn law_signing_text_ignores_unsigned_fields(
    a: A2AMessage,
    b: A2AMessage,
    key: Seq<u8>,
    message_type_json: Seq<char>,
    payload_json: Seq<char>,
)
    requires
        a.id@ == b.id@,
        a.from@ == b.from@,
        a.to@ == b.to@,
        a.timestamp == b.timestamp,
    ensures
        a.signing_text(message_type_json, payload_json) == b.signing_text(message_type_json, payload_json),
        a.tag(key, message_type_json, payload_json) == b.tag(key, message_type_json, payload_json),
{
}

/// Whether a message verifies depends only on the fields that the signing text covers
/// (id, from, to, timestamp), the JSON texts and the signature; the TTL and metadata do
/// not take part.
pub proof fn law_verify_ignores_unsigned_fields(
    a: A2AMessage,
    b: A2AMessage,
    key: Seq<u8>,
    message_type_json: Seq<char>,
    payload_json: Seq<char>,
)
    requires
        a.id@ == b.id@,
        a.from@ == b.from@,
        a.to@ == b.to@,
        a.timestamp == b.timestamp,
        a.signature == b.signature,
    ensures
        a.verifies(key, message_type_json, payload_json) == b.verifies(key, message_type_json, payload_json),
{
    assert(a.signing_text(message_type_json, payload_json) == b.signing_text(message_type_json, payload_json));
}

} // verus!
