use vstd::bytes::{
    lemma_auto_spec_u64_to_from_le_bytes, spec_u64_from_le_bytes, spec_u64_to_le_bytes,
    u64_from_le_bytes, u64_to_le_bytes,
};
use vstd::prelude::*;
use vstd::slice::{slice_subrange, slice_to_vec};
use vstd::utf8::{
    decode_utf8, decode_utf8_encode_utf8, encode_utf8, encode_utf8_decode_utf8,
    encode_utf8_valid_utf8, valid_utf8,
};

use crate::error::SerializationError;
use crate::message::{Message, MessageType, MessageView, RequestMessage, ResponseMessage};

verus! {

// Wire format of a message. Integers are little-endian; a variant or a
// message type is a 4-byte index, and a byte field or a string is its length
// in 8 bytes followed by its bytes (a string by its UTF-8 bytes):
//
//   request:  [0u32][id][message_type][data]
//   response: [1u32][id][request_id][message_type][data]

/// `n` in 4 bytes, least significant first.
pub open spec fn le_u32_bytes(n: u32) -> Seq<u8> {
    seq![n as u8, (n >> 8) as u8, (n >> 16) as u8, (n >> 24) as u8]
}

/// The number that the first 4 bytes of `b` state, least significant first.
pub open spec fn le_u32_value(b: Seq<u8>) -> u32
    recommends
        b.len() >= 4,
{
    (b[0] as u32) | (b[1] as u32) << 8 | (b[2] as u32) << 16 | (b[3] as u32) << 24
}

proof fn lemma_le_u32()
    ensures
        forall|n: u32| #[trigger] le_u32_bytes(n).len() == 4 && le_u32_value(le_u32_bytes(n)) == n,
        forall|b: Seq<u8>| b.len() == 4 ==> #[trigger] le_u32_bytes(le_u32_value(b)) == b,
{
    assert forall|n: u32| #[trigger] le_u32_bytes(n).len() == 4 && le_u32_value(le_u32_bytes(n)) == n by {
        assert(((n as u8) as u32) | (((n >> 8) as u8) as u32) << 8 | (((n >> 16) as u8) as u32)
            << 16 | (((n >> 24) as u8) as u32) << 24 == n) by (bit_vector);
    }
    assert forall|b: Seq<u8>| b.len() == 4 implies #[trigger] le_u32_bytes(le_u32_value(b)) == b by {
        let (b0, b1, b2, b3) = (b[0], b[1], b[2], b[3]);
        let v = (b0 as u32) | (b1 as u32) << 8 | (b2 as u32) << 16 | (b3 as u32) << 24;
        assert(v as u8 == b0 && (v >> 8) as u8 == b1 && (v >> 16) as u8 == b2 && (v >> 24) as u8
            == b3) by (bit_vector)
            requires
                v == (b0 as u32) | (b1 as u32) << 8 | (b2 as u32) << 16 | (b3 as u32) << 24,
        ;
        assert(le_u32_bytes(v) =~= b);
    }
}

/// The index that stands for a message type on the wire.
pub open spec fn type_index(t: MessageType) -> u32 {
    match t {
        MessageType::Request => 0,
        MessageType::Response => 1,
    }
}

/// A byte field on the wire: its length, then its bytes.
pub open spec fn encode_field(f: Seq<u8>) -> Seq<u8> {
    spec_u64_to_le_bytes(f.len() as u64) + f
}

/// The bytes that encode a message.
pub open spec fn encode_message(m: MessageView) -> Seq<u8> {
    match m {
        MessageView::Request { id, message_type, data } => le_u32_bytes(0) + encode_field(
            id,
        ) + le_u32_bytes(type_index(message_type)) + encode_field(encode_utf8(data)),
        MessageView::Response { id, request_id, message_type, data } => le_u32_bytes(1)
            + encode_field(id) + encode_field(request_id) + le_u32_bytes(
            type_index(message_type),
        ) + encode_field(encode_utf8(data)),
    }
}

/// The encoding of the message is short enough for its length, and so the
/// length of each of its fields, to be stated in 8 bytes; this holds of every
/// message held in memory.
pub open spec fn encodable(m: MessageView) -> bool {
    encode_message(m).len() <= u64::MAX
}

/// `bytes` begin with the encoding of `m` (bytes after it are ignored).
pub open spec fn decodes_to(bytes: Seq<u8>, m: MessageView) -> bool {
    &&& encodable(m)
    &&& encode_message(m).len() <= bytes.len()
    &&& bytes.subrange(0, encode_message(m).len() as int) == encode_message(m)
}

/// `bytes` begin with the encoding of some message.
pub open spec fn decodable(bytes: Seq<u8>) -> bool {
    exists|m: MessageView| decodes_to(bytes, m)
}

spec fn parse_index(b: Seq<u8>, pos: int) -> Option<(u32, int)> {
    if 0 <= pos && pos + 4 <= b.len() {
        Some((le_u32_value(b.subrange(pos, pos + 4)), pos + 4))
    } else {
        None
    }
}

spec fn parse_type(b: Seq<u8>, pos: int) -> Option<(MessageType, int)> {
    match parse_index(b, pos) {
        Some((t, p)) => if t == 0 {
            Some((MessageType::Request, p))
        } else if t == 1 {
            Some((MessageType::Response, p))
        } else {
            None
        },
        None => None,
    }
}

spec fn parse_field(b: Seq<u8>, pos: int) -> Option<(Seq<u8>, int)> {
    if 0 <= pos && pos + 8 <= b.len() {
        let n = spec_u64_from_le_bytes(b.subrange(pos, pos + 8)) as int;
        if pos + 8 + n <= b.len() {
            Some((b.subrange(pos + 8, pos + 8 + n), pos + 8 + n))
        } else {
            None
        }
    } else {
        None
    }
}

spec fn parse_text(b: Seq<u8>, pos: int) -> Option<(Seq<char>, int)> {
    match parse_field(b, pos) {
        Some((f, p)) => if valid_utf8(f) {
            Some((decode_utf8(f), p))
        } else {
            None
        },
        None => None,
    }
}

spec fn parse_message(b: Seq<u8>) -> Option<(MessageView, int)> {
    match parse_index(b, 0) {
        None => None,
        Some((tag, end_tag)) => if tag == 0 {
            match parse_field(b, end_tag) {
                None => None,
                Some((id, end_id)) => match parse_type(b, end_id) {
                    None => None,
                    Some((t, end_type)) => match parse_text(b, end_type) {
                        None => None,
                        Some((d, end_data)) => Some(
                            (MessageView::Request { id, message_type: t, data: d }, end_data),
                        ),
                    },
                },
            }
        } else if tag == 1 {
            match parse_field(b, end_tag) {
                None => None,
                Some((id, end_id)) => match parse_field(b, end_id) {
                    None => None,
                    Some((rid, end_rid)) => match parse_type(b, end_rid) {
                        None => None,
                        Some((t, end_type)) => match parse_text(b, end_type) {
                            None => None,
                            Some((d, end_data)) => Some(
                                (
                                    MessageView::Response {
                                        id,
                                        request_id: rid,
                                        message_type: t,
                                        data: d,
                                    },
                                    end_data,
                                ),
                            ),
                        },
                    },
                },
            }
        } else {
            None
        },
    }
}

proof fn lemma_parse_index_at(b: Seq<u8>, pos: int, v: u32)
    requires
        0 <= pos,
        pos + 4 <= b.len(),
        b.subrange(pos, pos + 4) == le_u32_bytes(v),
    ensures
        parse_index(b, pos) == Some((v, pos + 4)),
{
    lemma_le_u32();
    assert(le_u32_bytes(v).len() == 4);
}

proof fn lemma_parse_field_at(b: Seq<u8>, pos: int, f: Seq<u8>)
    requires
        0 <= pos,
        f.len() <= u64::MAX,
        pos + 8 + f.len() <= b.len(),
        b.subrange(pos, pos + 8 + f.len()) == encode_field(f),
    ensures
        parse_field(b, pos) == Some((f, pos + 8 + f.len())),
{
    lemma_auto_spec_u64_to_from_le_bytes();
    assert(spec_u64_to_le_bytes(f.len() as u64).len() == 8);
    let e = encode_field(f);
    assert(b.subrange(pos, pos + 8) =~= e.subrange(0, 8));
    assert(e.subrange(0, 8) =~= spec_u64_to_le_bytes(f.len() as u64));
    assert(b.subrange(pos + 8, pos + 8 + f.len()) =~= e.subrange(8, 8 + f.len() as int));
    assert(e.subrange(8, 8 + f.len() as int) =~= f);
}

proof fn lemma_parse_text_at(b: Seq<u8>, pos: int, d: Seq<char>)
    requires
        0 <= pos,
        encode_utf8(d).len() <= u64::MAX,
        pos + 8 + encode_utf8(d).len() <= b.len(),
        b.subrange(pos, pos + 8 + encode_utf8(d).len()) == encode_field(encode_utf8(d)),
    ensures
        parse_text(b, pos) == Some((d, pos + 8 + encode_utf8(d).len())),
{
    lemma_parse_field_at(b, pos, encode_utf8(d));
    encode_utf8_valid_utf8(d);
    encode_utf8_decode_utf8(d);
}

proof fn lemma_parse_encoded_request(
    id: Seq<u8>,
    t: MessageType,
    data: Seq<char>,
    rest: Seq<u8>,
)
    requires
        encodable(MessageView::Request { id, message_type: t, data }),
    ensures
        ({
            let m = MessageView::Request { id, message_type: t, data };
            parse_message(encode_message(m) + rest) == Some((m, encode_message(m).len() as int))
        }),
{
    let m = MessageView::Request { id, message_type: t, data };
    let b = encode_message(m) + rest;
    let d = encode_utf8(data);
    lemma_le_u32();
    lemma_auto_spec_u64_to_from_le_bytes();
    let end_id = 4 + 8 + id.len() as int;
    let end_type = end_id + 4;
    let end_data = end_type + 8 + d.len() as int;
    assert(encode_message(m).len() == end_data);
    assert(b.subrange(0, 4) =~= le_u32_bytes(0));
    lemma_parse_index_at(b, 0, 0);
    assert(b.subrange(4, end_id) =~= encode_field(id));
    lemma_parse_field_at(b, 4, id);
    assert(b.subrange(end_id, end_type) =~= le_u32_bytes(type_index(t)));
    lemma_parse_index_at(b, end_id, type_index(t));
    assert(parse_type(b, end_id) == Some((t, end_type)));
    assert(b.subrange(end_type, end_data) =~= encode_field(d));
    lemma_parse_text_at(b, end_type, data);
}

proof fn lemma_parse_encoded_response(
    id: Seq<u8>,
    request_id: Seq<u8>,
    t: MessageType,
    data: Seq<char>,
    rest: Seq<u8>,
)
    requires
        encodable(MessageView::Response { id, request_id, message_type: t, data }),
    ensures
        ({
            let m = MessageView::Response { id, request_id, message_type: t, data };
            parse_message(encode_message(m) + rest) == Some((m, encode_message(m).len() as int))
        }),
{
    let m = MessageView::Response { id, request_id, message_type: t, data };
    let b = encode_message(m) + rest;
    let d = encode_utf8(data);
    lemma_le_u32();
    lemma_auto_spec_u64_to_from_le_bytes();
    let end_id = 4 + 8 + id.len() as int;
    let end_rid = end_id + 8 + request_id.len() as int;
    let end_type = end_rid + 4;
    let end_data = end_type + 8 + d.len() as int;
    assert(encode_message(m).len() == end_data);
    assert(b.subrange(0, 4) =~= le_u32_bytes(1));
    lemma_parse_index_at(b, 0, 1);
    assert(b.subrange(4, end_id) =~= encode_field(id));
    lemma_parse_field_at(b, 4, id);
    assert(b.subrange(end_id, end_rid) =~= encode_field(request_id));
    lemma_parse_field_at(b, end_id, request_id);
    assert(b.subrange(end_rid, end_type) =~= le_u32_bytes(type_index(t)));
    lemma_parse_index_at(b, end_rid, type_index(t));
    assert(parse_type(b, end_rid) == Some((t, end_type)));
    assert(b.subrange(end_type, end_data) =~= encode_field(d));
    lemma_parse_text_at(b, end_type, data);
}

/// Parsing the encoding of `m`, followed by anything, gives back `m` and the
/// length of its encoding.
proof fn lemma_parse_encoded(m: MessageView, rest: Seq<u8>)
    requires
        encodable(m),
    ensures
        parse_message(encode_message(m) + rest) == Some((m, encode_message(m).len() as int)),
{
    match m {
        MessageView::Request { id, message_type, data } => {
            lemma_parse_encoded_request(id, message_type, data, rest);
        },
        MessageView::Response { id, request_id, message_type, data } => {
            lemma_parse_encoded_response(id, request_id, message_type, data, rest);
        },
    }
}

proof fn lemma_parse_index_inv(b: Seq<u8>, pos: int)
    requires
        parse_index(b, pos) is Some,
    ensures
        ({
            let (v, p) = parse_index(b, pos)->0;
            &&& p == pos + 4
            &&& b.subrange(pos, p) == le_u32_bytes(v)
        }),
{
    lemma_le_u32();
    let s = b.subrange(pos, pos + 4);
    assert(le_u32_bytes(le_u32_value(s)) == s);
}

proof fn lemma_parse_type_inv(b: Seq<u8>, pos: int)
    requires
        parse_type(b, pos) is Some,
    ensures
        ({
            let (t, p) = parse_type(b, pos)->0;
            &&& p == pos + 4
            &&& b.subrange(pos, p) == le_u32_bytes(type_index(t))
        }),
{
    lemma_parse_index_inv(b, pos);
}

proof fn lemma_parse_field_inv(b: Seq<u8>, pos: int)
    requires
        parse_field(b, pos) is Some,
    ensures
        ({
            let (f, p) = parse_field(b, pos)->0;
            &&& f.len() <= u64::MAX
            &&& p == pos + 8 + f.len()
            &&& b.subrange(pos, p) == encode_field(f)
        }),
{
    lemma_auto_spec_u64_to_from_le_bytes();
    let s = b.subrange(pos, pos + 8);
    assert(spec_u64_to_le_bytes(spec_u64_from_le_bytes(s)) == s);
    let (f, p) = parse_field(b, pos)->0;
    assert(b.subrange(pos, p) =~= s + f);
}

proof fn lemma_parse_text_inv(b: Seq<u8>, pos: int)
    requires
        parse_text(b, pos) is Some,
    ensures
        ({
            let (d, p) = parse_text(b, pos)->0;
            &&& encode_utf8(d).len() <= u64::MAX
            &&& p == pos + 8 + encode_utf8(d).len()
            &&& b.subrange(pos, p) == encode_field(encode_utf8(d))
        }),
{
    lemma_parse_field_inv(b, pos);
    let (f, p) = parse_field(b, pos)->0;
    decode_utf8_encode_utf8(f);
}

/// What parsing accepts is the encoding of the message it returns.
proof fn lemma_parsed_is_encoded(b: Seq<u8>)
    requires
        parse_message(b) is Some,
        b.len() <= u64::MAX,
    ensures
        ({
            let (m, p) = parse_message(b)->0;
            &&& p == encode_message(m).len()
            &&& decodes_to(b, m)
        }),
{
    lemma_parse_index_inv(b, 0);
    let (tag, end_tag) = parse_index(b, 0)->0;
    let (m, p) = parse_message(b)->0;
    lemma_parse_field_inv(b, end_tag);
    let (id, end_id) = parse_field(b, end_tag)->0;
    if tag == 0 {
        lemma_parse_type_inv(b, end_id);
        let (t, end_type) = parse_type(b, end_id)->0;
        lemma_parse_text_inv(b, end_type);
        let (d, end_data) = parse_text(b, end_type)->0;
        assert(b.subrange(0, end_data) =~= b.subrange(0, end_tag) + b.subrange(end_tag, end_id) + b.subrange(end_id, end_type)
            + b.subrange(end_type, end_data));
    } else {
        lemma_parse_field_inv(b, end_id);
        let (rid, end_rid) = parse_field(b, end_id)->0;
        lemma_parse_type_inv(b, end_rid);
        let (t, end_type) = parse_type(b, end_rid)->0;
        lemma_parse_text_inv(b, end_type);
        let (d, end_data) = parse_text(b, end_type)->0;
        assert(b.subrange(0, end_data) =~= b.subrange(0, end_tag) + b.subrange(end_tag, end_id) + b.subrange(end_id, end_rid)
            + b.subrange(end_rid, end_type) + b.subrange(end_type, end_data));
    }
}

/// Bytes that begin with the encoding of `m` parse as `m`.
proof fn lemma_decodes_parses(b: Seq<u8>, m: MessageView)
    requires
        decodes_to(b, m),
    ensures
        parse_message(b) == Some((m, encode_message(m).len() as int)),
{
    let n = encode_message(m).len() as int;
    assert(b =~= encode_message(m) + b.subrange(n, b.len() as int));
    lemma_parse_encoded(m, b.subrange(n, b.len() as int));
}

/// Decoding the encoding of a message gives that message and no other.
pub proof fn lemma_round_trip(m: MessageView)
    requires
        encodable(m),
    ensures
        decodes_to(encode_message(m), m),
        forall|other: MessageView| decodes_to(encode_message(m), other) ==> other == m,
{
    assert(encode_message(m).subrange(0, encode_message(m).len() as int) =~= encode_message(m));
    assert forall|other: MessageView| decodes_to(encode_message(m), other) implies other == m by {
        lemma_decodes_parses(encode_message(m), other);
        lemma_decodes_parses(encode_message(m), m);
    }
}

/// A message is never read from a proper prefix of its own encoding: such
/// bytes begin with no encoded message at all.
pub proof fn lemma_truncated_rejected(m: MessageView, k: int)
    requires
        encodable(m),
        0 <= k < encode_message(m).len(),
    ensures
        !decodable(encode_message(m).subrange(0, k)),
{
    let t = encode_message(m).subrange(0, k);
    assert forall|other: MessageView| !decodes_to(t, other) by {
        if decodes_to(t, other) {
            let n = encode_message(other).len() as int;
            assert(encode_message(m).subrange(0, n) =~= t.subrange(0, n));
            assert(decodes_to(encode_message(m), other));
            lemma_round_trip(m);
        }
    }
}

/// Bytes whose leading variant index is neither 0 nor 1 hold no message.
pub proof fn lemma_unknown_variant_rejected(b: Seq<u8>)
    requires
        b.len() >= 4,
        le_u32_value(b.subrange(0, 4)) > 1,
    ensures
        !decodable(b),
{
    assert forall|other: MessageView| !decodes_to(b, other) by {
        if decodes_to(b, other) {
            lemma_decodes_parses(b, other);
        }
    }
}

/// Bytes begin with the encoding of at most one message.
pub proof fn lemma_decoded_unique(b: Seq<u8>, m: MessageView)
    requires
        decodes_to(b, m),
    ensures
        forall|other: MessageView| decodes_to(b, other) ==> other == m,
{
    assert forall|other: MessageView| decodes_to(b, other) implies other == m by {
        lemma_decodes_parses(b, other);
        lemma_decodes_parses(b, m);
    }
}

/// Bytes whose first byte is neither 0 nor 1 hold no message: every
/// encoding begins with the variant index 0 or 1, least significant byte
/// first.
pub proof fn lemma_leading_byte_rejected(b: Seq<u8>)
    requires
        b.len() >= 1,
        b[0] >= 2,
    ensures
        !decodable(b),
{
    assert forall|other: MessageView| !decodes_to(b, other) by {
        if decodes_to(b, other) {
            let e = encode_message(other);
            assert(e[0] == b.subrange(0, e.len() as int)[0]);
            match other {
                MessageView::Request { .. } => assert(e[0] == le_u32_bytes(0)[0]),
                MessageView::Response { .. } => assert(e[0] == le_u32_bytes(1)[0]),
            }
        }
    }
}

/// A request whose payload field holds bytes that are not valid UTF-8 is
/// rejected, whatever follows it.
pub proof fn lemma_invalid_request_text_rejected(
    id: Seq<u8>,
    t: MessageType,
    text: Seq<u8>,
    rest: Seq<u8>,
)
    requires
        id.len() <= u64::MAX,
        text.len() <= u64::MAX,
        !valid_utf8(text),
    ensures
        !decodable(
            le_u32_bytes(0) + encode_field(id) + le_u32_bytes(type_index(t)) + encode_field(text)
                + rest,
        ),
{
    let b = le_u32_bytes(0) + encode_field(id) + le_u32_bytes(type_index(t)) + encode_field(text)
        + rest;
    lemma_le_u32();
    lemma_auto_spec_u64_to_from_le_bytes();
    assert(spec_u64_to_le_bytes(id.len() as u64).len() == 8);
    assert(spec_u64_to_le_bytes(text.len() as u64).len() == 8);
    let end_id = 4 + 8 + id.len() as int;
    let end_type = end_id + 4;
    let end_text = end_type + 8 + text.len() as int;
    assert(b.subrange(0, 4) =~= le_u32_bytes(0));
    lemma_parse_index_at(b, 0, 0);
    assert(b.subrange(4, end_id) =~= encode_field(id));
    lemma_parse_field_at(b, 4, id);
    assert(b.subrange(end_id, end_type) =~= le_u32_bytes(type_index(t)));
    lemma_parse_index_at(b, end_id, type_index(t));
    assert(parse_type(b, end_id) == Some((t, end_type)));
    assert(b.subrange(end_type, end_text) =~= encode_field(text));
    lemma_parse_field_at(b, end_type, text);
    assert(parse_message(b) is None);
    assert forall|other: MessageView| !decodes_to(b, other) by {
        if decodes_to(b, other) {
            lemma_decodes_parses(b, other);
        }
    }
}

/// A response whose payload field holds bytes that are not valid UTF-8 is
/// rejected, whatever follows it.
pub proof fn lemma_invalid_response_text_rejected(
    id: Seq<u8>,
    request_id: Seq<u8>,
    t: MessageType,
    text: Seq<u8>,
    rest: Seq<u8>,
)
    requires
        id.len() <= u64::MAX,
        request_id.len() <= u64::MAX,
        text.len() <= u64::MAX,
        !valid_utf8(text),
    ensures
        !decodable(
            le_u32_bytes(1) + encode_field(id) + encode_field(request_id) + le_u32_bytes(
                type_index(t),
            ) + encode_field(text) + rest,
        ),
{
    let b = le_u32_bytes(1) + encode_field(id) + encode_field(request_id) + le_u32_bytes(
        type_index(t),
    ) + encode_field(text) + rest;
    lemma_le_u32();
    lemma_auto_spec_u64_to_from_le_bytes();
    assert(spec_u64_to_le_bytes(id.len() as u64).len() == 8);
    assert(spec_u64_to_le_bytes(request_id.len() as u64).len() == 8);
    assert(spec_u64_to_le_bytes(text.len() as u64).len() == 8);
    let end_id = 4 + 8 + id.len() as int;
    let end_rid = end_id + 8 + request_id.len() as int;
    let end_type = end_rid + 4;
    let end_text = end_type + 8 + text.len() as int;
    assert(b.subrange(0, 4) =~= le_u32_bytes(1));
    lemma_parse_index_at(b, 0, 1);
    assert(b.subrange(4, end_id) =~= encode_field(id));
    lemma_parse_field_at(b, 4, id);
    assert(b.subrange(end_id, end_rid) =~= encode_field(request_id));
    lemma_parse_field_at(b, end_id, request_id);
    assert(b.subrange(end_rid, end_type) =~= le_u32_bytes(type_index(t)));
    lemma_parse_index_at(b, end_rid, type_index(t));
    assert(parse_type(b, end_rid) == Some((t, end_type)));
    assert(b.subrange(end_type, end_text) =~= encode_field(text));
    lemma_parse_field_at(b, end_type, text);
    assert(parse_message(b) is None);
    assert forall|other: MessageView| !decodes_to(b, other) by {
        if decodes_to(b, other) {
            lemma_decodes_parses(b, other);
        }
    }
}

fn push_index(out: &mut Vec<u8>, v: u32)
    ensures
        final(out)@ == old(out)@ + le_u32_bytes(v),
{
    out.push(v as u8);
    out.push((v >> 8) as u8);
    out.push((v >> 16) as u8);
    out.push((v >> 24) as u8);
    assert(final(out)@ =~= old(out)@ + le_u32_bytes(v));
}

fn push_field(out: &mut Vec<u8>, f: &[u8])
    ensures
        f@.len() <= u64::MAX,
        final(out)@ == old(out)@ + encode_field(f@),
{
    let mut prefix = u64_to_le_bytes(f.len() as u64);
    out.append(&mut prefix);
    let mut body = slice_to_vec(f);
    out.append(&mut body);
    assert(final(out)@ =~= old(out)@ + encode_field(f@));
}

fn message_type_index(t: MessageType) -> (r: u32)
    ensures
        r == type_index(t),
{
    match t {
        MessageType::Request => 0,
        MessageType::Response => 1,
    }
}

/// Encodes a message in the wire format; encoding cannot fail.
pub fn serialize_message(message: &Message) -> (r: Result<Vec<u8>, SerializationError>)
    ensures
        encodable(message@),
        match r {
            Ok(bytes) => bytes@ == encode_message(message@),
            Err(_) => false,
        },
{
    let mut out: Vec<u8> = Vec::new();
    match message {
        Message::Request(request) => {
            push_index(&mut out, 0);
            push_field(&mut out, request.id.as_slice());
            push_index(&mut out, message_type_index(request.message_type));
            push_field(&mut out, request.data.as_str().as_bytes());
            assert(out@ =~= encode_message(message@));
        },
        Message::Response(response) => {
            push_index(&mut out, 1);
            push_field(&mut out, response.id.as_slice());
            push_field(&mut out, response.request_id.as_slice());
            push_index(&mut out, message_type_index(response.message_type));
            push_field(&mut out, response.data.as_str().as_bytes());
            assert(out@ =~= encode_message(message@));
        },
    }
    assert(out@.len() == out.len());
    Ok(out)
}

/// Relies on `String::from_utf8`: it succeeds exactly on valid UTF-8, and the
/// string then holds the characters that the bytes encode.
#[verifier::external_body]
fn string_from_utf8(bytes: Vec<u8>) -> (r: Option<String>)
    ensures
        r is Some <==> valid_utf8(bytes@),
        r matches Some(s) ==> s@ == decode_utf8(bytes@),
{
    String::from_utf8(bytes).ok()
}

fn read_index(b: &[u8], pos: usize) -> (r: Option<(u32, usize)>)
    ensures
        match r {
            Some((v, p)) => parse_index(b@, pos as int) == Some((v, p as int)),
            None => parse_index(b@, pos as int) is None,
        },
{
    if pos <= b.len() && b.len() - pos >= 4 {
        let v = (b[pos] as u32) | (b[pos + 1] as u32) << 8 | (b[pos + 2] as u32) << 16 | (b[pos
            + 3] as u32) << 24;
        assert(b@.subrange(pos as int, pos + 4)[0] == b@[pos as int]);
        Some((v, pos + 4))
    } else {
        None
    }
}

fn read_type(b: &[u8], pos: usize) -> (r: Option<(MessageType, usize)>)
    ensures
        match r {
            Some((t, p)) => parse_type(b@, pos as int) == Some((t, p as int)),
            None => parse_type(b@, pos as int) is None,
        },
{
    match read_index(b, pos) {
        Some((v, p)) => if v == 0 {
            Some((MessageType::Request, p))
        } else if v == 1 {
            Some((MessageType::Response, p))
        } else {
            None
        },
        None => None,
    }
}

fn read_field(b: &[u8], pos: usize) -> (r: Option<(Vec<u8>, usize)>)
    ensures
        match r {
            Some((f, p)) => parse_field(b@, pos as int) == Some((f@, p as int)),
            None => parse_field(b@, pos as int) is None,
        },
{
    if pos <= b.len() && b.len() - pos >= 8 {
        let n = u64_from_le_bytes(slice_subrange(b, pos, pos + 8));
        let start = pos + 8;
        if n <= (b.len() - start) as u64 {
            let end = start + n as usize;
            Some((slice_to_vec(slice_subrange(b, start, end)), end))
        } else {
            None
        }
    } else {
        None
    }
}

fn read_text(b: &[u8], pos: usize) -> (r: Option<(String, usize)>)
    ensures
        match r {
            Some((d, p)) => parse_text(b@, pos as int) == Some((d@, p as int)),
            None => parse_text(b@, pos as int) is None,
        },
{
    match read_field(b, pos) {
        Some((f, p)) => match string_from_utf8(f) {
            Some(d) => Some((d, p)),
            None => None,
        },
        None => None,
    }
}

fn read_message(b: &[u8]) -> (r: Option<Message>)
    ensures
        match r {
            Some(m) => parse_message(b@) matches Some((v, _)) && v == m@,
            None => parse_message(b@) is None,
        },
{
    let (tag, end_tag) = match read_index(b, 0) {
        Some(x) => x,
        None => return None,
    };
    if tag == 0 {
        let (id, end_id) = match read_field(b, end_tag) {
            Some(x) => x,
            None => return None,
        };
        let (message_type, end_type) = match read_type(b, end_id) {
            Some(x) => x,
            None => return None,
        };
        let (data, _end_data) = match read_text(b, end_type) {
            Some(x) => x,
            None => return None,
        };
        Some(Message::Request(RequestMessage { id, message_type, data }))
    } else if tag == 1 {
        let (id, end_id) = match read_field(b, end_tag) {
            Some(x) => x,
            None => return None,
        };
        let (request_id, end_rid) = match read_field(b, end_id) {
            Some(x) => x,
            None => return None,
        };
        let (message_type, end_type) = match read_type(b, end_rid) {
            Some(x) => x,
            None => return None,
        };
        let (data, _end_data) = match read_text(b, end_type) {
            Some(x) => x,
            None => return None,
        };
        Some(Message::Response(ResponseMessage { id, request_id, message_type, data }))
    } else {
        None
    }
}

/// Decodes the message that `bytes` begin with; bytes after it are ignored.
/// Fails, carrying `bytes`, exactly when they begin with no encoded message.
pub fn deserialize_message(bytes: &[u8]) -> (r: Result<Message, SerializationError>)
    ensures
        match r {
            Ok(m) => decodes_to(bytes@, m@),
            Err(e) => !decodable(bytes@) && match e {
                SerializationError::DeserializationFailed { bytes: b } => b@ == bytes@,
                _ => false,
            },
        },
{
    match read_message(bytes) {
        Some(m) => {
            assert(bytes@.len() == bytes.len());
            proof {
                lemma_parsed_is_encoded(bytes@);
            }
            Ok(m)
        },
        None => {
            proof {
                assert forall|other: MessageView| !decodes_to(bytes@, other) by {
                    if decodes_to(bytes@, other) {
                        lemma_decodes_parses(bytes@, other);
                    }
                }
            }
            Err(SerializationError::DeserializationFailed { bytes: slice_to_vec(bytes) })
        },
    }
}

} // verus!
