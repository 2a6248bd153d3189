use vstd::prelude::*;
use vstd::slice::{slice_subrange, slice_to_vec};

use crate::error::{ReadStreamError, SerializationError, WriteStreamError};
use crate::message::{Message, MessageView};
use crate::serialization::{decodable, decodes_to, encodable, encode_message, lemma_round_trip};

verus! {

// On an ordered stream each message travels as a frame: the length of its
// encoding in 8 bytes, most significant first, then the encoding itself.

/// `n` in 8 bytes, most significant first.
pub open spec fn be_u64_bytes(n: u64) -> Seq<u8> {
    seq![
        (n >> 56) as u8,
        (n >> 48) as u8,
        (n >> 40) as u8,
        (n >> 32) as u8,
        (n >> 24) as u8,
        (n >> 16) as u8,
        (n >> 8) as u8,
        n as u8,
    ]
}

/// The number that the first 8 bytes of `b` state, most significant first.
pub open spec fn be_u64_value(b: Seq<u8>) -> u64
    recommends
        b.len() >= 8,
{
    (b[0] as u64) << 56 | (b[1] as u64) << 48 | (b[2] as u64) << 40 | (b[3] as u64) << 32 | (
    b[4] as u64) << 24 | (b[5] as u64) << 16 | (b[6] as u64) << 8 | (b[7] as u64)
}

/// The frame that carries `body`.
pub open spec fn frame(body: Seq<u8>) -> Seq<u8> {
    be_u64_bytes(body.len() as u64) + body
}

/// The body of the first frame that `b` holds in full, and the number of
/// bytes that frame takes; `None` while the frame is incomplete.
pub open spec fn next_frame(b: Seq<u8>) -> Option<(Seq<u8>, int)> {
    if b.len() >= 8 && 8 + be_u64_value(b) <= b.len() {
        let n = be_u64_value(b) as int;
        Some((b.subrange(8, 8 + n), 8 + n))
    } else {
        None
    }
}

/// How many more bytes `b` needs before its first frame is complete.
pub open spec fn bytes_wanted_of(b: Seq<u8>) -> int {
    if b.len() < 8 {
        8 - b.len()
    } else if 8 + be_u64_value(b) <= b.len() {
        0
    } else {
        8 + be_u64_value(b) - b.len()
    }
}

proof fn lemma_be_u64_round_trip(n: u64)
    ensures
        be_u64_bytes(n).len() == 8,
        be_u64_value(be_u64_bytes(n)) == n,
{
    assert(((((n >> 56) as u8) as u64) << 56 | (((n >> 48) as u8) as u64) << 48 | (((n
        >> 40) as u8) as u64) << 40 | (((n >> 32) as u8) as u64) << 32 | (((n >> 24) as u8) as u64)
        << 24 | (((n >> 16) as u8) as u64) << 16 | (((n >> 8) as u8) as u64) << 8 | ((n as u8)
        as u64)) == n) by (bit_vector);
}

/// A frame read back from a stream holds exactly the encoding that was
/// written, whatever follows it; and that encoding decodes to the message
/// that was written and to no other.
pub proof fn lemma_frame_round_trip(m: MessageView, rest: Seq<u8>)
    requires
        encodable(m),
    ensures
        next_frame(frame(encode_message(m)) + rest) == Some(
            (encode_message(m), 8 + encode_message(m).len() as int),
        ),
        decodes_to(encode_message(m), m),
        forall|other: MessageView| decodes_to(encode_message(m), other) ==> other == m,
{
    let body = encode_message(m);
    let b = frame(body) + rest;
    lemma_be_u64_round_trip(body.len() as u64);
    assert(b.subrange(0, 8) =~= be_u64_bytes(body.len() as u64));
    assert(be_u64_value(b) == be_u64_value(b.subrange(0, 8)));
    assert(b.subrange(8, 8 + body.len() as int) =~= body);
    lemma_round_trip(m);
}

fn be_u64_to_bytes(n: u64) -> (r: Vec<u8>)
    ensures
        r@ == be_u64_bytes(n),
{
    let mut v: Vec<u8> = Vec::new();
    v.push((n >> 56) as u8);
    v.push((n >> 48) as u8);
    v.push((n >> 40) as u8);
    v.push((n >> 32) as u8);
    v.push((n >> 24) as u8);
    v.push((n >> 16) as u8);
    v.push((n >> 8) as u8);
    v.push(n as u8);
    assert(v@ =~= be_u64_bytes(n));
    v
}

fn be_u64_from_bytes(b: &[u8]) -> (r: u64)
    requires
        b@.len() >= 8,
    ensures
        r == be_u64_value(b@),
{
    (b[0] as u64) << 56 | (b[1] as u64) << 48 | (b[2] as u64) << 40 | (b[3] as u64) << 32 | (
    b[4] as u64) << 24 | (b[5] as u64) << 16 | (b[6] as u64) << 8 | (b[7] as u64)
}

/// Appends the frame of `message` to `out`, the bytes to be written to an
/// ordered stream; encoding cannot fail.
pub fn write_message(out: &mut Vec<u8>, message: &Message) -> (r: Result<(), WriteStreamError>)
    ensures
        r is Ok,
        encodable(message@),
        final(out)@ == old(out)@ + frame(encode_message(message@)),
{
    let mut body = match message.as_bytes() {
        Ok(bytes) => bytes,
        Err(e) => return Err(WriteStreamError::DataSerializationFailed(e)),
    };
    let mut prefix = be_u64_to_bytes(body.len() as u64);
    out.append(&mut prefix);
    out.append(&mut body);
    assert(final(out)@ =~= old(out)@ + frame(encode_message(message@)));
    Ok(())
}

/// Collects the bytes read from an ordered stream and cuts them into frames.
pub struct MessageReader {
    buffer: Vec<u8>,
}

impl View for MessageReader {
    type V = Seq<u8>;

    /// The bytes received and not yet taken out as a frame.
    closed spec fn view(&self) -> Seq<u8> {
        self.buffer@
    }
}

impl MessageReader {
    /// A reader that holds no bytes yet.
    pub fn new() -> (r: MessageReader)
        ensures
            r@ == Seq::<u8>::empty(),
    {
        MessageReader { buffer: Vec::new() }
    }

    /// Takes in bytes read from the stream.
    pub fn push_bytes(&mut self, chunk: &[u8])
        ensures
            final(self)@ == old(self)@ + chunk@,
    {
        let mut more = slice_to_vec(chunk);
        self.buffer.append(&mut more);
    }

    /// How many more bytes must be read before the next frame is complete:
    /// first its 8-byte length, then its body. Zero exactly when a whole
    /// frame is held.
    pub fn bytes_wanted(&self) -> (r: u64)
        ensures
            r == bytes_wanted_of(self@),
            r == 0 <==> next_frame(self@) is Some,
    {
        let len = self.buffer.len();
        if len < 8 {
            (8 - len) as u64
        } else {
            let n = be_u64_from_bytes(self.buffer.as_slice());
            let body_held = (len - 8) as u64;
            if n <= body_held {
                0
            } else {
                n - body_held
            }
        }
    }

    /// Takes the next whole frame out of the reader and decodes its body.
    /// Returns `None`, and keeps every byte, while no whole frame is held.
    /// A body that does not decode is a `DataDeserializationFailed` that
    /// carries it; the frame is taken out either way.
    pub fn read_next_message(&mut self) -> (r: Option<Result<Message, ReadStreamError>>)
        ensures
            match next_frame(old(self)@) {
                None => r is None && final(self)@ == old(self)@,
                Some((body, used)) => {
                    &&& final(self)@ == old(self)@.subrange(used, old(self)@.len() as int)
                    &&& match r {
                        Some(Ok(m)) => decodes_to(body, m@),
                        Some(Err(e)) => !decodable(body) && match e {
                            ReadStreamError::DataDeserializationFailed(
                                SerializationError::DeserializationFailed { bytes: b },
                            ) => b@ == body,
                            _ => false,
                        },
                        None => false,
                    }
                },
            },
    {
        if self.bytes_wanted() != 0 {
            return None;
        }
        let len = self.buffer.len();
        let n = be_u64_from_bytes(self.buffer.as_slice());
        let end = 8 + n as usize;
        let result = {
            let body = slice_subrange(self.buffer.as_slice(), 8, end);
            match Message::from_bytes(body) {
                Ok(m) => Ok(m),
                Err(e) => Err(ReadStreamError::DataDeserializationFailed(e)),
            }
        };
        let rest = slice_to_vec(slice_subrange(self.buffer.as_slice(), end, len));
        self.buffer = rest;
        Some(result)
    }
}

} // verus!
