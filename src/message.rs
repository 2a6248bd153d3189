use vstd::prelude::*;
use vstd::utf8::encode_utf8;

use crate::error::SerializationError;
use crate::hash::{hash, sha256_of};
use crate::serialization::{
    decodable, decodes_to, deserialize_message, encodable, encode_message, serialize_message,
};

verus! {

/// The kind that a message declares itself to be.
#[derive(Debug, Clone, Copy, PartialEq, Eq, Structural)]
pub enum MessageType {
    Request,
    Response,
}

/// A request: its payload and the identifier derived from it.
#[derive(Debug, Clone, PartialEq, Eq)]
pub struct RequestMessage {
    pub id: Vec<u8>,
    pub message_type: MessageType,
    pub data: String,
}

/// A response: its payload, the identifier derived from it, and the
/// identifier of the request it answers.
#[derive(Debug, Clone, PartialEq, Eq)]
pub struct ResponseMessage {
    pub id: Vec<u8>,
    pub request_id: Vec<u8>,
    pub message_type: MessageType,
    pub data: String,
}

/// A message of the protocol.
#[derive(Debug, Clone, PartialEq, Eq)]
pub enum Message {
    Request(RequestMessage),
    Response(ResponseMessage),
}

/// The mathematical value of a message: byte sequences for identifiers and
/// the character sequence of the payload.
pub enum MessageView {
    Request { id: Seq<u8>, message_type: MessageType, data: Seq<char> },
    Response { id: Seq<u8>, request_id: Seq<u8>, message_type: MessageType, data: Seq<char> },
}

impl MessageView {
    pub open spec fn data(self) -> Seq<char> {
        match self {
            MessageView::Request { data, .. } => data,
            MessageView::Response { data, .. } => data,
        }
    }

    pub open spec fn id(self) -> Seq<u8> {
        match self {
            MessageView::Request { id, .. } => id,
            MessageView::Response { id, .. } => id,
        }
    }
}

impl View for Message {
    type V = MessageView;

    open spec fn view(&self) -> MessageView {
        match self {
            Message::Request(r) => MessageView::Request {
                id: r.id@,
                message_type: r.message_type,
                data: r.data@,
            },
            Message::Response(r) => MessageView::Response {
                id: r.id@,
                request_id: r.request_id@,
                message_type: r.message_type,
                data: r.data@,
            },
        }
    }
}

/// The identifier of a payload: the digest of its UTF-8 bytes.
pub open spec fn id_of(data: Seq<char>) -> Seq<u8> {
    sha256_of(encode_utf8(data))
}

/// The request that `new_request(data)` builds.
pub open spec fn request_view(data: Seq<char>) -> MessageView {
    MessageView::Request { id: id_of(data), message_type: MessageType::Request, data }
}

/// The response that `new_response(request_id, data)` builds.
pub open spec fn response_view(request_id: Seq<u8>, data: Seq<char>) -> MessageView {
    MessageView::Response {
        id: id_of(data),
        request_id,
        message_type: MessageType::Response,
        data,
    }
}

/// Derives the identifier of a payload from its bytes: equal bytes give
/// equal identifiers, always 32 bytes long.
pub fn generate_id(data: &[u8]) -> (r: Vec<u8>)
    ensures
        r@ == sha256_of(data@),
        r@.len() == 32,
{
    hash(data)
}

impl RequestMessage {
    /// Builds a request whose identifier is derived from `data`.
    pub fn new(data: String) -> (r: RequestMessage)
        ensures
            r.id@ == id_of(data@),
            r.message_type == MessageType::Request,
            r.data@ == data@,
    {
        let id = generate_id(data.as_str().as_bytes());
        RequestMessage { id, message_type: MessageType::Request, data }
    }
}

impl ResponseMessage {
    /// Builds a response to the request identified by `request_id`, taken
    /// as given; its own identifier is derived from `data`.
    pub fn new(request_id: &[u8], data: String) -> (r: ResponseMessage)
        ensures
            r.id@ == id_of(data@),
            r.request_id@ == request_id@,
            r.message_type == MessageType::Response,
            r.data@ == data@,
    {
        let id = generate_id(data.as_str().as_bytes());
        let request_id = vstd::slice::slice_to_vec(request_id);
        ResponseMessage { id, request_id, message_type: MessageType::Response, data }
    }
}

impl Message {
    /// The payload of the message, whichever its variant.
    pub fn get_data(&self) -> (r: String)
        ensures
            r@ == self@.data(),
    {
        match self {
            Message::Request(request) => request.data.clone(),
            Message::Response(response) => response.data.clone(),
        }
    }

    /// The message in the wire format; encoding cannot fail.
    pub fn as_bytes(&self) -> (r: Result<Vec<u8>, SerializationError>)
        ensures
            encodable(self@),
            match r {
                Ok(bytes) => bytes@ == encode_message(self@),
                Err(_) => false,
            },
    {
        serialize_message(self)
    }

    /// Decodes the message that `bytes` begin with; bytes after it are
    /// ignored. Fails, carrying `bytes`, exactly when they begin with no
    /// encoded message.
    pub fn from_bytes(bytes: &[u8]) -> (r: Result<Message, SerializationError>)
        ensures
            match r {
                Ok(m) => decodes_to(bytes@, m@),
                Err(e) => !decodable(bytes@) && match e {
                    SerializationError::DeserializationFailed { bytes: b } => b@ == bytes@,
                    _ => false,
                },
            },
    {
        deserialize_message(bytes)
    }

    /// Builds a request whose identifier is derived from `data`.
    pub fn new_request(data: String) -> (r: Message)
        ensures
            r@ == request_view(data@),
    {
        Message::Request(RequestMessage::new(data))
    }

    /// Builds a response to the request identified by `request_id`.
    pub fn new_response(request_id: &[u8], data: String) -> (r: Message)
        ensures
            r@ == response_view(request_id@, data@),
    {
        Message::Response(ResponseMessage::new(request_id, data))
    }
}

/// Identifiers are a function of the payload: two requests built from equal
/// payloads carry equal identifiers.
pub proof fn lemma_request_id_deterministic(a: Seq<char>, b: Seq<char>)
    requires
        a == b,
    ensures
        request_view(a).id() == request_view(b).id(),
{
}

} // verus!
