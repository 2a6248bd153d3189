use vstd::prelude::*;

use crate::error::{
    ClientError, DatagramError, ReadStreamError, SerializationError, StreamError, WriteStreamError,
};
use crate::message::{response_view, Message, MessageView};
use crate::serialization::{decodable, decodes_to, encode_message};
use crate::stream::{frame, write_message};

verus! {

/// Pause between two polls for a reply datagram, in milliseconds.
pub const DATAGRAM_POLL_MILLIS: u64 = 100;

/// The payload of every response the server sends.
pub open spec fn pong() -> Seq<char> {
    "Pong!"@
}

/// The server's answer to a message: a response carrying the request's
/// identifier, or nothing for a message that is not a request.
pub open spec fn reply_to(m: MessageView) -> Option<MessageView> {
    match m {
        MessageView::Request { id, .. } => Some(response_view(id, pong())),
        MessageView::Response { .. } => None,
    }
}

/// The bytes that carry the reply to `m` on a stream: its frame, or nothing.
pub open spec fn reply_frame(m: MessageView) -> Seq<u8> {
    match reply_to(m) {
        Some(r) => frame(encode_message(r)),
        None => Seq::empty(),
    }
}

/// `reply` is the datagram that answers `m`.
pub open spec fn is_datagram_reply(reply: Option<Vec<u8>>, m: MessageView) -> bool {
    match reply_to(m) {
        Some(r) => reply matches Some(bytes) && bytes@ == encode_message(r),
        None => reply is None,
    }
}

/// Builds the server's answer to a message (see `reply_to`).
pub fn respond(message: &Message) -> (r: Option<Message>)
    ensures
        match reply_to(message@) {
            Some(v) => r matches Some(reply) && reply@ == v,
            None => r is None,
        },
{
    match message {
        Message::Request(request) => Some(
            Message::new_response(request.id.as_slice(), String::from_str("Pong!")),
        ),
        Message::Response(_) => None,
    }
}

/// Handles one message that the server read from a stream: appends the
/// frame of its reply, if it has one, to `out`. A message that is not a
/// request is passed over.
pub fn handle_stream_message(message: &Message, out: &mut Vec<u8>) -> (r: Result<
    (),
    WriteStreamError,
>)
    ensures
        r is Ok,
        final(out)@ == old(out)@ + reply_frame(message@),
{
    match respond(message) {
        Some(reply) => write_message(out, &reply),
        None => {
            assert(old(out)@ + reply_frame(message@) =~= old(out)@);
            Ok(())
        },
    }
}

/// Handles one datagram that the server received: decodes it and encodes
/// the reply to send back, if any. Fails, carrying the datagram, exactly
/// when it holds no message.
pub fn handle_datagram(datagram: &[u8]) -> (r: Result<Option<Vec<u8>>, DatagramError>)
    ensures
        r is Ok <==> decodable(datagram@),
        match r {
            Ok(reply) => forall|m: MessageView|
                decodes_to(datagram@, m) ==> is_datagram_reply(reply, m),
            Err(e) => match e {
                DatagramError::DeserializationFailed(
                    SerializationError::DeserializationFailed { bytes },
                ) => bytes@ == datagram@,
                _ => false,
            },
        },
{
    let message = match Message::from_bytes(datagram) {
        Ok(m) => m,
        Err(e) => return Err(DatagramError::DeserializationFailed(e)),
    };
    proof {
        crate::serialization::lemma_decoded_unique(datagram@, message@);
    }
    match respond(&message) {
        Some(reply) => match reply.as_bytes() {
            Ok(bytes) => Ok(Some(bytes)),
            Err(e) => Err(DatagramError::DeserializationFailed(e)),
        },
        None => Ok(None),
    }
}

/// Which of the three handlers of a connection finished first.
#[derive(Debug, Clone, Copy, PartialEq, Eq, Structural)]
pub enum HandlerBranch {
    Bidirectional,
    Unidirectional,
    Datagram,
}

/// Decides whether a connection's task ends when the given handler
/// finishes: a stream handler ends it, the datagram handler is raced again.
pub fn connection_task_ends(branch: HandlerBranch) -> (r: bool)
    ensures
        r == !(branch is Datagram),
{
    match branch {
        HandlerBranch::Datagram => false,
        _ => true,
    }
}

/// The state of a client session.
pub struct ClientSessionView {
    /// The request sent on every round trip.
    pub request: MessageView,
    /// How many round trips to make; `None` for no limit.
    pub count: Option<u32>,
    /// How many round trips are complete (this stops at `u32::MAX`).
    pub completed: u32,
}

/// Whether a session with `completed` round trips is over: it stops after
/// `n` round trips for a count of `Some(n)` (none at all for `Some(0)`),
/// and never for `None`.
pub open spec fn session_finished(completed: u32, count: Option<u32>) -> bool {
    count matches Some(n) && completed >= n
}

/// The client's side of a run of round trips: send the request, wait for
/// one reply, record it, and go again until the count is reached.
pub struct ClientSession {
    request: Message,
    count: Option<u32>,
    completed: u32,
}

impl View for ClientSession {
    type V = ClientSessionView;

    closed spec fn view(&self) -> ClientSessionView {
        ClientSessionView { request: self.request@, count: self.count, completed: self.completed }
    }
}

impl ClientSession {
    /// A session that repeats `request`, `count` times (`None`: until an
    /// error ends it).
    pub fn new(request: Message, count: Option<u32>) -> (r: ClientSession)
        ensures
            r@ == (ClientSessionView { request: request@, count, completed: 0 }),
    {
        ClientSession { request, count, completed: 0 }
    }

    /// Whether the session has made all its round trips.
    pub fn is_finished(&self) -> (r: bool)
        ensures
            r == session_finished(self@.completed, self@.count),
    {
        match self.count {
            Some(n) => self.completed >= n,
            None => false,
        }
    }

    /// The frame that carries the request on a stream.
    pub fn request_frame(&self) -> (r: Vec<u8>)
        ensures
            r@ == frame(encode_message(self@.request)),
    {
        let mut out: Vec<u8> = Vec::new();
        let _ = write_message(&mut out, &self.request);
        assert(out@ =~= frame(encode_message(self@.request)));
        out
    }

    /// The datagram that carries the request.
    pub fn request_datagram(&self) -> (r: Vec<u8>)
        ensures
            r@ == encode_message(self@.request),
    {
        match self.request.as_bytes() {
            Ok(bytes) => bytes,
            Err(_) => Vec::new(),
        }
    }

    /// Records the reply of a round trip: it joins the inbox, and the round
    /// trip counts as complete.
    pub fn on_response(&mut self, inbox: &mut Vec<Message>, response: Message)
        ensures
            final(inbox)@ == old(inbox)@.push(response),
            final(self)@ == (ClientSessionView {
                completed: if old(self)@.completed < u32::MAX {
                    (old(self)@.completed + 1) as u32
                } else {
                    old(self)@.completed
                },
                ..old(self)@
            }),
    {
        inbox.push(response);
        if self.completed < u32::MAX {
            self.completed = self.completed + 1;
        }
    }

    /// Records a reply datagram: a datagram that holds a message is recorded
    /// as by `on_response`; one that does not ends the session with a read
    /// error carrying it, and changes nothing.
    pub fn on_datagram(&mut self, inbox: &mut Vec<Message>, datagram: &[u8]) -> (r: Result<
        (),
        ClientError,
    >)
        ensures
            r is Ok <==> decodable(datagram@),
            r is Ok ==> {
                &&& final(inbox)@.len() == old(inbox)@.len() + 1
                &&& final(inbox)@.drop_last() == old(inbox)@
                &&& decodes_to(datagram@, final(inbox)@.last()@)
                &&& final(self)@ == (ClientSessionView {
                    completed: if old(self)@.completed < u32::MAX {
                        (old(self)@.completed + 1) as u32
                    } else {
                        old(self)@.completed
                    },
                    ..old(self)@
                })
            },
            r is Err ==> {
                &&& final(inbox)@ == old(inbox)@
                &&& final(self)@ == old(self)@
                &&& match r {
                    Err(
                        ClientError::ClientStreamError(
                            StreamError::ReadError(
                                ReadStreamError::DataDeserializationFailed(
                                    SerializationError::DeserializationFailed { bytes },
                                ),
                            ),
                        ),
                    ) => bytes@ == datagram@,
                    _ => false,
                }
            },
    {
        match Message::from_bytes(datagram) {
            Ok(m) => {
                self.on_response(inbox, m);
                assert(final(inbox)@.drop_last() =~= old(inbox)@);
                Ok(())
            },
            Err(e) => Err(
                ClientError::ClientStreamError(
                    StreamError::ReadError(ReadStreamError::DataDeserializationFailed(e)),
                ),
            ),
        }
    }
}

} // verus!
