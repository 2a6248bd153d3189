use vstd::prelude::*;

use crate::message::Message;

verus! {

/// A failure while encoding or decoding a message.
#[derive(Debug, Clone, PartialEq, Eq)]
pub enum SerializationError {
    /// The message could not be encoded; it is carried for diagnostics.
    SerializationFailed { message: Message },
    /// The bytes do not hold an encoded message; they are carried for diagnostics.
    DeserializationFailed { bytes: Vec<u8> },
}

/// A failure of the datagram path.
#[derive(Debug, Clone, PartialEq, Eq)]
pub enum DatagramError {
    DeserializationFailed(SerializationError),
    ConnectionClosed,
    UnsupportedByPeer,
    QuicError,
}

/// A failure while reading a message from a stream.
#[derive(Debug, Clone, PartialEq, Eq)]
pub enum ReadStreamError {
    /// The connection closed before enough bytes were read.
    ConnectionClosed,
    /// The stream stopped before enough bytes were read.
    StreamStopped,
    /// A whole frame arrived but its body does not decode.
    DataDeserializationFailed(SerializationError),
    DatagramError(DatagramError),
}

/// A failure while writing a message to a stream.
#[derive(Debug, Clone, PartialEq, Eq)]
pub enum WriteStreamError {
    /// The connection closed before all bytes were written.
    ConnectionClosed,
    /// The stream stopped before all bytes were written.
    StreamStopped,
    DataSerializationFailed(SerializationError),
    DatagramError(DatagramError),
}

/// A failure on a stream, in either direction.
#[derive(Debug, Clone, PartialEq, Eq)]
pub enum StreamError {
    ReadError(ReadStreamError),
    WriteError(WriteStreamError),
}

/// A failure of a connection, or of establishing one.
#[allow(non_camel_case_types)]
#[derive(Debug, Clone, PartialEq, Eq)]
pub enum ConnectionError {
    ClosedByPeer { code: u64, reason: Vec<u8> },
    ClosedLocally,
    TimedOut,
    HTTP3 { code: u64, reason: String },
    QuicError,
    /// Connecting failed more often than the configured maximum allows.
    MaxRetriesReached { retry_count: u16 },
}

/// A failure while setting up the client.
#[derive(Debug, Clone, PartialEq, Eq)]
pub enum ClientSetupError {
    EndpointCreationError,
}

/// Any failure of the client.
#[derive(Debug, Clone, PartialEq, Eq)]
pub enum ClientError {
    SetupError(ClientSetupError),
    ClientStreamError(StreamError),
    ConnectionError(ConnectionError),
}

/// A failure while setting up the server.
#[derive(Debug, Clone, PartialEq, Eq)]
pub enum ServerSetupError {
    EndpointCreationError,
    CertificateSetupError { cert_path: String, key_path: String },
}

/// Any failure of the server.
#[derive(Debug, Clone, PartialEq, Eq)]
pub enum ServerError {
    SetupError(ServerSetupError),
    ServerStreamError(StreamError),
    ConnectionError(ConnectionError),
}

} // verus!
