use vstd::prelude::*;

use crate::error::{ClientError, ConnectionError, ServerError, ServerSetupError};
use crate::message::Message;

verus! {

/// The transport primitive that a client session runs over.
#[derive(Debug, Clone, Copy, PartialEq, Eq, Structural)]
pub enum PingClientConnectionType {
    /// One bidirectional stream.
    Bidirectional,
    /// A pair of unidirectional streams, one each way.
    Unidirectional,
    /// Unordered, unreliable datagrams.
    Datagram,
}

/// What a client connects to and how it behaves.
#[derive(Debug, Clone)]
pub struct PingClientConfig {
    /// Address of the server, in textual form.
    pub host: String,
    pub port: u16,
    pub connection_type: PingClientConnectionType,
    /// How many failed connection attempts are retried.
    pub max_retries: u16,
    /// Pause between connection attempts, in milliseconds.
    pub retry_timeout_millis: u64,
}

/// A client, with the inbox of every response it has received.
pub struct PingClient {
    pub config: PingClientConfig,
    pub inbox: Vec<Message>,
}

/// What the client does after a failed connection attempt, given the number
/// of failures counted before it: count it and try again while the count
/// stays within the maximum, else give up. The count that is reported
/// stops at `u16::MAX`.
pub open spec fn retry_step(retries: u16, max_retries: u16) -> Result<u16, ConnectionError> {
    if retries < max_retries {
        Ok((retries + 1) as u16)
    } else {
        Err(
            ConnectionError::MaxRetriesReached {
                retry_count: if retries < u16::MAX {
                    (retries + 1) as u16
                } else {
                    retries
                },
            },
        )
    }
}

/// The outcome of `failures` failed connection attempts in a row, starting
/// from a count of zero: the count to go on with, or the error given up with.
pub open spec fn retries_after(failures: nat, max_retries: u16) -> Result<u16, ConnectionError>
    decreases failures,
{
    if failures == 0 {
        Ok(0)
    } else {
        match retries_after((failures - 1) as nat, max_retries) {
            Ok(r) => retry_step(r, max_retries),
            Err(e) => Err(e),
        }
    }
}

/// Against a peer that never answers, the client makes `max_retries + 1`
/// attempts: each of the first `max_retries` failures is followed by another
/// attempt, and the next failure ends in `MaxRetriesReached` with a count of
/// `max_retries + 1` (for a maximum below `u16::MAX`).
pub proof fn lemma_retry_exhaustion(max_retries: u16)
    ensures
        forall|k: nat| k <= max_retries ==> retries_after(k, max_retries) == Ok::<u16, ConnectionError>(k as u16),
        retries_after(max_retries as nat + 1, max_retries) == Err::<u16, ConnectionError>(
            ConnectionError::MaxRetriesReached {
                retry_count: if max_retries < u16::MAX {
                    (max_retries + 1) as u16
                } else {
                    max_retries
                },
            },
        ),
{
    assert forall|k: nat| k <= max_retries implies retries_after(k, max_retries) == Ok::<
        u16,
        ConnectionError,
    >(k as u16) by {
        lemma_retries_within(k, max_retries);
    }
    lemma_retries_within(max_retries as nat, max_retries);
}

proof fn lemma_retries_within(k: nat, max_retries: u16)
    requires
        k <= max_retries,
    ensures
        retries_after(k, max_retries) == Ok::<u16, ConnectionError>(k as u16),
    decreases k,
{
    if k > 0 {
        lemma_retries_within((k - 1) as nat, max_retries);
    }
}

/// Decides what follows a failed connection attempt, given the number of
/// failures counted before it (see `retry_step`).
pub fn next_retry(retries: u16, max_retries: u16) -> (r: Result<u16, ConnectionError>)
    ensures
        r == retry_step(retries, max_retries),
{
    if retries < max_retries {
        Ok(retries + 1)
    } else if retries < u16::MAX {
        Err(ConnectionError::MaxRetriesReached { retry_count: retries + 1 })
    } else {
        Err(ConnectionError::MaxRetriesReached { retry_count: retries })
    }
}

impl PingClient {
    /// A client with the given configuration and an empty inbox.
    pub fn new(config: PingClientConfig) -> (r: PingClient)
        ensures
            r.config == config,
            r.inbox@ == Seq::<Message>::empty(),
    {
        PingClient { config, inbox: Vec::new() }
    }

    /// Every response received so far, in the order of arrival.
    pub fn get_indbox(&self) -> (r: &Vec<Message>)
        ensures
            r@ == self.inbox@,
    {
        &self.inbox
    }

    /// Decides what follows a failed connection attempt under this client's
    /// maximum: the new count of failures, or the error to give up with.
    pub fn on_connect_failure(&self, retries: u16) -> (r: Result<u16, ClientError>)
        ensures
            match retry_step(retries, self.config.max_retries) {
                Ok(n) => r == Ok::<u16, ClientError>(n),
                Err(e) => r == Err::<u16, ClientError>(ClientError::ConnectionError(e)),
            },
    {
        match next_retry(retries, self.config.max_retries) {
            Ok(n) => Ok(n),
            Err(e) => Err(ClientError::ConnectionError(e)),
        }
    }
}

/// Where a server listens and the files of its certificate.
#[derive(Debug, Clone)]
pub struct PongServerConfig {
    /// Address to listen on, in textual form.
    pub host: String,
    pub port: u16,
    pub certificate_path: String,
    pub certificate_key_path: String,
}

/// A server.
pub struct PongServer {
    pub config: PongServerConfig,
}

impl PongServer {
    /// A server with the given configuration.
    pub fn new(config: PongServerConfig) -> (r: PongServer)
        ensures
            r.config == config,
    {
        PongServer { config }
    }

    /// The error for a certificate that could not be loaded; it names both
    /// files.
    pub fn certificate_error(&self) -> (r: ServerError)
        ensures
            match r {
                ServerError::SetupError(
                    ServerSetupError::CertificateSetupError { cert_path, key_path },
                ) => cert_path@ == self.config.certificate_path@ && key_path@
                    == self.config.certificate_key_path@,
                _ => false,
            },
    {
        ServerError::SetupError(
            ServerSetupError::CertificateSetupError {
                cert_path: self.config.certificate_path.clone(),
                key_path: self.config.certificate_key_path.clone(),
            },
        )
    }
}

/// Decides what the accept loop does once the transport's accept returns:
/// go on after a connection, and stop with `ClosedLocally` when no more
/// connections will come.
pub fn on_accept(accepted: bool) -> (r: Result<(), ServerError>)
    ensures
        accepted ==> r is Ok,
        !accepted ==> r == Err::<(), ServerError>(
            ServerError::ConnectionError(ConnectionError::ClosedLocally),
        ),
{
    if accepted {
        Ok(())
    } else {
        Err(ServerError::ConnectionError(ConnectionError::ClosedLocally))
    }
}

} // verus!
