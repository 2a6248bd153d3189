use pingpong::connection::{
    next_retry, on_accept, PingClient, PingClientConfig, PingClientConnectionType, PongServer,
    PongServerConfig,
};
use pingpong::error::{
    ClientError, ConnectionError, DatagramError, ReadStreamError, SerializationError, ServerError,
    ServerSetupError, StreamError,
};
use pingpong::message::Message;
use pingpong::session::{
    connection_task_ends, handle_datagram, handle_stream_message, respond, ClientSession,
    HandlerBranch,
};
use pingpong::stream::MessageReader;

fn request_id(m: &Message) -> Vec<u8> {
    match m {
        Message::Request(r) => r.id.clone(),
        Message::Response(r) => r.id.clone(),
    }
}

#[test]
fn server_answers_requests_with_pong() {
    let request = Message::new_request("Ping!".to_string());
    let reply = respond(&request).unwrap();
    assert_eq!(reply, Message::new_response(&request_id(&request), "Pong!".to_string()));
    let response = Message::new_response(&[1], "Pong!".to_string());
    assert_eq!(respond(&response), None);
}

#[test]
fn server_ignores_responses_on_streams() {
    let mut out = Vec::new();
    handle_stream_message(&Message::new_response(&[1], "x".to_string()), &mut out).unwrap();
    assert!(out.is_empty());
}

#[test]
fn server_rejects_a_corrupt_datagram() {
    let junk = vec![9u8, 9, 9];
    assert_eq!(
        handle_datagram(&junk),
        Err(DatagramError::DeserializationFailed(
            SerializationError::DeserializationFailed { bytes: junk.clone() }
        ))
    );
    let response = Message::new_response(&[1], "x".to_string()).as_bytes().unwrap();
    assert_eq!(handle_datagram(&response), Ok(None));
}

/// Client and server exchange three round trips over one bidirectional
/// stream, modelled as the two byte directions of that stream.
#[test]
fn bidirectional_scenario_three_round_trips() {
    let request = Message::new_request("Ping!".to_string());
    let mut session = ClientSession::new(request.clone(), Some(3));
    let mut inbox = Vec::new();
    let mut server_reader = MessageReader::new();
    let mut client_reader = MessageReader::new();
    let mut rounds = 0;
    while !session.is_finished() {
        server_reader.push_bytes(&session.request_frame());
        let received = server_reader.read_next_message().unwrap().unwrap();
        let mut to_client = Vec::new();
        handle_stream_message(&received, &mut to_client).unwrap();
        client_reader.push_bytes(&to_client);
        let response = client_reader.read_next_message().unwrap().unwrap();
        session.on_response(&mut inbox, response);
        rounds += 1;
    }
    assert_eq!(rounds, 3);
    assert_eq!(inbox.len(), 3);
    for message in &inbox {
        assert_eq!(message.get_data(), "Pong!");
        match message {
            Message::Response(r) => assert_eq!(r.request_id, request_id(&request)),
            _ => panic!("expected a response"),
        }
    }
}

#[test]
fn datagram_scenario_three_round_trips() {
    let request = Message::new_request("Ping!".to_string());
    let mut session = ClientSession::new(request, Some(3));
    let mut inbox = Vec::new();
    while !session.is_finished() {
        let reply = handle_datagram(&session.request_datagram()).unwrap().unwrap();
        session.on_datagram(&mut inbox, &reply).unwrap();
    }
    assert_eq!(inbox.len(), 3);
    assert!(inbox.iter().all(|m| m.get_data() == "Pong!"));
}

#[test]
fn client_rejects_a_corrupt_reply_datagram() {
    let mut session = ClientSession::new(Message::new_request("Ping!".to_string()), None);
    let mut inbox = Vec::new();
    let junk = vec![1u8, 0, 0, 0];
    assert_eq!(
        session.on_datagram(&mut inbox, &junk),
        Err(ClientError::ClientStreamError(StreamError::ReadError(
            ReadStreamError::DataDeserializationFailed(SerializationError::DeserializationFailed {
                bytes: junk.clone()
            })
        )))
    );
    assert!(inbox.is_empty());
    assert!(!session.is_finished());
}

#[test]
fn sessions_stop_after_their_count() {
    let reply = Message::new_response(&[1], "Pong!".to_string());
    let mut inbox = Vec::new();
    let zero = ClientSession::new(Message::new_request("a".to_string()), Some(0));
    assert!(zero.is_finished());

    let mut two = ClientSession::new(Message::new_request("a".to_string()), Some(2));
    assert!(!two.is_finished());
    two.on_response(&mut inbox, reply.clone());
    assert!(!two.is_finished());
    two.on_response(&mut inbox, reply.clone());
    assert!(two.is_finished());

    let mut endless = ClientSession::new(Message::new_request("a".to_string()), None);
    for _ in 0..10 {
        endless.on_response(&mut inbox, reply.clone());
        assert!(!endless.is_finished());
    }
    assert_eq!(inbox.len(), 12);
}

#[test]
fn only_stream_handlers_end_a_connection() {
    assert!(connection_task_ends(HandlerBranch::Bidirectional));
    assert!(connection_task_ends(HandlerBranch::Unidirectional));
    assert!(!connection_task_ends(HandlerBranch::Datagram));
}

#[test]
fn accept_loop_stops_when_closed_locally() {
    assert_eq!(on_accept(true), Ok(()));
    assert_eq!(
        on_accept(false),
        Err(ServerError::ConnectionError(ConnectionError::ClosedLocally))
    );
}

#[test]
fn retries_are_exhausted_after_max_plus_one_attempts() {
    let max_retries = 3u16;
    let mut retries = 0u16;
    let mut attempts = 0;
    let error = loop {
        attempts += 1;
        match next_retry(retries, max_retries) {
            Ok(n) => retries = n,
            Err(e) => break e,
        }
    };
    assert_eq!(attempts, 4);
    assert_eq!(error, ConnectionError::MaxRetriesReached { retry_count: 4 });
}

#[test]
fn retry_edge_cases() {
    assert_eq!(
        next_retry(0, 0),
        Err(ConnectionError::MaxRetriesReached { retry_count: 1 })
    );
    assert_eq!(next_retry(u16::MAX - 1, u16::MAX), Ok(u16::MAX));
    assert_eq!(
        next_retry(u16::MAX, u16::MAX),
        Err(ConnectionError::MaxRetriesReached { retry_count: u16::MAX })
    );
}

#[test]
fn client_wraps_retry_exhaustion() {
    let client = PingClient::new(PingClientConfig {
        host: "127.0.0.1".to_string(),
        port: 4433,
        connection_type: PingClientConnectionType::Datagram,
        max_retries: 1,
        retry_timeout_millis: 10,
    });
    assert!(client.get_indbox().is_empty());
    assert_eq!(client.on_connect_failure(0), Ok(1));
    assert_eq!(
        client.on_connect_failure(1),
        Err(ClientError::ConnectionError(ConnectionError::MaxRetriesReached { retry_count: 2 }))
    );
}

#[test]
fn server_names_both_certificate_files() {
    let server = PongServer::new(PongServerConfig {
        host: "127.0.0.1".to_string(),
        port: 4433,
        certificate_path: "cert.pem".to_string(),
        certificate_key_path: "key.pem".to_string(),
    });
    assert_eq!(
        server.certificate_error(),
        ServerError::SetupError(ServerSetupError::CertificateSetupError {
            cert_path: "cert.pem".to_string(),
            key_path: "key.pem".to_string(),
        })
    );
}

/// The datagram path does not check a reply's `request_id`: a reply to
/// another request is recorded like any other.
#[test]
fn datagram_replies_are_not_correlated() {
    let ours = Message::new_request("Ping!".to_string());
    let theirs = Message::new_request("other".to_string());
    let mut session = ClientSession::new(ours.clone(), Some(1));
    let mut inbox = Vec::new();
    let stray = handle_datagram(&theirs.as_bytes().unwrap()).unwrap().unwrap();
    session.on_datagram(&mut inbox, &stray).unwrap();
    assert!(session.is_finished());
    match &inbox[0] {
        Message::Response(r) => {
            assert_eq!(r.request_id, request_id(&theirs));
            assert_ne!(r.request_id, request_id(&ours));
        }
        _ => panic!("expected a response"),
    }
}
