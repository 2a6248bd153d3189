use pingpong::error::SerializationError;
use pingpong::message::{Message, MessageType, RequestMessage, ResponseMessage};
use pingpong::serialization::{deserialize_message, serialize_message};

fn ping_bytes() -> Vec<u8> {
    vec![
        0, 0, 0, 0, 32, 0, 0, 0, 0, 0, 0, 0, 112, 120, 96, 80, 200, 192, 175, 162, 219, 199, 236,
        67, 228, 162, 39, 80, 11, 85, 93, 87, 250, 130, 196, 232, 191, 100, 195, 97, 47, 201, 85,
        57, 0, 0, 0, 0, 5, 0, 0, 0, 0, 0, 0, 0, 80, 105, 110, 103, 33,
    ]
}

#[test]
fn test_should_return_correct_bytes() {
    let text = "Ping!".to_string();
    let message = Message::new_request(text);

    let bytes = message.as_bytes().unwrap();

    assert_eq!(
        bytes,
        vec![
            0, 0, 0, 0, 32, 0, 0, 0, 0, 0, 0, 0, 112, 120, 96, 80, 200, 192, 175, 162, 219, 199,
            236, 67, 228, 162, 39, 80, 11, 85, 93, 87, 250, 130, 196, 232, 191, 100, 195, 97, 47,
            201, 85, 57, 0, 0, 0, 0, 5, 0, 0, 0, 0, 0, 0, 0, 80, 105, 110, 103, 33
        ]
    );
}

#[test]
fn test_should_return_correct_message() {
    let bytes = ping_bytes();
    let text = "Ping!".to_string();

    let message = Message::from_bytes(&bytes).unwrap();

    assert_eq!(message, Message::new_request(text));
}

#[test]
fn test_should_return_error_for_invalid_bytes() {
    let bytes = vec![0, 0, 0, 0, 32, 0, 0, 0, 0, 0];

    let message = Message::from_bytes(&bytes);

    assert!(message.is_err());
}

#[test]
fn test_should_serialize_message() {
    let message = Message::new_request("Ping!".to_string());

    let serialized_message = serialize_message(&message).unwrap();

    assert_eq!(serialized_message, ping_bytes());
}

#[test]
fn test_should_deserialize_message() {
    let serialized_message = ping_bytes();

    let message = deserialize_message(&serialized_message).unwrap();

    assert_eq!(message, Message::new_request("Ping!".to_string()));
}

#[test]
fn test_return_an_error_in_case_deserialization_fails() {
    let mut serialized_message = ping_bytes();
    serialized_message[0] = 1;

    match deserialize_message(&serialized_message) {
        Ok(_) => panic!("Should return an error"),
        Err(error) => match error {
            SerializationError::DeserializationFailed { bytes } => {
                assert_eq!(bytes, serialized_message)
            }
            _ => panic!("Should return a DeserializationFailed error"),
        },
    }
}

#[test]
fn response_round_trips() {
    let message = Message::new_response(&[1, 2, 3, 4], "Pong!".to_string());
    let bytes = message.as_bytes().unwrap();
    assert_eq!(&bytes[..4], &[1, 0, 0, 0]);
    assert_eq!(Message::from_bytes(&bytes).unwrap(), message);
}

#[test]
fn messages_with_odd_fields_round_trip() {
    let messages = vec![
        Message::new_request(String::new()),
        Message::new_request("héllo, wörld ✓ 🦀".to_string()),
        Message::Request(RequestMessage {
            id: vec![],
            message_type: MessageType::Response,
            data: "x".to_string(),
        }),
        Message::Response(ResponseMessage {
            id: vec![0; 3],
            request_id: vec![],
            message_type: MessageType::Request,
            data: String::new(),
        }),
    ];
    for m in messages {
        let bytes = m.as_bytes().unwrap();
        assert_eq!(Message::from_bytes(&bytes).unwrap(), m);
    }
}

#[test]
fn every_truncation_is_rejected() {
    let bytes = Message::new_response(&[7, 7], "Pong!".to_string()).as_bytes().unwrap();
    for k in 0..bytes.len() {
        match Message::from_bytes(&bytes[..k]) {
            Err(SerializationError::DeserializationFailed { bytes: b }) => {
                assert_eq!(b, bytes[..k].to_vec())
            }
            other => panic!("prefix of length {} decoded: {:?}", k, other),
        }
    }
}

#[test]
fn trailing_bytes_are_ignored() {
    let mut bytes = ping_bytes();
    bytes.extend_from_slice(&[1, 2, 3]);
    assert_eq!(Message::from_bytes(&bytes).unwrap(), Message::new_request("Ping!".to_string()));
}

#[test]
fn unknown_variant_and_type_are_rejected() {
    let mut bytes = ping_bytes();
    bytes[0] = 2;
    assert!(Message::from_bytes(&bytes).is_err());

    let mut bytes = ping_bytes();
    bytes[44] = 2;
    assert!(Message::from_bytes(&bytes).is_err());
}

#[test]
fn invalid_utf8_is_rejected() {
    let mut bytes = ping_bytes();
    let n = bytes.len();
    bytes[n - 1] = 0xff;
    assert!(Message::from_bytes(&bytes).is_err());
}

#[test]
fn oversized_length_is_rejected() {
    let mut bytes = ping_bytes();
    for b in &mut bytes[4..12] {
        *b = 0xff;
    }
    assert!(Message::from_bytes(&bytes).is_err());
}

#[test]
fn encoding_matches_bincode_layout() {
    let message = Message::new_response(&[1, 2, 3], "Pong!".to_string());
    let id = match &message {
        Message::Response(r) => r.id.clone(),
        _ => unreachable!(),
    };
    let expected =
        bincode::serialize(&(1u32, id.clone(), vec![1u8, 2, 3], 1u32, "Pong!".to_string()))
            .unwrap();
    assert_eq!(message.as_bytes().unwrap(), expected);

    let decoded: (u32, Vec<u8>, u32, String) =
        bincode::deserialize(&ping_bytes()).unwrap();
    assert_eq!(decoded.0, 0);
    assert_eq!(decoded.3, "Ping!");
}

#[test]
fn leading_byte_above_one_is_rejected_with_its_bytes() {
    for bytes in [vec![2u8], vec![7u8, 0, 0], {
        let mut b = ping_bytes();
        b[0] = 255;
        b
    }] {
        assert_eq!(
            Message::from_bytes(&bytes),
            Err(SerializationError::DeserializationFailed { bytes: bytes.clone() })
        );
    }
}

#[test]
fn invalid_utf8_payload_is_rejected_with_its_bytes() {
    let mut bytes = ping_bytes();
    bytes[56] = 0xff;
    assert_eq!(
        Message::from_bytes(&bytes),
        Err(SerializationError::DeserializationFailed { bytes: bytes.clone() })
    );
}
