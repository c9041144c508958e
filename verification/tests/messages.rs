use shared::conn_handler::ConnHandler;
use shared::err::Error;
use shared::message::{can_decode, Message};

#[test]
fn chat_is_encoded_as_zero_and_its_text() {
    let bytes = Message::Chat("hi!".to_string()).to_bytes();
    assert_eq!(bytes, vec![0, b'h', b'i', b'!']);
    assert_eq!(Message::Chat(String::new()).to_bytes(), vec![0]);
}

#[test]
fn move_is_encoded_as_one_and_two_bytes() {
    assert_eq!(Message::Move { x: 7, y: 250 }.to_bytes(), vec![1, 7, 250]);
}

#[test]
fn hello_is_encoded_as_two_the_identifier_and_the_name() {
    let bytes = Message::HelloFromClient(0x0102_0304_0506_0708, "bo".to_string()).to_bytes();
    assert_eq!(bytes, vec![2, 8, 7, 6, 5, 4, 3, 2, 1, b'b', b'o']);
}

#[test]
fn chat_is_decoded_from_utf8() {
    match Message::from_bytes(&[0, b'o', b'k']) {
        Message::Chat(s) => assert_eq!(s, "ok"),
        other => panic!("decoded {:?}", other),
    }
    // Two bytes that encode one character.
    match Message::from_bytes(&[0, 0xc3, 0xa9]) {
        Message::Chat(s) => {
            assert_eq!(s, "\u{e9}");
            assert_eq!(s.chars().count(), 1);
        }
        other => panic!("decoded {:?}", other),
    }
    match Message::from_bytes(&[0]) {
        Message::Chat(s) => assert_eq!(s, ""),
        other => panic!("decoded {:?}", other),
    }
}

#[test]
fn move_is_decoded_from_its_two_bytes() {
    match Message::from_bytes(&[1, 3, 4]) {
        Message::Move { x, y } => assert_eq!((x, y), (3, 4)),
        other => panic!("decoded {:?}", other),
    }
    // What follows the two bytes is ignored.
    match Message::from_bytes(&[1, 3, 4, 99, 100]) {
        Message::Move { x, y } => assert_eq!((x, y), (3, 4)),
        other => panic!("decoded {:?}", other),
    }
}

#[test]
fn hello_is_decoded_from_identifier_and_name() {
    match Message::from_bytes(&[2, 1, 0, 0, 0, 0, 0, 0, 0x80, b'a', b'l']) {
        Message::HelloFromClient(id, name) => {
            assert_eq!(id, 0x8000_0000_0000_0001);
            assert_eq!(name, "al");
        }
        other => panic!("decoded {:?}", other),
    }
}

#[test]
fn messages_survive_encoding_and_decoding() {
    let text = "gr\u{fc}\u{df}e \u{1f600}".to_string();
    match Message::from_bytes(&Message::Chat(text.clone()).to_bytes()) {
        Message::Chat(s) => assert_eq!(s, text),
        other => panic!("decoded {:?}", other),
    }
    match Message::from_bytes(&Message::Move { x: 0, y: 255 }.to_bytes()) {
        Message::Move { x, y } => assert_eq!((x, y), (0, 255)),
        other => panic!("decoded {:?}", other),
    }
    match Message::from_bytes(&Message::HelloFromClient(u64::MAX, text.clone()).to_bytes()) {
        Message::HelloFromClient(id, name) => {
            assert_eq!(id, u64::MAX);
            assert_eq!(name, text);
        }
        other => panic!("decoded {:?}", other),
    }
}

#[test]
fn handler_starts_without_connections() {
    let handler = ConnHandler::new();
    assert!(handler.connections.is_empty());
}

#[test]
fn greeting_adds_a_connection() {
    let mut handler = ConnHandler::new();
    let first = handler.on_connected(Message::HelloFromClient(7, "ann".to_string()));
    assert_eq!(first, Ok(7));
    let second = handler.on_connected(Message::HelloFromClient(9, "bob".to_string()));
    assert_eq!(second, Ok(9));
    assert_eq!(handler.connections.len(), 2);
    assert_eq!(handler.connections[0].id, 7);
    assert_eq!(handler.connections[0].name, "ann");
    assert_eq!(handler.connections[1].id, 9);
    assert_eq!(handler.connections[1].name, "bob");
}

#[test]
fn other_messages_do_not_connect() {
    let mut handler = ConnHandler::new();
    assert_eq!(handler.on_connected(Message::Chat("hello".to_string())), Err(Error::InternalError));
    assert_eq!(handler.on_connected(Message::Move { x: 1, y: 2 }), Err(Error::InternalError));
    assert!(handler.connections.is_empty());
}

#[test]
fn disconnecting_drops_the_first_connection_with_the_identifier() {
    let mut handler = ConnHandler::new();
    for (id, name) in [(1, "a"), (2, "b"), (1, "c"), (3, "d")] {
        assert_eq!(handler.on_connected(Message::HelloFromClient(id, name.to_string())), Ok(id));
    }
    assert_eq!(handler.on_disconnected(1), Ok(()));
    let left: Vec<(u64, &str)> =
        handler.connections.iter().map(|c| (c.id, c.name.as_str())).collect();
    assert_eq!(left, vec![(2, "b"), (1, "c"), (3, "d")]);
    assert_eq!(handler.on_disconnected(1), Ok(()));
    assert_eq!(handler.on_disconnected(1), Err(Error::InternalError));
    assert_eq!(handler.on_disconnected(3), Ok(()));
    let left: Vec<(u64, &str)> =
        handler.connections.iter().map(|c| (c.id, c.name.as_str())).collect();
    assert_eq!(left, vec![(2, "b")]);
}

#[test]
fn disconnecting_an_unknown_identifier_is_an_error() {
    let mut handler = ConnHandler::new();
    assert_eq!(handler.on_disconnected(5), Err(Error::InternalError));
    assert_eq!(handler.on_connected(Message::HelloFromClient(4, "x".to_string())), Ok(4));
    assert_eq!(handler.on_disconnected(5), Err(Error::InternalError));
    assert_eq!(handler.connections.len(), 1);
}

#[test]
fn bytes_that_stand_for_a_message_are_told() {
    assert!(can_decode(&[0]));
    assert!(can_decode(&[0, b'h', b'i']));
    assert!(can_decode(&[0, 0xc3, 0xa9]));
    assert!(can_decode(&[1, 2, 3]));
    assert!(can_decode(&[1, 2, 3, 4]));
    assert!(can_decode(&[2, 0, 0, 0, 0, 0, 0, 0, 0]));
    assert!(can_decode(&[2, 1, 2, 3, 4, 5, 6, 7, 8, b'a']));
    assert!(can_decode(&Message::Chat("gr\u{fc}n".to_string()).to_bytes()));
    assert!(can_decode(&Message::HelloFromClient(5, "x".to_string()).to_bytes()));
    // Nothing at all, a kind that is none, bad text, a short move, a short
    // greeting.
    assert!(!can_decode(&[]));
    assert!(!can_decode(&[3]));
    assert!(!can_decode(&[255, 1, 2, 3]));
    assert!(!can_decode(&[0, 0xff]));
    assert!(!can_decode(&[0, 0xc3]));
    assert!(!can_decode(&[1]));
    assert!(!can_decode(&[1, 2]));
    assert!(!can_decode(&[2, 0, 0, 0, 0, 0, 0, 0]));
    assert!(!can_decode(&[2, 0, 0, 0, 0, 0, 0, 0, 0, 0xff]));
}
