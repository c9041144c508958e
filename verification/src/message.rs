//! The messages that client and server exchange, and their encoding.
//!
//! A message is encoded as one byte that tells its kind, followed by its
//! fields. Kind 0 is a chat line: its text in UTF-8. Kind 1 is a move: its
//! two bytes. Kind 2 is the greeting of a client, by which the server takes
//! it into its list of connections. The form of the greeting on the wire is
//! this library's own: the identifier of the client as eight bytes, lowest
//! first, and then its name in UTF-8.

use vstd::prelude::*;
use vstd::bytes::{
    lemma_auto_spec_u64_to_from_le_bytes, spec_u64_from_le_bytes, spec_u64_to_le_bytes,
    u64_from_le_bytes, u64_to_le_bytes,
};
use vstd::slice::{slice_subrange, slice_to_vec};
use crate::text::string_from_utf8;
use vstd::utf8::{
    decode_utf8, encode_utf8, encode_utf8_decode_utf8, encode_utf8_valid_utf8, valid_utf8,
};

verus! {

/// A message between client and server.
#[derive(Debug)]
pub enum Message {
    Chat(String),
    Move { x: u8, y: u8 },
    HelloFromClient(u64, String),
}

/// What a message holds.
pub enum MessageView {
    Chat(Seq<char>),
    Move { x: u8, y: u8 },
    HelloFromClient(u64, Seq<char>),
}

impl View for Message {
    type V = MessageView;

    open spec fn view(&self) -> MessageView {
        match self {
            Message::Chat(s) => MessageView::Chat(s@),
            Message::Move { x, y } => MessageView::Move { x: *x, y: *y },
            Message::HelloFromClient(id, name) => MessageView::HelloFromClient(*id, name@),
        }
    }
}

/// The bytes that stand for a message.
pub open spec fn encoded(msg: MessageView) -> Seq<u8> {
    match msg {
        MessageView::Chat(s) => seq![0u8] + encode_utf8(s),
        MessageView::Move { x, y } => seq![1u8, x, y],
        MessageView::HelloFromClient(id, name) => seq![2u8] + spec_u64_to_le_bytes(id)
            + encode_utf8(name),
    }
}

/// Whether the bytes stand for a message: the first byte names a kind, and
/// the bytes after it hold what that kind needs.
pub open spec fn decodable(bytes: Seq<u8>) -> bool {
    bytes.len() > 0 && if bytes[0] == 0 {
        valid_utf8(bytes.skip(1))
    } else if bytes[0] == 1 {
        bytes.len() >= 3
    } else if bytes[0] == 2 {
        bytes.len() >= 9 && valid_utf8(bytes.skip(9))
    } else {
        false
    }
}

/// The message that the bytes stand for. Bytes after the two fields of a
/// move are ignored.
pub open spec fn decoded(bytes: Seq<u8>) -> MessageView
    recommends
        decodable(bytes),
{
    if bytes[0] == 0 {
        MessageView::Chat(decode_utf8(bytes.skip(1)))
    } else if bytes[0] == 1 {
        MessageView::Move { x: bytes[1], y: bytes[2] }
    } else {
        MessageView::HelloFromClient(
            spec_u64_from_le_bytes(bytes.subrange(1, 9)),
            decode_utf8(bytes.skip(9)),
        )
    }
}

/// Every encoding can be decoded, and decodes to the message that was
/// encoded.
pub proof fn lemma_encoding_round_trip(msg: MessageView)
    ensures
        decodable(encoded(msg)),
        decoded(encoded(msg)) == msg,
{
    broadcast use encode_utf8_valid_utf8, encode_utf8_decode_utf8;

    lemma_auto_spec_u64_to_from_le_bytes();
    let bytes = encoded(msg);
    match msg {
        MessageView::Chat(s) => {
            assert(bytes.skip(1) =~= encode_utf8(s));
        },
        MessageView::Move { x, y } => {},
        MessageView::HelloFromClient(id, name) => {
            assert(spec_u64_to_le_bytes(id).len() == 8);
            assert(bytes.skip(9) =~= encode_utf8(name));
            assert(bytes.subrange(1, 9) =~= spec_u64_to_le_bytes(id));
        },
    }
}

/// Decides whether the bytes stand for a message.
pub fn can_decode(bytes: &[u8]) -> (r: bool)
    ensures
        r == decodable(bytes@),
{
    if bytes.len() == 0 {
        return false;
    }
    let msg_type: u8 = bytes[0];
    if msg_type == 0 {
        let text = slice_to_vec(slice_subrange(bytes, 1, bytes.len()));
        assert(text@ =~= bytes@.skip(1));
        string_from_utf8(text).is_some()
    } else if msg_type == 1 {
        bytes.len() >= 3
    } else if msg_type == 2 {
        if bytes.len() < 9 {
            return false;
        }
        let text = slice_to_vec(slice_subrange(bytes, 9, bytes.len()));
        assert(text@ =~= bytes@.skip(9));
        string_from_utf8(text).is_some()
    } else {
        false
    }
}

impl Message {
    /// Decodes a message.
    pub fn from_bytes(bytes: &[u8]) -> (msg: Message)
        requires
            decodable(bytes@),
        ensures
            msg@ == decoded(bytes@),
    {
        broadcast use encode_utf8_decode_utf8;

        let msg_type: u8 = bytes[0];
        if msg_type == 0 {
            let text = slice_to_vec(slice_subrange(bytes, 1, bytes.len()));
            assert(text@ =~= bytes@.skip(1));
            let s = string_from_utf8(text).unwrap();
            Message::Chat(s)
        } else if msg_type == 1 {
            Message::Move { x: bytes[1], y: bytes[2] }
        } else {
            let id: u64 = u64_from_le_bytes(slice_subrange(bytes, 1, 9));
            let text = slice_to_vec(slice_subrange(bytes, 9, bytes.len()));
            assert(text@ =~= bytes@.skip(9));
            let name = string_from_utf8(text).unwrap();
            Message::HelloFromClient(id, name)
        }
    }

    /// Encodes the message.
    pub fn to_bytes(&self) -> (bytes: Vec<u8>)
        ensures
            bytes@ == encoded(self@),
    {
        let mut vec: Vec<u8> = Vec::new();
        match self {
            Message::Chat(s) => {
                vec.push(0);
                let mut text = slice_to_vec(s.as_str().as_bytes());
                vec.append(&mut text);
            },
            Message::Move { x, y } => {
                vec.push(1);
                vec.push(*x);
                vec.push(*y);
            },
            Message::HelloFromClient(id, name) => {
                vec.push(2);
                let mut id_bytes = u64_to_le_bytes(*id);
                vec.append(&mut id_bytes);
                let mut text = slice_to_vec(name.as_str().as_bytes());
                vec.append(&mut text);
            },
        }
        assert(vec@ =~= encoded(self@));
        vec
    }
}

} // verus!
