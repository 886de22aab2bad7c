//! Wire protocol.
//!
//! All WebSocket frames are binary MessagePack. A frame is an array whose first
//! element is a protocol code ([`code`]). The only exception is [`code::PING`],
//! which is a single raw byte.
//!
//! Server to client:
//! - `[10, reconnectionToken, serializerId]`: join handshake
//! - `[11, code, message]`: error
//! - `[13, type, payload]`: room message
//! - `[14, state]`: full room state
//! - `[15, patch]`: JSON-Patch array applied to the previous state
//! - `[17, type, bytes]`: room message with binary payload
//! - `0x12` (single byte): ping/pong
//!
//! Client to server:
//! - `[12]`: consented leave
//! - `[13, type, payload]`: room message
//! - `[17, type, bytes]`: room message with binary payload
//! - `0x12` (single byte): ping

pub mod code;

use crate::json::{values_view, Json, JsonView};
use crate::query::option_view;
use crate::wire::{
    fits, max_depth, pack, pack_with_bytes, packed, packed_triple, text_fits, unpack,
    unpack_with_bytes, unpacked, unpacked_triple,
};
use vstd::prelude::*;

verus! {

/// Identifier of a message: a text or a number.
#[derive(Debug)]
pub enum MessageType {
    Num(i64),
    Str(String),
}

/// What a message identifier stands for.
pub enum TypeView {
    Num(i64),
    Str(Seq<char>),
}

impl View for MessageType {
    type V = TypeView;

    open spec fn view(&self) -> TypeView {
        match self {
            MessageType::Num(n) => TypeView::Num(*n),
            MessageType::Str(s) => TypeView::Str(s@),
        }
    }
}

/// A message identifier as JSON.
pub open spec fn type_json(t: TypeView) -> JsonView {
    match t {
        TypeView::Num(n) => JsonView::Int(n as int),
        TypeView::Str(s) => JsonView::Str(s),
    }
}

/// The message identifier that a JSON value stands for.
pub open spec fn type_of(v: JsonView) -> Option<TypeView> {
    match v {
        JsonView::Str(s) => Some(TypeView::Str(s)),
        JsonView::Int(n) => if i64::MIN <= n <= i64::MAX {
            Some(TypeView::Num(n as i64))
        } else {
            None
        },
        _ => None,
    }
}

/// An optional identifier, read through its view.
pub open spec fn type_option(t: Option<MessageType>) -> Option<TypeView> {
    match t {
        Some(t) => Some(t@),
        None => None,
    }
}

impl Clone for MessageType {
    fn clone(&self) -> (r: Self)
        ensures
            r@ == self@,
    {
        match self {
            MessageType::Num(n) => MessageType::Num(*n),
            MessageType::Str(s) => MessageType::Str(s.clone()),
        }
    }
}

impl MessageType {
    /// The identifier with this text.
    pub fn text(s: &str) -> (r: Self)
        ensures
            r@ == TypeView::Str(s@),
    {
        MessageType::Str(s.to_owned())
    }

    pub fn as_str(&self) -> (r: Option<&str>)
        ensures
            match self@ {
                TypeView::Str(s) => r matches Some(t) && t@ == s,
                TypeView::Num(_) => r is None,
            },
    {
        match self {
            MessageType::Str(s) => Some(s.as_str()),
            _ => None,
        }
    }

    pub fn as_num(&self) -> (r: Option<i64>)
        ensures
            r == match self@ {
                TypeView::Num(n) => Some(n),
                TypeView::Str(_) => None,
            },
    {
        match self {
            MessageType::Num(n) => Some(*n),
            _ => None,
        }
    }

    /// Whether two identifiers are the same.
    pub fn same_as(&self, other: &MessageType) -> (r: bool)
        ensures
            r == (self@ == other@),
    {
        match (self, other) {
            (MessageType::Num(a), MessageType::Num(b)) => *a == *b,
            (MessageType::Str(a), MessageType::Str(b)) => *a == *b,
            _ => false,
        }
    }

    /// The identifier as JSON.
    pub fn to_json(&self) -> (r: Json)
        ensures
            r@ == type_json(self@),
    {
        match self {
            MessageType::Num(n) => Json::Int(*n),
            MessageType::Str(s) => Json::Str(s.clone()),
        }
    }

    /// The identifier that a JSON value stands for.
    pub fn from_json(v: &Json) -> (r: Option<Self>)
        ensures
            type_option(r) == type_of(v@),
    {
        match v {
            Json::Str(s) => Some(MessageType::Str(s.clone())),
            Json::Int(n) => Some(MessageType::Num(*n)),
            Json::Uint(n) => if *n <= i64::MAX as u64 {
                Some(MessageType::Num(*n as i64))
            } else {
                None
            },
            _ => None,
        }
    }
}

impl<'a> From<&'a str> for MessageType {
    fn from(s: &'a str) -> (r: Self)
        ensures
            r@ == TypeView::Str(s@),
    {
        MessageType::text(s)
    }
}

impl<'a> vstd::std_specs::convert::FromSpecImpl<&'a str> for MessageType {
    open spec fn obeys_from_spec() -> bool {
        false
    }

    open spec fn from_spec(s: &'a str) -> Self {
        arbitrary()
    }
}

impl From<String> for MessageType {
    fn from(s: String) -> (r: Self) {
        MessageType::Str(s)
    }
}

impl vstd::std_specs::convert::FromSpecImpl<String> for MessageType {
    open spec fn obeys_from_spec() -> bool {
        true
    }

    open spec fn from_spec(s: String) -> Self {
        MessageType::Str(s)
    }
}

impl From<i64> for MessageType {
    fn from(n: i64) -> (r: Self) {
        MessageType::Num(n)
    }
}

impl vstd::std_specs::convert::FromSpecImpl<i64> for MessageType {
    open spec fn obeys_from_spec() -> bool {
        true
    }

    open spec fn from_spec(n: i64) -> Self {
        MessageType::Num(n)
    }
}

impl From<i32> for MessageType {
    fn from(n: i32) -> (r: Self) {
        MessageType::Num(n as i64)
    }
}

impl vstd::std_specs::convert::FromSpecImpl<i32> for MessageType {
    open spec fn obeys_from_spec() -> bool {
        true
    }

    open spec fn from_spec(n: i32) -> Self {
        MessageType::Num(n as i64)
    }
}

impl From<u32> for MessageType {
    fn from(n: u32) -> (r: Self) {
        MessageType::Num(n as i64)
    }
}

impl vstd::std_specs::convert::FromSpecImpl<u32> for MessageType {
    open spec fn obeys_from_spec() -> bool {
        true
    }

    open spec fn from_spec(n: u32) -> Self {
        MessageType::Num(n as i64)
    }
}

impl From<u8> for MessageType {
    fn from(n: u8) -> (r: Self) {
        MessageType::Num(n as i64)
    }
}

impl vstd::std_specs::convert::FromSpecImpl<u8> for MessageType {
    open spec fn obeys_from_spec() -> bool {
        true
    }

    open spec fn from_spec(n: u8) -> Self {
        MessageType::Num(n as i64)
    }
}

/// A message received from a client.
#[derive(Debug)]
pub enum ClientMessage {
    Leave,
    Data(MessageType, Json),
    DataBytes(MessageType, Vec<u8>),
    Ping,
}

/// What a client's message stands for.
pub enum MessageView {
    Leave,
    Data(TypeView, JsonView),
    DataBytes(TypeView, Seq<u8>),
    Ping,
}

impl View for ClientMessage {
    type V = MessageView;

    open spec fn view(&self) -> MessageView {
        match self {
            ClientMessage::Leave => MessageView::Leave,
            ClientMessage::Data(t, v) => MessageView::Data(t@, v@),
            ClientMessage::DataBytes(t, b) => MessageView::DataBytes(t@, b@),
            ClientMessage::Ping => MessageView::Ping,
        }
    }
}

/// An optional message, read through its view.
pub open spec fn message_option(m: Option<ClientMessage>) -> Option<MessageView> {
    match m {
        Some(m) => Some(m@),
        None => None,
    }
}

// ---------------------------------------------------------------------
// writing frames
// ---------------------------------------------------------------------

/// The JSON array of a join handshake.
pub open spec fn join_frame(
    token: Seq<char>,
    serializer_id: Seq<char>,
    handshake: Option<JsonView>,
) -> JsonView {
    let base = seq![
        JsonView::Int(code::JOIN_ROOM as int),
        JsonView::Str(token),
        JsonView::Str(serializer_id),
    ];
    JsonView::Array(
        match handshake {
            Some(h) => base.push(h),
            None => base,
        },
    )
}

/// The JSON array of an error.
pub open spec fn error_frame(error_code: u16, message: Seq<char>) -> JsonView {
    JsonView::Array(
        seq![
            JsonView::Int(code::ERROR as int),
            JsonView::Int(error_code as int),
            JsonView::Str(message),
        ],
    )
}

/// The JSON array of a full state.
pub open spec fn state_frame(state: JsonView) -> JsonView {
    JsonView::Array(seq![JsonView::Int(code::ROOM_STATE as int), state])
}

/// The JSON array of a state patch.
pub open spec fn patch_frame(patch: JsonView) -> JsonView {
    JsonView::Array(seq![JsonView::Int(code::ROOM_STATE_PATCH as int), patch])
}

/// The JSON array of a room message.
pub open spec fn data_frame(t: TypeView, payload: JsonView) -> JsonView {
    JsonView::Array(seq![JsonView::Int(code::ROOM_DATA as int), type_json(t), payload])
}

/// The JSON array of a consented leave.
pub open spec fn leave_frame() -> JsonView {
    JsonView::Array(seq![JsonView::Int(code::LEAVE_ROOM as int)])
}

fn pack_frame(items: Vec<Json>) -> (r: Vec<u8>)
    requires
        items.len() > 0,
    ensures
        r@ == packed(JsonView::Array(values_view(items@))),
        fits(JsonView::Array(values_view(items@)), max_depth()) ==> unpacked(r@) == Some(
            JsonView::Array(values_view(items@)),
        ),
        r@.len() >= 2,
{
    let ghost views = values_view(items@);
    let frame: Json = Json::Array(items);
    proof {
        assert(frame@->Array_0 =~= views);
    }
    pack(&frame)
}

/// `[10, reconnectionToken, serializerId, handshake?]`
pub fn join_room(reconnection_token: &str, serializer_id: &str, handshake: Option<Json>) -> (r: Vec<
    u8,
>)
    ensures
        r@ == packed(
            join_frame(
                reconnection_token@,
                serializer_id@,
                option_view(handshake),
            ),
        ),
{
    let mut items: Vec<Json> = Vec::new();
    items.push(Json::Uint(code::JOIN_ROOM as u64));
    items.push(Json::Str(reconnection_token.to_owned()));
    items.push(Json::Str(serializer_id.to_owned()));
    let ghost h = option_view(handshake);
    if let Some(v) = handshake {
        items.push(v);
    }
    proof {
        assert(values_view(items@) =~= join_frame(
            reconnection_token@,
            serializer_id@,
            h,
        )->Array_0);
    }
    pack_frame(items)
}

/// `[11, code, message]`
pub fn error(error_code: u16, message: &str) -> (r: Vec<u8>)
    ensures
        r@ == packed(error_frame(error_code, message@)),
{
    let mut items: Vec<Json> = Vec::new();
    items.push(Json::Uint(code::ERROR as u64));
    items.push(Json::Uint(error_code as u64));
    items.push(Json::Str(message.to_owned()));
    proof {
        assert(values_view(items@) =~= error_frame(error_code, message@)->Array_0);
    }
    pack_frame(items)
}

/// `[14, state]`
pub fn room_state(state: &Json) -> (r: Vec<u8>)
    ensures
        r@ == packed(state_frame(state@)),
{
    let mut items: Vec<Json> = Vec::new();
    items.push(Json::Uint(code::ROOM_STATE as u64));
    items.push(state.clone());
    proof {
        assert(values_view(items@) =~= state_frame(state@)->Array_0);
    }
    pack_frame(items)
}

/// `[15, patch]` where `patch` is a JSON array of JSON-Patch operations.
pub fn room_state_patch(patch: &Json) -> (r: Vec<u8>)
    ensures
        r@ == packed(patch_frame(patch@)),
{
    let mut items: Vec<Json> = Vec::new();
    items.push(Json::Uint(code::ROOM_STATE_PATCH as u64));
    items.push(patch.clone());
    proof {
        assert(values_view(items@) =~= patch_frame(patch@)->Array_0);
    }
    pack_frame(items)
}

/// `[13, type, payload]`. Where the frame fits, decoding it gives the message
/// back.
pub fn room_data(msg_type: &MessageType, payload: &Json) -> (r: Vec<u8>)
    ensures
        r@ == packed(data_frame(msg_type@, payload@)),
        fits(data_frame(msg_type@, payload@), max_depth()) ==> decoded(r@) == Some(
            MessageView::Data(msg_type@, payload@),
        ),
{
    let mut items: Vec<Json> = Vec::new();
    items.push(Json::Uint(code::ROOM_DATA as u64));
    items.push(msg_type.to_json());
    items.push(payload.clone());
    proof {
        assert(values_view(items@) =~= data_frame(msg_type@, payload@)->Array_0);
    }
    pack_frame(items)
}

/// `[17, type, bytes]`. Where type and bytes fit, decoding the frame gives the
/// message back.
pub fn room_data_bytes(msg_type: &MessageType, bytes: &[u8]) -> (r: Vec<u8>)
    ensures
        r@ == packed_triple(code::ROOM_DATA_BYTES, type_json(msg_type@), bytes@),
        (msg_type@ matches TypeView::Str(s) ==> text_fits(s)) && bytes@.len() <= 0xffff_ffff
            ==> decoded(r@) == Some(MessageView::DataBytes(msg_type@, bytes@)),
{
    let t: Json = msg_type.to_json();
    pack_with_bytes(code::ROOM_DATA_BYTES, &t, bytes)
}

/// `[12]`: consented leave. Decoding the frame gives a leave back.
pub fn leave() -> (r: Vec<u8>)
    ensures
        r@ == packed(leave_frame()),
        decoded(r@) == Some(MessageView::Leave),
{
    let mut items: Vec<Json> = Vec::new();
    items.push(Json::Uint(code::LEAVE_ROOM as u64));
    proof {
        assert(values_view(items@) =~= leave_frame()->Array_0);
        reveal_with_fuel(fits, 2);
    }
    pack_frame(items)
}

/// Single-byte ping/pong frame. Decoding it gives a ping back.
pub fn ping() -> (r: Vec<u8>)
    ensures
        r@ == seq![code::PING],
        decoded(r@) == Some(MessageView::Ping),
{
    let mut r: Vec<u8> = Vec::new();
    r.push(code::PING);
    r
}

// ---------------------------------------------------------------------
// reading frames
// ---------------------------------------------------------------------

/// The message of a frame that holds the JSON array `s`, whose first item is the
/// code.
pub open spec fn array_message(s: Seq<JsonView>) -> Option<MessageView> {
    if s.len() > 0 && s[0] is Int {
        let c = s[0]->Int_0;
        if c == code::LEAVE_ROOM {
            Some(MessageView::Leave)
        } else if c == code::ROOM_DATA && s.len() > 1 {
            match type_of(s[1]) {
                Some(t) => Some(
                    MessageView::Data(
                        t,
                        if s.len() > 2 {
                            s[2]
                        } else {
                            JsonView::Null
                        },
                    ),
                ),
                None => None,
            }
        } else {
            None
        }
    } else {
        None
    }
}

/// The message of a frame, given what it was read as: as a value or, failing
/// that, as a code, a value and raw bytes.
pub open spec fn frame_message(
    value: Option<JsonView>,
    triple: Option<(u8, JsonView, Seq<u8>)>,
) -> Option<MessageView> {
    match value {
        Some(JsonView::Array(s)) => array_message(s),
        Some(_) => None,
        None => match triple {
            Some((c, t, payload)) => if c == code::ROOM_DATA_BYTES {
                match type_of(t) {
                    Some(t) => Some(MessageView::DataBytes(t, payload)),
                    None => None,
                }
            } else {
                None
            },
            None => None,
        },
    }
}

/// The message that a client's frame holds.
pub open spec fn decoded(bytes: Seq<u8>) -> Option<MessageView> {
    if bytes == seq![code::PING] {
        Some(MessageView::Ping)
    } else {
        frame_message(unpacked(bytes), unpacked_triple(bytes))
    }
}

/// Interprets what a frame was read as.
pub fn interpret_frame(value: Option<Json>, triple: Option<(u8, Json, Vec<u8>)>) -> (r: Option<
    ClientMessage,
>)
    ensures
        message_option(r) == frame_message(
            option_view(value),
            match triple {
                Some(t) => Some((t.0, t.1@, t.2@)),
                None => None,
            },
        ),
{
    match value {
        Some(Json::Array(items)) => {
            proof {
                assert(Json::Array(items)@->Array_0 =~= values_view(items@));
            }
            if items.len() == 0 {
                return None;
            }
            let c: u64 = match &items[0] {
                Json::Uint(n) => *n,
                Json::Int(n) => if *n >= 0 {
                    *n as u64
                } else {
                    return None;
                },
                _ => {
                    return None;
                },
            };
            if c == code::LEAVE_ROOM as u64 {
                Some(ClientMessage::Leave)
            } else if c == code::ROOM_DATA as u64 && items.len() > 1 {
                match MessageType::from_json(&items[1]) {
                    Some(t) => {
                        let payload: Json = if items.len() > 2 {
                            items[2].clone()
                        } else {
                            Json::Null
                        };
                        Some(ClientMessage::Data(t, payload))
                    },
                    None => None,
                }
            } else {
                None
            }
        },
        Some(_) => None,
        None => match triple {
            Some((c, t, payload)) => if c == code::ROOM_DATA_BYTES {
                match MessageType::from_json(&t) {
                    Some(t) => Some(ClientMessage::DataBytes(t, payload)),
                    None => None,
                }
            } else {
                None
            },
            None => None,
        },
    }
}

/// Decodes a frame received from a client.
pub fn decode_client_message(bytes: &[u8]) -> (r: Option<ClientMessage>)
    ensures
        message_option(r) == decoded(bytes@),
{
    if bytes.len() == 1 && bytes[0] == code::PING {
        proof {
            assert(bytes@ =~= seq![code::PING]);
        }
        return Some(ClientMessage::Ping);
    }
    match unpack(bytes) {
        Some(v) => interpret_frame(Some(v), None),
        None => interpret_frame(None, unpack_with_bytes(bytes)),
    }
}

/// A message identifier written as JSON is read back as it was.
pub proof fn law_type_reads_back(t: TypeView)
    ensures
        type_of(type_json(t)) == Some(t),
{
}

}
