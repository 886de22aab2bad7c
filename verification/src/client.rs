//! Server-side client connections.

use crate::actor::rate_checked;
use crate::error::{close_codes, codes};
use crate::json::{Json, JsonView};
use crate::protocol;
use crate::protocol::{data_frame, error_frame, type_json, MessageType, TypeView};
use crate::query::{clone_option, option_view, text_option};
use crate::room::{logged, session_log, type_text, EventTap, LogView, RoomEventLog, TapView};
use crate::text::joined;
use crate::utils::elapsed_since;
use crate::wire::{packed, packed_triple};
use vstd::prelude::*;

verus! {

/// Connection state of a client.
#[derive(Debug, Clone, Copy, PartialEq, Eq, Structural)]
pub enum ClientState {
    Joining,
    Joined,
    Reconnecting,
    Reconnected,
    Leaving,
    Closed,
}

/// Outbound frame towards a client's WebSocket writer.
#[derive(Debug)]
pub enum Outbound {
    Bytes(Vec<u8>),
    Close(u16, String),
}

/// What an outbound frame stands for.
pub enum OutboundView {
    Bytes(Seq<u8>),
    Close(u16, Seq<char>),
}

impl View for Outbound {
    type V = OutboundView;

    open spec fn view(&self) -> OutboundView {
        match self {
            Outbound::Bytes(b) => OutboundView::Bytes(b@),
            Outbound::Close(c, r) => OutboundView::Close(*c, r@),
        }
    }
}

/// Options for sending and broadcasting.
#[derive(Debug, Clone, Copy)]
pub struct SendOptions {
    /// Defer delivery until right after the next state patch broadcast.
    pub after_next_patch: bool,
}

impl Default for SendOptions {
    fn default() -> (r: Self)
        ensures
            !r.after_next_patch,
    {
        SendOptions { after_next_patch: false }
    }
}

/// Whom a deferred message is for.
#[derive(Debug)]
pub enum AfterPatchTarget {
    Client(String),
    Broadcast(Option<String>),
}

/// A message deferred until after the next patch broadcast.
#[derive(Debug)]
pub struct AfterPatchItem {
    pub target: AfterPatchTarget,
    pub bytes: Vec<u8>,
}

/// What a deferred message's target stands for: a session, or everyone but one.
pub enum TargetView {
    Client(Seq<char>),
    Broadcast(Option<Seq<char>>),
}

/// What a deferred message stands for.
pub struct ItemView {
    pub target: TargetView,
    pub bytes: Seq<u8>,
}

impl View for AfterPatchItem {
    type V = ItemView;

    open spec fn view(&self) -> ItemView {
        ItemView {
            target: match self.target {
                AfterPatchTarget::Client(s) => TargetView::Client(s@),
                AfterPatchTarget::Broadcast(e) => TargetView::Broadcast(
                    text_option(e),
                ),
            },
            bytes: self.bytes@,
        }
    }
}

/// Deferred messages, read through their views.
pub open spec fn items_view(items: Seq<AfterPatchItem>) -> Seq<ItemView> {
    items.map_values(|i: AfterPatchItem| i@)
}

/// A connected client.
#[derive(Debug)]
pub struct Client {
    /// Unique per physical connection: a new WebSocket means a new connection
    /// id, even for the same session.
    pub connection_id: String,
    pub session_id: String,
    pub state: ClientState,
    /// Auth data that the room produced for the seat.
    pub auth: Option<Json>,
    /// Arbitrary per-connection data. Never synchronized anywhere.
    pub user_data: Option<Json>,
    /// The token that the client uses to reconnect.
    pub reconnection_token: String,
    /// Messages sent while not yet fully joined; flushed on join.
    pub pending: Vec<Vec<u8>>,
    /// Whether the room's queue of deferred messages and its tap are there to be
    /// used.
    pub attached: bool,
    /// Rate limiting window: when it started and how many messages it saw.
    pub rate_start: u64,
    pub rate_count: u32,
    /// Frames for the transport, in order.
    pub outbox: Vec<Outbound>,
}

/// What a client stands for.
pub struct ClientView {
    pub connection_id: Seq<char>,
    pub session_id: Seq<char>,
    pub state: ClientState,
    pub auth: Option<JsonView>,
    pub user_data: Option<JsonView>,
    pub reconnection_token: Seq<char>,
    pub pending: Seq<Seq<u8>>,
    pub attached: bool,
    pub rate_start: u64,
    pub rate_count: u32,
    pub outbox: Seq<OutboundView>,
}

/// Byte strings, read through their views.
pub open spec fn bytes_views(v: Seq<Vec<u8>>) -> Seq<Seq<u8>> {
    v.map_values(|b: Vec<u8>| b@)
}

/// Outbound frames, read through their views.
pub open spec fn outbound_views(v: Seq<Outbound>) -> Seq<OutboundView> {
    v.map_values(|o: Outbound| o@)
}

impl View for Client {
    type V = ClientView;

    open spec fn view(&self) -> ClientView {
        ClientView {
            connection_id: self.connection_id@,
            session_id: self.session_id@,
            state: self.state,
            auth: option_view(self.auth),
            user_data: option_view(self.user_data),
            reconnection_token: self.reconnection_token@,
            pending: bytes_views(self.pending@),
            attached: self.attached,
            rate_start: self.rate_start,
            rate_count: self.rate_count,
            outbox: outbound_views(self.outbox@),
        }
    }
}

/// A client is fully in the room.
pub open spec fn joined_state(s: ClientState) -> bool {
    s == ClientState::Joined || s == ClientState::Reconnected
}

/// The client after a frame was handed to its transport.
pub open spec fn sent(c: ClientView, bytes: Seq<u8>) -> ClientView {
    ClientView { outbox: c.outbox.push(OutboundView::Bytes(bytes)), ..c }
}

/// The client after a close frame was handed to its transport.
pub open spec fn close_sent(c: ClientView, code: u16, reason: Seq<char>) -> ClientView {
    ClientView { outbox: c.outbox.push(OutboundView::Close(code, reason)), ..c }
}

/// The client after it was told to leave.
pub open spec fn told_to_leave(c: ClientView, code: u16, reason: Seq<char>) -> ClientView {
    ClientView { state: ClientState::Leaving, ..close_sent(c, code, reason) }
}

/// A client whose connection has just come.
pub open spec fn new_client(connection_id: Seq<char>, session_id: Seq<char>, now: u64) -> ClientView {
    ClientView {
        connection_id,
        session_id,
        state: ClientState::Joining,
        auth: None,
        user_data: None,
        reconnection_token: seq![],
        pending: seq![],
        attached: false,
        rate_start: now,
        rate_count: 0,
        outbox: seq![],
    }
}

/// A client that is asked to leave, with a code and a reason or without.
pub open spec fn asked_to_leave(
    c: ClientView,
    code: Option<u16>,
    reason: Option<Seq<char>>,
) -> ClientView {
    told_to_leave(
        c,
        match code {
            Some(c) => c,
            None => close_codes::NORMAL_CLOSURE,
        },
        match reason {
            Some(t) => t,
            None => seq![],
        },
    )
}

/// A client that was told that its message has the wrong form.
pub open spec fn payload_refused(c: ClientView, err: Seq<char>) -> ClientView {
    sent(c, packed(error_frame(codes::INVALID_PAYLOAD, "invalid payload: "@ + err)))
}

/// The frames that hold byte strings.
pub open spec fn as_frames(v: Seq<Seq<u8>>) -> Seq<OutboundView> {
    v.map_values(|b: Seq<u8>| OutboundView::Bytes(b))
}

/// The client after its pending messages were handed to its transport.
pub open spec fn flushed(c: ClientView) -> ClientView {
    ClientView { outbox: c.outbox + as_frames(c.pending), pending: seq![], ..c }
}

/// A client and the room's deferred messages after a message for the client:
/// deferred where that was asked for and can be done, else handed to the
/// transport of a joined client, kept for one that is joining, and dropped for
/// one that is leaving.
pub open spec fn delivered(
    c: ClientView,
    queue: Seq<ItemView>,
    bytes: Seq<u8>,
    after_next_patch: bool,
) -> (ClientView, Seq<ItemView>) {
    if after_next_patch && c.attached {
        (c, queue.push(ItemView { target: TargetView::Client(c.session_id), bytes }))
    } else if joined_state(c.state) {
        (sent(c, bytes), queue)
    } else if c.state == ClientState::Joining || c.state == ClientState::Reconnecting {
        (ClientView { pending: c.pending.push(bytes), ..c }, queue)
    } else {
        (c, queue)
    }
}

/// A message that went to a client.
pub open spec fn sent_log(c: ClientView, t: TypeView, message: JsonView) -> LogView {
    LogView {
        msg_type: Some(type_text(t)),
        payload: Some(message),
        ..session_log("out"@, "send"@, c.session_id)
    }
}

/// A binary message that went to a client.
pub open spec fn bytes_sent_log(c: ClientView, t: TypeView, n: usize) -> LogView {
    LogView {
        msg_type: Some(type_text(t)),
        bytes: n,
        ..session_log("out"@, "send"@, c.session_id)
    }
}

/// The room's tap after a message to a client.
pub open spec fn send_logged(tap: TapView, c: ClientView, e: LogView) -> TapView {
    if c.attached {
        logged(tap, e)
    } else {
        tap
    }
}

/// How long a rate window is, in milliseconds.
pub const RATE_WINDOW_MS: u64 = 1000;

/// The rate window after one more message: a new one where the old one is over.
pub open spec fn rate_step(start: u64, count: u32, now: u64) -> (u64, u32) {
    let (s, n) = if elapsed_since(start, now) >= RATE_WINDOW_MS {
        (now, 0u32)
    } else {
        (start, count)
    };
    (
        s,
        if n < u32::MAX {
            (n + 1) as u32
        } else {
            n
        },
    )
}

/// The rate windows after messages at the times `at`.
pub open spec fn rate_steps(start: u64, count: u32, at: Seq<u64>) -> (u64, u32)
    decreases at.len(),
{
    if at.len() == 0 {
        (start, count)
    } else {
        let (s, n) = rate_steps(start, count, at.drop_last());
        rate_step(s, n, at.last())
    }
}

/// Of the messages that arrive within one window, as many as the limit allows
/// pass and no others: the window counts every message.
pub proof fn law_rate_limit(start: u64, at: Seq<u64>)
    requires
        at.len() < u32::MAX,
        forall|i: int|
            0 <= i < at.len() ==> elapsed_since(start, #[trigger] at[i]) < RATE_WINDOW_MS,
    ensures
        rate_steps(start, 0, at) == (start, at.len() as u32),
    decreases at.len(),
{
    if at.len() > 0 {
        let init = at.drop_last();
        assert forall|i: int| 0 <= i < init.len() implies elapsed_since(start, #[trigger] init[i])
            < RATE_WINDOW_MS by {
            assert(init[i] == at[i]);
        }
        law_rate_limit(start, init);
        assert(at.last() == at[at.len() - 1]);
    }
}

/// Copies of byte strings.
pub fn copy_bytes(b: &Vec<u8>) -> (r: Vec<u8>)
    ensures
        r@ == b@,
{
    let mut r: Vec<u8> = Vec::new();
    r.extend_from_slice(b.as_slice());
    proof {
        assert(r@ =~= b@);
    }
    r
}

impl Client {
    /// A new connection of a session, which is joining.
    pub fn new(connection_id: String, session_id: String, now: u64) -> (r: Self)
        ensures
            r@ == new_client(connection_id@, session_id@, now),
    {
        let r = Client {
            connection_id,
            session_id,
            state: ClientState::Joining,
            auth: None,
            user_data: None,
            reconnection_token: String::new(),
            pending: Vec::new(),
            attached: false,
            rate_start: now,
            rate_count: 0,
            outbox: Vec::new(),
        };
        proof {
            assert(r@.pending =~= seq![]);
            assert(r@.outbox =~= seq![]);
        }
        r
    }

    pub fn session_id(&self) -> (r: &str)
        ensures
            r@ == self@.session_id,
    {
        self.session_id.as_str()
    }

    pub fn state(&self) -> (r: ClientState)
        ensures
            r == self@.state,
    {
        self.state
    }

    pub fn is_joined(&self) -> (r: bool)
        ensures
            r == joined_state(self@.state),
    {
        self.state == ClientState::Joined || self.state == ClientState::Reconnected
    }

    pub fn auth(&self) -> (r: Option<Json>)
        ensures
            option_view(r) == self@.auth,
    {
        clone_option(&self.auth)
    }

    pub fn user_data(&self) -> (r: Option<Json>)
        ensures
            option_view(r) == self@.user_data,
    {
        clone_option(&self.user_data)
    }

    pub fn set_user_data(&mut self, value: Json)
        ensures
            final(self)@ == (ClientView { user_data: Some(value@), ..old(self)@ }),
    {
        self.user_data = Some(value);
    }

    /// The token the client uses to reconnect.
    pub fn reconnection_token(&self) -> (r: String)
        ensures
            r@ == self@.reconnection_token,
    {
        self.reconnection_token.clone()
    }

    /// Sends a message (`[13, type, payload]`).
    pub fn send(
        &mut self,
        msg_type: &MessageType,
        message: &Json,
        queue: &mut Vec<AfterPatchItem>,
        tap: &mut EventTap,
    )
        ensures
            (final(self)@, items_view(final(queue)@)) == delivered(
                old(self)@,
                items_view(old(queue)@),
                packed(data_frame(msg_type@, message@)),
                false,
            ),
            final(tap)@ == send_logged(
                old(tap)@,
                old(self)@,
                sent_log(old(self)@, msg_type@, message@),
            ),
    {
        self.send_with_options(msg_type, message, SendOptions::default(), queue, tap);
    }

    /// Sends a message (`[13, type, payload]`), now or after the next patch.
    pub fn send_with_options(
        &mut self,
        msg_type: &MessageType,
        message: &Json,
        options: SendOptions,
        queue: &mut Vec<AfterPatchItem>,
        tap: &mut EventTap,
    )
        ensures
            (final(self)@, items_view(final(queue)@)) == delivered(
                old(self)@,
                items_view(old(queue)@),
                packed(data_frame(msg_type@, message@)),
                options.after_next_patch,
            ),
            final(tap)@ == send_logged(
                old(tap)@,
                old(self)@,
                sent_log(old(self)@, msg_type@, message@),
            ),
    {
        if self.attached && tap.open {
            tap.log(
                RoomEventLog::new("out", "send").client(
                    self.session_id.as_str(),
                ).msg_type(msg_type).payload(message.clone()),
            );
        }
        let bytes: Vec<u8> = protocol::room_data(msg_type, message);
        self.deliver(bytes, options, queue);
    }

    /// Sends a binary message (`[17, type, bytes]`).
    pub fn send_bytes(
        &mut self,
        msg_type: &MessageType,
        payload: &[u8],
        queue: &mut Vec<AfterPatchItem>,
        tap: &mut EventTap,
    )
        ensures
            (final(self)@, items_view(final(queue)@)) == delivered(
                old(self)@,
                items_view(old(queue)@),
                packed_triple(protocol::code::ROOM_DATA_BYTES, type_json(msg_type@), payload@),
                false,
            ),
            final(tap)@ == send_logged(
                old(tap)@,
                old(self)@,
                bytes_sent_log(old(self)@, msg_type@, payload.len()),
            ),
    {
        if self.attached && tap.open {
            tap.log(
                RoomEventLog::new("out", "send").client(
                    self.session_id.as_str(),
                ).msg_type(msg_type).bytes(payload.len()),
            );
        }
        let bytes: Vec<u8> = protocol::room_data_bytes(msg_type, payload);
        self.deliver(bytes, SendOptions::default(), queue);
    }

    /// Sends a protocol-level error message to this client.
    pub fn error(&mut self, code: u16, message: &str)
        ensures
            final(self)@ == sent(old(self)@, packed(error_frame(code, message@))),
    {
        self.raw_now(protocol::error(code, message));
    }

    /// Closes this client's connection.
    pub fn leave(&mut self, code: Option<u16>, reason: Option<&str>)
        ensures
            final(self)@ == asked_to_leave(
                old(self)@,
                code,
                match reason {
                    Some(t) => Some(t@),
                    None => None,
                },
            ),
    {
        self.set_state(ClientState::Leaving);
        let code: u16 = match code {
            Some(c) => c,
            None => close_codes::NORMAL_CLOSURE,
        };
        let reason: String = match reason {
            Some(t) => t.to_owned(),
            None => String::new(),
        };
        self.close_transport(code, reason.as_str());
    }

    /// Hands a message on by the client's state and the options.
    pub fn deliver(
        &mut self,
        bytes: Vec<u8>,
        options: SendOptions,
        queue: &mut Vec<AfterPatchItem>,
    )
        ensures
            (final(self)@, items_view(final(queue)@)) == delivered(
                old(self)@,
                items_view(old(queue)@),
                bytes@,
                options.after_next_patch,
            ),
    {
        if options.after_next_patch && self.attached {
            let item = AfterPatchItem {
                target: AfterPatchTarget::Client(self.session_id.clone()),
                bytes,
            };
            let ghost before = queue@;
            queue.push(item);
            proof {
                assert(items_view(queue@) =~= items_view(before).push(item@));
            }
            return ;
        }
        match self.state {
            ClientState::Joined => self.raw_now(bytes),
            ClientState::Reconnected => self.raw_now(bytes),
            ClientState::Joining => self.keep_pending(bytes),
            ClientState::Reconnecting => self.keep_pending(bytes),
            _ => {},
        }
    }

    fn keep_pending(&mut self, bytes: Vec<u8>)
        ensures
            final(self)@ == (ClientView { pending: old(self)@.pending.push(bytes@), ..old(self)@ }),
    {
        let ghost before = self.pending@;
        self.pending.push(bytes);
        proof {
            assert(bytes_views(self.pending@) =~= bytes_views(before).push(bytes@));
        }
    }

    /// Hands a frame to the transport.
    pub fn raw_now(&mut self, bytes: Vec<u8>)
        ensures
            final(self)@ == sent(old(self)@, bytes@),
    {
        let ghost before = self.outbox@;
        self.outbox.push(Outbound::Bytes(bytes));
        proof {
            assert(outbound_views(self.outbox@) =~= outbound_views(before).push(
                OutboundView::Bytes(bytes@),
            ));
        }
    }

    /// Hands the pending messages to the transport, in order.
    pub fn flush_pending(&mut self)
        ensures
            final(self)@ == flushed(old(self)@),
    {
        let ghost start = self@;
        let n: usize = self.pending.len();
        let mut i: usize = 0;
        proof {
            assert(start.pending.len() == n);
            assert(start.outbox + as_frames(start.pending.take(0)) =~= start.outbox);
        }
        while i < n
            invariant
                i <= n,
                start.pending.len() == n,
                self.pending@.len() == n,
                self@ == (ClientView {
                    outbox: start.outbox + as_frames(start.pending.take(i as int)),
                    ..start
                }),
            decreases n - i,
        {
            let ghost before = self@;
            let bytes: Vec<u8> = copy_bytes(&self.pending[i]);
            proof {
                assert(self@.pending[i as int] == bytes@);
                assert(as_frames(start.pending.take(i + 1)) =~= as_frames(
                    start.pending.take(i as int),
                ).push(OutboundView::Bytes(bytes@)));
                assert(start.outbox + as_frames(start.pending.take(i + 1)) =~= before.outbox.push(
                    OutboundView::Bytes(bytes@),
                ));
            }
            self.raw_now(bytes);
            proof {
                assert(self.pending@.len() == self@.pending.len());
            }
            i = i + 1;
        }
        self.pending = Vec::new();
        proof {
            assert(start.pending.take(start.pending.len() as int) =~= start.pending);
            assert(bytes_views(self.pending@) =~= seq![]);
        }
    }

    /// Sends a close frame without touching the client state. (Used for
    /// reconnecting clients whose socket is being recycled.)
    pub fn close_transport(&mut self, code: u16, reason: &str)
        ensures
            final(self)@ == close_sent(old(self)@, code, reason@),
    {
        let ghost before = self.outbox@;
        let frame = Outbound::Close(code, reason.to_owned());
        self.outbox.push(frame);
        proof {
            assert(outbound_views(self.outbox@) =~= outbound_views(before).push(frame@));
        }
    }

    pub fn set_state(&mut self, state: ClientState)
        ensures
            final(self)@ == (ClientView { state, ..old(self)@ }),
    {
        self.state = state;
    }

    /// Sliding-window message rate check. Returns false when over the limit.
    pub fn check_rate(&mut self, max_per_second: Option<u32>, now: u64) -> (r: bool)
        ensures
            (final(self)@, r) == rate_checked(old(self)@, max_per_second, now),
    {
        match max_per_second {
            None => true,
            Some(max) => {
                let over: bool = now > self.rate_start && now - self.rate_start >= RATE_WINDOW_MS;
                if over {
                    self.rate_start = now;
                    self.rate_count = 0;
                }
                if self.rate_count < u32::MAX {
                    self.rate_count = self.rate_count + 1;
                }
                self.rate_count <= max
            },
        }
    }

    /// A copy for keeping: who the client is, without its transport.
    pub fn copy(&self) -> (r: Client)
        ensures
            r@ == (ClientView { pending: seq![], outbox: seq![], ..self@ }),
    {
        let r = Client {
            connection_id: self.connection_id.clone(),
            session_id: self.session_id.clone(),
            state: self.state,
            auth: clone_option(&self.auth),
            user_data: clone_option(&self.user_data),
            reconnection_token: self.reconnection_token.clone(),
            pending: Vec::new(),
            attached: self.attached,
            rate_start: self.rate_start,
            rate_count: self.rate_count,
            outbox: Vec::new(),
        };
        proof {
            assert(r@.pending =~= seq![]);
            assert(r@.outbox =~= seq![]);
        }
        r
    }
}

/// Sends an "invalid payload" error for a message that could not be read.
pub fn invalid_payload(client: &mut Client, err: &str)
    ensures
        final(client)@ == payload_refused(old(client)@, err@),
{
    let message: String = joined("invalid payload: ", err);
    client.error(codes::INVALID_PAYLOAD, message.as_str());
}

}
