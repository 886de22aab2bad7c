//! The global chat room. The message history is room-internal, not synchronized
//! state: joining clients get the last messages pushed once, then only new
//! messages arrive as broadcasts.

use crate::context::{broadcasted, messaged};
use crate::driver::{ListingView, RoomListing};
use crate::json::{lookup, put_field, values_view, Json, JsonView};
use crate::protocol::{MessageType, TypeView};
use crate::query::{is_blank, option_view, text_option};
use crate::room::{synced, ContextView, RoomContext};
use crate::routes::with_text;
use crate::text::{joined, same_text, trim_text, trimmed};
use crate::tictactoe::{auth_field, auth_text};
use crate::trivia::game::{cut, cut_text};
use std::collections::VecDeque;
use vstd::prelude::*;

verus! {

pub const MAX_MESSAGES: usize = 50;

pub const MAX_CLIENTS: u32 = 500;

/// The longest message, in characters.
pub const TEXT_MAX: usize = 300;

/// A chat message.
#[derive(Debug)]
pub struct ChatMessage {
    pub from: String,
    pub text: String,
    pub at: u64,
    /// "chat" or "system".
    pub kind: String,
    /// Set for system messages announcing a new game room.
    pub room_id: Option<String>,
}

/// What a chat message stands for.
pub struct ChatView {
    pub from: Seq<char>,
    pub text: Seq<char>,
    pub at: u64,
    pub kind: Seq<char>,
    pub room_id: Option<Seq<char>>,
}

impl View for ChatMessage {
    type V = ChatView;

    open spec fn view(&self) -> ChatView {
        ChatView {
            from: self.from@,
            text: self.text@,
            at: self.at,
            kind: self.kind@,
            room_id: text_option(self.room_id),
        }
    }
}

/// A chat message as clients see it.
pub open spec fn message_json(m: ChatView) -> JsonView {
    JsonView::Object(
        Map::<Seq<char>, JsonView>::empty().insert("from"@, JsonView::Str(m.from)).insert(
            "text"@,
            JsonView::Str(m.text),
        ).insert("at"@, JsonView::Int(m.at as int)).insert("kind"@, JsonView::Str(m.kind)).insert(
            "roomId"@,
            match m.room_id {
                Some(id) => JsonView::Str(id),
                None => JsonView::Null,
            },
        ),
    )
}

impl ChatMessage {
    /// The message as clients see it.
    pub fn to_json(&self) -> (r: Json)
        ensures
            r@ == message_json(self@),
    {
        let room_id: Json = match &self.room_id {
            Some(id) => Json::Str(id.clone()),
            None => Json::Null,
        };
        let mut es: Vec<(String, Json)> = Vec::new();
        put_field(&mut es, "from", Json::Str(self.from.clone()));
        put_field(&mut es, "text", Json::Str(self.text.clone()));
        put_field(&mut es, "at", Json::Uint(self.at));
        put_field(&mut es, "kind", Json::Str(self.kind.clone()));
        put_field(&mut es, "roomId", room_id);
        Json::Object(es)
    }
}

/// The chat room.
pub struct ChatRoom {
    /// Internal only, never synchronized.
    messages: VecDeque<ChatMessage>,
}

/// Chat messages, read through their views.
pub open spec fn message_views(v: Seq<ChatMessage>) -> Seq<ChatView> {
    v.map_values(|m: ChatMessage| m@)
}

/// The last messages.
pub open spec fn last_messages(s: Seq<ChatView>) -> Seq<ChatView> {
    if s.len() <= MAX_MESSAGES {
        s
    } else {
        s.skip(s.len() - MAX_MESSAGES)
    }
}

/// A message from the server.
pub open spec fn system_view(text: Seq<char>, room_id: Option<Seq<char>>, at: u64) -> ChatView {
    ChatView { from: "system"@, text, at, kind: "system"@, room_id }
}

/// A message from a client.
pub open spec fn said_view(auth: Option<JsonView>, text: Seq<char>, at: u64) -> ChatView {
    ChatView {
        from: auth_text(auth, "name"@, "???"@),
        text: said_text(text),
        at,
        kind: "chat"@,
        room_id: None,
    }
}

/// What is passed on of what was written.
pub open spec fn said_text(text: Seq<char>) -> Seq<char> {
    cut(trimmed(text), TEXT_MAX as int)
}

/// The context after a message went to everybody.
pub open spec fn chatted(c: ContextView, m: ChatView) -> ContextView {
    broadcasted(c, TypeView::Str("chat"@), message_json(m))
}

/// The context of a new chat room: it is there for everybody, and stays when nobody is.
pub open spec fn chat_opened(c: ContextView) -> ContextView {
    ContextView {
        routes: with_text(c.routes, "chat"@),
        ..synced(ContextView { auto_dispose: false, max_clients: Some(MAX_CLIENTS), ..c })
    }
}

/// The context and the history after a message was posted.
pub open spec fn posted(c: ContextView, history: Seq<ChatView>, m: ChatView) -> (
    ContextView,
    Seq<ChatView>,
) {
    (chatted(c, m), last_messages(history.push(m)))
}

/// The context and the history after a client said something. What is blank is not
/// passed on.
pub open spec fn said(
    c: ContextView,
    history: Seq<ChatView>,
    auth: Option<JsonView>,
    text: Seq<char>,
    at: u64,
) -> (ContextView, Seq<ChatView>) {
    if said_text(text).len() == 0 {
        (c, history)
    } else {
        posted(c, history, said_view(auth, text, at))
    }
}

/// The history as it is pushed to a client.
pub open spec fn history_json(s: Seq<ChatView>) -> JsonView {
    JsonView::Array(s.map_values(|m: ChatView| message_json(m)))
}

/// The context after the history was pushed to a client.
pub open spec fn sent_history(c: ContextView, s: Seq<ChatView>, session_id: Seq<char>) -> ContextView {
    messaged(c, session_id, TypeView::Str("history"@), history_json(s))
}

impl View for ChatRoom {
    type V = Seq<ChatView>;

    closed spec fn view(&self) -> Seq<ChatView> {
        message_views(self.messages@)
    }
}

impl ChatRoom {
    pub fn new() -> (r: Self)
        ensures
            r@ == Seq::<ChatView>::empty(),
    {
        let r = ChatRoom { messages: VecDeque::new() };
        proof {
            assert(r@ =~= Seq::<ChatView>::empty());
        }
        r
    }

    fn push(&mut self, message: ChatMessage)
        ensures
            final(self)@ == last_messages(old(self)@.push(message@)),
    {
        let ghost all = self@.push(message@);
        self.messages.push_back(message);
        proof {
            assert(self@ =~= all);
            assert(all.skip(0) =~= all);
        }
        let ghost mut gone: int = 0;
        while self.messages.len() > MAX_MESSAGES
            invariant
                0 <= gone <= all.len(),
                self@ == all.skip(gone),
                gone > 0 ==> self@.len() >= MAX_MESSAGES,
            decreases self.messages.len(),
        {
            let ghost before = self.messages@;
            let _oldest: Option<ChatMessage> = self.messages.pop_front();
            proof {
                assert(message_views(before).len() == before.len());
                assert(self.messages@ =~= before.skip(1));
                assert(self@ =~= message_views(before).skip(1));
                assert(all.skip(gone).skip(1) =~= all.skip(gone + 1));
                gone = gone + 1;
            }
        }
        proof {
            assert(self@.len() == self.messages@.len());
        }
    }

    /// Server-injected announcement (new game rooms, etc).
    pub fn system_message(
        &mut self,
        ctx: &mut RoomContext,
        text: String,
        room_id: Option<String>,
        at: u64,
    )
        ensures
            (final(ctx)@, final(self)@) == posted(
                old(ctx)@,
                old(self)@,
                system_view(text@, text_option(room_id), at),
            ),
    {
        let message = ChatMessage {
            from: "system".to_owned(),
            text,
            at,
            kind: "system".to_owned(),
            room_id,
        };
        let json: Json = message.to_json();
        self.push(message);
        ctx.broadcast(&MessageType::text("chat"), &json);
    }

    /// Sets the room up: it takes many clients, lives forever and handles chat.
    pub fn on_create(&self, ctx: &mut RoomContext)
        requires
            old(ctx)@.routes.last_id < u64::MAX,
        ensures
            final(ctx)@ == chat_opened(old(ctx)@),
    {
        ctx.auto_dispose = false;
        ctx.set_max_clients(Some(MAX_CLIENTS));
        ctx.on_message(MessageType::text("chat"));
    }

    /// A client says something. Nothing is passed on of a blank message.
    pub fn on_chat(&mut self, ctx: &mut RoomContext, auth: &Option<Json>, text: &str, at: u64)
        ensures
            (final(ctx)@, final(self)@) == said(
                old(ctx)@,
                old(self)@,
                option_view(*auth),
                text@,
                at,
            ),
    {
        let trimmed_text: String = trim_text(text);
        let said: String = cut_text(trimmed_text.as_str(), TEXT_MAX);
        if is_blank(said.as_str()) {
            return ;
        }
        let message = ChatMessage {
            from: auth_field(auth, "name", "???"),
            text: said,
            at,
            kind: "chat".to_owned(),
            room_id: None,
        };
        let json: Json = message.to_json();
        self.push(message);
        ctx.broadcast(&MessageType::text("chat"), &json);
    }

    /// The recent history as it is pushed to a client that joins.
    pub fn history(&self) -> (r: Json)
        ensures
            r@ == history_json(self@),
    {
        let ghost views = self@.map_values(|m: ChatView| message_json(m));
        let mut items: Vec<Json> = Vec::new();
        let mut i: usize = 0;
        while i < self.messages.len()
            invariant
                i <= self.messages.len(),
                items.len() == i,
                views == self@.map_values(|m: ChatView| message_json(m)),
                forall|k: int| 0 <= k < i ==> (#[trigger] items@[k])@ == views[k],
            decreases self.messages.len() - i,
        {
            proof {
                assert(self@[i as int] == self.messages@[i as int]@);
            }
            items.push(self.messages[i].to_json());
            i = i + 1;
        }
        proof {
            assert(values_view(items@) =~= views);
        }
        Json::array(items)
    }

    /// Pushes the recent history to a client that joins.
    pub fn on_join(&self, ctx: &mut RoomContext, session_id: &str)
        ensures
            final(ctx)@ == sent_history(old(ctx)@, self@, session_id@),
    {
        let history: Json = self.history();
        ctx.send_to(session_id, &MessageType::text("history"), &history);
    }
}

/// The history never holds more than the last messages.
pub proof fn law_history_is_bounded(s: Seq<ChatView>, m: ChatView)
    ensures
        last_messages(s.push(m)).len() <= MAX_MESSAGES,
        last_messages(s.push(m)).last() == m,
{
}

// ---------------------------------------------------------------------
// new games
// ---------------------------------------------------------------------

/// A text among a listing's filter fields, or what stands for it where there is
/// none.
pub open spec fn extra_text(l: ListingView, field: Seq<char>, default: Seq<char>) -> Seq<char> {
    if l.extra.dom().contains(field) && l.extra[field] is Str {
        l.extra[field]->Str_0
    } else {
        default
    }
}

/// What the chat is told about a new room: trivia rooms are announced, with their
/// category and difficulty.
pub open spec fn announcement_text(l: ListingView) -> Option<Seq<char>> {
    if l.name == "trivia"@ {
        Some(
            "🎮 new game: "@ + extra_text(l, "category"@, "genel"@) + " ("@ + extra_text(
                l,
                "difficulty"@,
                "easy"@,
            ) + ")"@,
        )
    } else {
        None
    }
}

fn read_extra_text(listing: &RoomListing, field: &str, default: &str) -> (r: String)
    ensures
        r@ == extra_text(listing@, field@, default@),
{
    match lookup(&listing.extra, field) {
        Some(Json::Str(t)) => t.clone(),
        _ => default.to_owned(),
    }
}

/// What the chat is told about a new room, if anything.
pub fn announcement(listing: &RoomListing) -> (r: Option<String>)
    ensures
        text_option(r) == announcement_text(listing@),
{
    if !same_text(listing.name.as_str(), "trivia") {
        return None;
    }
    let category: String = read_extra_text(listing, "category", "genel");
    let difficulty: String = read_extra_text(listing, "difficulty", "easy");
    let mut text: String = joined("🎮 new game: ", category.as_str());
    text.append(" (");
    text.append(difficulty.as_str());
    text.append(")");
    Some(text)
}

}
