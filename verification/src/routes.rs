//! Which handlers a client's message is for. Handlers are known by the ids under
//! which they were registered.

use crate::protocol::{MessageType, TypeView};
use crate::room::{ContextView, RoomContext};
use vstd::prelude::*;

verus! {

/// The handlers of a room, in the order in which they were registered.
#[derive(Debug)]
pub struct Routes {
    /// Handlers of messages of one type.
    pub typed: Vec<(MessageType, u64)>,
    /// Handlers of every message.
    pub any: Vec<u64>,
    /// Handlers of binary messages of one type.
    pub bytes: Vec<(MessageType, u64)>,
    /// The last id that was given out.
    pub last_id: u64,
}

/// What the handlers of a room stand for.
pub struct RoutesView {
    pub typed: Seq<(TypeView, u64)>,
    pub any: Seq<u64>,
    pub bytes: Seq<(TypeView, u64)>,
    pub last_id: u64,
}

/// Handlers of messages of one type, read through their views.
pub open spec fn route_views(v: Seq<(MessageType, u64)>) -> Seq<(TypeView, u64)> {
    v.map_values(|e: (MessageType, u64)| (e.0@, e.1))
}

impl View for Routes {
    type V = RoutesView;

    open spec fn view(&self) -> RoutesView {
        RoutesView {
            typed: route_views(self.typed@),
            any: self.any@,
            bytes: route_views(self.bytes@),
            last_id: self.last_id,
        }
    }
}

/// A room without handlers.
pub open spec fn no_routes() -> RoutesView {
    RoutesView { typed: seq![], any: seq![], bytes: seq![], last_id: 0 }
}

/// The handlers of messages of the type `t`, in their order.
pub open spec fn ids_for(s: Seq<(TypeView, u64)>, t: TypeView) -> Seq<u64>
    decreases s.len(),
{
    if s.len() == 0 {
        seq![]
    } else if s.last().0 == t {
        ids_for(s.drop_last(), t).push(s.last().1)
    } else {
        ids_for(s.drop_last(), t)
    }
}

/// The id that comes next.
pub open spec fn next_id(r: RoutesView) -> u64 {
    (r.last_id + 1) as u64
}

/// The handlers after one more for messages of a type.
pub open spec fn with_typed(r: RoutesView, t: TypeView) -> RoutesView {
    RoutesView { typed: r.typed.push((t, next_id(r))), last_id: next_id(r), ..r }
}

/// The handlers after one more for messages of the type with this text.
pub open spec fn with_text(r: RoutesView, t: Seq<char>) -> RoutesView {
    with_typed(r, TypeView::Str(t))
}

/// The handlers after one more for every message.
pub open spec fn with_any(r: RoutesView) -> RoutesView {
    RoutesView { any: r.any.push(next_id(r)), last_id: next_id(r), ..r }
}

/// The handlers after one more for binary messages of a type.
pub open spec fn with_bytes(r: RoutesView, t: TypeView) -> RoutesView {
    RoutesView { bytes: r.bytes.push((t, next_id(r))), last_id: next_id(r), ..r }
}

impl Routes {
    pub fn new() -> (r: Self)
        ensures
            r@ == no_routes(),
    {
        let r = Routes { typed: Vec::new(), any: Vec::new(), bytes: Vec::new(), last_id: 0 };
        proof {
            assert(r@.typed =~= seq![]);
            assert(r@.bytes =~= seq![]);
            assert(r@.any =~= seq![]);
        }
        r
    }
}

fn pick_ids(v: &Vec<(MessageType, u64)>, t: &MessageType) -> (r: Vec<u64>)
    ensures
        r@ == ids_for(route_views(v@), t@),
{
    let ghost all = route_views(v@);
    let mut r: Vec<u64> = Vec::new();
    let mut i: usize = 0;
    proof {
        assert(all.take(0) =~= seq![]);
    }
    while i < v.len()
        invariant
            i <= v.len(),
            all == route_views(v@),
            r@ == ids_for(all.take(i as int), t@),
        decreases v.len() - i,
    {
        proof {
            assert(all.take(i + 1).drop_last() =~= all.take(i as int));
            assert(all.take(i + 1).last() == all[i as int]);
            assert(all[i as int] == (v@[i as int].0@, v@[i as int].1));
        }
        if v[i].0.same_as(t) {
            r.push(v[i].1);
        }
        i = i + 1;
    }
    proof {
        assert(all.take(all.len() as int) =~= all);
    }
    r
}

impl RoomContext {
    /// Registers a handler of messages of one type, and returns its id.
    pub fn on_message(&mut self, msg_type: MessageType) -> (r: u64)
        requires
            old(self)@.routes.last_id < u64::MAX,
        ensures
            r == old(self)@.routes.last_id + 1,
            final(self)@ == (ContextView {
                routes: with_typed(old(self)@.routes, msg_type@),
                ..old(self)@
            }),
    {
        let ghost before = self.routes.typed@;
        let id: u64 = self.routes.last_id + 1;
        let entry: (MessageType, u64) = (msg_type, id);
        self.routes.typed.push(entry);
        self.routes.last_id = id;
        proof {
            assert(route_views(self.routes.typed@) =~= route_views(before).push((entry.0@, id)));
        }
        id
    }

    /// Registers a handler of every message, also of those that other handlers
    /// take, and returns its id.
    pub fn on_any_message(&mut self) -> (r: u64)
        requires
            old(self)@.routes.last_id < u64::MAX,
        ensures
            r == old(self)@.routes.last_id + 1,
            final(self)@ == (ContextView { routes: with_any(old(self)@.routes), ..old(self)@ }),
    {
        let id: u64 = self.routes.last_id + 1;
        self.routes.any.push(id);
        self.routes.last_id = id;
        id
    }

    /// Registers a handler of binary messages of one type, and returns its id.
    pub fn on_message_bytes(&mut self, msg_type: MessageType) -> (r: u64)
        requires
            old(self)@.routes.last_id < u64::MAX,
        ensures
            r == old(self)@.routes.last_id + 1,
            final(self)@ == (ContextView {
                routes: with_bytes(old(self)@.routes, msg_type@),
                ..old(self)@
            }),
    {
        let ghost before = self.routes.bytes@;
        let id: u64 = self.routes.last_id + 1;
        let entry: (MessageType, u64) = (msg_type, id);
        self.routes.bytes.push(entry);
        self.routes.last_id = id;
        proof {
            assert(route_views(self.routes.bytes@) =~= route_views(before).push((entry.0@, id)));
        }
        id
    }

    /// The handlers of messages of a type. They run first, and what goes wrong in
    /// them the client is told.
    pub fn message_handlers(&self, msg_type: &MessageType) -> (r: Vec<u64>)
        ensures
            r@ == ids_for(self@.routes.typed, msg_type@),
    {
        pick_ids(&self.routes.typed, msg_type)
    }

    /// The handlers of every message. They run after the others.
    pub fn any_handlers(&self) -> (r: Vec<u64>)
        ensures
            r@ == self@.routes.any,
    {
        let mut r: Vec<u64> = Vec::new();
        let mut i: usize = 0;
        while i < self.routes.any.len()
            invariant
                i <= self.routes.any.len(),
                r@ == self.routes.any@.take(i as int),
            decreases self.routes.any.len() - i,
        {
            r.push(self.routes.any[i]);
            i = i + 1;
        }
        proof {
            assert(r@ =~= self.routes.any@);
        }
        r
    }

    /// The handlers of binary messages of a type.
    pub fn bytes_handlers(&self, msg_type: &MessageType) -> (r: Vec<u64>)
        ensures
            r@ == ids_for(self@.routes.bytes, msg_type@),
    {
        pick_ids(&self.routes.bytes, msg_type)
    }
}

/// A handler gets the messages of its type, after the handlers that were
/// registered before it, and no others.
pub proof fn law_handlers_get_their_messages(r: RoutesView, t: TypeView, u: TypeView)
    requires
        r.last_id < u64::MAX,
    ensures
        ids_for(with_typed(r, t).typed, u) == if u == t {
            ids_for(r.typed, u).push(next_id(r))
        } else {
            ids_for(r.typed, u)
        },
        with_typed(r, t).any == r.any,
        with_typed(r, t).bytes == r.bytes,
        with_any(r).typed == r.typed,
        with_any(r).bytes == r.bytes,
        ids_for(with_bytes(r, t).bytes, u) == if u == t {
            ids_for(r.bytes, u).push(next_id(r))
        } else {
            ids_for(r.bytes, u)
        },
{
    assert(r.typed.push((t, next_id(r))).drop_last() =~= r.typed);
    assert(r.bytes.push((t, next_id(r))).drop_last() =~= r.bytes);
}

/// Every id was given out, at most the last one.
pub open spec fn ids_given_out(r: RoutesView) -> bool {
    &&& forall|i: int| 0 <= i < r.typed.len() ==> (#[trigger] r.typed[i]).1 <= r.last_id
    &&& forall|i: int| 0 <= i < r.any.len() ==> (#[trigger] r.any[i]) <= r.last_id
    &&& forall|i: int| 0 <= i < r.bytes.len() ==> (#[trigger] r.bytes[i]).1 <= r.last_id
}

/// No two handlers of a room share an id: a new room has none, and each
/// registration gives out one that is larger than all before it.
pub proof fn law_handler_ids_are_fresh(r: RoutesView, t: TypeView)
    requires
        ids_given_out(r),
        r.last_id < u64::MAX,
    ensures
        ids_given_out(no_routes()),
        ids_given_out(with_typed(r, t)),
        ids_given_out(with_any(r)),
        ids_given_out(with_bytes(r, t)),
        next_id(r) > r.last_id,
{
}

}
