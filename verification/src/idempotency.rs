//! Replies that are replayed for a repeated `Idempotency-Key`.

use crate::json::{Json, JsonView};
use crate::text::{chars_of, decimal, decimal_text, lemma_decimal_value, lemma_pieces_first, pieces};
use crate::utils::elapsed_since;
use dashmap::DashMap;
use vstd::prelude::*;
use vstd::string::*;

verus! {

/// How long a reply is replayed, in milliseconds.
pub const IDEMPOTENCY_TTL_MS: u64 = 30000;

/// Upper bound of kept replies (the oldest are dropped).
pub const IDEMPOTENCY_CAP: usize = 1024;

/// A part of a key: the text with its length before it, so that where it ends can be
/// told whatever stands behind it.
pub open spec fn key_part(t: Seq<char>) -> Seq<char> {
    decimal(t.len()) + seq![':'] + t
}

/// A part of a key.
pub fn write_part(t: &str) -> (r: String)
    ensures
        r@ == key_part(t@),
{
    let n: usize = chars_of(t).len();
    let mut r: String = decimal_text(n as u64);
    r.push(':');
    r.append(t);
    proof {
        assert(r@ =~= key_part(t@));
    }
    r
}

/// Keys that start with a part are the same only where the parts are, and what is
/// behind them.
pub proof fn lemma_key_part(a: Seq<char>, x: Seq<char>, b: Seq<char>, y: Seq<char>)
    requires
        key_part(a) + x == key_part(b) + y,
    ensures
        a == b,
        x == y,
{
    let da = decimal(a.len());
    let db = decimal(b.len());
    lemma_decimal_value(a.len());
    lemma_decimal_value(b.len());
    assert(!da.contains(':'));
    assert(!db.contains(':'));
    assert(key_part(a) + x =~= da + seq![':'] + (a + x));
    assert(key_part(b) + y =~= db + seq![':'] + (b + y));
    lemma_pieces_first(da, a + x, ':');
    lemma_pieces_first(db, b + y, ':');
    assert(pieces(key_part(a) + x, ':')[0] == da);
    assert(pieces(key_part(b) + y, ':')[0] == db);
    assert(a.len() == b.len());
    let whole = key_part(a) + x;
    let from: int = da.len() as int + 1;
    assert(whole.subrange(from, from + a.len()) =~= a);
    assert(whole.subrange(from, from + a.len()) =~= b);
    assert(whole.skip(from + a.len()) =~= x);
    assert(whole.skip(from + a.len()) =~= y);
}

/// A reply and when it was given.
#[derive(Debug)]
pub struct CachedReply {
    pub at: u64,
    pub body: Json,
}

/// What a kept reply stands for.
pub struct ReplyView {
    pub at: u64,
    pub body: JsonView,
}

impl View for CachedReply {
    type V = ReplyView;

    open spec fn view(&self) -> ReplyView {
        ReplyView { at: self.at, body: self.body@ }
    }
}

impl CachedReply {
    fn copy(&self) -> (r: CachedReply)
        ensures
            r@ == self@,
    {
        CachedReply { at: self.at, body: self.body.clone() }
    }

    fn is_live(&self, now: u64) -> (r: bool)
        ensures
            r == live_reply(self@, now),
    {
        let age: u64 = if now <= self.at {
            0
        } else {
            now - self.at
        };
        age <= IDEMPOTENCY_TTL_MS
    }
}

/// The reply is young enough to be replayed.
pub open spec fn live_reply(r: ReplyView, now: u64) -> bool {
    elapsed_since(r.at, now) <= IDEMPOTENCY_TTL_MS
}

/// The replies that are young enough.
pub open spec fn live_replies(m: Map<Seq<char>, ReplyView>, now: u64) -> Map<Seq<char>, ReplyView> {
    m.restrict(Set::new(|k: Seq<char>| m.dom().contains(k) && live_reply(m[k], now)))
}

/// The replies that a map holds, by key.
pub uninterp spec fn replies_of(m: DashMap<String, CachedReply>) -> Map<Seq<char>, ReplyView>;

/// A map without replies.
pub open spec fn no_replies() -> Map<Seq<char>, ReplyView> {
    Map::empty()
}

/// `DashMap::new`: an empty map.
#[verifier::external_body]
fn new_replies() -> (r: DashMap<String, CachedReply>)
    ensures
        replies_of(r) == no_replies(),
{
    DashMap::new()
}

/// `DashMap::get`: the value under a key, copied.
#[verifier::external_body]
fn get_reply(m: &DashMap<String, CachedReply>, key: &str) -> (r: Option<CachedReply>)
    ensures
        r is Some <==> replies_of(*m).dom().contains(key@),
        r matches Some(v) ==> v@ == replies_of(*m)[key@],
{
    m.get(key).map(|r| r.copy())
}

/// `DashMap::insert`: sets a key, whether or not it was there.
#[verifier::external_body]
fn put_reply(m: &mut DashMap<String, CachedReply>, key: String, reply: CachedReply)
    ensures
        replies_of(*final(m)) == replies_of(*old(m)).insert(key@, reply@),
{
    m.insert(key, reply);
}

/// `DashMap::remove`: takes a key out.
#[verifier::external_body]
fn take_reply(m: &mut DashMap<String, CachedReply>, key: &str)
    ensures
        replies_of(*final(m)) == replies_of(*old(m)).remove(key@),
{
    m.remove(key);
}

/// `DashMap::retain`: keeps the entries that the closure accepts.
#[verifier::external_body]
fn keep_live(m: &mut DashMap<String, CachedReply>, now: u64)
    ensures
        replies_of(*final(m)) == live_replies(replies_of(*old(m)), now),
{
    m.retain(|_, r| r.is_live(now));
}

/// `ages` holds each key of the map once, with the time of its reply.
pub open spec fn is_age_list(m: Map<Seq<char>, ReplyView>, ages: Seq<(String, u64)>) -> bool {
    &&& m.dom().finite()
    &&& ages.len() == m.dom().len()
    &&& forall|i: int|
        0 <= i < ages.len() ==> m.dom().contains((#[trigger] ages[i]).0@) && m[ages[i].0@].at
            == ages[i].1
    &&& forall|k: Seq<char>| #[trigger]
        m.dom().contains(k) ==> exists|i: int| 0 <= i < ages.len() && (#[trigger] ages[i]).0@ == k
}

/// `DashMap::iter`: every key once, with the time of its reply, in an order that
/// is not fixed.
#[verifier::external_body]
fn list_ages(m: &DashMap<String, CachedReply>) -> (r: Vec<(String, u64)>)
    ensures
        is_age_list(replies_of(*m), r@),
{
    m.iter().map(|e| (e.key().clone(), e.value().at)).collect()
}

/// `kept` is what is left of `all` when the oldest were dropped until there is
/// room for one more.
pub open spec fn is_trimmed(all: Map<Seq<char>, ReplyView>, kept: Map<Seq<char>, ReplyView>) -> bool {
    &&& kept.submap_of(all)
    &&& kept.dom().finite()
    &&& all.dom().len() < IDEMPOTENCY_CAP ==> kept == all
    &&& all.dom().len() >= IDEMPOTENCY_CAP ==> kept.dom().len() == IDEMPOTENCY_CAP - 1
    &&& forall|k: Seq<char>, d: Seq<char>|
        #![trigger kept.dom().contains(k), all.dom().contains(d)]
        kept.dom().contains(k) && all.dom().contains(d) && !kept.dom().contains(d) ==> all[d].at
            <= all[k].at
}

/// Replies kept for replay.
pub struct ReplyCache {
    replies: DashMap<String, CachedReply>,
}

impl ReplyCache {
    /// The replies that are kept.
    pub closed spec fn replies(self) -> Map<Seq<char>, ReplyView> {
        replies_of(self.replies)
    }

    pub fn new() -> (r: Self)
        ensures
            r.replies() == no_replies(),
    {
        ReplyCache { replies: new_replies() }
    }

    /// The reply to be replayed for a key. One that is too old is dropped.
    pub fn idempotency_get(&mut self, key: &str, now: u64) -> (r: Option<Json>)
        ensures
            ({
                let m = old(self).replies();
                let live = m.dom().contains(key@) && live_reply(m[key@], now);
                &&& r is Some <==> live
                &&& r matches Some(b) ==> b@ == m[key@].body
                &&& final(self).replies() == if live {
                    m
                } else {
                    m.remove(key@)
                }
            }),
    {
        match get_reply(&self.replies, key) {
            Some(reply) => if reply.is_live(now) {
                Some(reply.body)
            } else {
                take_reply(&mut self.replies, key);
                None
            },
            None => {
                proof {
                    assert(self.replies().remove(key@) =~= self.replies());
                }
                None
            },
        }
    }

    /// Keeps a reply for replay. Replies that are too old are dropped, and so are
    /// the oldest where there would be too many.
    pub fn idempotency_put(&mut self, key: String, body: Json, now: u64)
        ensures
            exists|kept: Map<Seq<char>, ReplyView>| #[trigger]
                is_trimmed(live_replies(old(self).replies(), now), kept)
                    && final(self).replies() == kept.insert(
                    key@,
                    ReplyView { at: now, body: body@ },
                ),
    {
        keep_live(&mut self.replies, now);
        let ghost all = self.replies();
        let mut ages: Vec<(String, u64)> = list_ages(&self.replies);
        proof {
            assert(all.submap_of(all));
        }
        while ages.len() >= IDEMPOTENCY_CAP
            invariant
                all.dom().finite(),
                is_age_list(self.replies(), ages@),
                self.replies().submap_of(all),
                all.dom().len() < IDEMPOTENCY_CAP ==> self.replies() == all,
                all.dom().len() >= IDEMPOTENCY_CAP ==> self.replies().dom().len()
                    >= IDEMPOTENCY_CAP - 1,
                forall|k: Seq<char>, d: Seq<char>|
                    #![trigger self.replies().dom().contains(k), all.dom().contains(d)]
                    self.replies().dom().contains(k) && all.dom().contains(d)
                        && !self.replies().dom().contains(d) ==> all[d].at <= all[k].at,
            decreases ages.len(),
        {
            let ghost m = self.replies();
            let mut oldest: usize = 0;
            let mut i: usize = 1;
            while i < ages.len()
                invariant
                    oldest < i <= ages.len(),
                    forall|k: int| 0 <= k < i ==> ages@[oldest as int].1 <= (#[trigger] ages@[k]).1,
                decreases ages.len() - i,
            {
                if ages[i].1 < ages[oldest].1 {
                    oldest = i;
                }
                i = i + 1;
            }
            let ghost gone = ages@[oldest as int].0@;
            let ghost before = ages@;
            take_reply(&mut self.replies, ages[oldest].0.as_str());
            ages = list_ages(&self.replies);
            proof {
                let n = self.replies();
                assert(n == m.remove(gone));
                assert(m.dom().contains(before[oldest as int].0@));
                assert(n.dom() =~= m.dom().remove(gone));
                assert(all.dom().contains(gone));
                vstd::set_lib::lemma_len_subset(m.dom(), all.dom());
                assert forall|k: Seq<char>, d: Seq<char>|
                    #![trigger n.dom().contains(k), all.dom().contains(d)]
                    n.dom().contains(k) && all.dom().contains(d) && !n.dom().contains(
                        d,
                    ) implies all[d].at <= all[k].at by {
                    assert(m.dom().contains(k));
                    if d == gone {
                        let j = choose|j: int| 0 <= j < before.len() && (#[trigger] before[j]).0@ == k;
                        assert(before[oldest as int].1 <= before[j].1);
                    } else {
                        assert(!m.dom().contains(d));
                    }
                }
            }
        }
        let ghost kept = self.replies();
        proof {
            if all.dom().len() >= IDEMPOTENCY_CAP {
                assert(kept.dom().len() == IDEMPOTENCY_CAP - 1);
            }
            assert(is_trimmed(all, kept));
        }
        let reply = CachedReply { at: now, body };
        put_reply(&mut self.replies, key, reply);
        proof {
            assert(all == live_replies(old(self).replies(), now));
            assert(is_trimmed(live_replies(old(self).replies(), now), kept));
            assert(reply@ == (ReplyView { at: now, body: body@ }));
        }
    }
}

/// However many replies there were, no more than the upper bound are kept.
pub proof fn law_cache_is_bounded(
    all: Map<Seq<char>, ReplyView>,
    kept: Map<Seq<char>, ReplyView>,
    key: Seq<char>,
    reply: ReplyView,
)
    requires
        is_trimmed(all, kept),
    ensures
        kept.insert(key, reply).dom().len() <= IDEMPOTENCY_CAP,
{
    let after = kept.insert(key, reply);
    assert(after.dom() =~= kept.dom().insert(key));
    if all.dom().len() < IDEMPOTENCY_CAP {
        assert(kept.dom().len() < IDEMPOTENCY_CAP);
    }
}

/// A reply that was just kept is the one that is replayed while it is young
/// enough, and not after that.
pub proof fn law_reply_replayed(
    kept: Map<Seq<char>, ReplyView>,
    key: Seq<char>,
    body: JsonView,
    now: u64,
    later: u64,
)
    requires
        now <= later,
    ensures
        ({
            let m = kept.insert(key, ReplyView { at: now, body });
            m.dom().contains(key) && m[key].body == body && (live_reply(m[key], later) <==> later - now
                <= IDEMPOTENCY_TTL_MS)
        }),
{
}

}
