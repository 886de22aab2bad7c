//! Presence: key-value storage scoped to this process.

use crate::json::{entries_view, lookup, remove_entry, set_entry, Json, JsonView};
use dashmap::DashMap;
use vstd::prelude::*;

verus! {

/// The values that a map holds, by key.
pub uninterp spec fn values_of(m: DashMap<String, Json>) -> Map<Seq<char>, JsonView>;

/// A map without values.
pub open spec fn no_values() -> Map<Seq<char>, JsonView> {
    Map::empty()
}

/// `DashMap::new`: an empty map.
#[verifier::external_body]
fn new_values() -> (r: DashMap<String, Json>)
    ensures
        values_of(r) == no_values(),
{
    DashMap::new()
}

/// `DashMap::get`: the value under a key, copied.
#[verifier::external_body]
fn get_value(m: &DashMap<String, Json>, key: &str) -> (r: Option<Json>)
    ensures
        r is Some <==> values_of(*m).dom().contains(key@),
        r matches Some(v) ==> v@ == values_of(*m)[key@],
{
    m.get(key).map(|v| v.copy())
}

/// `DashMap::insert`: sets a key, whether or not it was there.
#[verifier::external_body]
fn put_value(m: &mut DashMap<String, Json>, key: String, value: Json)
    ensures
        values_of(*final(m)) == values_of(*old(m)).insert(key@, value@),
{
    m.insert(key, value);
}

/// `DashMap::remove`: takes a key out.
#[verifier::external_body]
fn take_value(m: &mut DashMap<String, Json>, key: &str)
    ensures
        values_of(*final(m)) == values_of(*old(m)).remove(key@),
{
    m.remove(key);
}

/// The fields of a hash, which has none where there is no such hash.
pub open spec fn fields_of(hashes: Map<Seq<char>, JsonView>, key: Seq<char>) -> Map<
    Seq<char>,
    JsonView,
> {
    if hashes.dom().contains(key) {
        match hashes[key] {
            JsonView::Object(m) => m,
            _ => Map::empty(),
        }
    } else {
        Map::empty()
    }
}

/// In-process presence storage: plain keys, and hashes of fields.
pub struct LocalPresence {
    kv: DashMap<String, Json>,
    hashes: DashMap<String, Json>,
}

impl LocalPresence {
    /// The plain keys.
    pub closed spec fn values(self) -> Map<Seq<char>, JsonView> {
        values_of(self.kv)
    }

    /// The hashes.
    pub closed spec fn hashes(self) -> Map<Seq<char>, JsonView> {
        values_of(self.hashes)
    }

    pub fn new() -> (r: Self)
        ensures
            r.values() == no_values(),
            r.hashes() == no_values(),
    {
        LocalPresence { kv: new_values(), hashes: new_values() }
    }

    pub fn set(&mut self, key: &str, value: Json)
        ensures
            final(self).values() == old(self).values().insert(key@, value@),
            final(self).hashes() == old(self).hashes(),
    {
        put_value(&mut self.kv, key.to_owned(), value);
    }

    pub fn get(&self, key: &str) -> (r: Option<Json>)
        ensures
            r is Some <==> self.values().dom().contains(key@),
            r matches Some(v) ==> v@ == self.values()[key@],
    {
        get_value(&self.kv, key)
    }

    pub fn del(&mut self, key: &str)
        ensures
            final(self).values() == old(self).values().remove(key@),
            final(self).hashes() == old(self).hashes(),
    {
        take_value(&mut self.kv, key);
    }

    /// Sets a field of a hash.
    pub fn hset(&mut self, key: &str, field: &str, value: Json)
        ensures
            final(self).values() == old(self).values(),
            final(self).hashes() == old(self).hashes().insert(
                key@,
                JsonView::Object(fields_of(old(self).hashes(), key@).insert(field@, value@)),
            ),
    {
        let mut es: Vec<(String, Json)> = self.hgetall(key);
        set_entry(&mut es, field, value);
        put_value(&mut self.hashes, key.to_owned(), Json::Object(es));
    }

    /// A field of a hash.
    pub fn hget(&self, key: &str, field: &str) -> (r: Option<Json>)
        ensures
            r is Some <==> fields_of(self.hashes(), key@).dom().contains(field@),
            r matches Some(v) ==> v@ == fields_of(self.hashes(), key@)[field@],
    {
        let es: Vec<(String, Json)> = self.hgetall(key);
        match lookup(&es, field) {
            Some(v) => Some(v.clone()),
            None => None,
        }
    }

    /// Takes a field out of a hash, if there is such a hash.
    pub fn hdel(&mut self, key: &str, field: &str)
        ensures
            final(self).values() == old(self).values(),
            final(self).hashes() == if old(self).hashes().dom().contains(key@) {
                old(self).hashes().insert(
                    key@,
                    JsonView::Object(fields_of(old(self).hashes(), key@).remove(field@)),
                )
            } else {
                old(self).hashes()
            },
    {
        match get_value(&self.hashes, key) {
            Some(_) => {
                let mut es: Vec<(String, Json)> = self.hgetall(key);
                remove_entry(&mut es, field);
                put_value(&mut self.hashes, key.to_owned(), Json::Object(es));
            },
            None => {},
        }
    }

    /// The fields of a hash.
    pub fn hgetall(&self, key: &str) -> (r: Vec<(String, Json)>)
        ensures
            entries_view(r@) == fields_of(self.hashes(), key@),
    {
        match get_value(&self.hashes, key) {
            Some(Json::Object(es)) => es,
            _ => Vec::new(),
        }
    }
}

/// What was set is what is read, and what was deleted is not there, of plain keys
/// and of fields alike.
pub proof fn law_presence_reads_back(
    m: Map<Seq<char>, JsonView>,
    key: Seq<char>,
    field: Seq<char>,
    v: JsonView,
)
    ensures
        m.insert(key, v)[key] == v,
        !m.remove(key).dom().contains(key),
        ({
            let h = m.insert(key, JsonView::Object(fields_of(m, key).insert(field, v)));
            fields_of(h, key).dom().contains(field) && fields_of(h, key)[field] == v
        }),
{
}

}
