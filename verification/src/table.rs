//! Small keyed tables that keep their entries in the order in which they came.

use crate::text::same_text;
use vstd::prelude::*;

verus! {

/// The place of the entry that counts for a key: the last with that key.
pub open spec fn table_index<A>(s: Seq<(Seq<char>, A)>, key: Seq<char>) -> Option<int>
    decreases s.len(),
{
    if s.len() == 0 {
        None
    } else if s.last().0 == key {
        Some(s.len() - 1)
    } else {
        table_index(s.drop_last(), key)
    }
}

/// The value under a key.
pub open spec fn table_get<A>(s: Seq<(Seq<char>, A)>, key: Seq<char>) -> Option<A> {
    match table_index(s, key) {
        Some(i) => Some(s[i].1),
        None => None,
    }
}

/// The table with a key set: in place where it is there, else at the end.
pub open spec fn table_set<A>(s: Seq<(Seq<char>, A)>, key: Seq<char>, value: A) -> Seq<
    (Seq<char>, A),
> {
    match table_index(s, key) {
        Some(i) => s.update(i, (key, value)),
        None => s.push((key, value)),
    }
}

/// The table without a key.
pub open spec fn table_remove<A>(s: Seq<(Seq<char>, A)>, key: Seq<char>) -> Seq<(Seq<char>, A)>
    decreases s.len(),
{
    if s.len() == 0 {
        s
    } else if s.last().0 == key {
        table_remove(s.drop_last(), key)
    } else {
        table_remove(s.drop_last(), key).push(s.last())
    }
}

/// No key is in the table twice.
pub open spec fn unique_keys<A>(s: Seq<(Seq<char>, A)>) -> bool {
    forall|i: int, j: int| 0 <= i < j < s.len() ==> (#[trigger] s[i]).0 != (#[trigger] s[j]).0
}

/// The place of a key is where the key stands, and behind it it does not stand.
pub proof fn lemma_table_index<A>(s: Seq<(Seq<char>, A)>, key: Seq<char>)
    ensures
        table_index(s, key) matches Some(i) ==> 0 <= i < s.len() && s[i].0 == key && forall|j: int|
            i < j < s.len() ==> (#[trigger] s[j]).0 != key,
        table_index(s, key) is None <==> forall|j: int|
            0 <= j < s.len() ==> (#[trigger] s[j]).0 != key,
    decreases s.len(),
{
    if s.len() > 0 {
        let init = s.drop_last();
        if s.last().0 == key {
            assert(s[s.len() - 1].0 == key);
        } else {
            lemma_table_index(init, key);
            match table_index(init, key) {
                Some(i) => {
                    assert(s[i].0 == key);
                    assert forall|j: int| i < j < s.len() implies (#[trigger] s[j]).0 != key by {
                        if j < init.len() {
                            assert(init[j].0 != key);
                        }
                    }
                },
                None => {
                    assert forall|j: int| 0 <= j < s.len() implies (#[trigger] s[j]).0 != key by {
                        if j < init.len() {
                            assert(init[j].0 != key);
                        }
                    }
                },
            }
        }
    }
}

/// The place of a key is the last place where it stands.
pub proof fn lemma_table_index_at<A>(s: Seq<(Seq<char>, A)>, key: Seq<char>, i: int)
    requires
        0 <= i < s.len(),
        s[i].0 == key,
        forall|j: int| i < j < s.len() ==> (#[trigger] s[j]).0 != key,
    ensures
        table_index(s, key) == Some(i),
{
    lemma_table_index(s, key);
    if table_index(s, key) is None {
        assert(s[i].0 != key);
    }
}

/// Setting a key gives that key the value, and no other key another.
pub proof fn lemma_table_set<A>(s: Seq<(Seq<char>, A)>, key: Seq<char>, value: A)
    ensures
        table_get(table_set(s, key, value), key) == Some(value),
        forall|k: Seq<char>|
            k != key ==> #[trigger] table_get(table_set(s, key, value), k) == table_get(s, k),
        unique_keys(s) ==> unique_keys(table_set(s, key, value)),
{
    let t = table_set(s, key, value);
    lemma_table_index(s, key);
    match table_index(s, key) {
        Some(i) => {
            lemma_table_index_at(t, key, i);
        },
        None => {
            lemma_table_index_at(t, key, s.len() as int);
        },
    }
    assert forall|k: Seq<char>| k != key implies #[trigger] table_get(t, k) == table_get(s, k) by {
        lemma_table_index(s, k);
        lemma_table_index(t, k);
        match table_index(s, k) {
            Some(i) => {
                assert(t[i].0 == k);
                assert forall|j: int| i < j < t.len() implies (#[trigger] t[j]).0 != k by {
                    if j < s.len() {
                        assert(s[j].0 != k);
                    }
                }
                lemma_table_index_at(t, k, i);
            },
            None => {
                if table_index(t, k) is Some {
                    let j = table_index(t, k)->Some_0;
                    assert(t[j].0 == k);
                    assert(s[j].0 == k);
                }
            },
        }
    }
    if unique_keys(s) {
        assert forall|i: int, j: int| 0 <= i < j < t.len() implies (#[trigger] t[i]).0 != (
        #[trigger] t[j]).0 by {
            if j < s.len() {
                assert(s[i].0 != s[j].0);
            }
        }
    }
}

/// Removing a key takes it out, and no other.
pub proof fn lemma_table_remove<A>(s: Seq<(Seq<char>, A)>, key: Seq<char>)
    ensures
        table_get(table_remove(s, key), key) is None,
        forall|k: Seq<char>|
            k != key ==> #[trigger] table_get(table_remove(s, key), k) == table_get(s, k),
        unique_keys(s) ==> unique_keys(table_remove(s, key)),
        forall|i: int|
            0 <= i < table_remove(s, key).len() ==> s.contains(#[trigger] table_remove(s, key)[i]),
    decreases s.len(),
{
    if s.len() > 0 {
        let init = s.drop_last();
        lemma_table_remove(init, key);
        let t = table_remove(init, key);
        let u = table_remove(s, key);
        assert forall|i: int| 0 <= i < u.len() implies s.contains(#[trigger] u[i]) by {
            if i < t.len() {
                assert(u[i] == t[i]);
                assert(init.contains(t[i]));
                let j = choose|j: int| 0 <= j < init.len() && init[j] == t[i];
                assert(s[j] == u[i]);
            } else {
                assert(s[s.len() - 1] == u[i]);
            }
        }
        if s.last().0 != key {
            assert(u.drop_last() =~= t);
            lemma_table_index(t, key);
            lemma_table_index(u, key);
            assert(table_index(u, key) is None) by {
                assert forall|j: int| 0 <= j < u.len() implies (#[trigger] u[j]).0 != key by {
                    if j < t.len() {
                        assert(t[j].0 != key);
                    }
                }
            }
            assert forall|k: Seq<char>| k != key implies #[trigger] table_get(u, k) == table_get(
                s,
                k,
            ) by {
                if s.last().0 != k {
                    assert(table_get(t, k) == table_get(init, k));
                    lemma_table_index(t, k);
                    lemma_table_index(init, k);
                }
            }
            if unique_keys(s) {
                assert(unique_keys(init)) by {
                    assert forall|i: int, j: int| 0 <= i < j < init.len() implies (
                    #[trigger] init[i]).0 != (#[trigger] init[j]).0 by {
                        assert(s[i].0 != s[j].0);
                    }
                }
                assert forall|i: int, j: int| 0 <= i < j < u.len() implies (#[trigger] u[i]).0 != (
                #[trigger] u[j]).0 by {
                    if j < t.len() {
                        assert(t[i].0 != t[j].0);
                    } else {
                        assert(init.contains(t[i]));
                        let l = choose|l: int| 0 <= l < init.len() && init[l] == t[i];
                        assert(s[l].0 != s[s.len() - 1].0);
                    }
                }
            }
        } else {
            assert forall|k: Seq<char>| k != key implies #[trigger] table_get(u, k) == table_get(
                s,
                k,
            ) by {
                assert(table_get(t, k) == table_get(init, k));
                lemma_table_index(init, k);
            }
            if unique_keys(s) {
                assert(unique_keys(init)) by {
                    assert forall|i: int, j: int| 0 <= i < j < init.len() implies (
                    #[trigger] init[i]).0 != (#[trigger] init[j]).0 by {
                        assert(s[i].0 != s[j].0);
                    }
                }
            }
        }
    }
}

/// A table from texts to values.
pub struct Table<V> {
    pub entries: Vec<(String, V)>,
}

/// The entries of a table, read through their views.
pub open spec fn table_view<V: View>(s: Seq<(String, V)>) -> Seq<(Seq<char>, V::V)> {
    s.map_values(|e: (String, V)| (e.0@, e.1@))
}

impl<V: View> View for Table<V> {
    type V = Seq<(Seq<char>, V::V)>;

    open spec fn view(&self) -> Seq<(Seq<char>, V::V)> {
        table_view(self.entries@)
    }
}

impl<V: View> Table<V> {
    pub fn new() -> (r: Self)
        ensures
            r@ == Seq::<(Seq<char>, V::V)>::empty(),
    {
        let r = Table { entries: Vec::new() };
        proof {
            assert(r@ =~= Seq::<(Seq<char>, V::V)>::empty());
        }
        r
    }

    pub fn len(&self) -> (r: usize)
        ensures
            r == self@.len(),
    {
        self.entries.len()
    }

    /// The place of the entry that counts for a key.
    pub fn position(&self, key: &str) -> (r: Option<usize>)
        ensures
            match r {
                Some(i) => table_index(self@, key@) == Some(i as int) && i < self.entries.len()
                    && self.entries@[i as int].0@ == key@,
                None => table_index(self@, key@) is None,
            },
    {
        let mut i: usize = self.entries.len();
        while i > 0
            invariant
                i <= self.entries.len(),
                forall|j: int| i <= j < self.entries.len() ==> (#[trigger] self@[j]).0 != key@,
            decreases i,
        {
            i = i - 1;
            if same_text(self.entries[i].0.as_str(), key) {
                proof {
                    lemma_table_index_at(self@, key@, i as int);
                }
                return Some(i);
            }
            proof {
                assert(self@[i as int].0 == self.entries@[i as int].0@);
            }
        }
        proof {
            lemma_table_index(self@, key@);
        }
        None
    }

    pub fn contains(&self, key: &str) -> (r: bool)
        ensures
            r == (table_get(self@, key@) is Some),
    {
        self.position(key).is_some()
    }

    /// The value under a key.
    pub fn get(&self, key: &str) -> (r: Option<&V>)
        ensures
            match r {
                Some(v) => table_get(self@, key@) == Some(v@),
                None => table_get(self@, key@) is None,
            },
    {
        match self.position(key) {
            Some(i) => {
                proof {
                    lemma_table_index(self@, key@);
                }
                Some(&self.entries[i].1)
            },
            None => None,
        }
    }

    /// Sets a key.
    pub fn set(&mut self, key: &str, value: V)
        ensures
            final(self)@ == table_set(old(self)@, key@, value@),
    {
        let ghost before = self@;
        match self.position(key) {
            Some(i) => {
                let e: (String, V) = (key.to_owned(), value);
                self.entries.set(i, e);
                proof {
                    assert(self@ =~= before.update(i as int, (key@, value@)));
                }
            },
            None => {
                let e: (String, V) = (key.to_owned(), value);
                self.entries.push(e);
                proof {
                    assert(self@ =~= before.push((key@, value@)));
                }
            },
        }
    }

    /// Takes a key out.
    pub fn remove(&mut self, key: &str)
        ensures
            final(self)@ == table_remove(old(self)@, key@),
    {
        let ghost before = self@;
        let mut i: usize = self.entries.len();
        let ghost mut gone: Seq<(Seq<char>, V::V)> = seq![];
        proof {
            assert(before.take(before.len() as int) =~= before);
            assert(self@ =~= before + Seq::empty());
            assert(table_remove(before, key@) =~= table_remove(before.take(i as int), key@) + gone);
            assert(self@ =~= before.take(i as int) + gone);
        }
        while i > 0
            invariant
                i <= self.entries.len(),
                i <= before.len(),
                self@ == before.take(i as int) + gone,
                table_remove(before, key@) == table_remove(before.take(i as int), key@) + gone,
            decreases i,
        {
            i = i - 1;
            let ghost prev = self@;
            let ghost prefix = before.take(i + 1);
            proof {
                assert(prefix.drop_last() =~= before.take(i as int));
                assert(prefix.last() == before[i as int]);
                assert(prev[i as int] == before[i as int]);
                assert(self@[i as int].0 == self.entries@[i as int].0@);
            }
            if same_text(self.entries[i].0.as_str(), key) {
                self.entries.remove(i);
                proof {
                    assert(self@ =~= prev.remove(i as int));
                    assert(self@ =~= before.take(i as int) + gone);
                }
            } else {
                proof {
                    let e = before[i as int];
                    let more = seq![e] + gone;
                    assert(prefix + gone =~= before.take(i as int) + more);
                    assert(table_remove(prefix, key@) + gone =~= table_remove(
                        before.take(i as int),
                        key@,
                    ) + more);
                    gone = more;
                }
            }
        }
        proof {
            assert(before.take(0) =~= Seq::empty());
            assert(self@ =~= gone);
            assert(table_remove(before, key@) =~= gone);
        }
    }

    pub fn clear(&mut self)
        ensures
            final(self)@ == Seq::<(Seq<char>, V::V)>::empty(),
    {
        self.entries = Vec::new();
        proof {
            assert(self@ =~= Seq::<(Seq<char>, V::V)>::empty());
        }
    }
}

}
