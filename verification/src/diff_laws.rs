//! What the operations of a diff do: applied to the old document they give the
//! new one, there are none where nothing changed, and along a longest common
//! subsequence there are as few as there can be.

use crate::diff::{
    add_at, append_edits, apply_edit, apply_edits, apply_patch, by_place, cut_edits, edits, lcs,
    op_view, ops_view, overlap, place_edits, read_op, removals, remove_at, script, settings, under,
    Edit, EditKind,
};
use crate::json::{
    finite_view, lemma_finite_view, lemma_same_arrays, lemma_same_objects, same, Json, JsonView,
};
use crate::pointer::{lemma_pointer_tokens, token_index};
use crate::text::{
    decimal, lemma_decimal_value, lemma_sorted_exists, lemma_text_less_irreflexive, sorted_texts,
    strictly_sorted, text_less,
};
use vstd::prelude::*;

verus! {

/// An edit that a diff makes: what it adds or replaces has a value, what it
/// removes has none, and the root is only ever replaced.
pub open spec fn proper(e: Edit) -> bool {
    &&& e.value is None <==> e.kind is Remove
    &&& e.at.len() == 0 ==> e.kind is Replace
}

pub open spec fn all_proper(es: Seq<Edit>) -> bool {
    forall|i: int| 0 <= i < es.len() ==> proper(#[trigger] es[i])
}

proof fn lemma_proper_concat(x: Seq<Edit>, y: Seq<Edit>)
    requires
        all_proper(x),
        all_proper(y),
    ensures
        all_proper(x + y),
{
    assert forall|i: int| 0 <= i < (x + y).len() implies proper(#[trigger] (x + y)[i]) by {
        if i < x.len() {
            assert(proper(x[i]));
        } else {
            assert(proper(y[i - x.len()]));
        }
    }
}

proof fn lemma_proper_under(token: Seq<char>, es: Seq<Edit>)
    requires
        all_proper(es),
    ensures
        all_proper(under(token, es)),
{
    assert forall|i: int| 0 <= i < es.len() implies proper(#[trigger] under(token, es)[i]) by {
        assert(proper(es[i]));
    }
}

proof fn lemma_apply_concat(doc: JsonView, x: Seq<Edit>, y: Seq<Edit>)
    ensures
        apply_edits(doc, x + y) == match apply_edits(doc, x) {
            Some(d) => apply_edits(d, y),
            None => None,
        },
    decreases x.len(),
{
    if x.len() == 0 {
        assert(x + y =~= y);
    } else {
        assert((x + y).drop_first() =~= x.drop_first() + y);
        if let Some(d) = apply_edit(doc, x[0]) {
            lemma_apply_concat(d, x.drop_first(), y);
        }
    }
}

proof fn lemma_token_index(n: nat)
    ensures
        token_index(decimal(n)) == Some(n),
{
    lemma_decimal_value(n);
}

proof fn lemma_apply_one(doc: JsonView, e: Edit)
    ensures
        apply_edits(doc, seq![e]) == apply_edit(doc, e),
{
    assert(seq![e].drop_first() =~= Seq::<Edit>::empty());
    if let Some(d) = apply_edit(doc, e) {
        assert(apply_edits(d, seq![e].drop_first()) == Some(d));
    }
}

/// Edits under a key change the value of that key.
proof fn lemma_under_object(m: Map<Seq<char>, JsonView>, k: Seq<char>, es: Seq<Edit>)
    requires
        m.dom().contains(k),
        all_proper(es),
    ensures
        apply_edits(JsonView::Object(m), under(k, es)) == match apply_edits(m[k], es) {
            Some(v) => Some(JsonView::Object(m.insert(k, v))),
            None => None,
        },
    decreases es.len(),
{
    let us = under(k, es);
    if es.len() == 0 {
        assert(m.insert(k, m[k]) =~= m);
    } else {
        let e = es[0];
        assert(proper(e));
        assert(us[0].at.drop_first() =~= e.at);
        assert((Edit { at: us[0].at.drop_first(), ..us[0] }) == e);
        assert(us.drop_first() =~= under(k, es.drop_first()));
        assert(all_proper(es.drop_first())) by {
            assert forall|i: int| 0 <= i < es.drop_first().len() implies proper(
                #[trigger] es.drop_first()[i],
            ) by {
                assert(proper(es[i + 1]));
            }
        }
        if let Some(v) = apply_edit(m[k], e) {
            let m2 = m.insert(k, v);
            assert(apply_edit(JsonView::Object(m), us[0]) == Some(JsonView::Object(m2)));
            lemma_under_object(m2, k, es.drop_first());
            if let Some(w) = apply_edits(v, es.drop_first()) {
                assert(m2.insert(k, w) =~= m.insert(k, w));
            }
        } else {
            assert(apply_edit(JsonView::Object(m), us[0]) is None);
        }
    }
}

/// Edits under an index change the item at that index.
proof fn lemma_under_array(s: Seq<JsonView>, n: nat, es: Seq<Edit>)
    requires
        n < s.len(),
        all_proper(es),
    ensures
        apply_edits(JsonView::Array(s), under(decimal(n), es)) == match apply_edits(
            s[n as int],
            es,
        ) {
            Some(v) => Some(JsonView::Array(s.update(n as int, v))),
            None => None,
        },
    decreases es.len(),
{
    let us = under(decimal(n), es);
    lemma_token_index(n);
    if es.len() == 0 {
        assert(s.update(n as int, s[n as int]) =~= s);
    } else {
        let e = es[0];
        assert(proper(e));
        assert(us[0].at.drop_first() =~= e.at);
        assert((Edit { at: us[0].at.drop_first(), ..us[0] }) == e);
        assert(us.drop_first() =~= under(decimal(n), es.drop_first()));
        assert(all_proper(es.drop_first())) by {
            assert forall|i: int| 0 <= i < es.drop_first().len() implies proper(
                #[trigger] es.drop_first()[i],
            ) by {
                assert(proper(es[i + 1]));
            }
        }
        if let Some(v) = apply_edit(s[n as int], e) {
            let s2 = s.update(n as int, v);
            assert(apply_edit(JsonView::Array(s), us[0]) == Some(JsonView::Array(s2)));
            lemma_under_array(s2, n, es.drop_first());
            if let Some(w) = apply_edits(v, es.drop_first()) {
                assert(s2.update(n as int, w) =~= s.update(n as int, w));
            }
        } else {
            assert(apply_edit(JsonView::Array(s), us[0]) is None);
        }
    }
}

/// A sequence item by item equal to `b`.
pub open spec fn all_same(r: Seq<JsonView>, b: Seq<JsonView>) -> bool {
    r.len() == b.len() && forall|k: int| 0 <= k < b.len() ==> same(#[trigger] r[k], b[k])
}

/// Along a common subsequence: the removals and additions give the new array.
proof fn lemma_apply_script(
    s: Seq<JsonView>,
    a: Seq<JsonView>,
    b: Seq<JsonView>,
    i: nat,
    j: nat,
)
    requires
        i <= a.len(),
        j <= b.len(),
        s.len() == j + (a.len() - i),
        s.skip(j as int) == a.skip(i as int),
        forall|k: int| 0 <= k < j ==> same(#[trigger] s[k], b[k]),
    ensures
        apply_edits(JsonView::Array(s), script(a, b, i, j)) matches Some(JsonView::Array(r))
            && all_same(r, b),
        all_proper(script(a, b, i, j)),
    decreases (a.len() - i) + (b.len() - j),
{
    let es = script(a, b, i, j);
    if i < a.len() {
        assert(s[j as int] == s.skip(j as int)[0]);
        assert(a[i as int] == a.skip(i as int)[0]);
    }
    lemma_token_index(j);
    if i < a.len() && j < b.len() && same(a[i as int], b[j as int]) {
        assert(s.skip(j as int + 1) =~= s.skip(j as int).skip(1));
        assert(a.skip(i as int + 1) =~= a.skip(i as int).skip(1));
        lemma_apply_script(s, a, b, i + 1, j + 1);
    } else if i < a.len() && (j >= b.len() || lcs(a, b, i + 1, j) >= lcs(a, b, i, j + 1)) {
        let e = remove_at(decimal(j));
        let s2 = s.remove(j as int);
        assert(es =~= seq![e] + script(a, b, i + 1, j));
        assert(apply_edit(JsonView::Array(s), e) == Some(JsonView::Array(s2)));
        assert(s2.skip(j as int) =~= s.skip(j as int).skip(1));
        assert(a.skip(i as int + 1) =~= a.skip(i as int).skip(1));
        assert forall|k: int| 0 <= k < j implies same(#[trigger] s2[k], b[k]) by {
            assert(s2[k] == s[k]);
        }
        lemma_apply_script(s2, a, b, i + 1, j);
        assert(es.drop_first() =~= script(a, b, i + 1, j));
        assert(proper(e));
        lemma_proper_concat(seq![e], script(a, b, i + 1, j));
    } else if j < b.len() {
        let e = add_at(decimal(j), b[j as int]);
        let s2 = s.insert(j as int, b[j as int]);
        assert(es =~= seq![e] + script(a, b, i, j + 1));
        assert(apply_edit(JsonView::Array(s), e) == Some(JsonView::Array(s2)));
        assert(s2.skip(j as int + 1) =~= s.skip(j as int));
        assert forall|k: int| 0 <= k < j + 1 implies same(#[trigger] s2[k], b[k]) by {
            if k < j {
                assert(s2[k] == s[k]);
            }
        }
        lemma_apply_script(s2, a, b, i, j + 1);
        assert(es.drop_first() =~= script(a, b, i, j + 1));
        assert(proper(e));
        lemma_proper_concat(seq![e], script(a, b, i, j + 1));
    }
}

/// `m` without the keys of `ks` that `b` does not have.
spec fn without(m: Map<Seq<char>, JsonView>, ks: Seq<Seq<char>>, b: Map<Seq<char>, JsonView>) -> Map<
    Seq<char>,
    JsonView,
> {
    m.remove_keys(ks.to_set().difference(b.dom()))
}

proof fn lemma_apply_removals(
    m: Map<Seq<char>, JsonView>,
    ks: Seq<Seq<char>>,
    b: Map<Seq<char>, JsonView>,
)
    requires
        strictly_sorted(ks),
        ks.to_set().subset_of(m.dom()),
    ensures
        apply_edits(JsonView::Object(m), removals(ks, b)) == Some(
            JsonView::Object(without(m, ks, b)),
        ),
        all_proper(removals(ks, b)),
    decreases ks.len(),
{
    if ks.len() == 0 {
        assert(without(m, ks, b) =~= m);
    } else {
        let init = ks.drop_last();
        let k = ks.last();
        assert(strictly_sorted(init)) by {
            assert forall|i: int, j: int| 0 <= i < j < init.len() implies text_less(
                #[trigger] init[i],
                #[trigger] init[j],
            ) by {
                assert(text_less(ks[i], ks[j]));
            }
        }
        assert forall|x: Seq<char>| init.to_set().contains(x) implies m.dom().contains(x) by {
            let i = choose|i: int| 0 <= i < init.len() && init[i] == x;
            assert(ks[i] == x);
            assert(ks.to_set().contains(x));
        }
        lemma_apply_removals(m, init, b);
        assert(!init.contains(k)) by {
            if init.contains(k) {
                let i = choose|i: int| 0 <= i < init.len() && init[i] == k;
                assert(text_less(ks[i], ks[ks.len() - 1]));
                lemma_text_less_irreflexive(k);
            }
        }
        assert forall|x: Seq<char>| ks.to_set().contains(x) == (init.to_set().contains(x) || x
            == k) by {
            if ks.contains(x) {
                let i = choose|i: int| 0 <= i < ks.len() && ks[i] == x;
                if i < init.len() {
                    assert(init[i] == x);
                }
            }
            if init.contains(x) {
                let i = choose|i: int| 0 <= i < init.len() && init[i] == x;
                assert(ks[i] == x);
            }
            if x == k {
                assert(ks[ks.len() - 1] == x);
            }
        }
        assert(ks.to_set().contains(k));
        let before = without(m, init, b);
        if b.dom().contains(k) {
            assert(without(m, ks, b) =~= before);
        } else {
            let e = remove_at(k);
            assert(proper(e));
            assert(before.dom().contains(k));
            assert(apply_edit(JsonView::Object(before), e) == Some(
                JsonView::Object(before.remove(k)),
            ));
            assert(removals(ks, b) =~= removals(init, b) + seq![e]);
            lemma_apply_concat(JsonView::Object(m), removals(init, b), seq![e]);
            lemma_apply_one(JsonView::Object(before), e);
            assert(without(m, ks, b) =~= before.remove(k));
        }
    }
}

/// The object part way through: the keys of `done` are as in `b`, the other
/// keys that both have are as in `a`.
spec fn partly_set(
    m: Map<Seq<char>, JsonView>,
    a: Map<Seq<char>, JsonView>,
    b: Map<Seq<char>, JsonView>,
    done: Seq<Seq<char>>,
) -> bool {
    &&& forall|k: Seq<char>|
        #![trigger m.dom().contains(k)]
        m.dom().contains(k) <==> done.contains(k) || (a.dom().contains(k) && b.dom().contains(k))
    &&& forall|k: Seq<char>|
        #![trigger m[k]]
        m.dom().contains(k) ==> if done.contains(k) {
            same(m[k], b[k])
        } else {
            m[k] == a[k]
        }
}

proof fn lemma_apply_settings(
    old: JsonView,
    new: JsonView,
    m: Map<Seq<char>, JsonView>,
    ks: Seq<Seq<char>>,
)
    requires
        old is Object,
        new is Object,
        finite_view(old),
        finite_view(new),
        strictly_sorted(ks),
        ks.to_set().subset_of((new->Object_0).dom()),
        partly_set(m, old->Object_0, new->Object_0, seq![]),
    ensures
        apply_edits(JsonView::Object(m), settings(old, new, ks)) matches Some(JsonView::Object(r))
            && partly_set(r, old->Object_0, new->Object_0, ks),
        all_proper(settings(old, new, ks)),
    decreases old, 1nat, ks.len(),
{
    let a = old->Object_0;
    let b = new->Object_0;
    if ks.len() == 0 {
        assert(ks =~= seq![]);
    } else {
        let init = ks.drop_last();
        let k = ks.last();
        assert(strictly_sorted(init)) by {
            assert forall|i: int, j: int| 0 <= i < j < init.len() implies text_less(
                #[trigger] init[i],
                #[trigger] init[j],
            ) by {
                assert(text_less(ks[i], ks[j]));
            }
        }
        assert forall|x: Seq<char>| init.to_set().contains(x) implies b.dom().contains(x) by {
            let i = choose|i: int| 0 <= i < init.len() && init[i] == x;
            assert(ks[i] == x);
            assert(ks.to_set().contains(x));
        }
        lemma_apply_settings(old, new, m, init);
        assert(!init.contains(k)) by {
            if init.contains(k) {
                let i = choose|i: int| 0 <= i < init.len() && init[i] == k;
                assert(text_less(ks[i], ks[ks.len() - 1]));
                lemma_text_less_irreflexive(k);
            }
        }
        assert forall|x: Seq<char>| #[trigger] ks.contains(x) == (init.contains(x) || x == k) by {
            if ks.contains(x) {
                let i = choose|i: int| 0 <= i < ks.len() && ks[i] == x;
                if i < init.len() {
                    assert(init[i] == x);
                }
            }
            if init.contains(x) {
                let i = choose|i: int| 0 <= i < init.len() && init[i] == x;
                assert(ks[i] == x);
            }
            if x == k {
                assert(ks[ks.len() - 1] == x);
            }
        }
        assert(ks.to_set().contains(k));
        assert(b.dom().contains(k));
        let r = apply_edits(JsonView::Object(m), settings(old, new, init))->Some_0->Object_0;
        if a.dom().contains(k) {
            let es = edits(a[k], b[k]);
            lemma_apply_diff(a[k], b[k]);
            assert(r.dom().contains(k));
            assert(r[k] == a[k]);
            lemma_under_object(r, k, es);
            lemma_proper_under(k, es);
            lemma_apply_concat(JsonView::Object(m), settings(old, new, init), under(k, es));
            lemma_proper_concat(settings(old, new, init), under(k, es));
            let v = apply_edits(a[k], es)->Some_0;
            assert(partly_set(r.insert(k, v), a, b, ks));
        } else {
            let e = add_at(k, b[k]);
            assert(proper(e));
            lemma_apply_one(JsonView::Object(r), e);
            lemma_apply_concat(JsonView::Object(m), settings(old, new, init), seq![e]);
            lemma_proper_concat(settings(old, new, init), seq![e]);
            assert(partly_set(r.insert(k, b[k]), a, b, ks));
        }
    }
}

proof fn lemma_apply_places(old: JsonView, new: JsonView, n: nat)
    requires
        old is Array,
        new is Array,
        finite_view(old),
        finite_view(new),
        n <= (old->Array_0).len(),
        n <= (new->Array_0).len(),
    ensures
        apply_edits(old, place_edits(old, new, n)) matches Some(JsonView::Array(r)) && r.len() == (
        old->Array_0).len() && (forall|k: int|
            0 <= k < n ==> same(#[trigger] r[k], (new->Array_0)[k])) && (forall|k: int|
            n <= k < r.len() ==> #[trigger] r[k] == (old->Array_0)[k]),
        all_proper(place_edits(old, new, n)),
    decreases old, 1nat, n,
{
    let a = old->Array_0;
    let b = new->Array_0;
    if n > 0 {
        let p = (n - 1) as nat;
        lemma_apply_places(old, new, p);
        let es = edits(a[p as int], b[p as int]);
        lemma_apply_diff(a[p as int], b[p as int]);
        let r = apply_edits(old, place_edits(old, new, p))->Some_0->Array_0;
        assert(r[p as int] == a[p as int]);
        lemma_under_array(r, p, es);
        lemma_proper_under(decimal(p), es);
        lemma_apply_concat(old, place_edits(old, new, p), under(decimal(p), es));
        lemma_proper_concat(place_edits(old, new, p), under(decimal(p), es));
    }
}

proof fn lemma_apply_cut(s: Seq<JsonView>, from: nat, to: nat)
    requires
        to <= from,
        s.len() == from,
    ensures
        apply_edits(JsonView::Array(s), cut_edits(from, to)) == Some(
            JsonView::Array(s.take(to as int)),
        ),
        all_proper(cut_edits(from, to)),
    decreases from - to,
{
    let es = cut_edits(from, to);
    if from == to {
        assert(s.take(to as int) =~= s);
    } else {
        lemma_token_index(to);
        let s2 = s.remove(to as int);
        assert(apply_edit(JsonView::Array(s), es[0]) == Some(JsonView::Array(s2)));
        assert(es.drop_first() =~= cut_edits((from - 1) as nat, to));
        lemma_apply_cut(s2, (from - 1) as nat, to);
        assert(s2.take(to as int) =~= s.take(to as int));
    }
}

proof fn lemma_apply_append(s: Seq<JsonView>, b: Seq<JsonView>, from: nat)
    requires
        from <= b.len(),
        s.len() == from,
    ensures
        apply_edits(JsonView::Array(s), append_edits(b, from)) == Some(
            JsonView::Array(s + b.skip(from as int)),
        ),
        all_proper(append_edits(b, from)),
    decreases b.len() - from,
{
    let es = append_edits(b, from);
    if from == b.len() {
        assert(s + b.skip(from as int) =~= s);
    } else {
        lemma_token_index(from);
        let s2 = s.push(b[from as int]);
        assert(s.insert(from as int, b[from as int]) =~= s2);
        assert(apply_edit(JsonView::Array(s), es[0]) == Some(JsonView::Array(s2)));
        assert(es.drop_first() =~= append_edits(b, from + 1));
        lemma_apply_append(s2, b, from + 1);
        assert(s2 + b.skip(from as int + 1) =~= s + b.skip(from as int));
    }
}

/// The edits of a diff turn the old document into the new one.
pub proof fn lemma_apply_diff(old: JsonView, new: JsonView)
    requires
        finite_view(old),
        finite_view(new),
    ensures
        apply_edits(old, edits(old, new)) matches Some(r) && same(r, new),
        all_proper(edits(old, new)),
    decreases old, 2nat, 0nat,
{
    let es = edits(old, new);
    if same(old, new) {
    } else {
        match (old, new) {
            (JsonView::Object(a), JsonView::Object(b)) => {
                let oks = sorted_texts(a.dom());
                let nks = sorted_texts(b.dom());
                lemma_sorted_exists(a.dom());
                lemma_sorted_exists(b.dom());
                lemma_apply_removals(a, oks, b);
                let m = without(a, oks, b);
                assert(partly_set(m, a, b, seq![]));
                lemma_apply_settings(old, new, m, nks);
                lemma_apply_concat(old, removals(oks, b), settings(old, new, nks));
                lemma_proper_concat(removals(oks, b), settings(old, new, nks));
                let r = apply_edits(JsonView::Object(m), settings(old, new, nks))->Some_0->Object_0;
                assert forall|k: Seq<char>| r.dom().contains(k) == b.dom().contains(k) by {
                    assert(nks.to_set().contains(k) == nks.contains(k));
                }
                assert(r.dom() =~= b.dom());
                assert forall|k: Seq<char>| r.dom().contains(k) implies same(
                    #[trigger] r[k],
                    #[trigger] b[k],
                ) by {
                    assert(nks.to_set().contains(k));
                }
                lemma_same_objects(r, b);
            },
            (JsonView::Array(a), JsonView::Array(b)) => {
                if by_place(a, b) {
                    let n = overlap(a, b);
                    lemma_apply_places(old, new, n);
                    let r = apply_edits(old, place_edits(old, new, n))->Some_0->Array_0;
                    lemma_apply_cut(r, a.len(), n);
                    let c = r.take(n as int);
                    lemma_apply_append(c, b, n);
                    let d = c + b.skip(n as int);
                    lemma_apply_concat(old, place_edits(old, new, n), cut_edits(a.len(), n));
                    lemma_apply_concat(
                        old,
                        place_edits(old, new, n) + cut_edits(a.len(), n),
                        append_edits(b, n),
                    );
                    lemma_proper_concat(place_edits(old, new, n), cut_edits(a.len(), n));
                    lemma_proper_concat(
                        place_edits(old, new, n) + cut_edits(a.len(), n),
                        append_edits(b, n),
                    );
                    assert forall|k: int| 0 <= k < d.len() implies same(#[trigger] d[k], b[k]) by {
                        if k < n {
                            assert(d[k] == r[k]);
                        } else {
                            assert(d[k] == b[k]);
                        }
                    }
                    lemma_same_arrays(d, b);
                } else {
                    assert(a.skip(0) =~= a);
                    lemma_apply_script(a, a, b, 0, 0);
                    let r = apply_edits(old, es)->Some_0->Array_0;
                    lemma_same_arrays(r, b);
                }
            },
            _ => {
                let e = Edit { kind: EditKind::Replace, at: seq![], value: Some(new) };
                lemma_apply_one(old, e);
            },
        }
    }
}

// ---------------------------------------------------------------------
// the operations as JSON
// ---------------------------------------------------------------------

/// Reading back the operation written for an edit gives the edit.
pub proof fn lemma_read_op(e: Edit)
    requires
        proper(e),
    ensures
        read_op(op_view(seq![], e)) == Some(e),
{
    reveal_strlit("op");
    reveal_strlit("path");
    reveal_strlit("value");
    reveal_strlit("add");
    reveal_strlit("remove");
    reveal_strlit("replace");
    assert("op"@.len() != "path"@.len());
    assert("op"@.len() != "value"@.len());
    assert("path"@.len() != "value"@.len());
    assert("add"@.len() != "remove"@.len());
    assert("add"@.len() != "replace"@.len());
    assert("replace"@.len() != "remove"@.len());
    lemma_pointer_tokens(e.at);
}

proof fn lemma_apply_ops(doc: JsonView, es: Seq<Edit>)
    requires
        all_proper(es),
    ensures
        apply_patch(doc, ops_view(seq![], es)) == apply_edits(doc, es),
    decreases es.len(),
{
    if es.len() > 0 {
        assert(proper(es[0]));
        lemma_read_op(es[0]);
        assert(ops_view(seq![], es).drop_first() =~= ops_view(seq![], es.drop_first()));
        assert(all_proper(es.drop_first())) by {
            assert forall|i: int| 0 <= i < es.drop_first().len() implies proper(
                #[trigger] es.drop_first()[i],
            ) by {
                assert(proper(es[i + 1]));
            }
        }
        if let Some(d) = apply_edit(doc, es[0]) {
            lemma_apply_ops(d, es.drop_first());
        }
    }
}

/// The operations that `diff` returns, applied as a JSON-Patch to the old
/// document, give the new document.
pub proof fn law_diff_transforms(old: Json, new: Json)
    ensures
        apply_patch(old@, ops_view(seq![], edits(old@, new@))) matches Some(r) && same(r, new@),
{
    lemma_finite_view(old);
    lemma_finite_view(new);
    lemma_apply_diff(old@, new@);
    lemma_apply_ops(old@, edits(old@, new@));
}

/// The patch from one document to another turns the one into the other, and has an
/// operation exactly where they differ.
pub proof fn law_patch_transforms(told: JsonView, current: JsonView)
    requires
        finite_view(told),
        finite_view(current),
    ensures
        apply_patch(told, ops_view(seq![], edits(told, current))) matches Some(r) && same(
            r,
            current,
        ),
        ops_view(seq![], edits(told, current)).len() == 0 <==> same(told, current),
{
    lemma_apply_diff(told, current);
    lemma_apply_ops(told, edits(told, current));
}

/// `diff` returns no operation exactly where the documents are equal.
pub proof fn law_diff_empty_iff_equal(old: Json, new: Json)
    ensures
        edits(old@, new@).len() == 0 <==> same(old@, new@),
{
    lemma_finite_view(old);
    lemma_finite_view(new);
    lemma_apply_diff(old@, new@);
}

/// The removals and additions between two arrays number what is left of both
/// beside a longest common subsequence.
pub proof fn law_script_length(a: Seq<JsonView>, b: Seq<JsonView>, i: nat, j: nat)
    requires
        i <= a.len(),
        j <= b.len(),
    ensures
        script(a, b, i, j).len() == (a.len() - i) + (b.len() - j) - 2 * lcs(a, b, i, j),
    decreases (a.len() - i) + (b.len() - j),
{
    if i < a.len() && j < b.len() {
        if same(a[i as int], b[j as int]) {
            law_script_length(a, b, i + 1, j + 1);
        } else {
            law_script_length(a, b, i + 1, j);
            law_script_length(a, b, i, j + 1);
        }
    } else if i < a.len() {
        law_script_length(a, b, i + 1, j);
    } else if j < b.len() {
        law_script_length(a, b, i, j + 1);
    }
}

/// `p` and `q` pick equal items of `a` from `i` on and of `b` from `j` on, in
/// order.
pub open spec fn common_subsequence(
    a: Seq<JsonView>,
    b: Seq<JsonView>,
    i: nat,
    j: nat,
    p: Seq<int>,
    q: Seq<int>,
) -> bool {
    &&& p.len() == q.len()
    &&& forall|k: int|
        #![trigger p[k]]
        0 <= k < p.len() ==> i <= p[k] && p[k] < a.len() && j <= q[k] && q[k] < b.len() && same(
            a[p[k]],
            b[q[k]],
        )
    &&& forall|k: int, l: int|
        #![trigger p[k], p[l]]
        0 <= k < l < p.len() ==> p[k] < p[l] && q[k] < q[l]
}

/// No common subsequence of two arrays is longer than the one that the removals
/// and additions keep.
pub proof fn law_lcs_longest(
    a: Seq<JsonView>,
    b: Seq<JsonView>,
    i: nat,
    j: nat,
    p: Seq<int>,
    q: Seq<int>,
)
    requires
        common_subsequence(a, b, i, j, p, q),
    ensures
        p.len() <= lcs(a, b, i, j),
    decreases (a.len() - i) + (b.len() - j),
{
    if p.len() == 0 {
    } else {
        assert(i <= p[0]);
        assert(p[0] < a.len());
        assert(j <= q[0]);
        let p1 = p.drop_first();
        let q1 = q.drop_first();
        if same(a[i as int], b[j as int]) {
            assert forall|k: int|
                #![trigger p1[k]]
                0 <= k < p1.len() implies i + 1 <= p1[k] && p1[k] < a.len() && j + 1 <= q1[k]
                && q1[k] < b.len() && same(a[p1[k]], b[q1[k]]) by {
                assert(p[0] < p[k + 1]);
            }
            assert forall|k: int, l: int|
                #![trigger p1[k], p1[l]]
                0 <= k < l < p1.len() implies p1[k] < p1[l] && q1[k] < q1[l] by {
                assert(p[k + 1] < p[l + 1]);
            }
            law_lcs_longest(a, b, i + 1, j + 1, p1, q1);
        } else if p[0] > i {
            assert forall|k: int|
                #![trigger p[k]]
                0 <= k < p.len() implies i + 1 <= p[k] && p[k] < a.len() && j <= q[k] && q[k]
                < b.len() && same(a[p[k]], b[q[k]]) by {
                if k > 0 {
                    assert(p[0] < p[k]);
                }
            }
            law_lcs_longest(a, b, i + 1, j, p, q);
        } else {
            assert(p[0] == i);
            assert(q[0] != j);
            assert forall|k: int|
                #![trigger p[k]]
                0 <= k < p.len() implies i <= p[k] && p[k] < a.len() && j + 1 <= q[k] && q[k]
                < b.len() && same(a[p[k]], b[q[k]]) by {
                if k > 0 {
                    assert(p[0] < p[k]);
                }
            }
            law_lcs_longest(a, b, i, j + 1, p, q);
        }
    }
}

}
