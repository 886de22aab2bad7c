//! JSON pointers: the paths by which patches and edits name a place in a
//! document.

use crate::text::{chars_of, decimal_value, lemma_pieces_first, pieces};
use vstd::prelude::*;
use vstd::string::*;

verus! {

/// What stands for one character of a reference token.
pub open spec fn escaped_char(c: char) -> Seq<char> {
    if c == '~' {
        seq!['~', '0']
    } else if c == '/' {
        seq!['~', '1']
    } else {
        seq![c]
    }
}

/// A reference token as it is written in a pointer.
pub open spec fn escaped(t: Seq<char>) -> Seq<char>
    decreases t.len(),
{
    if t.len() == 0 {
        seq![]
    } else {
        escaped_char(t[0]) + escaped(t.drop_first())
    }
}

/// The reference token that a piece of a pointer stands for.
pub open spec fn unescaped(t: Seq<char>) -> Seq<char>
    decreases t.len(),
{
    if t.len() == 0 {
        seq![]
    } else if t.len() >= 2 && t[0] == '~' && t[1] == '1' {
        seq!['/'] + unescaped(t.skip(2))
    } else if t.len() >= 2 && t[0] == '~' && t[1] == '0' {
        seq!['~'] + unescaped(t.skip(2))
    } else {
        seq![t[0]] + unescaped(t.drop_first())
    }
}

/// `path` followed by the tokens `at`, each behind a slash.
pub open spec fn pointer_text(path: Seq<char>, at: Seq<Seq<char>>) -> Seq<char>
    decreases at.len(),
{
    if at.len() == 0 {
        path
    } else {
        pointer_text(path + seq!['/'] + escaped(at[0]), at.drop_first())
    }
}

/// The tokens that a pointer names: none for the empty pointer; a pointer that
/// is not empty starts with a slash.
pub open spec fn pointer_tokens(p: Seq<char>) -> Option<Seq<Seq<char>>> {
    if p.len() == 0 {
        Some(seq![])
    } else if p[0] != '/' {
        None
    } else {
        Some(pieces(p.drop_first(), '/').map_values(|t: Seq<char>| unescaped(t)))
    }
}

/// The array index that a token names, if it is one.
pub open spec fn token_index(t: Seq<char>) -> Option<nat> {
    if t.len() > 1 && t[0] == '0' {
        None
    } else {
        decimal_value(t)
    }
}

/// Reading a written token gives the token back, and a written token holds no
/// slash.
pub proof fn lemma_unescaped(t: Seq<char>)
    ensures
        unescaped(escaped(t)) == t,
        !escaped(t).contains('/'),
    decreases t.len(),
{
    if t.len() == 0 {
        assert(unescaped(escaped(t)) =~= t);
    } else {
        let rest = t.drop_first();
        lemma_unescaped(rest);
        let e = escaped(t);
        assert(t =~= seq![t[0]] + rest);
        assert(e == escaped_char(t[0]) + escaped(rest));
        if t[0] == '~' || t[0] == '/' {
            assert(e.skip(2) =~= escaped(rest));
        } else {
            assert(e.drop_first() =~= escaped(rest));
        }
        assert(unescaped(e) =~= t);
        if e.contains('/') {
            let i = choose|i: int| 0 <= i < e.len() && e[i] == '/';
            let k = escaped_char(t[0]).len() as int;
            if i >= k {
                assert(escaped(rest)[i - k] == '/');
            }
        }
    }
}

/// A pointer that extends `path` is `path` followed by the pointer of the
/// tokens.
pub proof fn lemma_pointer_prefix(path: Seq<char>, at: Seq<Seq<char>>)
    ensures
        pointer_text(path, at) == path + pointer_text(seq![], at),
    decreases at.len(),
{
    if at.len() == 0 {
        assert(pointer_text(path, at) =~= path + pointer_text(seq![], at));
    } else {
        let step = seq!['/'] + escaped(at[0]);
        let none = Seq::<char>::empty();
        assert(none + seq!['/'] + escaped(at[0]) =~= step);
        assert(path + seq!['/'] + escaped(at[0]) =~= path + step);
        lemma_pointer_prefix(path + step, at.drop_first());
        lemma_pointer_prefix(step, at.drop_first());
        assert(pointer_text(path, at) =~= path + pointer_text(seq![], at));
    }
}

/// A pointer written from tokens names those tokens.
pub proof fn lemma_pointer_tokens(at: Seq<Seq<char>>)
    ensures
        pointer_tokens(pointer_text(seq![], at)) == Some(at),
    decreases at.len(),
{
    let p = pointer_text(seq![], at);
    if at.len() == 0 {
        assert(at =~= seq![]);
    } else {
        let seg = escaped(at[0]);
        let tail = at.drop_first();
        let more = pointer_text(seq![], tail);
        let none = Seq::<char>::empty();
        lemma_unescaped(at[0]);
        assert(none + seq!['/'] + seg =~= seq!['/'] + seg);
        lemma_pointer_prefix(seq!['/'] + seg, tail);
        assert(p == seq!['/'] + seg + more);
        assert(at =~= seq![at[0]] + tail);
        if tail.len() == 0 {
            assert(p.drop_first() =~= seg);
            lemma_pieces_first(seg, seq![], '/');
            assert(pointer_tokens(p)->Some_0 =~= at);
        } else {
            lemma_pointer_tokens(tail);
            assert(none + seq!['/'] + escaped(tail[0]) =~= seq!['/'] + escaped(tail[0]));
            lemma_pointer_prefix(seq!['/'] + escaped(tail[0]), tail.drop_first());
            assert(more[0] == '/');
            assert(p.drop_first() =~= seg + seq!['/'] + more.drop_first());
            lemma_pieces_first(seg, more.drop_first(), '/');
            assert(pieces(more.drop_first(), '/').map_values(|t: Seq<char>| unescaped(t)) == tail);
            assert(pointer_tokens(p)->Some_0 =~= seq![at[0]] + pieces(more.drop_first(), '/').map_values(|t: Seq<char>| unescaped(t)));
        }
    }
}

/// A reference token as it is written in a pointer.
pub fn escape(seg: &str) -> (r: String)
    ensures
        r@ == escaped(seg@),
{
    let v: Vec<char> = chars_of(seg);
    let mut r: String = String::new();
    let mut i: usize = 0;
    proof {
        assert(v@.skip(0) =~= v@);
        assert(r@ + escaped(v@) =~= escaped(v@));
    }
    while i < v.len()
        invariant
            i <= v.len(),
            r@ + escaped(v@.skip(i as int)) == escaped(v@),
        decreases v.len() - i,
    {
        let ghost before = r@;
        if v[i] == '~' {
            r.push('~');
            r.push('0');
        } else if v[i] == '/' {
            r.push('~');
            r.push('1');
        } else {
            r.push(v[i]);
        }
        proof {
            assert(v@.skip(i as int).drop_first() =~= v@.skip(i + 1));
            assert(r@ =~= before + escaped_char(v@[i as int]));
            assert(r@ + escaped(v@.skip(i + 1)) =~= before + escaped(v@.skip(i as int)));
        }
        i = i + 1;
    }
    proof {
        assert(r@ + escaped(v@.skip(v@.len() as int)) =~= r@);
    }
    r
}

/// The reference token that a piece of a pointer stands for.
pub fn unescape(seg: &str) -> (r: String)
    ensures
        r@ == unescaped(seg@),
{
    let v: Vec<char> = chars_of(seg);
    let mut r: String = String::new();
    let mut i: usize = 0;
    proof {
        assert(v@.skip(0) =~= v@);
        assert(r@ + unescaped(v@) =~= unescaped(v@));
    }
    while i < v.len()
        invariant
            i <= v.len(),
            r@ + unescaped(v@.skip(i as int)) == unescaped(v@),
        decreases v.len() - i,
    {
        let ghost before = r@;
        let ghost rest = v@.skip(i as int);
        if v[i] == '~' && i + 1 < v.len() && v[i + 1] == '1' {
            r.push('/');
            i = i + 2;
            proof {
                assert(rest.skip(2) =~= v@.skip(i as int));
                assert(r@ + unescaped(v@.skip(i as int)) =~= before + unescaped(rest));
            }
        } else if v[i] == '~' && i + 1 < v.len() && v[i + 1] == '0' {
            r.push('~');
            i = i + 2;
            proof {
                assert(rest.skip(2) =~= v@.skip(i as int));
                assert(r@ + unescaped(v@.skip(i as int)) =~= before + unescaped(rest));
            }
        } else {
            r.push(v[i]);
            i = i + 1;
            proof {
                assert(rest.drop_first() =~= v@.skip(i as int));
                assert(r@ + unescaped(v@.skip(i as int)) =~= before + unescaped(rest));
            }
        }
    }
    proof {
        assert(r@ + unescaped(v@.skip(v@.len() as int)) =~= r@);
    }
    r
}

/// `path`, a slash and the written form of `token`.
pub fn child_path(path: &str, token: &str) -> (r: String)
    ensures
        r@ == path@ + seq!['/'] + escaped(token@),
{
    let mut r: String = path.to_owned();
    r.push('/');
    let e: String = escape(token);
    r.append(e.as_str());
    proof {
        assert(r@ =~= path@ + seq!['/'] + escaped(token@));
    }
    r
}

}
