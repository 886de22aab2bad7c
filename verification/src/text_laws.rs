//! What the functions on texts give: pieces, ends and numbers.

use crate::text::{
    bool_value, decimal, decimal_value, digit_char, digit_value, last_split, lemma_decimal_value,
    lemma_pieces_nonempty, pieces, signed_decimal, signed_value, trimmed, trimmed_end,
    trimmed_start, unsigned_value, white_space,
};
use vstd::prelude::*;

verus! {

/// Texts with a separator between them.
pub open spec fn put_together(ps: Seq<Seq<char>>, sep: char) -> Seq<char>
    decreases ps.len(),
{
    if ps.len() == 0 {
        seq![]
    } else if ps.len() == 1 {
        ps[0]
    } else {
        ps[0] + seq![sep] + put_together(ps.drop_first(), sep)
    }
}

/// The pieces of a text, put together with the separator, are the text, and no piece
/// holds a separator.
pub proof fn law_pieces_make_text(t: Seq<char>, sep: char)
    ensures
        put_together(pieces(t, sep), sep) == t,
        forall|i: int| 0 <= i < pieces(t, sep).len() ==> !(#[trigger] pieces(t, sep)[i]).contains(sep),
        pieces(t, sep).len() >= 1,
    decreases t.len(),
{
    let ps = pieces(t, sep);
    if t.len() > 0 {
        let rest = pieces(t.drop_first(), sep);
        law_pieces_make_text(t.drop_first(), sep);
        lemma_pieces_nonempty(t.drop_first(), sep);
        if t[0] == sep {
            assert(ps.drop_first() =~= rest);
            assert(put_together(ps, sep) =~= seq![sep] + put_together(rest, sep));
            assert(put_together(ps, sep) =~= t);
        } else {
            assert(ps.drop_first() =~= rest.drop_first());
            assert(ps[0] == seq![t[0]] + rest[0]);
            if rest.len() == 1 {
                assert(put_together(ps, sep) =~= t);
            } else {
                assert(put_together(ps, sep) =~= seq![t[0]] + put_together(rest, sep));
                assert(put_together(ps, sep) =~= t);
            }
        }
        assert forall|i: int| 0 <= i < ps.len() implies !(#[trigger] ps[i]).contains(sep) by {
            if t[0] == sep {
                if i > 0 {
                    assert(ps[i] == rest[i - 1]);
                }
            } else if i > 0 {
                assert(ps[i] == rest[i]);
            } else {
                assert(!rest[0].contains(sep));
                if ps[0].contains(sep) {
                    let k = choose|k: int| 0 <= k < ps[0].len() && ps[0][k] == sep;
                    assert(k > 0);
                    assert(rest[0][k - 1] == sep);
                }
            }
        }
    }
}

/// A text is split at its last separator: what is in front of it and what is behind it,
/// where there is no other.
pub proof fn law_split_at_last(t: Seq<char>, sep: char)
    ensures
        last_split(t, sep) matches Some((a, b)) ==> t == a + seq![sep] + b && !b.contains(sep),
        last_split(t, sep) is None <==> !t.contains(sep),
    decreases t.len(),
{
    if t.len() > 0 {
        let init = t.drop_last();
        law_split_at_last(init, sep);
        assert(t =~= init.push(t.last()));
        if t.last() == sep {
            assert(t[t.len() - 1] == sep);
            assert(t =~= init + seq![sep] + seq![]);
        } else {
            if let Some((a, b)) = last_split(init, sep) {
                let c = b.push(t.last());
                assert(t =~= a + seq![sep] + c);
                if c.contains(sep) {
                    let k = choose|k: int| 0 <= k < c.len() && c[k] == sep;
                    assert(b[k] == sep);
                }
                assert(t[a.len() as int] == sep);
            } else if t.contains(sep) {
                let k = choose|k: int| 0 <= k < t.len() && t[k] == sep;
                assert(init[k] == sep);
            }
        }
    }
}

/// A trimmed text has no white space at its ends, and what was taken off is white space.
pub proof fn law_trimmed_ends(t: Seq<char>)
    ensures
        trimmed(t).len() > 0 ==> !white_space(trimmed(t)[0]) && !white_space(trimmed(t).last()),
        exists|i: int, j: int|
            0 <= i <= j <= t.len() && #[trigger] t.subrange(i, j) == trimmed(t) && (forall|k: int|
                0 <= k < i ==> white_space(#[trigger] t[k])) && (forall|k: int|
                j <= k < t.len() ==> white_space(#[trigger] t[k])),
{
    let i = lemma_trimmed_start(t);
    let u = trimmed_start(t);
    let n = lemma_trimmed_end(u);
    assert(t.subrange(i, i + n) =~= trimmed(t));
    assert forall|k: int| i + n <= k < t.len() implies white_space(#[trigger] t[k]) by {
        assert(u[k - i] == t[k]);
    }
}

proof fn lemma_trimmed_start(t: Seq<char>) -> (i: int)
    ensures
        0 <= i <= t.len(),
        trimmed_start(t) == t.skip(i),
        forall|k: int| 0 <= k < i ==> white_space(#[trigger] t[k]),
        i < t.len() ==> !white_space(t[i]),
    decreases t.len(),
{
    if t.len() > 0 && white_space(t[0]) {
        let rest = t.drop_first();
        let i = lemma_trimmed_start(rest);
        assert(t.skip(i + 1) =~= rest.skip(i));
        assert forall|k: int| 0 <= k < i + 1 implies white_space(#[trigger] t[k]) by {
            if k > 0 {
                assert(rest[k - 1] == t[k]);
            }
        }
        i + 1
    } else {
        assert(t.skip(0) =~= t);
        0
    }
}

proof fn lemma_trimmed_end(t: Seq<char>) -> (n: int)
    ensures
        0 <= n <= t.len(),
        trimmed_end(t) == t.take(n),
        forall|k: int| n <= k < t.len() ==> white_space(#[trigger] t[k]),
        n > 0 ==> !white_space(t[n - 1]),
    decreases t.len(),
{
    if t.len() > 0 && white_space(t.last()) {
        let init = t.drop_last();
        let n = lemma_trimmed_end(init);
        assert(t.take(n) =~= init.take(n));
        assert forall|k: int| n <= k < t.len() implies white_space(#[trigger] t[k]) by {
            if k < init.len() {
                assert(init[k] == t[k]);
            }
        }
        n
    } else {
        assert(t.take(t.len() as int) =~= t);
        t.len() as int
    }
}

/// A number is written in decimal digits and read back, each digit worth ten times the
/// one behind it, and no digit comes in front of it that is nothing.
pub proof fn law_decimal_places(n: nat, d: nat)
    requires
        d < 10,
    ensures
        n > 0 ==> decimal(10 * n + d) == decimal(n).push(digit_char(d)),
        decimal(d) == seq![digit_char(d)],
        digit_char(d) as u32 == 48 + d,
        digit_value(digit_char(d)) == Some(d),
        decimal_value(decimal(n)) == Some(n),
        n > 0 ==> decimal(n)[0] != '0',
    decreases n,
{
    lemma_decimal_value(n);
    assert((10 * n + d) / 10 == n && (10 * n + d) % 10 == d) by (nonlinear_arith)
        requires
            d < 10,
    ;
    lemma_no_leading_zero(n);
}

proof fn lemma_no_leading_zero(n: nat)
    ensures
        decimal(n).len() > 0,
        n > 0 ==> decimal(n)[0] != '0',
    decreases n,
{
    if n >= 10 {
        lemma_no_leading_zero(n / 10);
    }
}

/// Whole numbers are read with their sign, within what the type holds.
pub proof fn law_signed_numbers_are_read(n: nat, max: nat)
    ensures
        n <= 0x7fff_ffff_ffff_ffff ==> signed_value(decimal(n)) == Some(n as int) && signed_value(
            seq!['+'] + decimal(n),
        ) == Some(n as int),
        n <= 0x8000_0000_0000_0000 ==> signed_value(seq!['-'] + decimal(n)) == Some(-(n as int)),
        n > 0x7fff_ffff_ffff_ffff ==> signed_value(decimal(n)) is None,
        n > 0x8000_0000_0000_0000 ==> signed_value(seq!['-'] + decimal(n)) is None,
        n <= max ==> unsigned_value(decimal(n), max) == Some(n) && unsigned_value(
            seq!['+'] + decimal(n),
            max,
        ) == Some(n),
        n > max ==> unsigned_value(decimal(n), max) is None,
        n > 0 ==> signed_decimal(-(n as int)) == seq!['-'] + decimal(n),
        signed_decimal(n as int) == decimal(n),
{
    lemma_decimal_value(n);
    lemma_starts_with_digit(n);
    assert((seq!['+'] + decimal(n)).skip(1) =~= decimal(n));
    assert((seq!['-'] + decimal(n)).skip(1) =~= decimal(n));
}

proof fn lemma_starts_with_digit(n: nat)
    ensures
        decimal(n).len() > 0,
        '0' <= decimal(n)[0] <= '9',
    decreases n,
{
    if n >= 10 {
        lemma_starts_with_digit(n / 10);
    }
}

/// A truth value is read of its name alone.
pub proof fn law_truth_values_are_read(t: Seq<char>)
    ensures
        bool_value("true"@) == Some(true),
        bool_value("false"@) == Some(false),
        t != "true"@ && t != "false"@ ==> bool_value(t) is None,
{
    reveal_strlit("true");
    reveal_strlit("false");
    assert("true"@.len() != "false"@.len());
}

}
