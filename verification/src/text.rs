//! Text as sequences of characters: comparison, ordering, decimal numbers and
//! the small scanners that the rest of the library is written with.

use vstd::prelude::*;
use vstd::string::*;

verus! {

/// `String::push` appends one character.
pub assume_specification[ String::push ](s: &mut String, c: char)
    ensures
        final(s)@ == old(s)@.push(c),
;

/// `str`'s equality compares the characters.
pub assume_specification[ <str as PartialEq<str>>::eq ](a: &str, b: &str) -> (r: bool)
    ensures
        r == (a@ == b@),
;

/// The characters of `s`, in order.
pub fn chars_of(s: &str) -> (r: Vec<char>)
    ensures
        r@ == s@,
{
    let mut r: Vec<char> = Vec::new();
    for c in it: s.chars()
        invariant
            r@ == it.seq().take(it.index()),
            it.seq() == s@,
    {
        r.push(c);
    }
    r
}

/// Whether two texts hold the same characters.
pub fn same_text(a: &str, b: &str) -> (r: bool)
    ensures
        r == (a@ == b@),
{
    *a == *b
}

/// The text `a` followed by the text `b`.
pub fn joined(a: &str, b: &str) -> (r: String)
    ensures
        r@ == a@ + b@,
{
    let mut r: String = a.to_owned();
    r.append(b);
    r
}

/// The characters of `v` from `from` up to `to`, as a text.
pub fn slice_text(v: &Vec<char>, from: usize, to: usize) -> (r: String)
    requires
        from <= to <= v.len(),
    ensures
        r@ == v@.subrange(from as int, to as int),
{
    let mut r: String = String::new();
    let mut i: usize = from;
    while i < to
        invariant
            from <= i <= to <= v.len(),
            r@ == v@.subrange(from as int, i as int),
        decreases to - i,
    {
        r.push(v[i]);
        proof {
            assert(v@.subrange(from as int, i + 1) =~= v@.subrange(from as int, i as int).push(
                v@[i as int],
            ));
        }
        i = i + 1;
    }
    r
}

// ---------------------------------------------------------------------
// order
// ---------------------------------------------------------------------

/// `a` stands before `b` in the order of their characters' code points.
pub open spec fn text_less(a: Seq<char>, b: Seq<char>) -> bool
    decreases b.len(),
{
    if b.len() == 0 {
        false
    } else if a.len() == 0 {
        true
    } else if a[0] != b[0] {
        a[0] < b[0]
    } else {
        text_less(a.drop_first(), b.drop_first())
    }
}

/// The order has no cycles of length one.
pub proof fn lemma_text_less_irreflexive(a: Seq<char>)
    ensures
        !text_less(a, a),
    decreases a.len(),
{
    if a.len() > 0 {
        lemma_text_less_irreflexive(a.drop_first());
    }
}

/// The order is transitive.
pub proof fn lemma_text_less_transitive(a: Seq<char>, b: Seq<char>, c: Seq<char>)
    requires
        text_less(a, b),
        text_less(b, c),
    ensures
        text_less(a, c),
    decreases a.len(),
{
    if a.len() > 0 && a[0] == b[0] && b[0] == c[0] {
        lemma_text_less_transitive(a.drop_first(), b.drop_first(), c.drop_first());
    }
}

/// Of two different texts one stands before the other.
pub proof fn lemma_text_less_total(a: Seq<char>, b: Seq<char>)
    requires
        a != b,
    ensures
        text_less(a, b) || text_less(b, a),
    decreases a.len(),
{
    if a.len() > 0 && b.len() > 0 && a[0] == b[0] {
        if a.drop_first() == b.drop_first() {
            assert(a =~= seq![a[0]] + a.drop_first());
            assert(b =~= seq![b[0]] + b.drop_first());
        }
        lemma_text_less_total(a.drop_first(), b.drop_first());
    } else if a.len() == 0 && b.len() == 0 {
        assert(a =~= b);
    }
}

/// Whether `a` stands before `b`.
pub fn is_less(a: &str, b: &str) -> (r: bool)
    ensures
        r == text_less(a@, b@),
{
    let x: Vec<char> = chars_of(a);
    let y: Vec<char> = chars_of(b);
    let mut i: usize = 0;
    proof {
        assert(x@.skip(0) =~= x@);
        assert(y@.skip(0) =~= y@);
    }
    while i < x.len() && i < y.len()
        invariant
            i <= x.len(),
            i <= y.len(),
            x@ == a@,
            y@ == b@,
            text_less(a@, b@) == text_less(x@.skip(i as int), y@.skip(i as int)),
        decreases x.len() - i,
    {
        proof {
            assert(x@.skip(i as int).drop_first() =~= x@.skip(i + 1));
            assert(y@.skip(i as int).drop_first() =~= y@.skip(i + 1));
        }
        if x[i] != y[i] {
            return x[i] < y[i];
        }
        i = i + 1;
    }
    i < y.len()
}

/// Each text stands before the next ones.
pub open spec fn strictly_sorted(s: Seq<Seq<char>>) -> bool {
    forall|i: int, j: int| 0 <= i < j < s.len() ==> text_less(#[trigger] s[i], #[trigger] s[j])
}

/// The members of a finite set of texts, in order.
pub open spec fn sorted_texts(set: Set<Seq<char>>) -> Seq<Seq<char>> {
    choose|s: Seq<Seq<char>>| strictly_sorted(s) && s.to_set() == set
}

/// Two strictly sorted sequences with the same members are equal.
pub proof fn lemma_strictly_sorted_unique(s: Seq<Seq<char>>, t: Seq<Seq<char>>)
    requires
        strictly_sorted(s),
        strictly_sorted(t),
        s.to_set() == t.to_set(),
    ensures
        s == t,
    decreases s.len(),
{
    if s.len() == 0 {
        if t.len() > 0 {
            assert(t.to_set().contains(t[0]));
            assert(s.to_set().contains(t[0]));
        }
        assert(s =~= t);
    } else {
        assert(s.to_set().contains(s.last()));
        assert(t.contains(s.last()));
        let j = choose|j: int| 0 <= j < t.len() && t[j] == s.last();
        assert(t.to_set().contains(t.last()));
        assert(s.contains(t.last()));
        let i = choose|i: int| 0 <= i < s.len() && s[i] == t.last();
        if s.last() != t.last() {
            assert(text_less(t[j], t[t.len() - 1]));
            assert(text_less(s[i], s[s.len() - 1]));
            lemma_text_less_transitive(s.last(), t.last(), s.last());
            lemma_text_less_irreflexive(s.last());
        }
        let s1 = s.drop_last();
        let t1 = t.drop_last();
        assert forall|x: Seq<char>| s1.to_set().contains(x) == t1.to_set().contains(x) by {
            if s1.contains(x) {
                let k = choose|k: int| 0 <= k < s1.len() && s1[k] == x;
                assert(text_less(s[k], s[s.len() - 1]));
                lemma_text_less_irreflexive(x);
                assert(s.contains(x)) by {
                    assert(s[k] == x);
                }
                assert(t.to_set().contains(x));
                let l = choose|l: int| 0 <= l < t.len() && t[l] == x;
                assert(t1[l] == x);
            }
            if t1.contains(x) {
                let k = choose|k: int| 0 <= k < t1.len() && t1[k] == x;
                assert(text_less(t[k], t[t.len() - 1]));
                lemma_text_less_irreflexive(x);
                assert(t.contains(x)) by {
                    assert(t[k] == x);
                }
                assert(s.to_set().contains(x));
                let l = choose|l: int| 0 <= l < s.len() && s[l] == x;
                assert(s1[l] == x);
            }
        }
        assert(s1.to_set() =~= t1.to_set());
        lemma_strictly_sorted_unique(s1, t1);
        assert(s =~= s1.push(s.last()));
        assert(t =~= t1.push(t.last()));
    }
}

/// A strictly sorted sequence is the sequence of its members in order.
pub proof fn lemma_sorted_texts(s: Seq<Seq<char>>)
    requires
        strictly_sorted(s),
    ensures
        sorted_texts(s.to_set()) == s,
{
    lemma_strictly_sorted_unique(sorted_texts(s.to_set()), s);
}

/// The characters of each text of `v`.
pub open spec fn text_views(v: Seq<String>) -> Seq<Seq<char>> {
    v.map_values(|s: String| s@)
}

/// A text put where it belongs into a strictly sorted sequence leaves the
/// sequence strictly sorted.
pub proof fn lemma_insert_sorted(before: Seq<Seq<char>>, i: int, t: Seq<char>)
    requires
        strictly_sorted(before),
        0 <= i <= before.len(),
        forall|k: int| 0 <= k < i ==> text_less(#[trigger] before[k], t),
        i < before.len() ==> text_less(t, before[i]),
    ensures
        strictly_sorted(before.insert(i, t)),
        before.insert(i, t).to_set() == before.to_set().insert(t),
{
    let after = before.insert(i, t);
    assert forall|a: int, b: int| 0 <= a < b < after.len() implies text_less(
        #[trigger] after[a],
        #[trigger] after[b],
    ) by {
        if a < i && b > i {
            assert(text_less(before[a], before[b - 1]));
        } else if a == i {
            if b - 1 > i {
                lemma_text_less_transitive(t, before[i], before[b - 1]);
            }
        } else if a > i {
            assert(text_less(before[a - 1], before[b - 1]));
        } else if b < i {
            assert(text_less(before[a], before[b]));
        }
    }
    assert forall|x: Seq<char>| after.to_set().contains(x) == before.to_set().insert(t).contains(
        x,
    ) by {
        if after.contains(x) {
            let k = choose|k: int| 0 <= k < after.len() && after[k] == x;
            if k < i {
                assert(before[k] == x);
            } else if k > i {
                assert(before[k - 1] == x);
            }
        }
        if before.contains(x) {
            let k = choose|k: int| 0 <= k < before.len() && before[k] == x;
            if k < i {
                assert(after[k] == x);
            } else {
                assert(after[k + 1] == x);
            }
        }
        if x == t {
            assert(after[i] == x);
        }
    }
    assert(after.to_set() =~= before.to_set().insert(t));
}

/// The place at which a text that is not in a strictly sorted sequence belongs.
proof fn lemma_sorted_place(s: Seq<Seq<char>>, t: Seq<char>) -> (i: int)
    requires
        strictly_sorted(s),
        !s.contains(t),
    ensures
        0 <= i <= s.len(),
        forall|k: int| 0 <= k < i ==> text_less(#[trigger] s[k], t),
        i < s.len() ==> text_less(t, s[i]),
    decreases s.len(),
{
    if s.len() == 0 {
        0
    } else {
        let init = s.drop_last();
        assert(!init.contains(t)) by {
            if init.contains(t) {
                let k = choose|k: int| 0 <= k < init.len() && init[k] == t;
                assert(s[k] == t);
            }
        }
        let i = lemma_sorted_place(init, t);
        assert(forall|k: int| 0 <= k < i ==> s[k] == init[k]);
        if i < init.len() {
            i
        } else {
            assert(s[s.len() - 1] != t);
            lemma_text_less_total(s.last(), t);
            if text_less(t, s.last()) {
                i
            } else {
                i + 1
            }
        }
    }
}

/// The members of a finite set of texts can be put in order.
pub proof fn lemma_sorted_exists(set: Set<Seq<char>>)
    requires
        set.finite(),
    ensures
        strictly_sorted(sorted_texts(set)),
        sorted_texts(set).to_set() == set,
{
    let s = sorted_witness(set);
}

proof fn sorted_witness(set: Set<Seq<char>>) -> (s: Seq<Seq<char>>)
    requires
        set.finite(),
    ensures
        strictly_sorted(s),
        s.to_set() == set,
    decreases set.len(),
{
    if set.len() == 0 {
        let s = Seq::<Seq<char>>::empty();
        assert(s.to_set() =~= set);
        s
    } else {
        let x = set.choose();
        let t = sorted_witness(set.remove(x));
        assert(!t.contains(x)) by {
            assert(!t.to_set().contains(x));
        }
        let i = lemma_sorted_place(t, x);
        lemma_insert_sorted(t, i, x);
        assert(set.remove(x).insert(x) =~= set);
        t.insert(i, x)
    }
}

/// Puts `t` into the strictly sorted list `v`, unless it is in it.
pub fn insert_sorted(v: &mut Vec<String>, t: &str)
    requires
        strictly_sorted(text_views(old(v)@)),
    ensures
        strictly_sorted(text_views(final(v)@)),
        text_views(final(v)@).to_set() == text_views(old(v)@).to_set().insert(t@),
{
    let ghost before = text_views(v@);
    let mut i: usize = 0;
    while i < v.len() && is_less(v[i].as_str(), t)
        invariant
            i <= v.len(),
            before == text_views(v@),
            v@ == old(v)@,
            forall|k: int| 0 <= k < i ==> text_less(#[trigger] before[k], t@),
        decreases v.len() - i,
    {
        i = i + 1;
    }
    if i < v.len() && same_text(v[i].as_str(), t) {
        proof {
            assert(before[i as int] == t@);
            assert(before.to_set() =~= before.to_set().insert(t@));
        }
        return ;
    }
    proof {
        if i < before.len() {
            lemma_text_less_total(before[i as int], t@);
        }
        lemma_insert_sorted(before, i as int, t@);
    }
    v.insert(i, t.to_owned());
    proof {
        assert(text_views(v@) =~= before.insert(i as int, t@));
    }
}

// ---------------------------------------------------------------------
// decimal numbers
// ---------------------------------------------------------------------

/// The character of a decimal digit.
pub open spec fn digit_char(d: nat) -> char {
    if d == 0 {
        '0'
    } else if d == 1 {
        '1'
    } else if d == 2 {
        '2'
    } else if d == 3 {
        '3'
    } else if d == 4 {
        '4'
    } else if d == 5 {
        '5'
    } else if d == 6 {
        '6'
    } else if d == 7 {
        '7'
    } else if d == 8 {
        '8'
    } else {
        '9'
    }
}

/// The number that a decimal digit stands for.
pub open spec fn digit_value(c: char) -> Option<nat> {
    if '0' <= c && c <= '9' {
        Some((c as u32 - '0' as u32) as nat)
    } else {
        None
    }
}

/// `n` in decimal digits, without leading zeros.
pub open spec fn decimal(n: nat) -> Seq<char>
    decreases n,
{
    if n < 10 {
        seq![digit_char(n)]
    } else {
        decimal(n / 10).push(digit_char(n % 10))
    }
}

/// `n` in decimal digits, with a minus sign where it is negative.
pub open spec fn signed_decimal(n: int) -> Seq<char> {
    if n < 0 {
        seq!['-'] + decimal((-n) as nat)
    } else {
        decimal(n as nat)
    }
}

/// The number that a text made of decimal digits stands for.
pub open spec fn decimal_value(t: Seq<char>) -> Option<nat>
    decreases t.len(),
{
    if t.len() == 0 {
        None
    } else {
        match digit_value(t.last()) {
            None => None,
            Some(d) => if t.len() == 1 {
                Some(d)
            } else {
                match decimal_value(t.drop_last()) {
                    None => None,
                    Some(n) => Some((10 * n + d) as nat),
                }
            },
        }
    }
}

/// Reading a number back from its digits gives the number; the digits start
/// with a zero only where the number is zero.
pub proof fn lemma_decimal_value(n: nat)
    ensures
        decimal_value(decimal(n)) == Some(n),
        decimal(n).len() > 0,
        decimal(n)[0] == '0' ==> decimal(n).len() == 1,
        decimal(n)[0] == '0' ==> n == 0,
        forall|i: int| 0 <= i < decimal(n).len() ==> '0' <= #[trigger] decimal(n)[i] && decimal(n)[i]
            <= '9',
    decreases n,
{
    assert(digit_value(digit_char(n % 10)) == Some(n % 10));
    if n < 10 {
    } else {
        lemma_decimal_value(n / 10);
        assert(decimal(n).drop_last() =~= decimal(n / 10));
        assert(n == 10 * (n / 10) + n % 10);
        assert forall|i: int| 0 <= i < decimal(n).len() implies '0' <= #[trigger] decimal(n)[i]
            && decimal(n)[i] <= '9' by {
            if i < decimal(n / 10).len() {
                assert(decimal(n)[i] == decimal(n / 10)[i]);
            }
        }
    }
}

fn digit(d: u64) -> (c: char)
    requires
        d < 10,
    ensures
        c == digit_char(d as nat),
{
    if d == 0 {
        '0'
    } else if d == 1 {
        '1'
    } else if d == 2 {
        '2'
    } else if d == 3 {
        '3'
    } else if d == 4 {
        '4'
    } else if d == 5 {
        '5'
    } else if d == 6 {
        '6'
    } else if d == 7 {
        '7'
    } else if d == 8 {
        '8'
    } else {
        '9'
    }
}

/// `n` in decimal digits.
pub fn decimal_text(n: u64) -> (r: String)
    ensures
        r@ == decimal(n as nat),
    decreases n,
{
    if n < 10 {
        let mut r: String = String::new();
        r.push(digit(n));
        proof {
            assert(r@ =~= decimal(n as nat));
        }
        r
    } else {
        let mut r: String = decimal_text(n / 10);
        r.push(digit(n % 10));
        r
    }
}

/// `n` in decimal digits, with its sign.
pub fn signed_text(n: i64) -> (r: String)
    ensures
        r@ == signed_decimal(n as int),
{
    if n < 0 {
        let magnitude: u64 = if n == i64::MIN {
            0x8000_0000_0000_0000
        } else {
            (-n) as u64
        };
        let mut r: String = String::new();
        r.push('-');
        let digits: String = decimal_text(magnitude);
        r.append(digits.as_str());
        proof {
            assert(r@ =~= signed_decimal(n as int));
        }
        r
    } else {
        decimal_text(n as u64)
    }
}

/// The number that `t` stands for, where it is made of digits and is at most
/// `max`.
pub open spec fn bounded_value(t: Seq<char>, max: nat) -> Option<nat> {
    match decimal_value(t) {
        Some(n) => if n <= max {
            Some(n)
        } else {
            None
        },
        None => None,
    }
}

/// What follows a text of digits only makes the number larger.
proof fn lemma_decimal_prefix(t: Seq<char>, k: int)
    requires
        0 < k <= t.len(),
        decimal_value(t) is Some,
    ensures
        decimal_value(t.take(k)) is Some,
        decimal_value(t.take(k))->Some_0 <= decimal_value(t)->Some_0,
    decreases t.len(),
{
    if k == t.len() {
        assert(t.take(k) =~= t);
    } else {
        lemma_decimal_prefix(t.drop_last(), k);
        assert(t.drop_last().take(k) =~= t.take(k));
    }
}

/// Reads the decimal number that the characters from `from` on spell.
pub fn read_decimal(v: &Vec<char>, from: usize, max: u64) -> (r: Option<u64>)
    requires
        from <= v.len(),
    ensures
        r is Some <==> bounded_value(v@.skip(from as int), max as nat) is Some,
        r matches Some(n) ==> Some(n as nat) == bounded_value(v@.skip(from as int), max as nat),
{
    let ghost t = v@.skip(from as int);
    if from >= v.len() {
        return None;
    }
    let mut n: u64 = 0;
    let mut i: usize = from;
    while i < v.len()
        invariant
            from <= i <= v.len(),
            t == v@.skip(from as int),
            i == from ==> n == 0,
            i > from ==> decimal_value(t.take(i - from)) == Some(n as nat),
            n <= max,
        decreases v.len() - i,
    {
        let c: char = v[i];
        proof {
            assert(t.take(i - from + 1).drop_last() =~= t.take(i - from));
            assert(t.take(i - from + 1).last() == c);
        }
        if !('0' <= c && c <= '9') {
            proof {
                assert(digit_value(c) is None);
                assert(decimal_value(t.take(i - from + 1)) is None);
                if decimal_value(t) is Some {
                    lemma_decimal_prefix(t, i - from + 1);
                }
            }
            return None;
        }
        let d: u64 = (c as u64) - ('0' as u64);
        if d > max || n > (max - d) / 10 {
            proof {
                assert(decimal_value(t.take(i - from + 1)) == Some((10 * n + d) as nat));
                assert(10 * n + d > max);
                if decimal_value(t) is Some {
                    lemma_decimal_prefix(t, i - from + 1);
                }
            }
            return None;
        }
        n = n * 10 + d;
        i = i + 1;
    }
    proof {
        assert(t.take(v.len() - from) =~= t);
    }
    Some(n)
}

/// The number that Rust's integer parser reads from `t` for an unsigned type
/// with the largest value `max`: digits, behind a plus sign or not.
pub open spec fn unsigned_value(t: Seq<char>, max: nat) -> Option<nat> {
    if t.len() > 0 && t[0] == '+' {
        bounded_value(t.skip(1), max)
    } else {
        bounded_value(t, max)
    }
}

/// Reads an unsigned number that is at most `max`.
pub fn parse_unsigned(t: &str, max: u64) -> (r: Option<u64>)
    ensures
        r is Some <==> unsigned_value(t@, max as nat) is Some,
        r matches Some(n) ==> Some(n as nat) == unsigned_value(t@, max as nat),
{
    let v: Vec<char> = chars_of(t);
    proof {
        assert(v@.skip(0) =~= v@);
    }
    if v.len() > 0 && v[0] == '+' {
        read_decimal(&v, 1, max)
    } else {
        read_decimal(&v, 0, max)
    }
}

/// The number that Rust's integer parser reads from `t` for `i64`.
pub open spec fn signed_value(t: Seq<char>) -> Option<int> {
    if t.len() > 0 && t[0] == '-' {
        match bounded_value(t.skip(1), 0x8000_0000_0000_0000) {
            Some(n) => Some(-(n as int)),
            None => None,
        }
    } else {
        match unsigned_value(t, 0x7fff_ffff_ffff_ffff) {
            Some(n) => Some(n as int),
            None => None,
        }
    }
}

/// Reads a signed number.
pub fn parse_signed(t: &str) -> (r: Option<i64>)
    ensures
        r is Some <==> signed_value(t@) is Some,
        r matches Some(n) ==> Some(n as int) == signed_value(t@),
{
    let v: Vec<char> = chars_of(t);
    if v.len() > 0 && v[0] == '-' {
        match read_decimal(&v, 1, 0x8000_0000_0000_0000) {
            Some(n) => if n == 0x8000_0000_0000_0000 {
                Some(i64::MIN)
            } else {
                Some(-(n as i64))
            },
            None => None,
        }
    } else {
        match parse_unsigned(t, 0x7fff_ffff_ffff_ffff) {
            Some(n) => Some(n as i64),
            None => None,
        }
    }
}


// ---------------------------------------------------------------------
// taking texts apart
// ---------------------------------------------------------------------

/// The pieces of `t` between the separators.
pub open spec fn pieces(t: Seq<char>, sep: char) -> Seq<Seq<char>>
    decreases t.len(),
{
    if t.len() == 0 {
        seq![seq![]]
    } else {
        let rest = pieces(t.drop_first(), sep);
        if t[0] == sep {
            seq![Seq::<char>::empty()] + rest
        } else {
            seq![seq![t[0]] + rest[0]] + rest.drop_first()
        }
    }
}

/// There is always a piece.
pub proof fn lemma_pieces_nonempty(t: Seq<char>, sep: char)
    ensures
        pieces(t, sep).len() > 0,
    decreases t.len(),
{
    if t.len() > 0 {
        lemma_pieces_nonempty(t.drop_first(), sep);
    }
}

/// A piece ends at the first separator.
pub proof fn lemma_pieces_first(seg: Seq<char>, rest: Seq<char>, sep: char)
    requires
        !seg.contains(sep),
    ensures
        pieces(seg, sep) == seq![seg],
        pieces(seg + seq![sep] + rest, sep) == seq![seg] + pieces(rest, sep),
    decreases seg.len(),
{
    let whole = seg + seq![sep] + rest;
    lemma_pieces_nonempty(rest, sep);
    if seg.len() == 0 {
        assert(seg =~= Seq::<char>::empty());
        assert(pieces(seg, sep) =~= seq![seg]);
        assert(whole.drop_first() =~= rest);
        assert(pieces(whole, sep) =~= seq![seg] + pieces(rest, sep));
    } else {
        let tail = seg.drop_first();
        assert(!tail.contains(sep)) by {
            if tail.contains(sep) {
                let i = choose|i: int| 0 <= i < tail.len() && tail[i] == sep;
                assert(seg[i + 1] == sep);
            }
        }
        lemma_pieces_first(tail, rest, sep);
        assert(seg[0] != sep) by {
            assert(seg.contains(seg[0]));
        }
        assert(seg =~= seq![seg[0]] + tail);
        assert(pieces(seg, sep) =~= seq![seg]);
        assert(whole.drop_first() =~= tail + seq![sep] + rest);
        assert(pieces(whole, sep) =~= seq![seg] + pieces(rest, sep));
    }
}

/// The pieces of `t` between the separators.
pub fn split_text(t: &str, sep: char) -> (r: Vec<String>)
    ensures
        text_views(r@) == pieces(t@, sep),
        r.len() > 0,
{
    let v: Vec<char> = chars_of(t);
    let mut r: Vec<String> = Vec::new();
    let mut start: usize = 0;
    let mut i: usize = 0;
    proof {
        assert(v@.skip(0) =~= v@);
        assert(text_views(r@) + pieces(v@, sep) =~= pieces(v@, sep));
    }
    while i < v.len()
        invariant
            start <= i <= v.len(),
            forall|k: int| start <= k < i ==> v@[k] != sep,
            text_views(r@) + pieces(v@.skip(start as int), sep) == pieces(v@, sep),
        decreases v.len() - i,
    {
        if v[i] == sep {
            let seg: String = slice_text(&v, start, i);
            proof {
                assert(!seg@.contains(sep));
                let rest = v@.skip(i + 1);
                assert(v@.skip(start as int) =~= seg@ + seq![sep] + rest);
                lemma_pieces_first(seg@, rest, sep);
                assert(text_views(r@.push(seg)) =~= text_views(r@).push(seg@));
                assert(text_views(r@.push(seg)) + pieces(rest, sep) =~= text_views(r@) + (seq![seg@]
                    + pieces(rest, sep)));
            }
            r.push(seg);
            start = i + 1;
        }
        i = i + 1;
    }
    let seg: String = slice_text(&v, start, i);
    proof {
        assert(!seg@.contains(sep));
        assert(v@.skip(start as int) =~= seg@);
        lemma_pieces_first(seg@, seq![], sep);
        assert(text_views(r@.push(seg)) =~= text_views(r@) + seq![seg@]);
    }
    r.push(seg);
    r
}

/// What stands before and behind the last separator in `t`.
pub open spec fn last_split(t: Seq<char>, sep: char) -> Option<(Seq<char>, Seq<char>)>
    decreases t.len(),
{
    if t.len() == 0 {
        None
    } else if t.last() == sep {
        Some((t.drop_last(), seq![]))
    } else {
        match last_split(t.drop_last(), sep) {
            Some((a, b)) => Some((a, b.push(t.last()))),
            None => None,
        }
    }
}

pub proof fn lemma_last_split(t: Seq<char>, sep: char, i: int)
    requires
        -1 <= i < t.len(),
        i >= 0 ==> t[i] == sep,
        forall|k: int| i < k < t.len() ==> t[k] != sep,
    ensures
        i >= 0 ==> last_split(t, sep) == Some((t.take(i), t.skip(i + 1))),
        i < 0 ==> last_split(t, sep) is None,
    decreases t.len(),
{
    if t.len() > 0 {
        if i == t.len() - 1 {
            assert(t.take(i) =~= t.drop_last());
            assert(t.skip(i + 1) =~= seq![]);
        } else {
            assert(t[t.len() - 1] != sep);
            lemma_last_split(t.drop_last(), sep, i);
            if i >= 0 {
                assert(t.drop_last().take(i) =~= t.take(i));
                assert(t.drop_last().skip(i + 1).push(t.last()) =~= t.skip(i + 1));
            }
        }
    }
}

/// What stands before and behind the last separator in `t`.
pub fn split_last(t: &str, sep: char) -> (r: Option<(String, String)>)
    ensures
        r is Some <==> last_split(t@, sep) is Some,
        r matches Some(p) ==> last_split(t@, sep) == Some((p.0@, p.1@)),
{
    let v: Vec<char> = chars_of(t);
    let mut i: usize = v.len();
    while i > 0
        invariant
            i <= v.len(),
            v@ == t@,
            forall|k: int| i <= k < v.len() ==> v@[k] != sep,
        decreases i,
    {
        i = i - 1;
        if v[i] == sep {
            proof {
                lemma_last_split(t@, sep, i as int);
                assert(v@.subrange(0, i as int) =~= t@.take(i as int));
                assert(v@.subrange(i + 1, v@.len() as int) =~= t@.skip(i + 1));
            }
            let before: String = slice_text(&v, 0, i);
            let behind: String = slice_text(&v, i + 1, v.len());
            return Some((before, behind));
        }
    }
    proof {
        lemma_last_split(t@, sep, -1);
    }
    None
}

/// The characters that Unicode calls white space.
pub uninterp spec fn white_space(c: char) -> bool;

/// `char::is_whitespace`. Among the ASCII characters these are the space and the
/// five control characters from the tab to the carriage return.
pub assume_specification[ char::is_whitespace ](c: char) -> (r: bool)
    ensures
        r == white_space(c),
        (c as u32) < 128 ==> r == (c == ' ' || 9 <= c as u32 <= 13),
;

/// `t` without the white space at its start.
pub open spec fn trimmed_start(t: Seq<char>) -> Seq<char>
    decreases t.len(),
{
    if t.len() > 0 && white_space(t[0]) {
        trimmed_start(t.drop_first())
    } else {
        t
    }
}

/// `t` without the white space at its end.
pub open spec fn trimmed_end(t: Seq<char>) -> Seq<char>
    decreases t.len(),
{
    if t.len() > 0 && white_space(t.last()) {
        trimmed_end(t.drop_last())
    } else {
        t
    }
}

/// `t` without the white space at its ends.
pub open spec fn trimmed(t: Seq<char>) -> Seq<char> {
    trimmed_end(trimmed_start(t))
}

/// `t` without the white space at its ends.
pub fn trim_text(t: &str) -> (r: String)
    ensures
        r@ == trimmed(t@),
{
    let v: Vec<char> = chars_of(t);
    let mut i: usize = 0;
    proof {
        assert(v@.skip(0) =~= v@);
    }
    while i < v.len() && v[i].is_whitespace()
        invariant
            i <= v.len(),
            v@ == t@,
            trimmed_start(v@.skip(i as int)) == trimmed_start(t@),
        decreases v.len() - i,
    {
        proof {
            assert(v@.skip(i as int).drop_first() =~= v@.skip(i + 1));
        }
        i = i + 1;
    }
    let ghost inner = v@.skip(i as int);
    let mut j: usize = v.len();
    proof {
        assert(v@.subrange(i as int, j as int) =~= inner);
    }
    while j > i && v[j - 1].is_whitespace()
        invariant
            i <= j <= v.len(),
            trimmed_end(v@.subrange(i as int, j as int)) == trimmed_end(inner),
        decreases j,
    {
        proof {
            assert(v@.subrange(i as int, j as int).drop_last() =~= v@.subrange(i as int, j - 1));
        }
        j = j - 1;
    }
    slice_text(&v, i, j)
}

/// The truth value that Rust's parser reads.
pub open spec fn bool_value(t: Seq<char>) -> Option<bool> {
    if t == "true"@ {
        Some(true)
    } else if t == "false"@ {
        Some(false)
    } else {
        None
    }
}

/// Reads a truth value.
pub fn parse_bool(t: &str) -> (r: Option<bool>)
    ensures
        r == bool_value(t@),
{
    if same_text(t, "true") {
        Some(true)
    } else if same_text(t, "false") {
        Some(false)
    } else {
        None
    }
}

/// `a`, then `b` between double quotes.
pub open spec fn with_quoted(a: Seq<char>, b: Seq<char>) -> Seq<char> {
    a + seq!['"'] + b + seq!['"']
}

/// `a`, then `b` between double quotes.
pub fn join_quoted(a: &str, b: &str) -> (r: String)
    ensures
        r@ == with_quoted(a@, b@),
{
    let mut r: String = a.to_owned();
    r.push('"');
    r.append(b);
    r.push('"');
    proof {
        assert(r@ =~= with_quoted(a@, b@));
    }
    r
}

}
