//! The crossing between [`Json`] and `serde_json::Value`, and what is asked of
//! `serde_json` about numbers and texts.

use crate::json::{
    entries_view, finite_bits, json_view, lemma_entries_push, values_view, Double, Json, JsonView,
};
use crate::text::signed_decimal;
use vstd::arithmetic::power2::pow2;
use vstd::prelude::*;

verus! {

#[verifier::external_type_specification]
#[verifier::external_body]
pub struct ExValue(serde_json::Value);

/// What a `serde_json::Value` holds.
pub uninterp spec fn json_of(v: serde_json::Value) -> JsonView;

/// One layer of a `serde_json::Value`: its variant and what the variant holds.
pub enum Node {
    Null,
    Bool(bool),
    Uint(u64),
    Int(i64),
    Float(u64),
    Str(String),
    Array(Vec<serde_json::Value>),
    Object(Vec<(String, serde_json::Value)>),
}

/// What the items of an array hold.
pub open spec fn items_of(v: Seq<serde_json::Value>) -> Seq<JsonView> {
    Seq::new(v.len(), |i: int| json_of(v[i]))
}

/// What the entries of an object hold.
pub open spec fn entries_of(es: Seq<(String, serde_json::Value)>) -> Map<Seq<char>, JsonView>
    decreases es.len(),
{
    if es.len() == 0 {
        Map::empty()
    } else {
        entries_of(es.drop_last()).insert(es.last().0@, json_of(es.last().1))
    }
}

/// What a layer holds.
pub open spec fn node_view(n: Node) -> JsonView {
    match n {
        Node::Null => JsonView::Null,
        Node::Bool(b) => JsonView::Bool(b),
        Node::Uint(n) => JsonView::Int(n as int),
        Node::Int(n) => JsonView::Int(n as int),
        Node::Float(b) => JsonView::Float(b),
        Node::Str(s) => JsonView::Str(s@),
        Node::Array(v) => JsonView::Array(items_of(v@)),
        Node::Object(es) => JsonView::Object(entries_of(es@)),
    }
}

/// Takes a `serde_json::Value` apart by its variant. A number is whole and not
/// negative (`Number::as_u64`), whole (`Number::as_i64`), or a finite double
/// (`Number::as_f64`). The keys of an object are its own, each once.
#[verifier::external_body]
fn take_apart(v: serde_json::Value) -> (r: Node)
    ensures
        node_view(r) == json_of(v),
        r matches Node::Float(b) ==> finite_bits(b),
        r matches Node::Object(es) ==> forall|a: int, b: int|
            0 <= a < b < es.len() ==> (#[trigger] es@[a]).0@ != (#[trigger] es@[b]).0@,
{
    match v {
        serde_json::Value::Null => Node::Null,
        serde_json::Value::Bool(b) => Node::Bool(b),
        serde_json::Value::Number(n) => match (n.as_u64(), n.as_i64()) {
            (Some(u), _) => Node::Uint(u),
            (None, Some(i)) => Node::Int(i),
            (None, None) => Node::Float(n.as_f64().map(|x| x.to_bits()).unwrap_or_default()),
        },
        serde_json::Value::String(s) => Node::Str(s),
        serde_json::Value::Array(items) => Node::Array(items),
        serde_json::Value::Object(map) => Node::Object(map.into_iter().collect()),
    }
}

/// Puts a `serde_json::Value` together with `Value::from`, `Value::Array` and,
/// for an object, `serde_json::Map`'s `FromIterator`, by which the last of two
/// entries with one key stays. A double is not put together here.
#[verifier::external_body]
fn put_together(n: Node) -> (r: serde_json::Value)
    requires
        !(n is Float),
    ensures
        json_of(r) == node_view(n),
{
    match n {
        Node::Bool(b) => serde_json::Value::from(b),
        Node::Uint(n) => serde_json::Value::from(n),
        Node::Int(n) => serde_json::Value::from(n),
        Node::Str(s) => serde_json::Value::from(s),
        Node::Array(items) => serde_json::Value::Array(items),
        Node::Object(entries) => serde_json::Value::Object(entries.into_iter().collect()),
        _ => serde_json::Value::Null,
    }
}

/// The `serde_json::Value` of a finite double. `rmp_serde::from_slice` reads a
/// MessagePack float, which is the byte `0xcb` and the eight bytes of the
/// double, as the number with those bits.
#[verifier::external_body]
fn double_value(bits: u64) -> (r: serde_json::Value)
    requires
        finite_bits(bits),
    ensures
        json_of(r) == JsonView::Float(bits),
{
    let frame: Vec<u8> = [vec![0xcb], bits.to_be_bytes().to_vec()].concat();
    rmp_serde::from_slice::<serde_json::Value>(&frame).unwrap_or_default()
}

proof fn lemma_entries_of_push(es: Seq<(String, serde_json::Value)>, e: (String, serde_json::Value))
    ensures
        entries_of(es.push(e)) == entries_of(es).insert(e.0@, json_of(e.1)),
{
    assert(es.push(e).drop_last() =~= es);
}

/// The entries of an object are smaller than the object.
proof fn lemma_entry_smaller(es: Seq<(String, serde_json::Value)>, i: int)
    requires
        0 <= i < es.len(),
        forall|a: int, b: int| 0 <= a < b < es.len() ==> (#[trigger] es[a]).0@ != (#[trigger] es[b]).0@,
    ensures
        entries_of(es).dom().contains(es[i].0@),
        entries_of(es)[es[i].0@] == json_of(es[i].1),
        entries_of(es).dom().finite(),
    decreases es.len(),
{
    let init = es.drop_last();
    if i == es.len() - 1 {
        if init.len() > 0 {
            lemma_entry_smaller(init, 0);
        }
    } else {
        lemma_entry_smaller(init, i);
        assert(init[i] == es[i]);
    }
}

fn items_to_values(v: &Vec<Json>) -> (r: Vec<serde_json::Value>)
    ensures
        items_of(r@) == values_view(v@),
    decreases v,
{
    let mut items: Vec<serde_json::Value> = Vec::new();
    let mut i: usize = 0;
    while i < v.len()
        invariant
            i <= v.len(),
            items.len() == i,
            forall|k: int| 0 <= k < i ==> json_of(#[trigger] items@[k]) == json_view(v@[k]),
        decreases v.len() - i,
    {
        items.push(v[i].to_value());
        i = i + 1;
    }
    proof {
        assert(items_of(items@) =~= values_view(v@));
    }
    items
}

fn entries_to_values(es: &Vec<(String, Json)>) -> (r: Vec<(String, serde_json::Value)>)
    ensures
        entries_of(r@) == entries_view(es@),
    decreases es,
{
    let mut entries: Vec<(String, serde_json::Value)> = Vec::new();
    let mut i: usize = 0;
    while i < es.len()
        invariant
            i <= es.len(),
            entries_of(entries@) == entries_view(es@.take(i as int)),
        decreases es.len() - i,
    {
        let e: (String, serde_json::Value) = (es[i].0.clone(), es[i].1.to_value());
        proof {
            lemma_entries_of_push(entries@, e);
            lemma_entries_push(es@.take(i as int), es@[i as int]);
            assert(es@.take(i + 1) =~= es@.take(i as int).push(es@[i as int]));
        }
        entries.push(e);
        i = i + 1;
    }
    proof {
        assert(es@.take(es@.len() as int) =~= es@);
    }
    entries
}

fn items_from_values(v: Vec<serde_json::Value>) -> (r: Vec<Json>)
    ensures
        values_view(r@) == items_of(v@),
    decreases JsonView::Array(items_of(v@)), 0nat,
{
    let ghost all = items_of(v@);
    let ghost whole = JsonView::Array(all);
    let mut items: Vec<Json> = Vec::new();
    for x in it: v
        invariant
            it.seq() == v@,
            all == items_of(v@),
            whole == JsonView::Array(all),
            items.len() == it.index(),
            forall|k: int|
                0 <= k < it.index() ==> json_view(#[trigger] items@[k]) == json_of(v@[k]),
    {
        proof {
            assert(all[it.index() as int] == json_of(x));
            assert(decreases_to!(whole => whole->Array_0));
            assert(decreases_to!(all => all[it.index() as int]));
        }
        items.push(Json::from_value(x));
    }
    proof {
        assert(values_view(items@) =~= items_of(v@));
    }
    items
}

fn entries_from_values(es: Vec<(String, serde_json::Value)>) -> (r: Vec<(String, Json)>)
    requires
        forall|a: int, b: int| 0 <= a < b < es.len() ==> (#[trigger] es@[a]).0@ != (#[trigger] es@[b]).0@,
    ensures
        entries_view(r@) == entries_of(es@),
    decreases JsonView::Object(entries_of(es@)), 0nat,
{
    let ghost all = entries_of(es@);
    let ghost whole = JsonView::Object(all);
    let mut entries: Vec<(String, Json)> = Vec::new();
    for x in it: es
        invariant
            it.seq() == es@,
            all == entries_of(es@),
            whole == JsonView::Object(all),
            forall|a: int, b: int| 0 <= a < b < es.len() ==> (#[trigger] es@[a]).0@ != (#[trigger] es@[b]).0@,
            entries_view(entries@) == entries_of(es@.take(it.index() as int)),
    {
        let ghost i = it.index() as int;
        proof {
            lemma_entry_smaller(es@, i);
            assert(x == es@[i]);
            assert(decreases_to!(whole => whole->Object_0));
            assert(decreases_to!(all => all[es@[i].0@]));
        }
        let e: (String, Json) = (x.0, Json::from_value(x.1));
        proof {
            lemma_entries_of_push(es@.take(i), es@[i]);
            lemma_entries_push(entries@, e);
            assert(es@.take(i + 1) =~= es@.take(i).push(es@[i]));
        }
        entries.push(e);
    }
    proof {
        assert(es@.take(es@.len() as int) =~= es@);
    }
    entries
}

impl Json {
    /// The `serde_json::Value` that holds the same.
    pub fn to_value(&self) -> (r: serde_json::Value)
        ensures
            json_of(r) == self@,
        decreases self,
    {
        match self {
            Json::Null => put_together(Node::Null),
            Json::Bool(b) => put_together(Node::Bool(*b)),
            Json::Uint(n) => put_together(Node::Uint(*n)),
            Json::Int(n) => put_together(Node::Int(*n)),
            Json::Float(d) => double_value(d.to_bits()),
            Json::Str(s) => put_together(Node::Str(s.clone())),
            Json::Array(v) => {
                proof {
                    assert(self@->Array_0 =~= values_view(v@));
                }
                put_together(Node::Array(items_to_values(v)))
            },
            Json::Object(es) => put_together(Node::Object(entries_to_values(es))),
        }
    }

    /// The value that a `serde_json::Value` holds.
    pub fn from_value(v: serde_json::Value) -> (r: Json)
        ensures
            r@ == json_of(v),
        decreases json_of(v), 1nat,
    {
        match take_apart(v) {
            Node::Null => Json::Null,
            Node::Bool(b) => Json::Bool(b),
            Node::Uint(n) => Json::Uint(n),
            Node::Int(n) => Json::Int(n),
            Node::Float(bits) => match Double::from_bits(bits) {
                Some(d) => Json::Float(d),
                None => Json::Null,
            },
            Node::Str(s) => Json::Str(s),
            Node::Array(v) => {
                let items: Vec<Json> = items_from_values(v);
                proof {
                    assert(Json::Array(items)@->Array_0 =~= values_view(items@));
                }
                Json::Array(items)
            },
            Node::Object(es) => Json::Object(entries_from_values(es)),
        }
    }
}


// ---------------------------------------------------------------------
// numbers and texts
// ---------------------------------------------------------------------

/// The magnitude of a double, in units of the smallest one: `magnitude` is what
/// its bits without the sign spell.
pub open spec fn scaled_magnitude(magnitude: int) -> int {
    let exponent = magnitude / 0x10_0000_0000_0000;
    let fraction = magnitude % 0x10_0000_0000_0000;
    if exponent <= 0 {
        fraction
    } else {
        (0x10_0000_0000_0000 + fraction) * pow2((exponent - 1) as nat)
    }
}

/// The place of a finite double in the order of numbers. Zero and negative zero
/// share theirs.
pub open spec fn order_key(bits: u64) -> int {
    if bits < 0x8000_0000_0000_0000u64 {
        bits as int
    } else {
        0x8000_0000_0000_0000 - bits
    }
}

/// A finite double as a whole multiple of the smallest one, which is two to the
/// power of -1074.
pub open spec fn scaled_double(bits: u64) -> int {
    let k = order_key(bits);
    if k >= 0 {
        scaled_magnitude(k)
    } else {
        -scaled_magnitude(-k)
    }
}

/// The exponent of the largest power of two that is at most `n`.
pub open spec fn binary_exponent(n: nat) -> nat
    decreases n,
{
    if n <= 1 {
        0
    } else {
        binary_exponent(n / 2) + 1
    }
}

/// The place of the double nearest to the whole number `n`: of two that are
/// equally near, the one with an even fraction. Of the 53 binary digits that a
/// double has, the first is implied, and its exponent field is 1023 for one.
pub open spec fn nearest_key(n: nat) -> int {
    let e = binary_exponent(n);
    if n == 0 {
        0
    } else if e <= 52 {
        ((1022 + e) * 0x10_0000_0000_0000 + n * pow2((52 - e) as nat)) as int
    } else {
        let unit = pow2((e - 52) as nat);
        let digits = n / unit;
        let rest = n % unit;
        let up = 2 * rest > unit || (2 * rest == unit && digits % 2 == 1);
        (1022 + e) * 0x10_0000_0000_0000 + digits as int + if up {
            1int
        } else {
            0int
        }
    }
}

/// The place of a whole number, taken as a double, in the order of numbers.
pub open spec fn whole_key(n: int) -> int {
    if n >= 0 {
        nearest_key(n as nat)
    } else {
        -nearest_key((-n) as nat)
    }
}

/// A whole number that is a double, and up to which every whole number is.
pub open spec fn is_small(n: int) -> bool {
    -0x20_0000_0000_0000 <= n <= 0x20_0000_0000_0000
}

/// `serde_json::Number::as_f64` of a whole number: Rust's conversion to a double,
/// which gives the nearest one and, of two equally near, the even one.
#[verifier::external_body]
fn whole_as_double(n: i128) -> (r: u64)
    requires
        -0x8000_0000_0000_0000 <= n <= 0xffff_ffff_ffff_ffff,
    ensures
        order_key(r) == whole_key(n as int),
{
    let number = serde_json::Number::from_i128(n);
    number.and_then(|x| x.as_f64()).map(|x| x.to_bits()).unwrap_or_default()
}

proof fn lemma_binary_exponent(n: nat)
    requires
        n > 0,
    ensures
        pow2(binary_exponent(n)) <= n < pow2(binary_exponent(n) + 1),
    decreases n,
{
    if n == 1 {
        vstd::arithmetic::power2::lemma2_to64();
    } else {
        let h = n / 2;
        lemma_binary_exponent(h);
        let e = binary_exponent(h);
        vstd::arithmetic::power2::lemma_pow2_unfold(e + 1);
        vstd::arithmetic::power2::lemma_pow2_unfold(e + 2);
        assert(n == 2 * h || n == 2 * h + 1);
    }
}

/// A small whole number is its own nearest double.
proof fn lemma_small_magnitude(n: nat)
    requires
        n <= 0x20_0000_0000_0000,
    ensures
        nearest_key(n) >= 0,
        scaled_magnitude(nearest_key(n)) == n * pow2(1074),
{
    let unit: int = 0x10_0000_0000_0000;
    vstd::arithmetic::power2::lemma2_to64();
    vstd::arithmetic::power2::lemma2_to64_rest();
    if n > 0 {
        let e = binary_exponent(n);
        lemma_binary_exponent(n);
        if e > 53 {
            vstd::arithmetic::power2::lemma_pow2_strictly_increases(53, e);
        }
        if e <= 52 {
            let p = pow2((52 - e) as nat) as int;
            let low = pow2(e) as int;
            let m = n * p;
            vstd::arithmetic::power2::lemma_pow2_adds((52 - e) as nat, e);
            vstd::arithmetic::power2::lemma_pow2_unfold(e + 1);
            vstd::arithmetic::power2::lemma_pow2_pos((52 - e) as nat);
            assert(p * low == unit);
            assert(unit <= m < 2 * unit) by (nonlinear_arith)
                requires
                    p * low == unit,
                    low <= n < 2 * low,
                    p > 0,
                    m == n * p,
            ;
            let k = (1022 + e) * unit + m;
            assert(k == (1023 + e) * unit + (m - unit));
            assert(k / unit == 1023 + e && k % unit == m - unit) by (nonlinear_arith)
                requires
                    k == (1023 + e) * unit + (m - unit),
                    0 <= m - unit < unit,
                    unit > 0,
            ;
            let q = pow2((1022 + e) as nat) as int;
            assert(scaled_magnitude(k) == m * q);
            vstd::arithmetic::power2::lemma_pow2_adds((52 - e) as nat, (1022 + e) as nat);
            assert(p * q == pow2(1074));
            assert(m * q == n * (p * q)) by (nonlinear_arith)
                requires
                    m == n * p,
            ;
        } else {
            assert(e == 53);
            vstd::arithmetic::power2::lemma_pow2_unfold(54);
            assert(n == 0x20_0000_0000_0000);
            assert(pow2(1) == 2);
            let k = nearest_key(n);
            assert(n / 2 == unit);
            assert(k == 1075 * unit + unit);
            assert(k / unit == 1076 && k % unit == 0) by (nonlinear_arith)
                requires
                    k == 1076 * unit,
                    unit > 0,
            ;
            vstd::arithmetic::power2::lemma_pow2_adds(1074, 1);
            assert(scaled_magnitude(k) == unit * pow2(1075));
        }
    } else {
        assert(scaled_magnitude(0) == 0);
        assert(0 * pow2(1074) == 0);
    }
}

/// The double that Rust's parser reads from a text: nothing where the text is no
/// number, and no bits where the number is not finite.
pub uninterp spec fn double_text(t: Seq<char>) -> Option<Option<u64>>;

/// `str::parse` for a double, and its bits where `serde_json::Number::from_f64`
/// takes it, which is where it is finite.
#[verifier::external_body]
pub(crate) fn read_double(t: &str) -> (r: Option<Option<u64>>)
    ensures
        r == double_text(t@),
        r matches Some(Some(bits)) ==> finite_bits(bits),
{
    let read = t.parse().ok().map(serde_json::Number::from_f64);
    read.map(|n| n.and_then(|n| n.as_f64()).map(|x| x.to_bits()))
}

/// The value that `serde_json` reads from a JSON text, if it reads one.
pub uninterp spec fn json_parsed(t: Seq<char>) -> Option<JsonView>;

/// `serde_json::from_str` for a `serde_json::Value`. What the error says is left
/// open.
#[verifier::external_body]
fn read_value(t: &str) -> (r: Result<serde_json::Value, String>)
    ensures
        r is Ok <==> json_parsed(t@) is Some,
        r matches Ok(v) ==> json_parsed(t@) == Some(json_of(v)),
{
    serde_json::from_str::<serde_json::Value>(t).map_err(|e| e.to_string())
}

/// Reads a JSON text.
pub fn parse_json(t: &str) -> (r: Result<Json, String>)
    ensures
        r is Ok <==> json_parsed(t@) is Some,
        r matches Ok(v) ==> json_parsed(t@) == Some(v@),
{
    match read_value(t) {
        Ok(v) => Ok(Json::from_value(v)),
        Err(e) => Err(e),
    }
}

/// The compact JSON text that `serde_json` writes for a value.
pub uninterp spec fn json_text(v: JsonView) -> Seq<char>;

/// `serde_json::Value`'s `to_string`: the compact JSON text. A whole number is
/// written in decimal digits.
#[verifier::external_body]
fn value_text(v: &serde_json::Value) -> (r: String)
    ensures
        r@ == json_text(json_of(*v)),
        json_of(*v) matches JsonView::Int(n) ==> r@ == signed_decimal(n),
{
    v.to_string()
}

impl Json {
    /// The compact JSON text of this value.
    pub fn text(&self) -> (r: String)
        ensures
            r@ == json_text(self@),
            self@ matches JsonView::Int(n) ==> r@ == signed_decimal(n),
    {
        let v: serde_json::Value = self.to_value();
        value_text(&v)
    }
}

/// The place of a number in the order of numbers, each taken as a double.
pub open spec fn number_key(v: JsonView) -> int {
    match v {
        JsonView::Int(n) => whole_key(n),
        JsonView::Float(bits) => order_key(bits),
        _ => 0,
    }
}

pub open spec fn is_number(v: JsonView) -> bool {
    v is Int || v is Float
}

/// Larger bits without the sign spell a larger double.
proof fn lemma_scaled_monotone(a: int, b: int)
    requires
        0 <= a < b,
    ensures
        0 <= scaled_magnitude(a) < scaled_magnitude(b),
{
    let unit: int = 0x10_0000_0000_0000;
    let ea = a / unit;
    let eb = b / unit;
    let fa = a % unit;
    let fb = b % unit;
    assert(a == ea * unit + fa);
    assert(b == eb * unit + fb);
    if ea == eb {
        if ea > 0 {
            let p = pow2((ea - 1) as nat) as int;
            vstd::arithmetic::power2::lemma_pow2_pos((ea - 1) as nat);
            assert(0 <= (unit + fa) * p < (unit + fb) * p) by (nonlinear_arith)
                requires
                    p > 0,
                    0 <= fa < fb,
                    unit > 0,
            ;
        }
    } else {
        assert(ea < eb);
        let q = pow2((eb - 1) as nat) as int;
        vstd::arithmetic::power2::lemma_pow2_pos((eb - 1) as nat);
        assert((unit + fb) * q >= unit * q) by (nonlinear_arith)
            requires
                q > 0,
                fb >= 0,
        ;
        if ea == 0 {
            assert(unit * q >= unit) by (nonlinear_arith)
                requires
                    q >= 1,
                    unit > 0,
            ;
        } else {
            let p = pow2((ea - 1) as nat) as int;
            vstd::arithmetic::power2::lemma_pow2_pos((ea - 1) as nat);
            assert((unit + fa) * p < (2 * unit) * p) by (nonlinear_arith)
                requires
                    p > 0,
                    fa < unit,
            ;
            assert((unit + fa) * p >= 0) by (nonlinear_arith)
                requires
                    p > 0,
                    fa >= 0,
                    unit > 0,
            ;
            vstd::arithmetic::power2::lemma_pow2_unfold(ea as nat);
            assert(pow2(ea as nat) == 2 * p);
            if ea < eb - 1 {
                vstd::arithmetic::power2::lemma_pow2_strictly_increases(ea as nat, (eb - 1) as nat);
            }
            assert(2 * p <= q);
            assert((2 * unit) * p <= unit * q) by (nonlinear_arith)
                requires
                    2 * p <= q,
                    unit > 0,
            ;
        }
    }
}

spec fn scaled_key(k: int) -> int {
    if k >= 0 {
        scaled_magnitude(k)
    } else {
        -scaled_magnitude(-k)
    }
}

proof fn lemma_key_less(x: int, y: int)
    requires
        x < y,
    ensures
        scaled_key(x) < scaled_key(y),
{
    assert(scaled_magnitude(0) == 0);
    if x >= 0 {
        lemma_scaled_monotone(x, y);
    } else if y <= 0 {
        lemma_scaled_monotone(-y, -x);
        if y == 0 {
            lemma_scaled_monotone(0, -x);
        }
    } else {
        lemma_scaled_monotone(0, -x);
        lemma_scaled_monotone(0, y);
    }
}

/// What a comparison finds.
#[derive(Clone, Copy, PartialEq, Eq, Structural, Debug)]
pub enum Order {
    Less,
    Equal,
    Greater,
}

/// How `a` stands to `b`, for whole numbers.
pub open spec fn int_order(a: int, b: int) -> Order {
    if a < b {
        Order::Less
    } else if a == b {
        Order::Equal
    } else {
        Order::Greater
    }
}

fn key_of(bits: u64) -> (r: i64)
    ensures
        r == order_key(bits),
{
    if bits < 0x8000_0000_0000_0000 {
        bits as i64
    } else if bits == 0x8000_0000_0000_0000 {
        0
    } else {
        -((bits - 0x8000_0000_0000_0000) as i64)
    }
}

/// A number that is its own double, as a multiple of the smallest double.
pub open spec fn exact_value(v: JsonView) -> Option<int> {
    match v {
        JsonView::Int(n) => if is_small(n) {
            Some(n * pow2(1074))
        } else {
            None
        },
        JsonView::Float(bits) => Some(scaled_double(bits)),
        _ => None,
    }
}

proof fn lemma_exact_key(v: JsonView)
    requires
        exact_value(v) is Some,
    ensures
        exact_value(v) == Some(scaled_key(number_key(v))),
{
    match v {
        JsonView::Int(n) => {
            if n >= 0 {
                lemma_small_magnitude(n as nat);
            } else {
                let m = (-n) as nat;
                lemma_small_magnitude(m);
                let k = nearest_key(m);
                assert(scaled_magnitude(0) == 0);
                vstd::arithmetic::power2::lemma_pow2_pos(1074);
                assert(m * pow2(1074) > 0) by (nonlinear_arith)
                    requires
                        m > 0,
                        pow2(1074) > 0,
                ;
                assert(-(m * pow2(1074)) == n * pow2(1074)) by (nonlinear_arith)
                    requires
                        m == -n,
                ;
            }
        },
        _ => {},
    }
}

/// Doubles and small whole numbers, of any kind, compare as the numbers that they
/// are.
pub proof fn law_numbers_in_order(a: JsonView, b: JsonView)
    requires
        exact_value(a) is Some,
        exact_value(b) is Some,
    ensures
        int_order(number_key(a), number_key(b)) == int_order(
            exact_value(a)->Some_0,
            exact_value(b)->Some_0,
        ),
        a matches JsonView::Int(m) ==> b matches JsonView::Int(n) ==> int_order(
            number_key(a),
            number_key(b),
        ) == int_order(m, n),
{
    lemma_exact_key(a);
    lemma_exact_key(b);
    let x = number_key(a);
    let y = number_key(b);
    if x < y {
        lemma_key_less(x, y);
    } else if y < x {
        lemma_key_less(y, x);
    }
    if a is Int && b is Int {
        let m = a->Int_0;
        let n = b->Int_0;
        vstd::arithmetic::power2::lemma_pow2_pos(1074);
        let p = pow2(1074) as int;
        assert(m < n ==> m * p < n * p) by (nonlinear_arith)
            requires
                p > 0,
        ;
        assert(n < m ==> n * p < m * p) by (nonlinear_arith)
            requires
                p > 0,
        ;
    }
}

/// Compares two numbers as doubles.
pub fn number_order(a: &Json, b: &Json) -> (r: Order)
    requires
        is_number(a@),
        is_number(b@),
    ensures
        r == int_order(number_key(a@), number_key(b@)),
{
    let kx: i64 = key_of(double_bits(a));
    let ky: i64 = key_of(double_bits(b));
    if kx < ky {
        Order::Less
    } else if kx == ky {
        Order::Equal
    } else {
        Order::Greater
    }
}

fn double_bits(a: &Json) -> (r: u64)
    requires
        is_number(a@),
    ensures
        order_key(r) == number_key(a@),
{
    match a {
        Json::Uint(n) => whole_as_double(*n as i128),
        Json::Int(n) => whole_as_double(*n as i128),
        Json::Float(d) => d.to_bits(),
        _ => 0,
    }
}

}
