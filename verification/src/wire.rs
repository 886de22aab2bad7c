//! MessagePack, as `rmp_serde` writes and reads it.

use crate::json::{Json, JsonView};
use crate::value::json_of;
use vstd::prelude::*;
use vstd::utf8::encode_utf8;

verus! {

/// The bytes that `rmp_serde` writes for a value.
pub uninterp spec fn packed(v: JsonView) -> Seq<u8>;

/// The value that `rmp_serde` reads from bytes, if it reads one.
pub uninterp spec fn unpacked(bytes: Seq<u8>) -> Option<JsonView>;

/// The bytes that `rmp_serde` writes for a code, a value and raw bytes.
pub uninterp spec fn packed_triple(code: u8, v: JsonView, payload: Seq<u8>) -> Seq<u8>;

/// The code, the value and the raw bytes that `rmp_serde` reads from bytes, if it
/// reads them.
pub uninterp spec fn unpacked_triple(bytes: Seq<u8>) -> Option<(u8, JsonView, Seq<u8>)>;

/// A text whose length MessagePack can write.
pub open spec fn text_fits(t: Seq<char>) -> bool {
    encode_utf8(t).len() <= 0xffff_ffff
}

/// The field name that `serde_json` reserves for a value that it keeps as raw text.
/// It does not read an object with this field as an object.
pub open spec fn raw_value_key() -> Seq<char> {
    "$serde_json::private::RawValue"@
}

/// A value with lengths that MessagePack can write, nested at most `depth` deep,
/// in which no object has the field name that is reserved for raw text.
pub open spec fn fits(v: JsonView, depth: nat) -> bool
    decreases v,
{
    match v {
        JsonView::Str(t) => text_fits(t),
        JsonView::Array(s) => depth > 0 && s.len() <= 0xffff_ffff && forall|i: int|
            0 <= i < s.len() ==> fits(#[trigger] s[i], (depth - 1) as nat),
        JsonView::Object(m) => depth > 0 && m.dom().len() <= 0xffff_ffff && !m.dom().contains(
            raw_value_key(),
        ) && forall|k: Seq<char>| #[trigger]
            m.dom().contains(k) ==> text_fits(k) && fits(m[k], (depth - 1) as nat),
        _ => true,
    }
}

/// How deep a value may be nested for `rmp_serde` to read it.
pub open spec fn max_depth() -> nat {
    1023
}

/// `rmp_serde::to_vec` of a `serde_json::Value`. What it writes for a value that
/// fits, `rmp_serde::from_slice` reads back; with the field name that `serde_json`
/// reserves for raw text in it, a value is read otherwise or not at all. An array with an item takes a byte
/// for its length and at least one for the item. That memory for the bytes can
/// run out is left unsaid.
#[verifier::external_body]
fn pack_value(v: &serde_json::Value) -> (r: Vec<u8>)
    ensures
        r@ == packed(json_of(*v)),
        fits(json_of(*v), max_depth()) ==> unpacked(r@) == Some(json_of(*v)),
        json_of(*v) is Array && (json_of(*v)->Array_0).len() > 0 ==> r@.len() >= 2,
{
    rmp_serde::to_vec(v).unwrap_or_default()
}

/// `rmp_serde::from_slice` for a `serde_json::Value`.
#[verifier::external_body]
fn unpack_value(bytes: &[u8]) -> (r: Option<serde_json::Value>)
    ensures
        r is Some <==> unpacked(bytes@) is Some,
        r matches Some(v) ==> unpacked(bytes@) == Some(json_of(v)),
{
    rmp_serde::from_slice::<serde_json::Value>(bytes).ok()
}

/// `rmp_serde::to_vec` of a code, a `serde_json::Value` and `serde_bytes::ByteBuf`
/// bytes. What it writes where value and bytes fit, `rmp_serde::from_slice` reads
/// back as such, and not as a `serde_json::Value`, which holds no raw bytes. It
/// takes more than one byte. That memory for the bytes can run out is left unsaid.
#[verifier::external_body]
fn pack_triple(code: u8, v: &serde_json::Value, payload: &[u8]) -> (r: Vec<u8>)
    ensures
        r@ == packed_triple(code, json_of(*v), payload@),
        fits(json_of(*v), (max_depth() - 1) as nat) && payload@.len() <= 0xffff_ffff
            ==> unpacked_triple(r@) == Some((code, json_of(*v), payload@)),
        fits(json_of(*v), (max_depth() - 1) as nat) && payload@.len() <= 0xffff_ffff ==> unpacked(
            r@,
        ) is None,
        r@.len() >= 2,
{
    let bytes = serde_bytes::ByteBuf::from(payload.to_vec());
    rmp_serde::to_vec(&(code, v, bytes)).unwrap_or_default()
}

/// `rmp_serde::from_slice` for a code, a `serde_json::Value` and
/// `serde_bytes::ByteBuf` bytes.
#[verifier::external_body]
fn unpack_triple(bytes: &[u8]) -> (r: Option<(u8, serde_json::Value, Vec<u8>)>)
    ensures
        r is Some <==> unpacked_triple(bytes@) is Some,
        r matches Some(t) ==> unpacked_triple(bytes@) == Some((t.0, json_of(t.1), t.2@)),
{
    let read = rmp_serde::from_slice::<(u8, serde_json::Value, serde_bytes::ByteBuf)>(bytes);
    read.ok().map(|t| (t.0, t.1, t.2.into_vec()))
}

/// The bytes of a value.
pub fn pack(v: &Json) -> (r: Vec<u8>)
    ensures
        r@ == packed(v@),
        fits(v@, max_depth()) ==> unpacked(r@) == Some(v@),
        v@ is Array && (v@->Array_0).len() > 0 ==> r@.len() >= 2,
{
    let value: serde_json::Value = v.to_value();
    pack_value(&value)
}

/// The value that bytes hold.
pub fn unpack(bytes: &[u8]) -> (r: Option<Json>)
    ensures
        r is Some <==> unpacked(bytes@) is Some,
        r matches Some(v) ==> unpacked(bytes@) == Some(v@),
{
    match unpack_value(bytes) {
        Some(v) => Some(Json::from_value(v)),
        None => None,
    }
}

/// The bytes of a code, a value and raw bytes.
pub fn pack_with_bytes(code: u8, v: &Json, payload: &[u8]) -> (r: Vec<u8>)
    ensures
        r@ == packed_triple(code, v@, payload@),
        fits(v@, (max_depth() - 1) as nat) && payload@.len() <= 0xffff_ffff ==> unpacked_triple(r@)
            == Some((code, v@, payload@)) && unpacked(r@) is None,
        r@.len() >= 2,
{
    let value: serde_json::Value = v.to_value();
    pack_triple(code, &value, payload)
}

/// The code, the value and the raw bytes that bytes hold.
pub fn unpack_with_bytes(bytes: &[u8]) -> (r: Option<(u8, Json, Vec<u8>)>)
    ensures
        r is Some <==> unpacked_triple(bytes@) is Some,
        r matches Some(t) ==> unpacked_triple(bytes@) == Some((t.0, t.1@, t.2@)),
{
    match unpack_triple(bytes) {
        Some((code, v, payload)) => Some((code, Json::from_value(v), payload)),
        None => None,
    }
}

}
