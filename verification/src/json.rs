//! A JSON document model and the canonical JSON encoding hashed by aniflow's
//! self-validating contracts.
//!
//! Canonical JSON is compact, with every object's members in ascending key
//! order; strings are escaped as `serde_json` escapes them and numbers are
//! written as `serde_json` writes them. The digest of a document is the
//! lowercase hexadecimal SHA-256 of its canonical bytes.
use vstd::prelude::*;

use crate::order::{text_less, ascending};
use crate::text::{decimal, decimal_string, is_sha256_hex, owned, digit_char};

verus! {

broadcast use vstd::seq_lib::group_seq_properties;

/// A JSON value as the contracts speak of it.
pub enum Json {
    Null,
    Bool(bool),
    Number(Seq<char>),
    Str(Seq<char>),
    Array(Seq<Json>),
    Object(Seq<(Seq<char>, Json)>),
}

/// One JSON value. Numbers keep the exact text that `serde_json` writes for
/// them.
#[derive(Debug)]
pub enum JsonValue {
    Null,
    Bool(bool),
    Number(String),
    String(String),
    Array(Vec<JsonValue>),
    Object(Vec<(String, JsonValue)>),
}

pub open spec fn json_of(v: JsonValue) -> Json
    decreases v,
{
    match v {
        JsonValue::Null => Json::Null,
        JsonValue::Bool(b) => Json::Bool(b),
        JsonValue::Number(t) => Json::Number(t@),
        JsonValue::String(s) => Json::Str(s@),
        JsonValue::Array(items) => Json::Array(json_items(items@)),
        JsonValue::Object(members) => Json::Object(json_members(members@)),
    }
}

pub open spec fn json_items(items: Seq<JsonValue>) -> Seq<Json>
    decreases items,
{
    if items.len() == 0 {
        Seq::empty()
    } else {
        json_items(items.drop_last()).push(json_of(items.last()))
    }
}

pub open spec fn json_members(members: Seq<(String, JsonValue)>) -> Seq<(Seq<char>, Json)>
    decreases members,
{
    if members.len() == 0 {
        Seq::empty()
    } else {
        json_members(members.drop_last()).push((members.last().0@, json_of(members.last().1)))
    }
}

/// The UTF-8 encoding of a character.
pub open spec fn utf8_encoding(c: char) -> Seq<u8> {
    let n = c as u32;
    if n < 0x80 {
        seq![n as u8]
    } else if n < 0x800 {
        seq![(0xC0 + n / 64) as u8, (0x80 + n % 64) as u8]
    } else if n < 0x10000 {
        seq![(0xE0 + n / 4096) as u8, (0x80 + (n / 64) % 64) as u8, (0x80 + n % 64) as u8]
    } else {
        seq![
            (0xF0 + n / 262144) as u8,
            (0x80 + (n / 4096) % 64) as u8,
            (0x80 + (n / 64) % 64) as u8,
            (0x80 + n % 64) as u8,
        ]
    }
}

/// A lowercase hexadecimal digit, as a byte.
pub open spec fn hex_digit_byte(d: u32) -> u8 {
    if d < 10 {
        (48 + d) as u8
    } else {
        (87 + d) as u8
    }
}

/// One character inside a JSON string: the quote and the backslash behind a
/// backslash, the five control characters with short escapes (backspace,
/// tab, line feed, form feed, carriage return) as those, every other control
/// character below 0x20 as `\u00` and two lowercase hexadecimal digits, and
/// any other character as its UTF-8 bytes.
pub open spec fn json_escaped_char(c: char) -> Seq<u8> {
    let n = c as u32;
    if n == 0x22 {
        seq![92u8, 34u8]
    } else if n == 0x5C {
        seq![92u8, 92u8]
    } else if n == 0x08 {
        seq![92u8, 98u8]
    } else if n == 0x09 {
        seq![92u8, 116u8]
    } else if n == 0x0A {
        seq![92u8, 110u8]
    } else if n == 0x0C {
        seq![92u8, 102u8]
    } else if n == 0x0D {
        seq![92u8, 114u8]
    } else if n < 0x20 {
        seq![92u8, 117u8, 48u8, 48u8, hex_digit_byte(n / 16), hex_digit_byte(n % 16)]
    } else {
        utf8_encoding(c)
    }
}

/// The escaped characters of a text, in order.
pub open spec fn json_escaped_text(s: Seq<char>) -> Seq<u8>
    decreases s.len(),
{
    if s.len() == 0 {
        Seq::empty()
    } else {
        json_escaped_text(s.drop_last()) + json_escaped_char(s.last())
    }
}

/// The bytes `serde_json::to_writer` writes for a string: a quote, each
/// character escaped, a quote.
pub open spec fn json_string_literal(s: Seq<char>) -> Seq<u8> {
    seq![34u8] + json_escaped_text(s) + seq![34u8]
}

/// The bytes of an ASCII text.
pub open spec fn ascii_bytes(t: Seq<char>) -> Seq<u8> {
    t.map_values(|c: char| c as u8)
}

pub open spec fn is_ascii_text(t: Seq<char>) -> bool {
    forall|i: int| 0 <= i < t.len() ==> (#[trigger] t[i] as u32) < 128
}

pub open spec fn canonical(j: Json) -> Seq<u8>
    decreases j,
{
    match j {
        Json::Null => seq![110u8, 117u8, 108u8, 108u8],
        Json::Bool(b) => if b {
            seq![116u8, 114u8, 117u8, 101u8]
        } else {
            seq![102u8, 97u8, 108u8, 115u8, 101u8]
        },
        Json::Number(t) => ascii_bytes(t),
        Json::Str(s) => json_string_literal(s),
        Json::Array(items) => seq![91u8] + canonical_items(items) + seq![93u8],
        Json::Object(members) => seq![123u8] + canonical_members(members) + seq![125u8],
    }
}

pub open spec fn canonical_items(items: Seq<Json>) -> Seq<u8>
    decreases items,
{
    if items.len() == 0 {
        Seq::empty()
    } else if items.len() == 1 {
        canonical(items[0])
    } else {
        canonical_items(items.drop_last()) + seq![44u8] + canonical(items.last())
    }
}

pub open spec fn member_bytes(key: Seq<char>, value: Json) -> Seq<u8> {
    json_string_literal(key) + seq![58u8] + canonical(value)
}

pub open spec fn canonical_members(members: Seq<(Seq<char>, Json)>) -> Seq<u8>
    decreases members,
{
    if members.len() == 0 {
        Seq::empty()
    } else if members.len() == 1 {
        json_string_literal(members[0].0) + seq![58u8] + canonical(members[0].1)
    } else {
        canonical_members(members.drop_last()) + seq![44u8] + json_string_literal(members.last().0)
            + seq![58u8] + canonical(members.last().1)
    }
}

pub open spec fn member_keys(members: Seq<(Seq<char>, Json)>) -> Seq<Seq<char>> {
    members.map_values(|m: (Seq<char>, Json)| m.0)
}

/// Every object's members are in strictly ascending key order.
pub open spec fn well_ordered(j: Json) -> bool
    decreases j,
{
    match j {
        Json::Array(items) => items_well_ordered(items),
        Json::Object(members) => ascending(member_keys(members)) && members_well_ordered(members),
        _ => true,
    }
}

pub open spec fn items_well_ordered(items: Seq<Json>) -> bool
    decreases items,
{
    if items.len() == 0 {
        true
    } else {
        items_well_ordered(items.drop_last()) && well_ordered(items.last())
    }
}

pub open spec fn members_well_ordered(members: Seq<(Seq<char>, Json)>) -> bool
    decreases members,
{
    if members.len() == 0 {
        true
    } else {
        members_well_ordered(members.drop_last()) && well_ordered(members.last().1)
    }
}

/// A document the canonical encoder accepts has every object's members in
/// strictly ascending key order, at every depth.
pub proof fn lemma_encodable_well_ordered(j: Json)
    requires
        value_encodable(j),
    ensures
        well_ordered(j),
    decreases j,
{
    match j {
        Json::Array(items) => lemma_items_well_ordered(items),
        Json::Object(members) => lemma_members_well_ordered(members),
        _ => {},
    }
}

proof fn lemma_items_well_ordered(items: Seq<Json>)
    requires
        items_encodable(items),
    ensures
        items_well_ordered(items),
    decreases items,
{
    if items.len() > 0 {
        lemma_items_well_ordered(items.drop_last());
        lemma_encodable_well_ordered(items.last());
    }
}

proof fn lemma_members_well_ordered(members: Seq<(Seq<char>, Json)>)
    requires
        members_encodable(members),
    ensures
        members_well_ordered(members),
    decreases members,
{
    if members.len() > 0 {
        lemma_members_well_ordered(members.drop_last());
        lemma_encodable_well_ordered(members.last().1);
    }
}

/// The lowercase hexadecimal SHA-256 digest of the bytes.
pub uninterp spec fn sha256_hex(data: Seq<u8>) -> Seq<char>;

/// The digest of a document's canonical encoding.
pub open spec fn canonical_digest(j: Json) -> Seq<char> {
    sha256_hex(canonical(j))
}

/// Calls `sha2::Sha256::digest` and renders the 32-byte digest with `{:x}`,
/// which writes two lowercase hexadecimal digits per byte.
#[verifier::external_body]
pub fn sha256_of(data: &[u8]) -> (r: String)
    ensures
        r@ == sha256_hex(data@),
        is_sha256_hex(r@),
{
    format!("{:x}", <sha2::Sha256 as sha2::Digest>::digest(data))
}

/// Calls `serde_json::to_writer` with a string, which writes the quoted,
/// escaped string; writing into a vector cannot fail.
#[verifier::external_body]
pub fn write_json_string(out: &mut Vec<u8>, s: &str)
    ensures
        final(out)@ == old(out)@ + json_string_literal(s@),
{
    let _ = serde_json::to_writer(&mut *out, s);
}

fn text_is_ascii(t: &str) -> (r: bool)
    ensures
        r == is_ascii_text(t@),
{
    let c = crate::text::chars_of(t);
    let mut i: usize = 0;
    while i < c.len()
        invariant
            i <= c.len(),
            c@ == t@,
            forall|j: int| 0 <= j < i ==> (#[trigger] c@[j] as u32) < 128,
        decreases c.len() - i,
    {
        if (c[i] as u32) >= 128 {
            assert(!((c@[i as int] as u32) < 128));
            return false;
        }
        i = i + 1;
    }
    true
}

fn write_ascii(out: &mut Vec<u8>, t: &str)
    requires
        is_ascii_text(t@),
    ensures
        final(out)@ == old(out)@ + ascii_bytes(t@),
{
    let v = crate::text::chars_of(t);
    let ghost start = out@;
    let mut i: usize = 0;
    while i < v.len()
        invariant
            i <= v.len(),
            v@ == t@,
            is_ascii_text(t@),
            out@ == start + ascii_bytes(v@.take(i as int)),
        decreases v.len() - i,
    {
        let c = v[i];
        assert((c as u32) < 128);
        let b = c as u8;
        out.push(b);
        assert(ascii_bytes(v@.take(i + 1)) =~= ascii_bytes(v@.take(i as int)).push(c as u8));
        i = i + 1;
    }
    assert(v@.take(v.len() as int) =~= v@);
}

pub open spec fn number_text_valid(t: Seq<char>) -> bool {
    is_ascii_text(t)
}

/// Whether every number text is ASCII and every object is in ascending key
/// order, which the canonical encoder requires.
pub open spec fn value_encodable(j: Json) -> bool
    decreases j,
{
    match j {
        Json::Number(t) => is_ascii_text(t),
        Json::Array(items) => items_encodable(items),
        Json::Object(members) => ascending(member_keys(members)) && members_encodable(members),
        _ => true,
    }
}

pub open spec fn items_encodable(items: Seq<Json>) -> bool
    decreases items,
{
    if items.len() == 0 {
        true
    } else {
        items_encodable(items.drop_last()) && value_encodable(items.last())
    }
}

pub open spec fn members_encodable(members: Seq<(Seq<char>, Json)>) -> bool
    decreases members,
{
    if members.len() == 0 {
        true
    } else {
        members_encodable(members.drop_last()) && value_encodable(members.last().1)
    }
}

pub proof fn lemma_items_push(items: Seq<Json>, x: Json)
    ensures
        canonical_items(items.push(x)) == if items.len() == 0 {
            canonical(x)
        } else {
            canonical_items(items) + seq![44u8] + canonical(x)
        },
        items_encodable(items.push(x)) == (items_encodable(items) && value_encodable(x)),
{
    assert(items.push(x).drop_last() =~= items);
    if items.len() == 0 {
        assert(items.push(x)[0] == x);
    }
}

pub proof fn lemma_members_push(members: Seq<(Seq<char>, Json)>, k: Seq<char>, x: Json)
    ensures
        canonical_members(members.push((k, x))) == if members.len() == 0 {
            member_bytes(k, x)
        } else {
            canonical_members(members) + seq![44u8] + member_bytes(k, x)
        },
        members_encodable(members.push((k, x))) == (members_encodable(members) && value_encodable(x)),
{
    assert(members.push((k, x)).drop_last() =~= members);
    if members.len() == 0 {
        assert(members.push((k, x))[0] == (k, x));
    }
}

proof fn lemma_json_items_take(items: Seq<JsonValue>, i: int)
    requires
        0 <= i < items.len(),
    ensures
        json_items(items.take(i + 1)) == json_items(items.take(i)).push(json_of(items[i])),
        json_items(items.take(i)).len() == i,
{
    assert(items.take(i + 1).drop_last() =~= items.take(i));
    lemma_json_items_len(items.take(i));
}

proof fn lemma_json_items_len(items: Seq<JsonValue>)
    ensures
        json_items(items).len() == items.len(),
    decreases items.len(),
{
    if items.len() > 0 {
        lemma_json_items_len(items.drop_last());
    }
}

proof fn lemma_json_members_take(members: Seq<(String, JsonValue)>, i: int)
    requires
        0 <= i < members.len(),
    ensures
        json_members(members.take(i + 1)) == json_members(members.take(i)).push(
            (members[i].0@, json_of(members[i].1)),
        ),
        json_members(members.take(i)).len() == i,
        member_keys(json_members(members.take(i))) == members.take(i).map_values(
            |m: (String, JsonValue)| m.0@,
        ),
{
    assert(members.take(i + 1).drop_last() =~= members.take(i));
    lemma_json_members_len(members.take(i));
}

proof fn lemma_json_members_len(members: Seq<(String, JsonValue)>)
    ensures
        json_members(members).len() == members.len(),
        member_keys(json_members(members)) == members.map_values(|m: (String, JsonValue)| m.0@),
    decreases members.len(),
{
    if members.len() > 0 {
        lemma_json_members_len(members.drop_last());
        let dl = members.drop_last();
        let x = (members.last().0@, json_of(members.last().1));
        assert(json_members(members) == json_members(dl).push(x));
        assert(member_keys(json_members(dl).push(x)) =~= member_keys(json_members(dl)).push(x.0));
        assert(members.map_values(|m: (String, JsonValue)| m.0@) =~= dl.map_values(
            |m: (String, JsonValue)| m.0@,
        ).push(members.last().0@));
    } else {
        assert(member_keys(json_members(members)) =~= members.map_values(
            |m: (String, JsonValue)| m.0@,
        ));
    }
}

/// Appends the canonical encoding of `v`, or returns `false` (leaving the
/// output unspecified) when a number is not ASCII text or an object's keys
/// are not strictly ascending.
pub fn write_canonical(out: &mut Vec<u8>, v: &JsonValue) -> (ok: bool)
    ensures
        ok == value_encodable(json_of(*v)),
        ok ==> final(out)@ == old(out)@ + canonical(json_of(*v)),
    decreases v,
{
    match v {
        JsonValue::Null => {
            out.push(110u8);
            out.push(117u8);
            out.push(108u8);
            out.push(108u8);
            assert(out@ =~= old(out)@ + canonical(json_of(*v)));
            true
        },
        JsonValue::Bool(b) => {
            if *b {
                out.push(116u8);
                out.push(114u8);
                out.push(117u8);
                out.push(101u8);
            } else {
                out.push(102u8);
                out.push(97u8);
                out.push(108u8);
                out.push(115u8);
                out.push(101u8);
            }
            assert(out@ =~= old(out)@ + canonical(json_of(*v)));
            true
        },
        JsonValue::Number(t) => {
            if !text_is_ascii(t.as_str()) {
                return false;
            }
            write_ascii(out, t.as_str());
            true
        },
        JsonValue::String(s) => {
            write_json_string(out, s.as_str());
            true
        },
        JsonValue::Array(items) => {
            let ghost start = out@;
            out.push(91u8);
            let mut i: usize = 0;
            while i < items.len()
                invariant
                    i <= items.len(),
                    json_of(*v) == Json::Array(json_items(items@)),
                    *v is Array,
                    (*v)->Array_0 == *items,
                    items_encodable(json_items(items@.take(i as int))),
                    out@ == start + seq![91u8] + canonical_items(json_items(items@.take(i as int))),
                decreases items.len() - i,
            {
                let ghost before = out@;
                proof {
                    lemma_json_items_take(items@, i as int);
                    lemma_items_push(json_items(items@.take(i as int)), json_of(items@[i as int]));
                }
                if i > 0 {
                    out.push(44u8);
                }
                proof {
                    vstd::std_specs::vec::axiom_vec_index_decreases(*items, i as int);
                    assert(*items == (*v)->Array_0);
                    assert(decreases_to!(*v => (*v)->Array_0));
                    assert(decreases_to!(*v => items[i as int]));
                }
                let ok = write_canonical(out, &items[i]);
                if !ok {
                    proof {
                        lemma_items_prefix_blocks(items@, i as int);
                    }
                    return false;
                }
                assert(out@ =~= start + seq![91u8] + canonical_items(json_items(items@.take(i + 1))));
                i = i + 1;
            }
            out.push(93u8);
            assert(items@.take(items.len() as int) =~= items@);
            assert(out@ =~= old(out)@ + canonical(json_of(*v)));
            true
        },
        JsonValue::Object(members) => {
            let ghost start = out@;
            out.push(123u8);
            let mut i: usize = 0;
            while i < members.len()
                invariant
                    i <= members.len(),
                    json_of(*v) == Json::Object(json_members(members@)),
                    *v is Object,
                    (*v)->Object_0 == *members,
                    members_encodable(json_members(members@.take(i as int))),
                    ascending(member_keys(json_members(members@.take(i as int)))),
                    out@ == start + seq![123u8] + canonical_members(json_members(members@.take(i as int))),
                decreases members.len() - i,
            {
                proof {
                    lemma_json_members_take(members@, i as int);
                    let prefix = json_members(members@.take(i as int));
                    let x = (members@[i as int].0@, json_of(members@[i as int].1));
                    assert(prefix.push(x).drop_last() =~= prefix);
                    lemma_json_members_take_keys(members@, i as int);
                    lemma_members_push(
                        json_members(members@.take(i as int)),
                        members@[i as int].0@,
                        json_of(members@[i as int].1),
                    );
                }
                if i > 0 {
                    if !crate::order::text_lt(members[i - 1].0.as_str(), members[i].0.as_str()) {
                        proof {
                            lemma_members_prefix_blocks_order(members@, i as int);
                        }
                        return false;
                    }
                    out.push(44u8);
                }
                write_json_string(out, members[i].0.as_str());
                out.push(58u8);
                proof {
                    vstd::std_specs::vec::axiom_vec_index_decreases(*members, i as int);
                    assert(*members == (*v)->Object_0);
                    assert(decreases_to!(*v => (*v)->Object_0));
                    assert(decreases_to!(*v => members[i as int]));
                    assert(decreases_to!(*v => members[i as int].1));
                }
                let ok = write_canonical(out, &members[i].1);
                if !ok {
                    proof {
                        lemma_members_prefix_blocks(members@, i as int);
                    }
                    return false;
                }
                proof {
                    let keys = member_keys(json_members(members@.take(i + 1)));
                    assert forall|a: int, b: int| 0 <= a < b < keys.len() implies text_less(
                        #[trigger] keys[a],
                        #[trigger] keys[b],
                    ) by {
                        let prev = member_keys(json_members(members@.take(i as int)));
                        if b == i {
                            if a < i - 1 {
                                crate::order::lemma_text_less_transitive(keys[a], keys[i - 1], keys[b]);
                            }
                        } else {
                            assert(keys[a] == prev[a] && keys[b] == prev[b]);
                        }
                    }
                }
                assert(out@ =~= start + seq![123u8] + canonical_members(json_members(members@.take(i + 1))));
                i = i + 1;
            }
            out.push(125u8);
            assert(members@.take(members.len() as int) =~= members@);
            assert(out@ =~= old(out)@ + canonical(json_of(*v)));
            true
        },
    }
}

/// Appends the canonical encoding of the object with these members, or
/// returns `false` (leaving the output unspecified) when a key is not
/// strictly above the one before it or a value is not encodable.
pub fn write_canonical_object(out: &mut Vec<u8>, members: &Vec<(String, JsonValue)>) -> (ok: bool)
    ensures
        ok == value_encodable(Json::Object(json_members(members@))),
        ok ==> final(out)@ == old(out)@ + canonical(Json::Object(json_members(members@))),
{
    let ghost start = out@;
    out.push(123u8);
    let mut i: usize = 0;
    while i < members.len()
        invariant
            i <= members.len(),
            members_encodable(json_members(members@.take(i as int))),
            ascending(member_keys(json_members(members@.take(i as int)))),
            out@ == start + seq![123u8] + canonical_members(json_members(members@.take(i as int))),
        decreases members.len() - i,
    {
        proof {
            lemma_json_members_take(members@, i as int);
            lemma_json_members_take_keys(members@, i as int);
            lemma_members_push(
                json_members(members@.take(i as int)),
                members@[i as int].0@,
                json_of(members@[i as int].1),
            );
        }
        if i > 0 {
            if !crate::order::text_lt(members[i - 1].0.as_str(), members[i].0.as_str()) {
                proof {
                    lemma_members_prefix_blocks_order(members@, i as int);
                }
                return false;
            }
            out.push(44u8);
        }
        write_json_string(out, members[i].0.as_str());
        out.push(58u8);
        let ok = write_canonical(out, &members[i].1);
        if !ok {
            proof {
                lemma_members_prefix_blocks(members@, i as int);
            }
            return false;
        }
        proof {
            let keys = member_keys(json_members(members@.take(i + 1)));
            assert forall|a: int, b: int| 0 <= a < b < keys.len() implies text_less(
                #[trigger] keys[a],
                #[trigger] keys[b],
            ) by {
                let prev = member_keys(json_members(members@.take(i as int)));
                if b == i {
                    if a < i - 1 {
                        crate::order::lemma_text_less_transitive(keys[a], keys[i - 1], keys[b]);
                    }
                } else {
                    assert(keys[a] == prev[a] && keys[b] == prev[b]);
                }
            }
        }
        assert(out@ =~= start + seq![123u8] + canonical_members(json_members(members@.take(i + 1))));
        i = i + 1;
    }
    out.push(125u8);
    assert(members@.take(members.len() as int) =~= members@);
    assert(out@ =~= old(out)@ + canonical(Json::Object(json_members(members@))));
    true
}

/// The canonical digest of a value, or `None` when it is not encodable.
pub fn canonical_sha256(v: &JsonValue) -> (r: Option<String>)
    ensures
        r is Some <==> value_encodable(json_of(*v)),
        r matches Some(d) ==> d@ == canonical_digest(json_of(*v)) && is_sha256_hex(d@),
{
    let mut out: Vec<u8> = Vec::new();
    if !write_canonical(&mut out, v) {
        return None;
    }
    assert(out@ =~= canonical(json_of(*v)));
    Some(sha256_of(out.as_slice()))
}

/// The canonical digest of an encodable value.
pub fn encodable_sha256(v: &JsonValue) -> (d: String)
    requires
        value_encodable(json_of(*v)),
    ensures
        d@ == canonical_digest(json_of(*v)),
        is_sha256_hex(d@),
{
    let mut out: Vec<u8> = Vec::new();
    let ok = write_canonical(&mut out, v);
    assert(ok);
    assert(out@ =~= canonical(json_of(*v)));
    sha256_of(out.as_slice())
}

/// The canonical digest of the object with these members, or `None` when it
/// is not encodable.
pub fn canonical_object_sha256(members: &Vec<(String, JsonValue)>) -> (r: Option<String>)
    ensures
        r is Some <==> value_encodable(Json::Object(json_members(members@))),
        r matches Some(d) ==> d@ == canonical_digest(Json::Object(json_members(members@))) && is_sha256_hex(d@),
{
    let mut out: Vec<u8> = Vec::new();
    if !write_canonical_object(&mut out, members) {
        return None;
    }
    assert(out@ =~= canonical(Json::Object(json_members(members@))));
    Some(sha256_of(out.as_slice()))
}

proof fn lemma_json_members_take_keys(members: Seq<(String, JsonValue)>, i: int)
    requires
        0 <= i < members.len(),
    ensures
        member_keys(json_members(members.take(i + 1))) == member_keys(json_members(members.take(i))).push(
            members[i].0@,
        ),
{
    lemma_json_members_take(members, i);
    assert(member_keys(json_members(members.take(i + 1))) =~= member_keys(json_members(members.take(i))).push(
        members[i].0@,
    ));
}

proof fn lemma_items_prefix_blocks(items: Seq<JsonValue>, i: int)
    requires
        0 <= i < items.len(),
        !value_encodable(json_of(items[i])),
    ensures
        !items_encodable(json_items(items)),
    decreases items.len(),
{
    lemma_json_items_len(items.drop_last());
    assert(json_items(items).drop_last() =~= json_items(items.drop_last()));
    if i < items.len() - 1 {
        lemma_items_prefix_blocks(items.drop_last(), i);
    }
}

proof fn lemma_members_prefix_blocks(members: Seq<(String, JsonValue)>, i: int)
    requires
        0 <= i < members.len(),
        !value_encodable(json_of(members[i].1)),
    ensures
        !members_encodable(json_members(members)),
    decreases members.len(),
{
    lemma_json_members_len(members.drop_last());
    assert(json_members(members).drop_last() =~= json_members(members.drop_last()));
    if i < members.len() - 1 {
        lemma_members_prefix_blocks(members.drop_last(), i);
    }
}

proof fn lemma_members_prefix_blocks_order(members: Seq<(String, JsonValue)>, i: int)
    requires
        0 < i < members.len(),
        !text_less(members[i - 1].0@, members[i].0@),
    ensures
        !ascending(member_keys(json_members(members))),
{
    lemma_json_members_len(members);
    let keys = member_keys(json_members(members));
    assert(keys[i - 1] == members[i - 1].0@);
    assert(keys[i] == members[i].0@);
}

/// Decimal digits are ASCII.
pub proof fn lemma_decimal_ascii(n: nat)
    ensures
        is_ascii_text(decimal(n)),
    decreases n,
{
    if n >= 10 {
        lemma_decimal_ascii(n / 10);
        assert forall|i: int| 0 <= i < decimal(n).len() implies (#[trigger] decimal(n)[i] as u32) < 128 by {
            if i < decimal(n / 10).len() {
                assert(decimal(n)[i] == decimal(n / 10)[i]);
            }
        }
    }
}

/// Appending a member with a larger key and an encodable value keeps an
/// object encodable.
pub proof fn lemma_object_push_encodable(members: Seq<(Seq<char>, Json)>, key: Seq<char>, value: Json)
    requires
        ascending(member_keys(members)),
        members_encodable(members),
        members.len() > 0 ==> text_less(members.last().0, key),
        value_encodable(value),
    ensures
        ascending(member_keys(members.push((key, value)))),
        members_encodable(members.push((key, value))),
{
    lemma_members_push(members, key, value);
    assert(member_keys(members.push((key, value))) =~= member_keys(members).push(key));
    crate::order::lemma_ascending_push(member_keys(members), key);
}

/// Signed decimal digits are ASCII.
pub proof fn lemma_signed_decimal_ascii(n: int)
    ensures
        is_ascii_text(crate::text::signed_decimal(n)),
{
    if n < 0 {
        lemma_decimal_ascii((-n) as nat);
        let t = crate::text::signed_decimal(n);
        assert forall|i: int| 0 <= i < t.len() implies (#[trigger] t[i] as u32) < 128 by {
            if i > 0 {
                assert(t[i] == decimal((-n) as nat)[i - 1]);
            }
        }
    } else {
        lemma_decimal_ascii(n as nat);
    }
}

// ---------------------------------------------------------------------------
// Null values
// ---------------------------------------------------------------------------

/// A null appears anywhere in the value.
pub open spec fn json_has_null(j: Json) -> bool
    decreases j,
{
    match j {
        Json::Null => true,
        Json::Array(items) => items_have_null(items),
        Json::Object(members) => members_have_null(members),
        _ => false,
    }
}

pub open spec fn items_have_null(items: Seq<Json>) -> bool
    decreases items,
{
    if items.len() == 0 {
        false
    } else {
        items_have_null(items.drop_last()) || json_has_null(items.last())
    }
}

pub open spec fn members_have_null(members: Seq<(Seq<char>, Json)>) -> bool
    decreases members,
{
    if members.len() == 0 {
        false
    } else {
        members_have_null(members.drop_last()) || json_has_null(members.last().1)
    }
}

/// Whether a null appears anywhere in the value, at any depth.
pub fn contains_null(v: &JsonValue) -> (r: bool)
    ensures
        r == json_has_null(json_of(*v)),
    decreases v,
{
    match v {
        JsonValue::Null => true,
        JsonValue::Array(items) => {
            let mut i: usize = 0;
            while i < items.len()
                invariant
                    i <= items.len(),
                    json_of(*v) == Json::Array(json_items(items@)),
                    *v is Array,
                    (*v)->Array_0 == *items,
                    !items_have_null(json_items(items@.take(i as int))),
                decreases items.len() - i,
            {
                proof {
                    lemma_json_items_take(items@, i as int);
                    let prefix = json_items(items@.take(i as int));
                    assert(prefix.push(json_of(items@[i as int])).drop_last() =~= prefix);
                    vstd::std_specs::vec::axiom_vec_index_decreases(*items, i as int);
                    assert(decreases_to!(*v => (*v)->Array_0));
                    assert(decreases_to!(*v => items[i as int]));
                }
                if contains_null(&items[i]) {
                    assert(items_have_null(json_items(items@.take(i + 1))));
                    assert(items@.take(items.len() as int) =~= items@);
                    proof {
                        lemma_json_items_len(items@);
                        lemma_json_items_prefix(items@, i + 1);
                        lemma_items_null_prefix(json_items(items@), i + 1);
                    }
                    return true;
                }
                i = i + 1;
            }
            assert(items@.take(items.len() as int) =~= items@);
            false
        },
        JsonValue::Object(members) => {
            let mut i: usize = 0;
            while i < members.len()
                invariant
                    i <= members.len(),
                    json_of(*v) == Json::Object(json_members(members@)),
                    *v is Object,
                    (*v)->Object_0 == *members,
                    !members_have_null(json_members(members@.take(i as int))),
                decreases members.len() - i,
            {
                proof {
                    lemma_json_members_take(members@, i as int);
                    let prefix = json_members(members@.take(i as int));
                    let x = (members@[i as int].0@, json_of(members@[i as int].1));
                    assert(prefix.push(x).drop_last() =~= prefix);
                    vstd::std_specs::vec::axiom_vec_index_decreases(*members, i as int);
                    assert(decreases_to!(*v => (*v)->Object_0));
                    assert(decreases_to!(*v => members[i as int]));
                    assert(decreases_to!(members[i as int] => members[i as int].1));
                }
                if contains_null(&members[i].1) {
                    assert(members_have_null(json_members(members@.take(i + 1))));
                    proof {
                        lemma_json_members_len(members@);
                        lemma_json_members_prefix(members@, i + 1);
                        lemma_members_null_prefix(json_members(members@), i + 1);
                    }
                    return true;
                }
                i = i + 1;
            }
            assert(members@.take(members.len() as int) =~= members@);
            false
        },
        _ => false,
    }
}

/// Whether two values are the same JSON value: the same variant, the same
/// texts, and, in arrays and objects, the same members in the same order.
pub fn same_json(a: &JsonValue, b: &JsonValue) -> (r: bool)
    ensures
        r == (json_of(*a) == json_of(*b)),
    decreases a,
{
    match (a, b) {
        (JsonValue::Null, JsonValue::Null) => true,
        (JsonValue::Bool(x), JsonValue::Bool(y)) => *x == *y,
        (JsonValue::Number(x), JsonValue::Number(y)) => crate::text::text_eq(x.as_str(), y.as_str()),
        (JsonValue::String(x), JsonValue::String(y)) => crate::text::text_eq(x.as_str(), y.as_str()),
        (JsonValue::Array(xs), JsonValue::Array(ys)) => {
            proof {
                lemma_json_items_len(xs@);
                lemma_json_items_len(ys@);
            }
            if xs.len() != ys.len() {
                return false;
            }
            let mut i: usize = 0;
            while i < xs.len()
                invariant
                    i <= xs.len(),
                    xs.len() == ys.len(),
                    json_of(*a) == Json::Array(json_items(xs@)),
                    json_of(*b) == Json::Array(json_items(ys@)),
                    *a is Array,
                    (*a)->Array_0 == *xs,
                    json_items(xs@).len() == xs.len(),
                    json_items(ys@).len() == ys.len(),
                    json_items(xs@.take(i as int)) == json_items(ys@.take(i as int)),
                decreases xs.len() - i,
            {
                proof {
                    lemma_json_items_take(xs@, i as int);
                    lemma_json_items_take(ys@, i as int);
                    lemma_json_items_prefix(xs@, i + 1);
                    lemma_json_items_prefix(ys@, i + 1);
                    vstd::std_specs::vec::axiom_vec_index_decreases(*xs, i as int);
                    assert(decreases_to!(*a => (*a)->Array_0));
                    assert(decreases_to!(*a => xs[i as int]));
                }
                if !same_json(&xs[i], &ys[i]) {
                    proof {
                        if json_items(xs@) == json_items(ys@) {
                            assert(json_items(xs@.take(i + 1)).last() == json_items(ys@.take(i + 1)).last());
                        }
                    }
                    return false;
                }
                i = i + 1;
            }
            assert(xs@.take(xs.len() as int) =~= xs@);
            assert(ys@.take(ys.len() as int) =~= ys@);
            true
        },
        (JsonValue::Object(xs), JsonValue::Object(ys)) => {
            proof {
                lemma_json_members_len(xs@);
                lemma_json_members_len(ys@);
            }
            if xs.len() != ys.len() {
                return false;
            }
            let mut i: usize = 0;
            while i < xs.len()
                invariant
                    i <= xs.len(),
                    xs.len() == ys.len(),
                    json_of(*a) == Json::Object(json_members(xs@)),
                    json_of(*b) == Json::Object(json_members(ys@)),
                    *a is Object,
                    (*a)->Object_0 == *xs,
                    json_members(xs@).len() == xs.len(),
                    json_members(ys@).len() == ys.len(),
                    json_members(xs@.take(i as int)) == json_members(ys@.take(i as int)),
                decreases xs.len() - i,
            {
                proof {
                    lemma_json_members_take(xs@, i as int);
                    lemma_json_members_take(ys@, i as int);
                    lemma_json_members_prefix(xs@, i + 1);
                    lemma_json_members_prefix(ys@, i + 1);
                    vstd::std_specs::vec::axiom_vec_index_decreases(*xs, i as int);
                    assert(decreases_to!(*a => (*a)->Object_0));
                    assert(decreases_to!(*a => xs[i as int]));
                    assert(decreases_to!(xs[i as int] => xs[i as int].1));
                }
                let same_key = crate::text::text_eq(xs[i].0.as_str(), ys[i].0.as_str());
                if !same_key || !same_json(&xs[i].1, &ys[i].1) {
                    proof {
                        if json_members(xs@) == json_members(ys@) {
                            assert(json_members(xs@.take(i + 1)).last() == json_members(ys@.take(i + 1)).last());
                        }
                    }
                    return false;
                }
                i = i + 1;
            }
            assert(xs@.take(xs.len() as int) =~= xs@);
            assert(ys@.take(ys.len() as int) =~= ys@);
            true
        },
        _ => false,
    }
}

proof fn lemma_json_items_prefix(items: Seq<JsonValue>, k: int)
    requires
        0 <= k <= items.len(),
    ensures
        json_items(items).take(k) == json_items(items.take(k)),
    decreases items.len(),
{
    lemma_json_items_len(items);
    lemma_json_items_len(items.take(k));
    if k < items.len() {
        assert(items.drop_last().take(k) =~= items.take(k));
        lemma_json_items_prefix(items.drop_last(), k);
        lemma_json_items_len(items.drop_last());
        assert(json_items(items).take(k) =~= json_items(items.drop_last()).take(k));
    } else {
        assert(items.take(k) =~= items);
        assert(json_items(items).take(k) =~= json_items(items));
    }
}

proof fn lemma_json_members_prefix(members: Seq<(String, JsonValue)>, k: int)
    requires
        0 <= k <= members.len(),
    ensures
        json_members(members).take(k) == json_members(members.take(k)),
    decreases members.len(),
{
    lemma_json_members_len(members);
    lemma_json_members_len(members.take(k));
    if k < members.len() {
        assert(members.drop_last().take(k) =~= members.take(k));
        lemma_json_members_prefix(members.drop_last(), k);
        lemma_json_members_len(members.drop_last());
        assert(json_members(members).take(k) =~= json_members(members.drop_last()).take(k));
    } else {
        assert(members.take(k) =~= members);
        assert(json_members(members).take(k) =~= json_members(members));
    }
}

/// A null in a prefix is a null in the whole.
proof fn lemma_items_null_prefix(items: Seq<Json>, k: int)
    requires
        0 <= k <= items.len(),
        items_have_null(items.take(k)),
    ensures
        items_have_null(items),
    decreases items.len(),
{
    if k < items.len() {
        assert(items.drop_last().take(k) =~= items.take(k));
        lemma_items_null_prefix(items.drop_last(), k);
    } else {
        assert(items.take(k) =~= items);
    }
}

proof fn lemma_members_null_prefix(members: Seq<(Seq<char>, Json)>, k: int)
    requires
        0 <= k <= members.len(),
        members_have_null(members.take(k)),
    ensures
        members_have_null(members),
    decreases members.len(),
{
    if k < members.len() {
        assert(members.drop_last().take(k) =~= members.take(k));
        lemma_members_null_prefix(members.drop_last(), k);
    } else {
        assert(members.take(k) =~= members);
    }
}


// ---------------------------------------------------------------------------
// Building objects
// ---------------------------------------------------------------------------

/// The value of the last member with this key, as a map from keys to values
/// built member by member keeps it.
pub open spec fn last_member(members: Seq<(String, JsonValue)>, key: Seq<char>) -> Option<JsonValue>
    decreases members.len(),
{
    if members.len() == 0 {
        None
    } else if members.last().0@ == key {
        Some(members.last().1)
    } else {
        last_member(members.drop_last(), key)
    }
}

pub open spec fn value_keys(members: Seq<(String, JsonValue)>) -> Seq<Seq<char>> {
    members.map_values(|m: (String, JsonValue)| m.0@)
}

proof fn lemma_member_keys(members: Seq<(String, JsonValue)>)
    ensures
        member_keys(json_members(members)) =~= value_keys(members),
    decreases members.len(),
{
    if members.len() > 0 {
        lemma_member_keys(members.drop_last());
        assert(value_keys(members.drop_last()) =~= value_keys(members).drop_last());
        assert(member_keys(json_members(members)) =~= member_keys(json_members(members.drop_last())).push(
            members.last().0@,
        ));
    }
}

proof fn lemma_last_member_update(ms: Seq<(String, JsonValue)>, p: int, m: (String, JsonValue))
    requires
        0 <= p < ms.len(),
        ms[p].0@ == m.0@,
        ascending(value_keys(ms)),
    ensures
        ascending(value_keys(ms.update(p, m))),
        forall|x: Seq<char>| #[trigger] last_member(ms.update(p, m), x) == if x == m.0@ {
            Some(m.1)
        } else {
            last_member(ms, x)
        },
    decreases ms.len(),
{
    let u = ms.update(p, m);
    assert(value_keys(u) =~= value_keys(ms));
    if p < ms.len() - 1 {
        let d = ms.drop_last();
        assert(u.drop_last() =~= d.update(p, m));
        assert(value_keys(d) =~= value_keys(ms).drop_last());
        lemma_last_member_update(d, p, m);
        assert(text_less(value_keys(ms)[p], value_keys(ms)[ms.len() - 1]));
        crate::order::lemma_text_less_trichotomy(ms[p].0@, ms.last().0@);
        assert forall|x: Seq<char>| #[trigger] last_member(u, x) == if x == m.0@ {
            Some(m.1)
        } else {
            last_member(ms, x)
        } by {
            assert(u.last() == ms.last());
            assert(last_member(d.update(p, m), x) == if x == m.0@ {
                Some(m.1)
            } else {
                last_member(d, x)
            });
        }
    } else {
        assert(u.drop_last() =~= ms.drop_last());
        assert forall|x: Seq<char>| #[trigger] last_member(u, x) == if x == m.0@ {
            Some(m.1)
        } else {
            last_member(ms, x)
        } by {
            assert(u.last() == m);
        }
    }
}

proof fn lemma_last_member_absent(ms: Seq<(String, JsonValue)>, x: Seq<char>)
    requires
        forall|i: int| 0 <= i < ms.len() ==> (#[trigger] ms[i]).0@ != x,
    ensures
        last_member(ms, x) is None,
    decreases ms.len(),
{
    if ms.len() > 0 {
        lemma_last_member_absent(ms.drop_last(), x);
    }
}

proof fn lemma_last_member_insert(ms: Seq<(String, JsonValue)>, p: int, m: (String, JsonValue))
    requires
        0 <= p <= ms.len(),
        forall|i: int| 0 <= i < ms.len() ==> (#[trigger] ms[i]).0@ != m.0@,
    ensures
        forall|x: Seq<char>| #[trigger] last_member(ms.insert(p, m), x) == if x == m.0@ {
            Some(m.1)
        } else {
            last_member(ms, x)
        },
    decreases ms.len(),
{
    let n = ms.insert(p, m);
    if p == ms.len() {
        assert(n.drop_last() =~= ms);
    } else {
        let d = ms.drop_last();
        assert(n.drop_last() =~= d.insert(p, m));
        assert(n.last() == ms.last());
        lemma_last_member_insert(d, p, m);
        assert forall|x: Seq<char>| #[trigger] last_member(n, x) == if x == m.0@ {
            Some(m.1)
        } else {
            last_member(ms, x)
        } by {
            assert(ms.last().0@ != m.0@);
            assert(last_member(d.insert(p, m), x) == if x == m.0@ {
                Some(m.1)
            } else {
                last_member(d, x)
            });
        }
    }
}

/// An object of these members with each key once and the keys ascending:
/// a later member with a key replaces an earlier one, as inserting into a
/// map does.
pub fn object_from(members: Vec<(String, JsonValue)>) -> (r: JsonValue)
    ensures
        r matches JsonValue::Object(ms) && ascending(member_keys(json_members(ms@))) && forall|key: Seq<char>|
            #[trigger] last_member(ms@, key) == last_member(members@, key),
{
    let ghost original = members@;
    let count = members.len();
    let mut rest = members;
    let mut sorted: Vec<(String, JsonValue)> = Vec::new();
    let mut i: usize = 0;
    while rest.len() > 0
        invariant
            i <= original.len(),
            original.len() == count,
            rest@ == original.skip(i as int),
            ascending(value_keys(sorted@)),
            forall|key: Seq<char>| #[trigger] last_member(sorted@, key) == last_member(original.take(i as int), key),
        decreases rest.len(),
    {
        let ghost before = sorted@;
        let m = rest.remove(0);
        assert(m == original[i as int]);
        assert(original.take(i + 1).drop_last() =~= original.take(i as int));
        assert(original.take(i + 1).last() == m);
        let mut p: usize = 0;
        while p < sorted.len() && crate::order::text_lt(sorted[p].0.as_str(), m.0.as_str())
            invariant
                p <= sorted.len(),
                sorted@ == before,
                forall|j: int| 0 <= j < p ==> text_less((#[trigger] sorted@[j]).0@, m.0@),
            decreases sorted.len() - p,
        {
            p = p + 1;
        }
        let ghost keys = value_keys(before);
        if p < sorted.len() && crate::text::text_eq(sorted[p].0.as_str(), m.0.as_str()) {
            proof {
                lemma_last_member_update(before, p as int, m);
            }
            sorted.set(p, m);
        } else {
            proof {
                assert forall|j: int| 0 <= j < before.len() implies (#[trigger] before[j]).0@ != m.0@ by {
                    if j < p {
                        crate::order::lemma_text_less_trichotomy(before[j].0@, m.0@);
                    } else if j > p {
                        crate::order::lemma_text_less_trichotomy(before[p as int].0@, m.0@);
                        assert(text_less(keys[p as int], keys[j]));
                        if before[j].0@ == m.0@ {
                            crate::order::lemma_text_less_trichotomy(before[j].0@, before[p as int].0@);
                        }
                    }
                }
                lemma_last_member_insert(before, p as int, m);
                let after = before.insert(p as int, m);
                assert forall|a: int, b: int| 0 <= a < b < after.len() implies text_less(
                    #[trigger] value_keys(after)[a],
                    #[trigger] value_keys(after)[b],
                ) by {
                    if p < before.len() {
                        crate::order::lemma_text_less_trichotomy(before[p as int].0@, m.0@);
                    }
                    if a < p && b == p {
                    } else if a < p && b > p {
                        assert(after[b] == before[b - 1]);
                        if b - 1 > a {
                            assert(text_less(keys[a], keys[b - 1]));
                        }
                    } else if a == p && b > p {
                        assert(after[b] == before[b - 1]);
                        if b - 1 > p {
                            assert(text_less(keys[p as int], keys[b - 1]));
                            crate::order::lemma_text_less_transitive(m.0@, before[p as int].0@, before[b - 1].0@);
                        }
                    } else if a > p {
                        assert(after[a] == before[a - 1] && after[b] == before[b - 1]);
                        assert(text_less(keys[a - 1], keys[b - 1]));
                    } else {
                        assert(after[a] == before[a] && after[b] == before[b]);
                        assert(text_less(keys[a], keys[b]));
                    }
                }
            }
            sorted.insert(p, m);
        }
        i = i + 1;
    }
    proof {
        assert(original.take(original.len() as int) =~= original);
        lemma_member_keys(sorted@);
    }
    JsonValue::Object(sorted)
}

} // verus!
