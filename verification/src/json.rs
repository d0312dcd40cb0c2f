use vstd::prelude::*;

use crate::text::{decimal, signed_decimal, write_decimal, write_signed_decimal};

verus! {

/// A JSON value. Numbers keep their integer value; a number with a
/// fraction or an exponent is kept only as `OtherNumber`.
#[derive(Debug)]
pub enum JsonValue {
    Null,
    Bool(bool),
    UInt(u64),
    Int(i64),
    OtherNumber,
    Str(String),
    Array(Vec<JsonValue>),
    Object(Vec<(String, JsonValue)>),
}

pub open spec fn hex_digit(d: int) -> char {
    if d < 10 {
        (48 + d) as char
    } else {
        (87 + d) as char
    }
}

/// How serde_json writes one char inside a string: `"` and `\` and the
/// control chars below U+0020 escaped (`\b`, `\t`, `\n`, `\f`, `\r`, or
/// `\u00XX` with lowercase hex), every other char as it is.
pub open spec fn json_escaped_char(c: char) -> Seq<char> {
    if c == '"' {
        seq!['\\', '"']
    } else if c == '\\' {
        seq!['\\', '\\']
    } else if c == '\u{8}' {
        seq!['\\', 'b']
    } else if c == '\t' {
        seq!['\\', 't']
    } else if c == '\n' {
        seq!['\\', 'n']
    } else if c == '\u{c}' {
        seq!['\\', 'f']
    } else if c == '\r' {
        seq!['\\', 'r']
    } else if (c as int) < 32 {
        seq!['\\', 'u', '0', '0', hex_digit((c as int) / 16), hex_digit((c as int) % 16)]
    } else {
        seq![c]
    }
}

pub open spec fn json_escaped(s: Seq<char>) -> Seq<char>
    decreases s.len(),
{
    if s.len() == 0 {
        Seq::empty()
    } else {
        json_escaped(s.drop_last()) + json_escaped_char(s.last())
    }
}

#[verifier::external_type_specification]
#[verifier::external_body]
pub struct ExSerdeValue(serde_json::Value);

/// What serde_json's `from_slice` reads from the bytes, as a `JsonValue`
/// (`None` where it rejects them).
pub uninterp spec fn json_parsed(bytes: Seq<u8>) -> Option<JsonValue>;

/// Converts a serde_json value into a `JsonValue`, variant for variant: a
/// number becomes `UInt` where serde_json holds it as an unsigned integer,
/// `Int` where it holds it as a negative one, and `OtherNumber` otherwise;
/// an object's members keep serde_json's order. Nothing is claimed of it
/// apart from what `parse_json` states.
#[verifier::external_body]
fn json_value(value: &serde_json::Value) -> JsonValue {
    match value {
        serde_json::Value::Null => JsonValue::Null,
        serde_json::Value::Bool(b) => JsonValue::Bool(*b),
        serde_json::Value::Number(n) => match (n.as_u64(), n.as_i64()) {
            (Some(u), _) => JsonValue::UInt(u),
            (None, Some(i)) => JsonValue::Int(i),
            (None, None) => JsonValue::OtherNumber,
        },
        serde_json::Value::String(s) => JsonValue::Str(s.clone()),
        serde_json::Value::Array(items) => JsonValue::Array(items.iter().map(json_value).collect()),
        serde_json::Value::Object(members) => JsonValue::Object(
            members.iter().map(|(k, v)| (k.clone(), json_value(v))).collect(),
        ),
    }
}

/// Calls serde_json's `from_slice` into a `serde_json::Value` and converts
/// the result. The contract claims only that the result is what serde_json
/// reads from the bytes, a function of the bytes alone.
#[verifier::external_body]
pub(crate) fn parse_json(bytes: &[u8]) -> (r: Option<JsonValue>)
    ensures
        r == json_parsed(bytes@),
{
    match serde_json::from_slice::<serde_json::Value>(bytes) {
        Ok(value) => Some(json_value(&value)),
        Err(_) => None,
    }
}

/// A JSON string literal as serde_json writes it.
pub open spec fn json_string_literal(s: Seq<char>) -> Seq<char> {
    seq!['"'] + json_escaped(s) + seq!['"']
}

/// Calls serde_json's `to_string` on a `str`. The contract states the
/// escaping that serde_json's `format_escaped_str_contents` and its `ESCAPE`
/// table perform; serializing a `str` into a `Vec` cannot fail.
#[verifier::external_body]
fn json_quote(s: &str) -> (r: String)
    ensures
        r@ == json_string_literal(s@),
{
    match serde_json::to_string(s) {
        Ok(text) => text,
        Err(_) => String::new(),
    }
}

pub open spec fn indent(level: nat) -> Seq<char> {
    Seq::new(2 * level, |i: int| ' ')
}

/// A JSON value as serde_json's pretty printer writes it, at nesting
/// `level` (two spaces per level).
pub open spec fn pretty(v: JsonValue, level: nat) -> Seq<char>
    decreases v,
{
    match v {
        JsonValue::Null => "null"@,
        JsonValue::Bool(b) => if b {
            "true"@
        } else {
            "false"@
        },
        JsonValue::UInt(n) => decimal(n as nat),
        JsonValue::Int(n) => signed_decimal(n as int),
        JsonValue::OtherNumber => "null"@,
        JsonValue::Str(s) => json_string_literal(s@),
        JsonValue::Array(items) => if items@.len() == 0 {
            "[]"@
        } else {
            "["@ + pretty_elems(items@, level + 1) + "\n"@ + indent(level) + "]"@
        },
        JsonValue::Object(members) => if members@.len() == 0 {
            "{}"@
        } else {
            "{"@ + pretty_members(members@, level + 1) + "\n"@ + indent(level) + "}"@
        },
    }
}

pub open spec fn pretty_elems(items: Seq<JsonValue>, level: nat) -> Seq<char>
    decreases items,
{
    if items.len() == 0 {
        Seq::empty()
    } else {
        pretty_elems(items.drop_last(), level) + (if items.len() == 1 {
            "\n"@
        } else {
            ",\n"@
        }) + indent(level) + pretty(items.last(), level)
    }
}

pub open spec fn pretty_members(members: Seq<(String, JsonValue)>, level: nat) -> Seq<char>
    decreases members,
{
    if members.len() == 0 {
        Seq::empty()
    } else {
        pretty_members(members.drop_last(), level) + (if members.len() == 1 {
            "\n"@
        } else {
            ",\n"@
        }) + indent(level) + json_string_literal(members.last().0@) + ": "@ + pretty(
            members.last().1,
            level,
        )
    }
}

/// Whether arrays and objects nest at most `room` levels deep.
pub open spec fn nests_within(v: JsonValue, room: nat) -> bool
    decreases v,
{
    match v {
        JsonValue::Array(items) => room > 0 && forall|i: int|
            0 <= i < items@.len() ==> nests_within(#[trigger] items@[i], (room - 1) as nat),
        JsonValue::Object(members) => room > 0 && forall|i: int|
            0 <= i < members@.len() ==> nests_within(#[trigger] members@[i].1, (room - 1) as nat),
        _ => true,
    }
}

fn write_indent(out: &mut String, level: usize)
    ensures
        final(out)@ == old(out)@ + indent(level as nat),
{
    let mut i: usize = 0;
    while i < level
        invariant
            0 <= i <= level,
            out@ == old(out)@ + Seq::new(2 * i as nat, |k: int| ' '),
        decreases level - i,
    {
        out.append("  ");
        proof {
            reveal_strlit("  ");
            assert(out@ =~= old(out)@ + Seq::new(2 * (i + 1) as nat, |k: int| ' '));
        }
        i = i + 1;
    }
    assert(out@ =~= old(out)@ + indent(level as nat));
}

fn write_json(out: &mut String, v: &JsonValue, level: usize, Ghost(room): Ghost<nat>)
    requires
        nests_within(*v, room),
        level + room < usize::MAX,
    ensures
        final(out)@ == old(out)@ + pretty(*v, level as nat),
    decreases v,
{
    match v {
        JsonValue::Null => out.append("null"),
        JsonValue::Bool(b) => if *b {
            out.append("true")
        } else {
            out.append("false")
        },
        JsonValue::UInt(n) => write_decimal(out, *n),
        JsonValue::Int(n) => write_signed_decimal(out, *n),
        JsonValue::OtherNumber => out.append("null"),
        JsonValue::Str(s) => {
            let q = json_quote(s.as_str());
            out.append(q.as_str());
        },
        JsonValue::Array(items) => {
            if items.len() == 0 {
                out.append("[]");
            } else {
                out.append("[");
                let ghost start = out@;
                assert(forall|j: int|
                    0 <= j < items@.len() ==> nests_within(#[trigger] items@[j], (room - 1) as nat));
                let mut i: usize = 0;
                while i < items.len()
                    invariant
                        0 <= i <= items@.len(),
                        *v == JsonValue::Array(*items),
                        forall|j: int|
                            0 <= j < items@.len() ==> nests_within(
                                #[trigger] items@[j],
                                (room - 1) as nat,
                            ),
                        room > 0,
                        level + room < usize::MAX,
                        out@ == start + pretty_elems(items@.take(i as int), (level + 1) as nat),
                    decreases items.len() - i,
                {
                    if i == 0 {
                        out.append("\n");
                    } else {
                        out.append(",\n");
                    }
                    write_indent(out, level + 1);
                    proof {
                        assert(nests_within(items@[i as int], (room - 1) as nat));
                        assert(decreases_to!(*v => (*v)->Array_0));
                        assert(decreases_to!((*v)->Array_0 => (*v)->Array_0@));
                        assert(decreases_to!((*v)->Array_0@ => (*v)->Array_0@[i as int]));
                    }
                    write_json(out, &items[i], level + 1, Ghost((room - 1) as nat));
                    proof {
                        let t = items@.take(i + 1);
                        assert(t.drop_last() =~= items@.take(i as int));
                        assert(t.last() == items@[i as int]);
                    }
                    i = i + 1;
                }
                assert(items@.take(items@.len() as int) =~= items@);
                out.append("\n");
                write_indent(out, level);
                out.append("]");
            }
        },
        JsonValue::Object(members) => {
            if members.len() == 0 {
                out.append("{}");
            } else {
                out.append("{");
                let ghost start = out@;
                assert(forall|j: int|
                    0 <= j < members@.len() ==> nests_within(
                        #[trigger] members@[j].1,
                        (room - 1) as nat,
                    ));
                let mut i: usize = 0;
                while i < members.len()
                    invariant
                        0 <= i <= members@.len(),
                        *v == JsonValue::Object(*members),
                        forall|j: int|
                            0 <= j < members@.len() ==> nests_within(
                                #[trigger] members@[j].1,
                                (room - 1) as nat,
                            ),
                        room > 0,
                        level + room < usize::MAX,
                        out@ == start + pretty_members(members@.take(i as int), (level + 1) as nat),
                    decreases members.len() - i,
                {
                    if i == 0 {
                        out.append("\n");
                    } else {
                        out.append(",\n");
                    }
                    write_indent(out, level + 1);
                    let key = json_quote(members[i].0.as_str());
                    out.append(key.as_str());
                    out.append(": ");
                    proof {
                        assert(nests_within(members@[i as int].1, (room - 1) as nat));
                        assert(decreases_to!(*v => (*v)->Object_0));
                        assert(decreases_to!((*v)->Object_0 => (*v)->Object_0@));
                        assert(decreases_to!((*v)->Object_0@ => (*v)->Object_0@[i as int]));
                        assert(decreases_to!((*v)->Object_0@[i as int] => (*v)->Object_0@[i as int].1));
                    }
                    write_json(out, &members[i].1, level + 1, Ghost((room - 1) as nat));
                    proof {
                        let t = members@.take(i + 1);
                        assert(t.drop_last() =~= members@.take(i as int));
                        assert(t.last() == members@[i as int]);
                    }
                    i = i + 1;
                }
                assert(members@.take(members@.len() as int) =~= members@);
                out.append("\n");
                write_indent(out, level);
                out.append("}");
            }
        },
    }
}

/// The pretty-printed JSON text of a value, as serde_json's
/// `to_vec_pretty` writes it.
pub(crate) fn to_pretty_json(v: &JsonValue) -> (r: String)
    requires
        nests_within(*v, 64),
    ensures
        r@ == pretty(*v, 0),
{
    let mut r = String::new();
    write_json(&mut r, v, 0, Ghost(64));
    assert(r@ =~= pretty(*v, 0));
    r
}

/// Whether two JSON values hold the same texts, numbers and shape.
pub open spec fn same_json(a: JsonValue, b: JsonValue) -> bool
    decreases a,
{
    match a {
        JsonValue::Str(x) => b is Str && b->Str_0@ == x@,
        JsonValue::Array(xs) => {
            &&& b is Array
            &&& b->Array_0@.len() == xs@.len()
            &&& forall|i: int|
                0 <= i < xs@.len() ==> same_json(#[trigger] xs@[i], b->Array_0@[i])
        },
        JsonValue::Object(ms) => {
            &&& b is Object
            &&& b->Object_0@.len() == ms@.len()
            &&& forall|i: int|
                0 <= i < ms@.len() ==> (#[trigger] ms@[i]).0@ == b->Object_0@[i].0@ && same_json(
                    ms@[i].1,
                    b->Object_0@[i].1,
                )
        },
        _ => a == b,
    }
}

pub open spec fn width(a: JsonValue) -> nat {
    match a {
        JsonValue::Array(xs) => xs@.len(),
        JsonValue::Object(ms) => ms@.len(),
        _ => 0,
    }
}

/// Values with the same texts print the same.
pub proof fn lemma_same_json_pretty(a: JsonValue, b: JsonValue, level: nat)
    requires
        same_json(a, b),
    ensures
        pretty(a, level) == pretty(b, level),
    decreases a, width(a) + 1,
{
    match a {
        JsonValue::Array(xs) => {
            let ys = b->Array_0@;
            if xs@.len() > 0 {
                lemma_same_elems(a, ys, level + 1, xs@.len() as int);
                assert(xs@.take(xs@.len() as int) =~= xs@);
                assert(ys.take(ys.len() as int) =~= ys);
            }
        },
        JsonValue::Object(ms) => {
            let ns = b->Object_0@;
            if ms@.len() > 0 {
                lemma_same_members(a, ns, level + 1, ms@.len() as int);
                assert(ms@.take(ms@.len() as int) =~= ms@);
                assert(ns.take(ns.len() as int) =~= ns);
            }
        },
        _ => {},
    }
}

proof fn lemma_same_elems(a: JsonValue, ys: Seq<JsonValue>, level: nat, n: int)
    requires
        a is Array,
        0 <= n <= a->Array_0@.len(),
        ys.len() == a->Array_0@.len(),
        forall|i: int| 0 <= i < ys.len() ==> same_json(#[trigger] a->Array_0@[i], ys[i]),
    ensures
        pretty_elems(a->Array_0@.take(n), level) == pretty_elems(ys.take(n), level),
    decreases a, n,
{
    let xs = a->Array_0@;
    if n > 0 {
        lemma_same_elems(a, ys, level, n - 1);
        assert(decreases_to!(a => a->Array_0));
        assert(decreases_to!(a->Array_0 => a->Array_0@));
        assert(decreases_to!(a->Array_0@ => a->Array_0@[n - 1]));
        lemma_same_json_pretty(xs[n - 1], ys[n - 1], level);
        assert(xs.take(n).drop_last() =~= xs.take(n - 1));
        assert(ys.take(n).drop_last() =~= ys.take(n - 1));
        assert(xs.take(n).last() == xs[n - 1]);
        assert(ys.take(n).last() == ys[n - 1]);
    }
}

proof fn lemma_same_members(a: JsonValue, ns: Seq<(String, JsonValue)>, level: nat, n: int)
    requires
        a is Object,
        0 <= n <= a->Object_0@.len(),
        ns.len() == a->Object_0@.len(),
        forall|i: int|
            0 <= i < ns.len() ==> (#[trigger] a->Object_0@[i]).0@ == ns[i].0@ && same_json(
                a->Object_0@[i].1,
                ns[i].1,
            ),
    ensures
        pretty_members(a->Object_0@.take(n), level) == pretty_members(ns.take(n), level),
    decreases a, n,
{
    let ms = a->Object_0@;
    if n > 0 {
        lemma_same_members(a, ns, level, n - 1);
        assert(decreases_to!(a => a->Object_0));
        assert(decreases_to!(a->Object_0 => a->Object_0@));
        assert(decreases_to!(a->Object_0@ => a->Object_0@[n - 1]));
        assert(decreases_to!(a->Object_0@[n - 1] => a->Object_0@[n - 1].1));
        assert(ms[n - 1].0@ == ns[n - 1].0@);
        lemma_same_json_pretty(ms[n - 1].1, ns[n - 1].1, level);
        assert(ms.take(n).drop_last() =~= ms.take(n - 1));
        assert(ns.take(n).drop_last() =~= ns.take(n - 1));
        assert(ms.take(n).last() == ms[n - 1]);
        assert(ns.take(n).last() == ns[n - 1]);
    }
}

} // verus!
