//! The JSON tree carried by the wire protocol, with a verified serializer
//! and parser over raw bytes.
//!
//! Wire messages are UTF-8 JSON; their `data`/`payload`/`params`/`result`
//! fields are schema-free trees that the protocol layer never interprets.
//! `JsonValue` models such a tree. Numbers are kept as their decimal
//! lexemes, so any JSON number round-trips exactly and no floating point is
//! involved.
//!
//! `spec_ser` defines the byte rendering of a tree; `spec_parse_json`
//! defines what the parser accepts and yields. Serializing any well-formed
//! tree and parsing the result gives the tree back (`lemma_json_round_trip`).

use vstd::prelude::*;
use vstd::string::StringSliceAdditionalSpecFns;
use vstd::utf8::{
    decode_utf8, encode_scalar, encode_utf8, encode_utf8_decode_utf8, encode_utf8_valid_utf8,
    valid_utf8,
};

verus! {

broadcast use vstd::seq::axiom_seq_index_decreases, vstd::seq::axiom_seq_subrange_decreases,
    vstd::std_specs::vec::axiom_vec_index_decreases,
    vstd::std_specs::vec::axiom_vec_decreases_to_view;

/// One JSON document: the schema-free payload tree of the wire protocol.
///
/// A number holds its decimal lexeme unparsed; an object keeps its members
/// in their written order.
#[derive(Debug)]
pub enum JsonValue {
    Null,
    Bool(bool),
    Number(String),
    Text(String),
    Array(Vec<JsonValue>),
    Object(Vec<(String, JsonValue)>),
}

/// The mathematical shape of a `JsonValue`: strings as character sequences.
pub enum JsonView {
    Null,
    Bool(bool),
    Number(Seq<char>),
    Text(Seq<char>),
    Array(Seq<JsonView>),
    Object(Seq<(Seq<char>, JsonView)>),
}

/// The shape of a tree, by structural recursion.
pub open spec fn json_view(v: JsonValue) -> JsonView
    decreases v,
{
    match v {
        JsonValue::Null => JsonView::Null,
        JsonValue::Bool(b) => JsonView::Bool(b),
        JsonValue::Number(s) => JsonView::Number(s@),
        JsonValue::Text(s) => JsonView::Text(s@),
        JsonValue::Array(items) => JsonView::Array(json_view_list(items@)),
        JsonValue::Object(members) => JsonView::Object(json_view_members(members@)),
    }
}

/// Element-wise shape of an array's items.
pub open spec fn json_view_list(items: Seq<JsonValue>) -> Seq<JsonView>
    decreases items,
{
    if items.len() == 0 {
        Seq::empty()
    } else {
        seq![json_view(items[0])] + json_view_list(items.drop_first())
    }
}

/// Element-wise shape of an object's members.
pub open spec fn json_view_members(members: Seq<(String, JsonValue)>) -> Seq<
    (Seq<char>, JsonView),
>
    decreases members,
{
    if members.len() == 0 {
        Seq::empty()
    } else {
        seq![(members[0].0@, json_view(members[0].1))] + json_view_members(members.drop_first())
    }
}

impl View for JsonValue {
    type V = JsonView;

    open spec fn view(&self) -> JsonView {
        json_view(*self)
    }
}

/// `json_view_list` maps `json_view` over the items.
pub proof fn lemma_json_view_list(items: Seq<JsonValue>)
    ensures
        json_view_list(items).len() == items.len(),
        forall|i: int| 0 <= i < items.len() ==> json_view_list(items)[i] == json_view(
            #[trigger] items[i],
        ),
    decreases items.len(),
{
    if items.len() > 0 {
        lemma_json_view_list(items.drop_first());
        let w = json_view_list(items);
        assert forall|i: int| 0 <= i < items.len() implies w[i] == json_view(items[i]) by {
            if i == 0 {
                assert(w[0] == json_view(items[0]));
            } else {
                assert(w[i] == json_view_list(items.drop_first())[i - 1]);
                assert(items.drop_first()[i - 1] == items[i]);
            }
        }
    }
}

/// `json_view_members` maps key views and `json_view` over the members.
pub proof fn lemma_json_view_members(members: Seq<(String, JsonValue)>)
    ensures
        json_view_members(members).len() == members.len(),
        forall|i: int| 0 <= i < members.len() ==> json_view_members(members)[i] == ((
        #[trigger] members[i]).0@, json_view(members[i].1)),
    decreases members.len(),
{
    if members.len() > 0 {
        lemma_json_view_members(members.drop_first());
        let w = json_view_members(members);
        assert forall|i: int| 0 <= i < members.len() implies w[i] == (members[i].0@, json_view(
            members[i].1,
        )) by {
            if i == 0 {
                assert(w[0] == (members[0].0@, json_view(members[0].1)));
            } else {
                assert(w[i] == json_view_members(members.drop_first())[i - 1]);
                assert(members.drop_first()[i - 1] == members[i]);
            }
        }
    }
}

// ---------------------------------------------------------------------------
// Byte classes
// ---------------------------------------------------------------------------

/// JSON insignificant whitespace: space, tab, line feed, carriage return.
pub open spec fn is_ws_byte(b: u8) -> bool {
    b == 0x20 || b == 0x09 || b == 0x0A || b == 0x0D
}

pub open spec fn is_digit_byte(b: u8) -> bool {
    0x30 <= b <= 0x39
}

/// Bytes that may appear in a number lexeme.
pub open spec fn is_number_byte(b: u8) -> bool {
    is_digit_byte(b) || b == 0x2D || b == 0x2B || b == 0x2E || b == 0x65 || b == 0x45
}

/// The single byte a lexeme character encodes to (lexemes are ASCII).
pub open spec fn ascii_bytes(s: Seq<char>) -> Seq<u8> {
    Seq::new(s.len(), |i: int| (s[i] as u32) as u8)
}

// ---------------------------------------------------------------------------
// Number lexeme grammar
// ---------------------------------------------------------------------------

/// First index at or after `i` holding a non-digit byte.
pub open spec fn scan_digit_bytes(s: Seq<u8>, i: int) -> int
    recommends
        0 <= i <= s.len(),
    decreases s.len() - i when 0 <= i <= s.len()
{
    if i == s.len() {
        i
    } else if is_digit_byte(s[i]) {
        scan_digit_bytes(s, i + 1)
    } else {
        i
    }
}

/// Where the JSON number starting at `i` ends, or `None` if no valid number
/// starts there: an optional minus sign, an integer part without a redundant
/// leading zero, then optional fraction and exponent parts.
pub open spec fn spec_number_end(s: Seq<u8>, i: int) -> Option<int>
    recommends
        0 <= i <= s.len(),
{
    let m = if i < s.len() && s[i] == 0x2Du8 {
        i + 1
    } else {
        i
    };
    if m < s.len() && is_digit_byte(s[m]) {
        let int_end = if s[m] == 0x30u8 {
            m + 1
        } else {
            scan_digit_bytes(s, m)
        };
        let frac_end = if int_end < s.len() && s[int_end] == 0x2Eu8 {
            let d = scan_digit_bytes(s, int_end + 1);
            if d > int_end + 1 {
                Some(d)
            } else {
                None::<int>
            }
        } else {
            Some(int_end)
        };
        match frac_end {
            None => None,
            Some(fe) => {
                if fe < s.len() && (s[fe] == 0x65u8 || s[fe] == 0x45u8) {
                    let es = if fe + 1 < s.len() && (s[fe + 1] == 0x2Bu8 || s[fe + 1] == 0x2Du8) {
                        fe + 2
                    } else {
                        fe + 1
                    };
                    let d = scan_digit_bytes(s, es);
                    if d > es {
                        Some(d)
                    } else {
                        None
                    }
                } else {
                    Some(fe)
                }
            },
        }
    } else {
        None
    }
}

/// A character a number lexeme may hold: ASCII, from the number alphabet.
pub open spec fn is_lexeme_char(c: char) -> bool {
    ((c as u32) < 128) && is_number_byte((c as u32) as u8)
}

/// A well-formed number lexeme: ASCII number characters forming exactly one
/// JSON number.
pub open spec fn wf_number_lexeme(lex: Seq<char>) -> bool {
    &&& lex.len() >= 1
    &&& forall|i: int| 0 <= i < lex.len() ==> is_lexeme_char(#[trigger] lex[i])
    &&& spec_number_end(ascii_bytes(lex), 0) == Some(lex.len() as int)
}

/// A well-formed tree: every number lexeme in it is a valid JSON number.
pub open spec fn wf_view(v: JsonView) -> bool
    decreases v,
{
    match v {
        JsonView::Null => true,
        JsonView::Bool(_) => true,
        JsonView::Number(lex) => wf_number_lexeme(lex),
        JsonView::Text(_) => true,
        JsonView::Array(elems) => forall|i: int|
            0 <= i < elems.len() ==> wf_view(#[trigger] elems[i]),
        JsonView::Object(members) => forall|i: int|
            0 <= i < members.len() ==> wf_view(#[trigger] members[i].1),
    }
}

// ---------------------------------------------------------------------------
// Serialization: spec
// ---------------------------------------------------------------------------

pub open spec fn hex_digit_byte(d: nat) -> u8 {
    if d < 10 {
        (0x30 + d) as u8
    } else {
        (0x61 + (d - 10)) as u8
    }
}

/// How one content byte of a string is written: quote, backslash and
/// control bytes are escaped, everything else passes through.
pub open spec fn escape_byte(b: u8) -> Seq<u8> {
    if b == 0x22 {
        seq![0x5Cu8, 0x22u8]
    } else if b == 0x5C {
        seq![0x5Cu8, 0x5Cu8]
    } else if b == 0x08 {
        seq![0x5Cu8, 0x62u8]
    } else if b == 0x09 {
        seq![0x5Cu8, 0x74u8]
    } else if b == 0x0A {
        seq![0x5Cu8, 0x6Eu8]
    } else if b == 0x0C {
        seq![0x5Cu8, 0x66u8]
    } else if b == 0x0D {
        seq![0x5Cu8, 0x72u8]
    } else if b < 0x20 {
        seq![0x5Cu8, 0x75u8, 0x30u8, 0x30u8, hex_digit_byte((b >> 4) as nat), hex_digit_byte(
            (b & 0xF) as nat,
        )]
    } else {
        seq![b]
    }
}

/// The escaped form of a string's UTF-8 content bytes.
pub open spec fn spec_escape(bs: Seq<u8>) -> Seq<u8>
    decreases bs.len(),
{
    if bs.len() == 0 {
        Seq::empty()
    } else {
        escape_byte(bs[0]) + spec_escape(bs.drop_first())
    }
}

/// The byte rendering of a tree: no insignificant whitespace, object member
/// order preserved.
pub open spec fn spec_ser(v: JsonView) -> Seq<u8>
    decreases v,
{
    match v {
        JsonView::Null => seq![0x6Eu8, 0x75u8, 0x6Cu8, 0x6Cu8],
        JsonView::Bool(b) => if b {
            seq![0x74u8, 0x72u8, 0x75u8, 0x65u8]
        } else {
            seq![0x66u8, 0x61u8, 0x6Cu8, 0x73u8, 0x65u8]
        },
        JsonView::Number(lex) => ascii_bytes(lex),
        JsonView::Text(s) => seq![0x22u8] + spec_escape(encode_utf8(s)) + seq![0x22u8],
        JsonView::Array(elems) => seq![0x5Bu8] + spec_ser_elems(elems) + seq![0x5Du8],
        JsonView::Object(members) => seq![0x7Bu8] + spec_ser_members(members) + seq![0x7Du8],
    }
}

/// Array elements, comma-separated.
pub open spec fn spec_ser_elems(elems: Seq<JsonView>) -> Seq<u8>
    decreases elems,
{
    if elems.len() == 0 {
        Seq::empty()
    } else if elems.len() == 1 {
        spec_ser(elems[0])
    } else {
        spec_ser(elems[0]) + seq![0x2Cu8] + spec_ser_elems(elems.drop_first())
    }
}

/// Object members, comma-separated, each a quoted key, a colon and a value.
pub open spec fn spec_ser_members(members: Seq<(Seq<char>, JsonView)>) -> Seq<u8>
    decreases members,
{
    if members.len() == 0 {
        Seq::empty()
    } else {
        let head = seq![0x22u8] + spec_escape(encode_utf8(members[0].0)) + seq![0x22u8, 0x3Au8]
            + spec_ser(members[0].1);
        if members.len() == 1 {
            head
        } else {
            head + seq![0x2Cu8] + spec_ser_members(members.drop_first())
        }
    }
}

// ---------------------------------------------------------------------------
// Serialization: executable
// ---------------------------------------------------------------------------

fn hex_digit(d: u8) -> (r: u8)
    requires
        d < 16,
    ensures
        r == hex_digit_byte(d as nat),
{
    if d < 10 {
        0x30 + d
    } else {
        0x61 + (d - 10)
    }
}

proof fn lemma_escape_snoc(bs: Seq<u8>, b: u8)
    ensures
        spec_escape(bs.push(b)) == spec_escape(bs) + escape_byte(b),
    decreases bs.len(),
{
    if bs.len() == 0 {
        assert(bs.push(b).drop_first() =~= Seq::<u8>::empty());
        assert(bs.push(b)[0] == b);
        assert(spec_escape(Seq::<u8>::empty()) =~= Seq::<u8>::empty());
        assert(spec_escape(bs.push(b)) =~= escape_byte(b));
        assert(spec_escape(bs) + escape_byte(b) =~= escape_byte(b));
    } else {
        assert(bs.push(b).drop_first() =~= bs.drop_first().push(b));
        lemma_escape_snoc(bs.drop_first(), b);
        assert(spec_escape(bs.push(b)) == escape_byte(bs[0]) + (spec_escape(bs.drop_first())
            + escape_byte(b)));
        assert(escape_byte(bs[0]) + (spec_escape(bs.drop_first()) + escape_byte(b)) =~= (
        escape_byte(bs[0]) + spec_escape(bs.drop_first())) + escape_byte(b));
    }
}

/// Append the escaped content bytes of `s` to `out`.
fn write_escaped(s: &str, out: &mut Vec<u8>)
    ensures
        final(out)@ == old(out)@ + spec_escape(s.spec_bytes()),
{
    let bytes = s.as_bytes();
    let n = bytes.len();
    let mut i: usize = 0;
    proof {
        assert(out@ =~= old(out)@ + spec_escape(bytes@.take(0)));
    }
    while i < n
        invariant
            0 <= i <= n,
            n == bytes@.len(),
            bytes@ == s.spec_bytes(),
            out@ == old(out)@ + spec_escape(bytes@.take(i as int)),
        decreases n - i,
    {
        let b = bytes[i];
        if b == 0x22 {
            out.push(0x5C);
            out.push(0x22);
        } else if b == 0x5C {
            out.push(0x5C);
            out.push(0x5C);
        } else if b == 0x08 {
            out.push(0x5C);
            out.push(0x62);
        } else if b == 0x09 {
            out.push(0x5C);
            out.push(0x74);
        } else if b == 0x0A {
            out.push(0x5C);
            out.push(0x6E);
        } else if b == 0x0C {
            out.push(0x5C);
            out.push(0x66);
        } else if b == 0x0D {
            out.push(0x5C);
            out.push(0x72);
        } else if b < 0x20 {
            proof {
                assert((b >> 4) < 16 && (b & 0xF) < 16) by (bit_vector);
            }
            out.push(0x5C);
            out.push(0x75);
            out.push(0x30);
            out.push(0x30);
            out.push(hex_digit(b >> 4));
            out.push(hex_digit(b & 0xF));
        } else {
            out.push(b);
        }
        proof {
            lemma_escape_snoc(bytes@.take(i as int), bytes@[i as int]);
            assert(bytes@.take(i + 1) =~= bytes@.take(i as int).push(bytes@[i as int]));
            assert(out@ =~= old(out)@ + spec_escape(bytes@.take(i + 1)));
        }
        i = i + 1;
    }
    proof {
        assert(bytes@.take(n as int) =~= bytes@);
    }
}

/// Append the single-byte form of each character of a number lexeme, which
/// `wf_number_lexeme` keeps ASCII.
fn write_lexeme(s: &str, out: &mut Vec<u8>)
    ensures
        final(out)@ == old(out)@ + ascii_bytes(s@),
{
    let n = s.unicode_len();
    let mut i: usize = 0;
    while i < n
        invariant
            0 <= i <= n,
            n == s@.len(),
            out@ == old(out)@ + ascii_bytes(s@).take(i as int),
        decreases n - i,
    {
        let c = s.get_char(i);
        let u = c as u32;
        out.push(u as u8);
        proof {
            assert(ascii_bytes(s@).take(i + 1) =~= ascii_bytes(s@).take(i as int).push(
                (s@[i as int] as u32) as u8,
            ));
            assert(out@ =~= old(out)@ + ascii_bytes(s@).take(i + 1));
        }
        i = i + 1;
    }
    proof {
        assert(ascii_bytes(s@).take(n as int) =~= ascii_bytes(s@));
    }
}

/// Append the rendering of `v` to `out`.
pub fn write_json(v: &JsonValue, out: &mut Vec<u8>)
    ensures
        final(out)@ == old(out)@ + spec_ser(v@),
    decreases v,
{
    match v {
        JsonValue::Null => {
            out.push(0x6E);
            out.push(0x75);
            out.push(0x6C);
            out.push(0x6C);
            proof {
                assert(out@ =~= old(out)@ + spec_ser(v@));
            }
        },
        JsonValue::Bool(b) => {
            if *b {
                out.push(0x74);
                out.push(0x72);
                out.push(0x75);
                out.push(0x65);
            } else {
                out.push(0x66);
                out.push(0x61);
                out.push(0x6C);
                out.push(0x73);
                out.push(0x65);
            }
            proof {
                assert(out@ =~= old(out)@ + spec_ser(v@));
            }
        },
        JsonValue::Number(lex) => {
            write_lexeme(lex.as_str(), out);
        },
        JsonValue::Text(s) => {
            out.push(0x22);
            write_escaped(s.as_str(), out);
            out.push(0x22);
            proof {
                assert(out@ =~= old(out)@ + spec_ser(v@));
            }
        },
        JsonValue::Array(items) => {
            out.push(0x5B);
            let ghost elems = v@->Array_0;
            let n = items.len();
            proof {
                lemma_json_view_list(items@);
            }
            let mut i: usize = 0;
            while i < n
                invariant
                    0 <= i <= n,
                    n == items@.len(),
                    *v == JsonValue::Array(*items),
                    elems == json_view_list(items@),
                    elems.len() == n,
                    forall|k: int| 0 <= k < n ==> elems[k] == json_view(#[trigger] items@[k]),
                    i < n ==> out@ == old(out)@ + seq![0x5Bu8] + spec_ser_elems(elems.take(
                        i as int,
                    )) + if i > 0 {
                        seq![0x2Cu8]
                    } else {
                        Seq::<u8>::empty()
                    },
                    (i == n && n > 0) ==> out@ == old(out)@ + seq![0x5Bu8] + spec_ser_elems(
                        elems.take(i as int),
                    ),
                    n == 0 ==> out@ == old(out)@ + seq![0x5Bu8],
                decreases n - i,
            {
                proof {
                    assert(decreases_to!(*items => items@[i as int]));
                    assert(decreases_to!(*v => (*v)->Array_0));
                    assert((*v)->Array_0 == *items);
                    assert(decreases_to!(*v => items@[i as int]));
                }
                write_json(&items[i], out);
                proof {
                    lemma_ser_elems_snoc(elems.take(i as int), elems[i as int]);
                    assert(elems.take(i + 1) =~= elems.take(i as int).push(elems[i as int]));
                }
                i = i + 1;
                if i < n {
                    out.push(0x2C);
                }
            }
            out.push(0x5D);
            proof {
                assert(elems.take(n as int) =~= elems);
                assert(out@ =~= old(out)@ + spec_ser(v@));
            }
        },
        JsonValue::Object(members) => {
            out.push(0x7B);
            let ghost membs = v@->Object_0;
            let n = members.len();
            proof {
                lemma_json_view_members(members@);
            }
            let mut i: usize = 0;
            while i < n
                invariant
                    0 <= i <= n,
                    n == members@.len(),
                    *v == JsonValue::Object(*members),
                    membs == json_view_members(members@),
                    membs.len() == n,
                    forall|k: int| 0 <= k < n ==> membs[k] == ((#[trigger] members@[k]).0@,
                    json_view(members@[k].1)),
                    i < n ==> out@ == old(out)@ + seq![0x7Bu8] + spec_ser_members(membs.take(
                        i as int,
                    )) + if i > 0 {
                        seq![0x2Cu8]
                    } else {
                        Seq::<u8>::empty()
                    },
                    (i == n && n > 0) ==> out@ == old(out)@ + seq![0x7Bu8] + spec_ser_members(
                        membs.take(i as int),
                    ),
                    n == 0 ==> out@ == old(out)@ + seq![0x7Bu8],
                decreases n - i,
            {
                out.push(0x22);
                write_escaped(members[i].0.as_str(), out);
                out.push(0x22);
                out.push(0x3A);
                proof {
                    assert(decreases_to!(*members => members@[i as int]));
                    assert(decreases_to!(*v => (*v)->Object_0));
                    assert((*v)->Object_0 == *members);
                    assert(decreases_to!(*v => members@[i as int].1));
                }
                write_json(&members[i].1, out);
                proof {
                    lemma_ser_members_snoc(membs.take(i as int), membs[i as int]);
                    assert(membs.take(i + 1) =~= membs.take(i as int).push(membs[i as int]));
                }
                i = i + 1;
                if i < n {
                    out.push(0x2C);
                }
            }
            out.push(0x7D);
            proof {
                assert(membs.take(n as int) =~= membs);
                assert(out@ =~= old(out)@ + spec_ser(v@));
            }
        },
    }
}

/// Serialize a tree to bytes.
pub fn to_json_bytes(v: &JsonValue) -> (out: Vec<u8>)
    ensures
        out@ == spec_ser(v@),
{
    let mut out: Vec<u8> = Vec::new();
    write_json(v, &mut out);
    proof {
        assert(out@ =~= spec_ser(v@));
    }
    out
}

proof fn lemma_ser_elems_snoc(elems: Seq<JsonView>, v: JsonView)
    ensures
        elems.len() == 0 ==> spec_ser_elems(elems.push(v)) == spec_ser(v),
        elems.len() > 0 ==> spec_ser_elems(elems.push(v)) == spec_ser_elems(elems)
            + seq![0x2Cu8] + spec_ser(v),
    decreases elems.len(),
{
    if elems.len() == 0 {
        assert(elems.push(v)[0] == v);
        assert(spec_ser_elems(elems.push(v)) == spec_ser(v));
    } else {
        let t = elems.push(v);
        assert(t.drop_first() =~= elems.drop_first().push(v));
        lemma_ser_elems_snoc(elems.drop_first(), v);
        if elems.len() == 1 {
            assert(spec_ser_elems(t) == spec_ser(elems[0]) + seq![0x2Cu8] + spec_ser_elems(
                t.drop_first(),
            ));
            assert(spec_ser_elems(t.drop_first()) == spec_ser(v));
        } else {
            assert(spec_ser_elems(t) == spec_ser(elems[0]) + seq![0x2Cu8] + (spec_ser_elems(
                elems.drop_first(),
            ) + seq![0x2Cu8] + spec_ser(v)));
            assert(spec_ser(elems[0]) + seq![0x2Cu8] + (spec_ser_elems(elems.drop_first())
                + seq![0x2Cu8] + spec_ser(v)) =~= (spec_ser(elems[0]) + seq![0x2Cu8]
                + spec_ser_elems(elems.drop_first())) + seq![0x2Cu8] + spec_ser(v));
        }
    }
}

proof fn lemma_ser_members_snoc(members: Seq<(Seq<char>, JsonView)>, m: (Seq<char>, JsonView))
    ensures
        ({
            let one = seq![0x22u8] + spec_escape(encode_utf8(m.0)) + seq![0x22u8, 0x3Au8]
                + spec_ser(m.1);
            &&& members.len() == 0 ==> spec_ser_members(members.push(m)) == one
            &&& members.len() > 0 ==> spec_ser_members(members.push(m)) == spec_ser_members(
                members,
            ) + seq![0x2Cu8] + one
        }),
    decreases members.len(),
{
    let one = seq![0x22u8] + spec_escape(encode_utf8(m.0)) + seq![0x22u8, 0x3Au8] + spec_ser(m.1);
    if members.len() == 0 {
        assert(members.push(m)[0] == m);
        assert(spec_ser_members(members.push(m)) == one);
    } else {
        let t = members.push(m);
        assert(t.drop_first() =~= members.drop_first().push(m));
        lemma_ser_members_snoc(members.drop_first(), m);
        let head = seq![0x22u8] + spec_escape(encode_utf8(members[0].0)) + seq![0x22u8, 0x3Au8]
            + spec_ser(members[0].1);
        assert(t[0] == members[0]);
        if members.len() == 1 {
            assert(spec_ser_members(t) == head + seq![0x2Cu8] + spec_ser_members(t.drop_first()));
            assert(spec_ser_members(t.drop_first()) == one);
        } else {
            assert(spec_ser_members(t) == head + seq![0x2Cu8] + (spec_ser_members(
                members.drop_first(),
            ) + seq![0x2Cu8] + one));
            assert(head + seq![0x2Cu8] + (spec_ser_members(members.drop_first()) + seq![0x2Cu8]
                + one) =~= (head + seq![0x2Cu8] + spec_ser_members(members.drop_first()))
                + seq![0x2Cu8] + one);
        }
    }
}

// ---------------------------------------------------------------------------
// Parsing: spec
// ---------------------------------------------------------------------------

/// First index at or after `i` holding a non-whitespace byte.
pub open spec fn spec_skip_ws(s: Seq<u8>, i: int) -> int
    recommends
        0 <= i <= s.len(),
    decreases s.len() - i when 0 <= i <= s.len()
{
    if i < s.len() && is_ws_byte(s[i]) {
        spec_skip_ws(s, i + 1)
    } else {
        i
    }
}

/// Value of a hexadecimal digit byte, either case; sixteen marks a
/// non-hex-digit.
pub open spec fn spec_hex_val(b: u8) -> int {
    if 0x30 <= b <= 0x39 {
        b - 0x30
    } else if 0x61 <= b <= 0x66 {
        b - 0x61 + 10
    } else if 0x41 <= b <= 0x46 {
        b - 0x41 + 10
    } else {
        16
    }
}

/// The code unit of four hex digit bytes at `i`, or `None` if any is not a
/// hex digit.
pub open spec fn spec_hex4(s: Seq<u8>, i: int) -> Option<int>
    recommends
        0 <= i && i + 4 <= s.len(),
{
    let v0 = spec_hex_val(s[i]);
    let v1 = spec_hex_val(s[i + 1]);
    let v2 = spec_hex_val(s[i + 2]);
    let v3 = spec_hex_val(s[i + 3]);
    if v0 < 16 && v1 < 16 && v2 < 16 && v3 < 16 {
        Some(v0 * 4096 + v1 * 256 + v2 * 16 + v3)
    } else {
        None
    }
}

/// Prefix the content of a string-scan outcome.
pub open spec fn prepend_scan(pre: Seq<u8>, r: Option<(Seq<u8>, int)>) -> Option<(Seq<u8>, int)> {
    match r {
        None => None,
        Some((cs, j)) => Some((pre + cs, j)),
    }
}

/// Scan the content of a JSON string from `i` (just after the opening
/// quote) to its closing quote: unescaped content bytes and the index after
/// the closing quote. `None` on an unterminated string, a bad escape, a lone
/// surrogate or a raw control byte.
pub open spec fn spec_scan_string(s: Seq<u8>, i: int) -> Option<(Seq<u8>, int)>
    recommends
        0 <= i <= s.len(),
    decreases s.len() - i when 0 <= i <= s.len()
{
    if i >= s.len() {
        None
    } else if s[i] == 0x22u8 {
        Some((Seq::empty(), i + 1))
    } else if s[i] == 0x5Cu8 {
        if i + 1 >= s.len() {
            None
        } else {
            let e = s[i + 1];
            if e == 0x22u8 || e == 0x5Cu8 || e == 0x2Fu8 {
                prepend_scan(seq![e], spec_scan_string(s, i + 2))
            } else if e == 0x62u8 {
                prepend_scan(seq![0x08u8], spec_scan_string(s, i + 2))
            } else if e == 0x74u8 {
                prepend_scan(seq![0x09u8], spec_scan_string(s, i + 2))
            } else if e == 0x6Eu8 {
                prepend_scan(seq![0x0Au8], spec_scan_string(s, i + 2))
            } else if e == 0x66u8 {
                prepend_scan(seq![0x0Cu8], spec_scan_string(s, i + 2))
            } else if e == 0x72u8 {
                prepend_scan(seq![0x0Du8], spec_scan_string(s, i + 2))
            } else if e == 0x75u8 {
                if i + 6 > s.len() {
                    None
                } else {
                    match spec_hex4(s, i + 2) {
                        None => None,
                        Some(cu) => if 0xD800 <= cu < 0xDC00 {
                            if i + 12 <= s.len() && s[i + 6] == 0x5Cu8 && s[i + 7] == 0x75u8 {
                                match spec_hex4(s, i + 8) {
                                    None => None,
                                    Some(cu2) => if 0xDC00 <= cu2 < 0xE000 {
                                        let scalar = 0x10000 + (cu - 0xD800) * 0x400 + (cu2
                                            - 0xDC00);
                                        prepend_scan(
                                            encode_scalar(scalar as u32),
                                            spec_scan_string(s, i + 12),
                                        )
                                    } else {
                                        None
                                    },
                                }
                            } else {
                                None
                            }
                        } else if 0xDC00 <= cu < 0xE000 {
                            None
                        } else {
                            prepend_scan(encode_scalar(cu as u32), spec_scan_string(s, i + 6))
                        },
                    }
                }
            } else {
                None
            }
        }
    } else if s[i] < 0x20u8 {
        None
    } else {
        prepend_scan(seq![s[i]], spec_scan_string(s, i + 1))
    }
}

/// The characters denoted by a sequence of ASCII bytes.
pub open spec fn byte_chars(bs: Seq<u8>) -> Seq<char> {
    Seq::new(bs.len(), |k: int| (bs[k] as u32) as char)
}

/// What the parser yields for the value starting at `i`, and where it ends.
/// The fuel bounds recursion depth; `spec_parse_json` supplies more than any
/// input of its length can use.
pub open spec fn spec_parse_value(s: Seq<u8>, i: int, fuel: nat) -> Option<(JsonView, int)>
    recommends
        0 <= i <= s.len(),
    decreases fuel,
{
    if fuel == 0 {
        None
    } else {
        let i = spec_skip_ws(s, i);
        if i >= s.len() {
            None
        } else if s[i] == 0x6Eu8 {
            if i + 4 <= s.len() && s[i + 1] == 0x75u8 && s[i + 2] == 0x6Cu8 && s[i + 3] == 0x6Cu8 {
                Some((JsonView::Null, i + 4))
            } else {
                None
            }
        } else if s[i] == 0x74u8 {
            if i + 4 <= s.len() && s[i + 1] == 0x72u8 && s[i + 2] == 0x75u8 && s[i + 3] == 0x65u8 {
                Some((JsonView::Bool(true), i + 4))
            } else {
                None
            }
        } else if s[i] == 0x66u8 {
            if i + 5 <= s.len() && s[i + 1] == 0x61u8 && s[i + 2] == 0x6Cu8 && s[i + 3] == 0x73u8
                && s[i + 4] == 0x65u8 {
                Some((JsonView::Bool(false), i + 5))
            } else {
                None
            }
        } else if s[i] == 0x22u8 {
            match spec_scan_string(s, i + 1) {
                None => None,
                Some((cs, j)) => if valid_utf8(cs) {
                    Some((JsonView::Text(decode_utf8(cs)), j))
                } else {
                    None
                },
            }
        } else if s[i] == 0x5Bu8 {
            let k = spec_skip_ws(s, i + 1);
            if k < s.len() && s[k] == 0x5Du8 {
                Some((JsonView::Array(Seq::empty()), k + 1))
            } else {
                match spec_parse_elements(s, i + 1, (fuel - 1) as nat) {
                    None => None,
                    Some((elems, j)) => Some((JsonView::Array(elems), j)),
                }
            }
        } else if s[i] == 0x7Bu8 {
            let k = spec_skip_ws(s, i + 1);
            if k < s.len() && s[k] == 0x7Du8 {
                Some((JsonView::Object(Seq::empty()), k + 1))
            } else {
                match spec_parse_members(s, i + 1, (fuel - 1) as nat) {
                    None => None,
                    Some((members, j)) => Some((JsonView::Object(members), j)),
                }
            }
        } else if s[i] == 0x2Du8 || is_digit_byte(s[i]) {
            match spec_number_end(s, i) {
                None => None,
                Some(j) => Some((JsonView::Number(byte_chars(s.subrange(i, j))), j)),
            }
        } else {
            None
        }
    }
}

/// One or more comma-separated array elements from `i` up to the closing
/// bracket.
pub open spec fn spec_parse_elements(s: Seq<u8>, i: int, fuel: nat) -> Option<
    (Seq<JsonView>, int),
>
    recommends
        0 <= i <= s.len(),
    decreases fuel,
{
    if fuel == 0 {
        None
    } else {
        match spec_parse_value(s, i, (fuel - 1) as nat) {
            None => None,
            Some((v, j)) => {
                let k = spec_skip_ws(s, j);
                if k < s.len() && s[k] == 0x2Cu8 {
                    match spec_parse_elements(s, k + 1, (fuel - 1) as nat) {
                        None => None,
                        Some((rest, m)) => Some((seq![v] + rest, m)),
                    }
                } else if k < s.len() && s[k] == 0x5Du8 {
                    Some((seq![v], k + 1))
                } else {
                    None
                }
            },
        }
    }
}

/// One or more comma-separated object members from `i` up to the closing
/// brace.
pub open spec fn spec_parse_members(s: Seq<u8>, i: int, fuel: nat) -> Option<
    (Seq<(Seq<char>, JsonView)>, int),
>
    recommends
        0 <= i <= s.len(),
    decreases fuel,
{
    if fuel == 0 {
        None
    } else {
        let k = spec_skip_ws(s, i);
        if k >= s.len() || s[k] != 0x22u8 {
            None
        } else {
            match spec_scan_string(s, k + 1) {
                None => None,
                Some((kb, j)) => if !valid_utf8(kb) {
                    None
                } else {
                    let key = decode_utf8(kb);
                    let c = spec_skip_ws(s, j);
                    if c >= s.len() || s[c] != 0x3Au8 {
                        None
                    } else {
                        match spec_parse_value(s, c + 1, (fuel - 1) as nat) {
                            None => None,
                            Some((v, j2)) => {
                                let k2 = spec_skip_ws(s, j2);
                                if k2 < s.len() && s[k2] == 0x2Cu8 {
                                    match spec_parse_members(s, k2 + 1, (fuel - 1) as nat) {
                                        None => None,
                                        Some((rest, m)) => Some((seq![(key, v)] + rest, m)),
                                    }
                                } else if k2 < s.len() && s[k2] == 0x7Du8 {
                                    Some((seq![(key, v)], k2 + 1))
                                } else {
                                    None
                                }
                            },
                        }
                    }
                },
            }
        }
    }
}

/// The fuel `spec_parse_json` grants an input: ample for any nesting its
/// length allows.
pub open spec fn spec_parse_fuel(s: Seq<u8>) -> nat {
    (2 * s.len() + 2) as nat
}

/// What parsing a whole document yields: one value, with nothing but
/// whitespace around it.
pub open spec fn spec_parse_json(s: Seq<u8>) -> Option<JsonView> {
    match spec_parse_value(s, 0, spec_parse_fuel(s)) {
        None => None,
        Some((v, j)) => if spec_skip_ws(s, j) == s.len() {
            Some(v)
        } else {
            None
        },
    }
}

// ---------------------------------------------------------------------------
// Parsing: executable
// ---------------------------------------------------------------------------

fn skip_ws(s: &[u8], i: usize) -> (r: usize)
    requires
        i <= s@.len(),
    ensures
        r == spec_skip_ws(s@, i as int),
        i <= r <= s@.len(),
{
    let n = s.len();
    let mut j = i;
    while j < n && (s[j] == 0x20 || s[j] == 0x09 || s[j] == 0x0A || s[j] == 0x0D)
        invariant
            i <= j <= n,
            n == s@.len(),
            spec_skip_ws(s@, i as int) == spec_skip_ws(s@, j as int),
        decreases n - j,
    {
        j = j + 1;
    }
    j
}

fn hex_val(b: u8) -> (r: u8)
    ensures
        r as int == spec_hex_val(b),
{
    if 0x30 <= b && b <= 0x39 {
        b - 0x30
    } else if 0x61 <= b && b <= 0x66 {
        b - 0x61 + 10
    } else if 0x41 <= b && b <= 0x46 {
        b - 0x41 + 10
    } else {
        16
    }
}

fn hex4(s: &[u8], i: usize) -> (r: Option<u32>)
    requires
        i + 4 <= s@.len(),
    ensures
        r is None ==> spec_hex4(s@, i as int) is None,
        r matches Some(v) ==> spec_hex4(s@, i as int) == Some(v as int),
{
    let v0 = hex_val(s[i]);
    let v1 = hex_val(s[i + 1]);
    let v2 = hex_val(s[i + 2]);
    let v3 = hex_val(s[i + 3]);
    if v0 < 16 && v1 < 16 && v2 < 16 && v3 < 16 {
        Some((v0 as u32) * 4096 + (v1 as u32) * 256 + (v2 as u32) * 16 + (v3 as u32))
    } else {
        None
    }
}

/// Append the UTF-8 encoding of a Unicode scalar to `out`.
fn push_scalar(v: u32, out: &mut Vec<u8>)
    requires
        vstd::utf8::is_scalar(v),
    ensures
        final(out)@ == old(out)@ + encode_scalar(v),
{
    if v <= 0x7F {
        out.push((v & 0x7F) as u8);
        proof {
            assert(out@ =~= old(out)@ + encode_scalar(v));
        }
    } else if v <= 0x7FF {
        out.push(0xC0 | ((v >> 6) & 0x1F) as u8);
        out.push(0x80 | (v & 0x3F) as u8);
        proof {
            assert(out@ =~= old(out)@ + encode_scalar(v));
        }
    } else if v <= 0xFFFF {
        out.push(0xE0 | ((v >> 12) & 0x0F) as u8);
        out.push(0x80 | ((v >> 6) & 0x3F) as u8);
        out.push(0x80 | (v & 0x3F) as u8);
        proof {
            assert(out@ =~= old(out)@ + encode_scalar(v));
        }
    } else {
        out.push(0xF0 | ((v >> 18) & 0x7) as u8);
        out.push(0x80 | ((v >> 12) & 0x3F) as u8);
        out.push(0x80 | ((v >> 6) & 0x3F) as u8);
        out.push(0x80 | (v & 0x3F) as u8);
        proof {
            assert(out@ =~= old(out)@ + encode_scalar(v));
        }
    }
}

proof fn lemma_prepend_scan_assoc(a: Seq<u8>, b: Seq<u8>, r: Option<(Seq<u8>, int)>)
    ensures
        prepend_scan(a, prepend_scan(b, r)) == prepend_scan(a + b, r),
{
    match r {
        None => {},
        Some((cs, j)) => {
            assert(a + (b + cs) =~= (a + b) + cs);
        },
    }
}

/// Scan a JSON string's content from just after its opening quote,
/// producing the unescaped bytes and the index after the closing quote.
fn scan_string(s: &[u8], start: usize) -> (r: Option<(Vec<u8>, usize)>)
    requires
        start <= s@.len(),
    ensures
        r is None ==> spec_scan_string(s@, start as int) is None,
        r matches Some((cs, j)) ==> spec_scan_string(s@, start as int) == Some((cs@, j as int))
            && start <= j <= s@.len(),
    decreases s@.len() - start,
{
    let n = s.len();
    let mut acc: Vec<u8> = Vec::new();
    let mut i = start;
    proof {
        assert(acc@ + Seq::<u8>::empty() =~= Seq::<u8>::empty());
    }
    loop
        invariant
            start <= i <= n,
            n == s@.len(),
            spec_scan_string(s@, start as int) == prepend_scan(
                acc@,
                spec_scan_string(s@, i as int),
            ),
        decreases n - i,
    {
        if i >= n {
            return None;
        }
        let b = s[i];
        if b == 0x22 {
            proof {
                assert(acc@ + Seq::<u8>::empty() =~= acc@);
            }
            return Some((acc, i + 1));
        } else if b == 0x5C {
            if i + 1 >= n {
                return None;
            }
            let e = s[i + 1];
            let ghost i0 = i as int;
            if e == 0x22 || e == 0x5C || e == 0x2F {
                proof {
                    lemma_prepend_scan_assoc(acc@, seq![e], spec_scan_string(s@, i0 + 2));
                    assert(acc@.push(e) =~= acc@ + seq![e]);
                }
                acc.push(e);
                i = i + 2;
            } else if e == 0x62 || e == 0x74 || e == 0x6E || e == 0x66 || e == 0x72 {
                let c: u8 = if e == 0x62 {
                    0x08
                } else if e == 0x74 {
                    0x09
                } else if e == 0x6E {
                    0x0A
                } else if e == 0x66 {
                    0x0C
                } else {
                    0x0D
                };
                proof {
                    lemma_prepend_scan_assoc(acc@, seq![c], spec_scan_string(s@, i0 + 2));
                    assert(acc@.push(c) =~= acc@ + seq![c]);
                }
                acc.push(c);
                i = i + 2;
            } else if e == 0x75 {
                if n - i < 6 {
                    return None;
                }
                let cu_opt = hex4(s, i + 2);
                match cu_opt {
                    None => {
                        return None;
                    },
                    Some(cu) => {
                        if 0xD800 <= cu && cu < 0xDC00 {
                            if n - i >= 12 && s[i + 6] == 0x5C && s[i + 7] == 0x75 {
                                let cu2_opt = hex4(s, i + 8);
                                match cu2_opt {
                                    None => {
                                        return None;
                                    },
                                    Some(cu2) => {
                                        if 0xDC00 <= cu2 && cu2 < 0xE000 {
                                            let scalar: u32 = 0x10000 + (cu - 0xD800) * 0x400 + (
                                            cu2 - 0xDC00);
                                            let ghost acc0 = acc@;
                                            proof {
                                                lemma_prepend_scan_assoc(
                                                    acc@,
                                                    encode_scalar(scalar),
                                                    spec_scan_string(s@, i0 + 12),
                                                );
                                            }
                                            push_scalar(scalar, &mut acc);
                                            i = i + 12;
                                        } else {
                                            return None;
                                        }
                                    },
                                }
                            } else {
                                return None;
                            }
                        } else if 0xDC00 <= cu && cu < 0xE000 {
                            return None;
                        } else {
                            proof {
                                lemma_prepend_scan_assoc(
                                    acc@,
                                    encode_scalar(cu),
                                    spec_scan_string(s@, i0 + 6),
                                );
                            }
                            push_scalar(cu, &mut acc);
                            i = i + 6;
                        }
                    },
                }
            } else {
                return None;
            }
        } else if b < 0x20 {
            return None;
        } else {
            proof {
                lemma_prepend_scan_assoc(acc@, seq![b], spec_scan_string(s@, i + 1));
                assert(acc@.push(b) =~= acc@ + seq![b]);
            }
            acc.push(b);
            i = i + 1;
        }
    }
}

fn scan_digits(s: &[u8], i: usize) -> (r: usize)
    requires
        i <= s@.len(),
    ensures
        r as int == scan_digit_bytes(s@, i as int),
        i <= r <= s@.len(),
{
    let n = s.len();
    let mut j = i;
    while j < n && 0x30 <= s[j] && s[j] <= 0x39
        invariant
            i <= j <= n,
            n == s@.len(),
            scan_digit_bytes(s@, i as int) == scan_digit_bytes(s@, j as int),
        decreases n - j,
    {
        j = j + 1;
    }
    j
}

/// Find where the number starting at `i` ends, validating its grammar.
fn number_end(s: &[u8], i: usize) -> (r: Option<usize>)
    requires
        i <= s@.len(),
    ensures
        r is None ==> spec_number_end(s@, i as int) is None,
        r matches Some(j) ==> spec_number_end(s@, i as int) == Some(j as int) && i <= j
            <= s@.len(),
{
    let n = s.len();
    let m = if i < n && s[i] == 0x2D {
        i + 1
    } else {
        i
    };
    if !(m < n && 0x30 <= s[m] && s[m] <= 0x39) {
        return None;
    }
    let int_end = if s[m] == 0x30 {
        m + 1
    } else {
        scan_digits(s, m)
    };
    let fe: usize;
    if int_end < n && s[int_end] == 0x2E {
        let d = scan_digits(s, int_end + 1);
        if d > int_end + 1 {
            fe = d;
        } else {
            return None;
        }
    } else {
        fe = int_end;
    }
    if fe < n && (s[fe] == 0x65 || s[fe] == 0x45) {
        let es = if fe + 1 < n && (s[fe + 1] == 0x2B || s[fe + 1] == 0x2D) {
            fe + 2
        } else {
            fe + 1
        };
        let d = scan_digits(s, es);
        if d > es {
            Some(d)
        } else {
            None
        }
    } else {
        Some(fe)
    }
}

/// Digit bytes are exactly what `scan_digit_bytes` passes over.
proof fn lemma_scan_digits_range(s: Seq<u8>, i: int)
    requires
        0 <= i <= s.len(),
    ensures
        i <= scan_digit_bytes(s, i) <= s.len(),
        forall|k: int| i <= k < scan_digit_bytes(s, i) ==> is_digit_byte(#[trigger] s[k]),
    decreases s.len() - i,
{
    if i < s.len() && is_digit_byte(s[i]) {
        lemma_scan_digits_range(s, i + 1);
    }
}

/// Every byte of a valid number is an ASCII number byte.
proof fn lemma_number_bytes(s: Seq<u8>, i: int)
    requires
        0 <= i <= s.len(),
        spec_number_end(s, i) is Some,
    ensures
        i < spec_number_end(s, i)->0 <= s.len(),
        forall|k: int| i <= k < spec_number_end(s, i)->0 ==> is_number_byte(#[trigger] s[k]),
{
    let m = if i < s.len() && s[i] == 0x2Du8 {
        i + 1
    } else {
        i
    };
    assert(m < s.len() && is_digit_byte(s[m]));
    let int_end = if s[m] == 0x30u8 {
        m + 1
    } else {
        scan_digit_bytes(s, m)
    };
    lemma_scan_digits_range(s, m);
    if s[m] != 0x30u8 {
        assert(scan_digit_bytes(s, m) == scan_digit_bytes(s, m + 1));
        lemma_scan_digits_range(s, m + 1);
    }
    assert(int_end > m);
    let frac_end = if int_end < s.len() && s[int_end] == 0x2Eu8 {
        let d = scan_digit_bytes(s, int_end + 1);
        if d > int_end + 1 {
            Some(d)
        } else {
            None::<int>
        }
    } else {
        Some(int_end)
    };
    if int_end < s.len() && s[int_end] == 0x2Eu8 {
        lemma_scan_digits_range(s, int_end + 1);
    }
    assert(frac_end is Some);
    let fe = frac_end->0;
    assert(forall|k: int| i <= k < fe ==> is_number_byte(#[trigger] s[k]));
    if fe < s.len() && (s[fe] == 0x65u8 || s[fe] == 0x45u8) {
        let es = if fe + 1 < s.len() && (s[fe + 1] == 0x2Bu8 || s[fe + 1] == 0x2Du8) {
            fe + 2
        } else {
            fe + 1
        };
        lemma_scan_digits_range(s, es);
        let d = scan_digit_bytes(s, es);
        assert(d > es);
        assert(spec_number_end(s, i) == Some(d));
        assert(forall|k: int| i <= k < d ==> is_number_byte(#[trigger] s[k]));
    } else {
        assert(spec_number_end(s, i) == Some(fe));
    }
}

/// ASCII bytes are valid UTF-8 and decode one character per byte.
proof fn lemma_ascii_decode(bs: Seq<u8>)
    requires
        forall|k: int| 0 <= k < bs.len() ==> (#[trigger] bs[k]) < 0x80,
    ensures
        valid_utf8(bs),
        decode_utf8(bs) == byte_chars(bs),
    decreases bs.len(),
{
    if bs.len() == 0 {
        assert(decode_utf8(bs) =~= byte_chars(bs));
    } else {
        let b = bs[0];
        assert((b & 0x80u8) == 0 && (b & 0x7Fu8) == b) by (bit_vector)
            requires
                b < 0x80,
        ;
        assert(vstd::utf8::is_leading_byte_width_1(b));
        assert(vstd::utf8::length_of_first_scalar(bs) == 1);
        assert(vstd::utf8::decode_first_scalar(bs) == b as u32);
        let rest = vstd::utf8::pop_first_scalar(bs);
        assert(rest =~= bs.drop_first());
        lemma_ascii_decode(rest);
        assert(valid_utf8(bs));
        assert(decode_utf8(bs) == seq![(b as u32) as char] + decode_utf8(rest));
        assert(decode_utf8(bs) =~= byte_chars(bs));
    }
}

/// Parse the value starting at `i`.
fn parse_value(s: &[u8], i: usize, fuel: u128) -> (r: Option<(JsonValue, usize)>)
    requires
        i <= s@.len(),
    ensures
        r is None ==> spec_parse_value(s@, i as int, fuel as nat) is None,
        r matches Some((v, j)) ==> spec_parse_value(s@, i as int, fuel as nat) == Some(
            (v@, j as int),
        ) && i <= j <= s@.len(),
    decreases fuel,
{
    if fuel == 0 {
        return None;
    }
    let n = s.len();
    let i = skip_ws(s, i);
    if i >= n {
        return None;
    }
    let b = s[i];
    if b == 0x6E {
        if n - i >= 4 && s[i + 1] == 0x75 && s[i + 2] == 0x6C && s[i + 3] == 0x6C {
            Some((JsonValue::Null, i + 4))
        } else {
            None
        }
    } else if b == 0x74 {
        if n - i >= 4 && s[i + 1] == 0x72 && s[i + 2] == 0x75 && s[i + 3] == 0x65 {
            Some((JsonValue::Bool(true), i + 4))
        } else {
            None
        }
    } else if b == 0x66 {
        if n - i >= 5 && s[i + 1] == 0x61 && s[i + 2] == 0x6C && s[i + 3] == 0x73 && s[i + 4]
            == 0x65 {
            Some((JsonValue::Bool(false), i + 5))
        } else {
            None
        }
    } else if b == 0x22 {
        match scan_string(s, i + 1) {
            None => None,
            Some((cs, j)) => {
                match crate::text::utf8_to_string(cs) {
                    None => None,
                    Some(st) => Some((JsonValue::Text(st), j)),
                }
            },
        }
    } else if b == 0x5B {
        let k = skip_ws(s, i + 1);
        if k < n && s[k] == 0x5D {
            Some((JsonValue::Array(Vec::new()), k + 1))
        } else {
            match parse_elements(s, i + 1, fuel - 1) {
                None => None,
                Some((ev, j)) => Some((JsonValue::Array(ev), j)),
            }
        }
    } else if b == 0x7B {
        let k = skip_ws(s, i + 1);
        if k < n && s[k] == 0x7D {
            Some((JsonValue::Object(Vec::new()), k + 1))
        } else {
            match parse_members(s, i + 1, fuel - 1) {
                None => None,
                Some((mv, j)) => Some((JsonValue::Object(mv), j)),
            }
        }
    } else if b == 0x2D || (0x30 <= b && b <= 0x39) {
        match number_end(s, i) {
            None => None,
            Some(j) => {
                let mut lexv: Vec<u8> = Vec::new();
                let mut k = i;
                while k < j
                    invariant
                        i <= k <= j <= s@.len(),
                        lexv@ == s@.subrange(i as int, k as int),
                    decreases j - k,
                {
                    lexv.push(s[k]);
                    proof {
                        assert(s@.subrange(i as int, k + 1) =~= s@.subrange(i as int,
                        k as int).push(s@[k as int]));
                    }
                    k = k + 1;
                }
                proof {
                    lemma_number_bytes(s@, i as int);
                    assert(forall|t: int| 0 <= t < lexv@.len() ==> (#[trigger] lexv@[t]) < 0x80)
                        by {
                        assert(forall|t: int| 0 <= t < lexv@.len() ==> lexv@[t] == s@[i + t]
                            && is_number_byte(#[trigger] lexv@[t]));
                    }
                    lemma_ascii_decode(lexv@);
                }
                match crate::text::utf8_to_string(lexv) {
                    None => {
                        proof {
                            assert(false);
                        }
                        None
                    },
                    Some(st) => Some((JsonValue::Number(st), j)),
                }
            },
        }
    } else {
        None
    }
}

/// Parse the comma-separated elements of a non-empty array.
fn parse_elements(s: &[u8], i: usize, fuel: u128) -> (r: Option<(Vec<JsonValue>, usize)>)
    requires
        i <= s@.len(),
    ensures
        r is None ==> spec_parse_elements(s@, i as int, fuel as nat) is None,
        r matches Some((ev, j)) ==> spec_parse_elements(s@, i as int, fuel as nat) == Some(
            (json_view_list(ev@), j as int),
        ) && i <= j <= s@.len(),
    decreases fuel,
{
    if fuel == 0 {
        return None;
    }
    match parse_value(s, i, fuel - 1) {
        None => None,
        Some((v, j)) => {
            let n = s.len();
            let k = skip_ws(s, j);
            if k < n && s[k] == 0x2C {
                match parse_elements(s, k + 1, fuel - 1) {
                    None => None,
                    Some((mut rest, m)) => {
                        let ghost rest0 = rest@;
                        let mut out: Vec<JsonValue> = Vec::new();
                        out.push(v);
                        out.append(&mut rest);
                        proof {
                            assert(out@ =~= seq![v] + rest0);
                            lemma_json_view_list_concat(seq![v], rest0);
                            lemma_json_view_list_singleton(v);
                        }
                        Some((out, m))
                    },
                }
            } else if k < n && s[k] == 0x5D {
                let mut out: Vec<JsonValue> = Vec::new();
                out.push(v);
                proof {
                    assert(out@ =~= seq![v]);
                    lemma_json_view_list_singleton(v);
                }
                Some((out, k + 1))
            } else {
                None
            }
        },
    }
}

/// Parse the comma-separated members of a non-empty object.
fn parse_members(s: &[u8], i: usize, fuel: u128) -> (r: Option<(Vec<(String, JsonValue)>, usize)>)
    requires
        i <= s@.len(),
    ensures
        r is None ==> spec_parse_members(s@, i as int, fuel as nat) is None,
        r matches Some((mv, j)) ==> spec_parse_members(s@, i as int, fuel as nat) == Some(
            (json_view_members(mv@), j as int),
        ) && i <= j <= s@.len(),
    decreases fuel,
{
    if fuel == 0 {
        return None;
    }
    let n = s.len();
    let k = skip_ws(s, i);
    if k >= n || s[k] != 0x22 {
        return None;
    }
    match scan_string(s, k + 1) {
        None => None,
        Some((kb, j)) => {
            match crate::text::utf8_to_string(kb) {
                None => None,
                Some(key) => {
                    let c = skip_ws(s, j);
                    if c >= n || s[c] != 0x3A {
                        return None;
                    }
                    match parse_value(s, c + 1, fuel - 1) {
                        None => None,
                        Some((v, j2)) => {
                            let k2 = skip_ws(s, j2);
                            if k2 < n && s[k2] == 0x2C {
                                match parse_members(s, k2 + 1, fuel - 1) {
                                    None => None,
                                    Some((mut rest, m)) => {
                                        let ghost rest0 = rest@;
                                        let ghost keyv = key@;
                                        let ghost vv = json_view(v);
                                        let mut out: Vec<(String, JsonValue)> = Vec::new();
                                        out.push((key, v));
                                        out.append(&mut rest);
                                        proof {
                                            assert(out@ =~= seq![out@[0]] + rest0);
                                            lemma_json_view_members_concat(seq![out@[0]], rest0);
                                            lemma_json_view_members_singleton(out@[0]);
                                            assert(out@[0].0@ == keyv && json_view(out@[0].1)
                                                == vv);
                                        }
                                        Some((out, m))
                                    },
                                }
                            } else if k2 < n && s[k2] == 0x7D {
                                let ghost keyv = key@;
                                let ghost vv = json_view(v);
                                let mut out: Vec<(String, JsonValue)> = Vec::new();
                                out.push((key, v));
                                proof {
                                    assert(out@ =~= seq![out@[0]]);
                                    lemma_json_view_members_singleton(out@[0]);
                                    assert(out@[0].0@ == keyv && json_view(out@[0].1) == vv);
                                }
                                Some((out, k2 + 1))
                            } else {
                                None
                            }
                        },
                    }
                },
            }
        },
    }
}

/// The shape of a one-element item list.
pub proof fn lemma_json_view_list_singleton(v: JsonValue)
    ensures
        json_view_list(seq![v]) == seq![json_view(v)],
{
    assert(seq![v].drop_first() =~= Seq::<JsonValue>::empty());
    assert(json_view_list(Seq::<JsonValue>::empty()) =~= Seq::<JsonView>::empty());
    assert(json_view_list(seq![v]) =~= seq![json_view(v)]);
}

/// The shape of a one-member list.
pub proof fn lemma_json_view_members_singleton(m: (String, JsonValue))
    ensures
        json_view_members(seq![m]) == seq![(m.0@, json_view(m.1))],
{
    assert(seq![m].drop_first() =~= Seq::<(String, JsonValue)>::empty());
    assert(json_view_members(Seq::<(String, JsonValue)>::empty()) =~= Seq::<
        (Seq<char>, JsonView),
    >::empty());
    assert(json_view_members(seq![m]) =~= seq![(m.0@, json_view(m.1))]);
}

/// `json_view_list` distributes over concatenation.
pub proof fn lemma_json_view_list_concat(a: Seq<JsonValue>, b: Seq<JsonValue>)
    ensures
        json_view_list(a + b) == json_view_list(a) + json_view_list(b),
    decreases a.len(),
{
    if a.len() == 0 {
        assert(a + b =~= b);
        assert(json_view_list(a) =~= Seq::<JsonView>::empty());
        assert(json_view_list(a) + json_view_list(b) =~= json_view_list(b));
    } else {
        assert((a + b).drop_first() =~= a.drop_first() + b);
        lemma_json_view_list_concat(a.drop_first(), b);
        assert((a + b)[0] == a[0]);
        assert(json_view_list(a + b) == seq![json_view(a[0])] + (json_view_list(a.drop_first())
            + json_view_list(b)));
        assert(seq![json_view(a[0])] + (json_view_list(a.drop_first()) + json_view_list(b)) =~= (
        seq![json_view(a[0])] + json_view_list(a.drop_first())) + json_view_list(b));
    }
}

/// `json_view_members` distributes over concatenation.
pub proof fn lemma_json_view_members_concat(
    a: Seq<(String, JsonValue)>,
    b: Seq<(String, JsonValue)>,
)
    ensures
        json_view_members(a + b) == json_view_members(a) + json_view_members(b),
    decreases a.len(),
{
    if a.len() == 0 {
        assert(a + b =~= b);
        assert(json_view_members(a) =~= Seq::<(Seq<char>, JsonView)>::empty());
        assert(json_view_members(a) + json_view_members(b) =~= json_view_members(b));
    } else {
        assert((a + b).drop_first() =~= a.drop_first() + b);
        lemma_json_view_members_concat(a.drop_first(), b);
        assert((a + b)[0] == a[0]);
        assert(json_view_members(a + b) == seq![(a[0].0@, json_view(a[0].1))] + (
        json_view_members(a.drop_first()) + json_view_members(b)));
        assert(seq![(a[0].0@, json_view(a[0].1))] + (json_view_members(a.drop_first())
            + json_view_members(b)) =~= (seq![(a[0].0@, json_view(a[0].1))] + json_view_members(
            a.drop_first(),
        )) + json_view_members(b));
    }
}

/// Parse one whole JSON document from raw bytes.
pub fn parse_json(s: &[u8]) -> (r: Option<JsonValue>)
    ensures
        r is None ==> spec_parse_json(s@) is None,
        r matches Some(v) ==> spec_parse_json(s@) == Some(v@),
{
    let fuel: u128 = 2 * (s.len() as u128) + 2;
    match parse_value(s, 0, fuel) {
        None => None,
        Some((v, j)) => {
            let k = skip_ws(s, j);
            if k == s.len() {
                Some(v)
            } else {
                None
            }
        },
    }
}

// ---------------------------------------------------------------------------
// Round trip: serializing a well-formed tree and parsing it back
// ---------------------------------------------------------------------------

/// Recursion fuel that suffices to parse the rendering of `v`.
pub open spec fn fuel_for(v: JsonView) -> nat
    decreases v,
{
    match v {
        JsonView::Array(elems) => 1 + fuel_for_elems(elems),
        JsonView::Object(members) => 1 + fuel_for_members(members),
        _ => 1,
    }
}

pub open spec fn fuel_for_elems(elems: Seq<JsonView>) -> nat
    decreases elems,
{
    if elems.len() == 0 {
        1
    } else if elems.len() == 1 {
        1 + fuel_for(elems[0])
    } else {
        1 + fuel_for(elems[0]) + fuel_for_elems(elems.drop_first())
    }
}

pub open spec fn fuel_for_members(members: Seq<(Seq<char>, JsonView)>) -> nat
    decreases members,
{
    if members.len() == 0 {
        1
    } else if members.len() == 1 {
        1 + fuel_for(members[0].1)
    } else {
        1 + fuel_for(members[0].1) + fuel_for_members(members.drop_first())
    }
}

/// Bytes of a window within `s` read back elementwise.
proof fn lemma_seq_window(s: Seq<u8>, i: int, w: Seq<u8>)
    requires
        0 <= i,
        i + w.len() <= s.len(),
        s.subrange(i, i + w.len()) == w,
    ensures
        forall|k: int| 0 <= k < w.len() ==> s[i + k] == #[trigger] w[k],
{
    assert forall|k: int| 0 <= k < w.len() implies s[i + k] == #[trigger] w[k] by {
        assert(w[k] == s.subrange(i, i + w.len())[k]);
    }
}

/// A later part of a window is itself a window.
proof fn lemma_sub_window(s: Seq<u8>, i: int, w: Seq<u8>, off: int, part: Seq<u8>)
    requires
        0 <= i,
        i + w.len() <= s.len(),
        s.subrange(i, i + w.len()) == w,
        0 <= off,
        off + part.len() <= w.len(),
        forall|k: int| 0 <= k < part.len() ==> #[trigger] part[k] == w[off + k],
    ensures
        s.subrange(i + off, i + off + part.len()) == part,
{
    lemma_seq_window(s, i, w);
    assert forall|k: int| 0 <= k < part.len() implies s.subrange(
        i + off,
        i + off + part.len(),
    )[k] == part[k] by {
        assert(s.subrange(i + off, i + off + part.len())[k] == s[i + off + k]);
        assert(w[off + k] == s[i + (off + k)]);
    }
    assert(s.subrange(i + off, i + off + part.len()) =~= part);
}

proof fn lemma_hex_digit_roundtrip(d: nat)
    requires
        d < 16,
    ensures
        spec_hex_val(hex_digit_byte(d)) == d as int,
{
}

/// The first byte of a well-formed rendering: never whitespace nor a
/// delimiter.
proof fn lemma_ser_first(v: JsonView)
    requires
        wf_view(v),
    ensures
        spec_ser(v).len() >= 1,
        !is_ws_byte(spec_ser(v)[0]),
        spec_ser(v)[0] != 0x5Du8,
        spec_ser(v)[0] != 0x7Du8,
        spec_ser(v)[0] != 0x2Cu8,
        spec_ser(v)[0] != 0x3Au8,
{
    match v {
        JsonView::Number(lex) => {
            assert(spec_ser(v) == ascii_bytes(lex));
            assert(is_lexeme_char(lex[0]));
            assert(spec_ser(v)[0] == (lex[0] as u32) as u8);
        },
        _ => {},
    }
}

/// Scanning the escaped form of `bs`, followed by a closing quote, yields
/// `bs` and stops after the quote.
proof fn lemma_scan_escaped(bs: Seq<u8>, s: Seq<u8>, i: int)
    requires
        0 <= i,
        i + spec_escape(bs).len() + 1 <= s.len(),
        s.subrange(i, i + spec_escape(bs).len()) == spec_escape(bs),
        s[i + spec_escape(bs).len()] == 0x22u8,
    ensures
        spec_scan_string(s, i) == Some((bs, i + spec_escape(bs).len() + 1)),
    decreases bs.len(),
{
    let esc = spec_escape(bs);
    lemma_seq_window(s, i, esc);
    if bs.len() == 0 {
        assert(esc.len() == 0);
        assert(s[i] == 0x22u8);
        assert(spec_scan_string(s, i) == Some((Seq::<u8>::empty(), i + 1)));
        assert(bs =~= Seq::<u8>::empty());
    } else {
        let b = bs[0];
        let e = escape_byte(b);
        let rest = bs.drop_first();
        let resc = spec_escape(rest);
        assert(esc == e + resc);
        assert(forall|k: int| 0 <= k < resc.len() ==> #[trigger] resc[k] == esc[e.len() + k]);
        let i2 = i + e.len();
        lemma_sub_window(s, i, esc, e.len() as int, resc);
        assert(s[i2 + resc.len()] == 0x22u8);
        lemma_scan_escaped(rest, s, i2);
        let end = i + esc.len() + 1;
        assert(spec_scan_string(s, i2) == Some((rest, end)));
        assert(forall|k: int| 0 <= k < e.len() ==> #[trigger] e[k] == esc[k]);
        if b == 0x22u8 || b == 0x5Cu8 {
            assert(e =~= seq![0x5Cu8, b]);
            assert(s[i] == esc[0] && esc[0] == 0x5Cu8);
            assert(s[i + 1] == esc[1] && esc[1] == b);
            assert(spec_scan_string(s, i) == prepend_scan(seq![b], spec_scan_string(s, i + 2)));
            assert(seq![b] + rest =~= bs);
        } else if b == 0x08u8 || b == 0x09u8 || b == 0x0Au8 || b == 0x0Cu8 || b == 0x0Du8 {
            assert(s[i] == esc[0] && esc[0] == 0x5Cu8);
            assert(s[i + 1] == esc[1]);
            assert(spec_scan_string(s, i) == prepend_scan(seq![b], spec_scan_string(s, i + 2)));
            assert(seq![b] + rest =~= bs);
        } else if b < 0x20u8 {
            assert(e == seq![0x5Cu8, 0x75u8, 0x30u8, 0x30u8, hex_digit_byte((b >> 4) as nat),
                hex_digit_byte((b & 0xF) as nat)]);
            assert(s[i] == esc[0] && esc[0] == 0x5Cu8);
            assert(s[i + 1] == esc[1] && esc[1] == 0x75u8);
            assert(s[i + 2] == esc[2] && esc[2] == 0x30u8);
            assert(s[i + 3] == esc[3] && esc[3] == 0x30u8);
            assert(s[i + 4] == esc[4] && esc[4] == hex_digit_byte((b >> 4) as nat));
            assert(s[i + 5] == esc[5] && esc[5] == hex_digit_byte((b & 0xF) as nat));
            assert(i + 6 <= s.len());
            assert((b >> 4) < 16 && (b & 0xF) < 16) by (bit_vector);
            lemma_hex_digit_roundtrip((b >> 4) as nat);
            lemma_hex_digit_roundtrip((b & 0xF) as nat);
            assert((b >> 4) * 16 + (b & 0xF) == b) by (bit_vector);
            assert(spec_hex_val(s[i + 2]) == 0 && spec_hex_val(s[i + 3]) == 0);
            let cu = ((b >> 4) as int) * 16 + ((b & 0xF) as int);
            assert(spec_hex4(s, i + 2) == Some(cu));
            assert(cu == b as int);
            assert(!(0xD800 <= cu < 0xDC00) && !(0xDC00 <= cu < 0xE000));
            let scalar = cu as u32;
            assert(scalar == b as u32);
            assert(vstd::utf8::has_width_1_encoding(scalar));
            assert((scalar & 0x7F) == scalar) by (bit_vector)
                requires
                    scalar < 0x20,
            ;
            assert((scalar & 0x7F) as u8 == b);
            assert(encode_scalar(scalar) =~= seq![b]);
            assert(spec_scan_string(s, i) == prepend_scan(seq![b], spec_scan_string(s, i + 6)));
            assert(seq![b] + rest =~= bs);
        } else {
            assert(e =~= seq![b]);
            assert(s[i] == esc[0] && esc[0] == b);
            assert(b != 0x22u8 && b != 0x5Cu8 && !(b < 0x20u8));
            assert(spec_scan_string(s, i) == prepend_scan(seq![b], spec_scan_string(s, i + 1)));
            assert(seq![b] + rest =~= bs);
        }
    }
}

/// A digit scan inside a window equals the scan of the window, as long as
/// the byte after the window is not a digit.
proof fn lemma_scan_translate(s: Seq<u8>, i: int, t: Seq<u8>, p: int)
    requires
        0 <= i,
        i + t.len() <= s.len(),
        s.subrange(i, i + t.len()) == t,
        0 <= p <= t.len(),
        i + t.len() == s.len() || !is_digit_byte(s[i + t.len()]),
    ensures
        scan_digit_bytes(s, i + p) == i + scan_digit_bytes(t, p),
    decreases t.len() - p,
{
    lemma_seq_window(s, i, t);
    if p == t.len() {
        if i + t.len() == s.len() {
        } else {
            assert(!is_digit_byte(s[i + p]));
        }
    } else {
        assert(s[i + p] == t[p]);
        if is_digit_byte(t[p]) {
            lemma_scan_translate(s, i, t, p + 1);
        }
    }
}

/// A well-formed number embedded in a larger text, followed by a
/// non-number byte, parses to exactly its own length.
proof fn lemma_number_translate(s: Seq<u8>, i: int, t: Seq<u8>)
    requires
        0 <= i,
        i + t.len() <= s.len(),
        s.subrange(i, i + t.len()) == t,
        t.len() >= 1,
        spec_number_end(t, 0) == Some(t.len() as int),
        i + t.len() == s.len() || !is_number_byte(s[i + t.len()]),
    ensures
        spec_number_end(s, i) == Some(i + t.len()),
{
    let n = t.len() as int;
    lemma_seq_window(s, i, t);
    let boundary_digit = i + n == s.len() || !is_digit_byte(s[i + n]);
    assert(boundary_digit);
    let mt = if 0 < t.len() && t[0] == 0x2Du8 {
        1int
    } else {
        0int
    };
    let ms = i + mt;
    assert(mt < n && is_digit_byte(t[mt]));
    assert(s[ms] == t[mt]);
    let int_end_t = if t[mt] == 0x30u8 {
        mt + 1
    } else {
        scan_digit_bytes(t, mt)
    };
    lemma_scan_digits_range(t, mt);
    if t[mt] != 0x30u8 {
        lemma_scan_translate(s, i, t, mt);
    }
    let int_end_s = i + int_end_t;
    assert(int_end_t <= n);
    let frac_end_t = if int_end_t < n && t[int_end_t] == 0x2Eu8 {
        let d = scan_digit_bytes(t, int_end_t + 1);
        if d > int_end_t + 1 {
            Some(d)
        } else {
            None::<int>
        }
    } else {
        Some(int_end_t)
    };
    assert(frac_end_t is Some);
    if int_end_t < n {
        assert(s[int_end_s] == t[int_end_t]);
    }
    let frac_cond_s = int_end_s < s.len() && s[int_end_s] == 0x2Eu8;
    let frac_cond_t = int_end_t < n && t[int_end_t] == 0x2Eu8;
    if int_end_t == n {
        assert(!frac_cond_s);
    }
    assert(frac_cond_s == frac_cond_t);
    if frac_cond_t {
        lemma_scan_digits_range(t, int_end_t + 1);
        lemma_scan_translate(s, i, t, int_end_t + 1);
    }
    let fe = frac_end_t->0;
    assert(fe <= n);
    if fe < n {
        assert(s[i + fe] == t[fe]);
    }
    let exp_cond_t = fe < n && (t[fe] == 0x65u8 || t[fe] == 0x45u8);
    let exp_cond_s = i + fe < s.len() && (s[i + fe] == 0x65u8 || s[i + fe] == 0x45u8);
    if fe == n {
        assert(!exp_cond_s);
    }
    assert(exp_cond_s == exp_cond_t);
    if exp_cond_t {
        assert(fe + 1 < n) by {
            if fe + 1 >= n {
                lemma_scan_digits_range(t, fe + 1);
            }
        }
        assert(s[i + fe + 1] == t[fe + 1]);
        let es_t = if fe + 1 < n && (t[fe + 1] == 0x2Bu8 || t[fe + 1] == 0x2Du8) {
            fe + 2
        } else {
            fe + 1
        };
        let sign_cond_t = fe + 1 < n && (t[fe + 1] == 0x2Bu8 || t[fe + 1] == 0x2Du8);
        let sign_cond_s = i + fe + 1 < s.len() && (s[i + fe + 1] == 0x2Bu8 || s[i + fe + 1]
            == 0x2Du8);
        assert(sign_cond_s == sign_cond_t);
        lemma_scan_digits_range(t, es_t);
        lemma_scan_translate(s, i, t, es_t);
        let d_t = scan_digit_bytes(t, es_t);
        assert(d_t > es_t);
        assert(d_t == n);
    } else {
        assert(fe == n);
    }
}

/// Characters of an ASCII lexeme survive the byte rendering.
proof fn lemma_byte_chars_ascii(lex: Seq<char>)
    requires
        forall|k: int| 0 <= k < lex.len() ==> ((#[trigger] lex[k]) as u32) < 128,
    ensures
        byte_chars(ascii_bytes(lex)) == lex,
{
    assert forall|k: int| 0 <= k < lex.len() implies byte_chars(ascii_bytes(lex))[k] == lex[k] by {
        let c = lex[k];
        let u = c as u32;
        assert(u < 128);
        assert(ascii_bytes(lex)[k] == u as u8);
        assert((u as u8) as u32 == u);
        vstd::utf8::char_u32_cast(c, u);
    }
    assert(byte_chars(ascii_bytes(lex)) =~= lex);
}

/// Parsing the rendering of a well-formed value, embedded at `i` and
/// followed by end-of-input or a delimiter, yields the value back.
proof fn lemma_parse_ser_value(v: JsonView, s: Seq<u8>, i: int, fuel: nat)
    requires
        wf_view(v),
        0 <= i,
        i + spec_ser(v).len() <= s.len(),
        s.subrange(i, i + spec_ser(v).len()) == spec_ser(v),
        i + spec_ser(v).len() == s.len() || !is_number_byte(s[i + spec_ser(v).len()]),
        fuel >= fuel_for(v),
    ensures
        spec_parse_value(s, i, fuel) == Some((v, i + spec_ser(v).len())),
    decreases v,
{
    let w = spec_ser(v);
    let e = i + w.len();
    lemma_seq_window(s, i, w);
    lemma_ser_first(v);
    assert(s[i] == w[0]);
    assert(spec_skip_ws(s, i) == i);
    match v {
        JsonView::Null => {
            assert(w =~= seq![0x6Eu8, 0x75u8, 0x6Cu8, 0x6Cu8]);
            assert(s[i] == 0x6Eu8 && s[i + 1] == w[1] && s[i + 2] == w[2] && s[i + 3] == w[3]);
        },
        JsonView::Bool(b) => {
            if b {
                assert(s[i] == 0x74u8 && s[i + 1] == w[1] && s[i + 2] == w[2] && s[i + 3] == w[3]);
            } else {
                assert(s[i] == 0x66u8 && s[i + 1] == w[1] && s[i + 2] == w[2] && s[i + 3] == w[3]
                    && s[i + 4] == w[4]);
            }
        },
        JsonView::Number(lex) => {
            let t = ascii_bytes(lex);
            assert(s.subrange(i, i + t.len()) =~= t);
            assert(is_lexeme_char(lex[0]));
            assert(s[i] == t[0] && t[0] == (lex[0] as u32) as u8);
            assert(is_number_byte(t[0]));
            assert(s[i] != 0x6Eu8 && s[i] != 0x74u8 && s[i] != 0x66u8 && s[i] != 0x22u8 && s[i]
                != 0x5Bu8 && s[i] != 0x7Bu8);
            assert(s[i] == 0x2Du8 || is_digit_byte(s[i]));
            lemma_number_translate(s, i, t);
            assert(spec_number_end(s, i) == Some(e));
            assert(s.subrange(i, e) =~= t);
            lemma_byte_chars_ascii(lex);
            assert(spec_parse_value(s, i, fuel) == Some((JsonView::Number(byte_chars(t)), e)));
        },
        JsonView::Text(st) => {
            let bs = encode_utf8(st);
            let esc = spec_escape(bs);
            assert(w == seq![0x22u8] + esc + seq![0x22u8]);
            assert(s[i] == 0x22u8);
            assert(forall|k: int| 0 <= k < esc.len() ==> #[trigger] esc[k] == w[1 + k]);
            lemma_sub_window(s, i, w, 1int, esc);
            assert(s[i + 1 + esc.len()] == w[w.len() - 1] && w[w.len() - 1] == 0x22u8);
            lemma_scan_escaped(bs, s, i + 1);
            assert(spec_scan_string(s, i + 1) == Some((bs, e)));
            encode_utf8_valid_utf8(st);
            encode_utf8_decode_utf8(st);
            assert(spec_parse_value(s, i, fuel) == Some((JsonView::Text(decode_utf8(bs)), e)));
        },
        JsonView::Array(elems) => {
            let se = spec_ser_elems(elems);
            assert(w == seq![0x5Bu8] + se + seq![0x5Du8]);
            assert(s[i] == 0x5Bu8);
            assert(s[e - 1] == w[w.len() - 1] && w[w.len() - 1] == 0x5Du8);
            if elems.len() == 0 {
                assert(se.len() == 0);
                assert(s[i + 1] == w[1] && w[1] == 0x5Du8);
                assert(spec_skip_ws(s, i + 1) == i + 1);
                assert(spec_parse_value(s, i, fuel) == Some(
                    (JsonView::Array(Seq::empty()), i + 2),
                ));
                assert(elems =~= Seq::<JsonView>::empty());
            } else {
                assert(forall|k: int| 0 <= k < se.len() ==> #[trigger] se[k] == w[1 + k]);
                lemma_sub_window(s, i, w, 1int, se);
                assert(wf_view(elems[0]));
                lemma_ser_first(elems[0]);
                assert(se[0] == spec_ser(elems[0])[0]) by {
                    assert(spec_ser_elems(elems) == if elems.len() == 1 {
                        spec_ser(elems[0])
                    } else {
                        spec_ser(elems[0]) + seq![0x2Cu8] + spec_ser_elems(elems.drop_first())
                    });
                }
                assert(s[i + 1] == w[1] && w[1] == se[0]);
                assert(!is_ws_byte(s[i + 1]) && s[i + 1] != 0x5Du8);
                assert(spec_skip_ws(s, i + 1) == i + 1);
                lemma_parse_ser_elems(elems, s, i + 1, (fuel - 1) as nat);
                assert(spec_parse_elements(s, i + 1, (fuel - 1) as nat) == Some((elems, e)));
            }
        },
        JsonView::Object(members) => {
            let se = spec_ser_members(members);
            assert(w == seq![0x7Bu8] + se + seq![0x7Du8]);
            assert(s[i] == 0x7Bu8);
            assert(s[e - 1] == w[w.len() - 1] && w[w.len() - 1] == 0x7Du8);
            if members.len() == 0 {
                assert(se.len() == 0);
                assert(s[i + 1] == w[1] && w[1] == 0x7Du8);
                assert(spec_skip_ws(s, i + 1) == i + 1);
                assert(spec_parse_value(s, i, fuel) == Some(
                    (JsonView::Object(Seq::empty()), i + 2),
                ));
                assert(members =~= Seq::<(Seq<char>, JsonView)>::empty());
            } else {
                assert(forall|k: int| 0 <= k < se.len() ==> #[trigger] se[k] == w[1 + k]);
                lemma_sub_window(s, i, w, 1int, se);
                assert(se[0] == 0x22u8);
                assert(s[i + 1] == w[1] && w[1] == se[0]);
                assert(spec_skip_ws(s, i + 1) == i + 1);
                lemma_parse_ser_members(members, s, i + 1, (fuel - 1) as nat);
                assert(spec_parse_members(s, i + 1, (fuel - 1) as nat) == Some((members, e)));
            }
        },
    }
}

/// Parsing the rendering of one or more elements, followed by the closing
/// bracket, yields them all.
proof fn lemma_parse_ser_elems(elems: Seq<JsonView>, s: Seq<u8>, i: int, fuel: nat)
    requires
        elems.len() >= 1,
        forall|k: int| 0 <= k < elems.len() ==> wf_view(#[trigger] elems[k]),
        0 <= i,
        i + spec_ser_elems(elems).len() + 1 <= s.len(),
        s.subrange(i, i + spec_ser_elems(elems).len()) == spec_ser_elems(elems),
        s[i + spec_ser_elems(elems).len()] == 0x5Du8,
        fuel >= fuel_for_elems(elems),
    ensures
        spec_parse_elements(s, i, fuel) == Some(
            (elems, i + spec_ser_elems(elems).len() + 1),
        ),
    decreases elems,
{
    let se = spec_ser_elems(elems);
    let head = elems[0];
    let hw = spec_ser(head);
    lemma_seq_window(s, i, se);
    if elems.len() == 1 {
        assert(se == hw);
        assert(s.subrange(i, i + hw.len()) =~= hw);
        assert(s[i + hw.len()] == 0x5Du8);
        lemma_parse_ser_value(head, s, i, (fuel - 1) as nat);
        let j = i + hw.len();
        assert(spec_parse_value(s, i, (fuel - 1) as nat) == Some((head, j)));
        assert(spec_skip_ws(s, j) == j);
        assert(elems =~= seq![head]);
    } else {
        let rest = elems.drop_first();
        let rse = spec_ser_elems(rest);
        assert(se == hw + seq![0x2Cu8] + rse);
        assert(forall|k: int| 0 <= k < hw.len() ==> #[trigger] hw[k] == se[k]);
        lemma_sub_window(s, i, se, 0int, hw);
        let j = i + hw.len();
        assert(s[j] == se[hw.len() as int] && se[hw.len() as int] == 0x2Cu8);
        lemma_parse_ser_value(head, s, i, (fuel - 1) as nat);
        assert(spec_parse_value(s, i, (fuel - 1) as nat) == Some((head, j)));
        assert(spec_skip_ws(s, j) == j);
        assert(forall|k: int| 0 <= k < rse.len() ==> #[trigger] rse[k] == se[hw.len() + 1 + k]);
        lemma_sub_window(s, i, se, hw.len() as int + 1, rse);
        assert(s[j + 1 + rse.len()] == 0x5Du8);
        assert(forall|k: int| 0 <= k < rest.len() ==> wf_view(#[trigger] rest[k])) by {
            assert(forall|k: int| 0 <= k < rest.len() ==> rest[k] == elems[k + 1]);
        }
        lemma_parse_ser_elems(rest, s, j + 1, (fuel - 1) as nat);
        assert(spec_parse_elements(s, j + 1, (fuel - 1) as nat) == Some(
            (rest, j + 1 + rse.len() + 1),
        ));
        assert(seq![head] + rest =~= elems);
    }
}

/// Parsing the rendering of one or more members, followed by the closing
/// brace, yields them all.
proof fn lemma_parse_ser_members(
    members: Seq<(Seq<char>, JsonView)>,
    s: Seq<u8>,
    i: int,
    fuel: nat,
)
    requires
        members.len() >= 1,
        forall|k: int| 0 <= k < members.len() ==> wf_view((#[trigger] members[k]).1),
        0 <= i,
        i + spec_ser_members(members).len() + 1 <= s.len(),
        s.subrange(i, i + spec_ser_members(members).len()) == spec_ser_members(members),
        s[i + spec_ser_members(members).len()] == 0x7Du8,
        fuel >= fuel_for_members(members),
    ensures
        spec_parse_members(s, i, fuel) == Some(
            (members, i + spec_ser_members(members).len() + 1),
        ),
    decreases members,
{
    let se = spec_ser_members(members);
    let key = members[0].0;
    let val = members[0].1;
    let kesc = spec_escape(encode_utf8(key));
    let vw = spec_ser(val);
    let head = seq![0x22u8] + kesc + seq![0x22u8, 0x3Au8] + vw;
    lemma_seq_window(s, i, se);
    assert(se == if members.len() == 1 {
        head
    } else {
        head + seq![0x2Cu8] + spec_ser_members(members.drop_first())
    });
    assert(forall|k: int| 0 <= k < head.len() ==> #[trigger] head[k] == se[k]);
    assert(s[i] == se[0] && se[0] == head[0] && head[0] == 0x22u8);
    assert(spec_skip_ws(s, i) == i);
    assert(forall|k: int| 0 <= k < kesc.len() ==> #[trigger] kesc[k] == head[1 + k]);
    assert(forall|k: int| 0 <= k < kesc.len() ==> #[trigger] kesc[k] == se[1 + k]);
    lemma_sub_window(s, i, se, 1int, kesc);
    assert(s[i + 1 + kesc.len()] == se[1 + kesc.len() as int]);
    assert(head[1 + kesc.len() as int] == 0x22u8);
    lemma_scan_escaped(encode_utf8(key), s, i + 1);
    let j = i + 1 + kesc.len() + 1;
    assert(spec_scan_string(s, i + 1) == Some((encode_utf8(key), j)));
    encode_utf8_valid_utf8(key);
    encode_utf8_decode_utf8(key);
    assert(s[j] == se[j - i] && head[j - i] == 0x3Au8);
    assert(spec_skip_ws(s, j) == j);
    let vi = j + 1;
    assert(forall|k: int| 0 <= k < vw.len() ==> #[trigger] vw[k] == head[vi - i + k]);
    assert(forall|k: int| 0 <= k < vw.len() ==> #[trigger] vw[k] == se[vi - i + k]);
    lemma_sub_window(s, i, se, vi - i, vw);
    let j2 = vi + vw.len();
    assert(wf_view(val));
    if members.len() == 1 {
        assert(se == head);
        assert(s[j2] == 0x7Du8);
        lemma_parse_ser_value(val, s, vi, (fuel - 1) as nat);
        assert(spec_parse_value(s, vi, (fuel - 1) as nat) == Some((val, j2)));
        assert(spec_skip_ws(s, j2) == j2);
        assert(members =~= seq![(key, val)]);
    } else {
        let rest = members.drop_first();
        let rse = spec_ser_members(rest);
        assert(s[j2] == se[head.len() as int] && se[head.len() as int] == 0x2Cu8);
        lemma_parse_ser_value(val, s, vi, (fuel - 1) as nat);
        assert(spec_parse_value(s, vi, (fuel - 1) as nat) == Some((val, j2)));
        assert(spec_skip_ws(s, j2) == j2);
        assert(forall|k: int| 0 <= k < rse.len() ==> #[trigger] rse[k] == se[head.len() + 1 + k]);
        lemma_sub_window(s, i, se, head.len() as int + 1, rse);
        assert(s[j2 + 1 + rse.len()] == 0x7Du8);
        assert(forall|k: int| 0 <= k < rest.len() ==> wf_view((#[trigger] rest[k]).1)) by {
            assert(forall|k: int| 0 <= k < rest.len() ==> rest[k] == members[k + 1]);
        }
        lemma_parse_ser_members(rest, s, j2 + 1, (fuel - 1) as nat);
        assert(spec_parse_members(s, j2 + 1, (fuel - 1) as nat) == Some(
            (rest, j2 + 1 + rse.len() + 1),
        ));
        assert(seq![(key, val)] + rest =~= members);
    }
}

/// The granted fuel covers any well-formed value of the rendering's length.
proof fn lemma_fuel_bound(v: JsonView)
    requires
        wf_view(v),
    ensures
        fuel_for(v) <= 2 * spec_ser(v).len(),
        spec_ser(v).len() >= 1,
    decreases v,
{
    match v {
        JsonView::Array(elems) => {
            if elems.len() > 0 {
                lemma_fuel_bound_elems(elems);
            }
        },
        JsonView::Object(members) => {
            if members.len() > 0 {
                lemma_fuel_bound_members(members);
            }
        },
        JsonView::Number(lex) => {
            assert(spec_ser(v).len() == lex.len());
        },
        _ => {},
    }
}

proof fn lemma_fuel_bound_elems(elems: Seq<JsonView>)
    requires
        elems.len() >= 1,
        forall|k: int| 0 <= k < elems.len() ==> wf_view(#[trigger] elems[k]),
    ensures
        fuel_for_elems(elems) <= 2 * spec_ser_elems(elems).len() + 1,
        spec_ser_elems(elems).len() >= 1,
    decreases elems,
{
    lemma_fuel_bound(elems[0]);
    if elems.len() > 1 {
        let rest = elems.drop_first();
        assert(forall|k: int| 0 <= k < rest.len() ==> wf_view(#[trigger] rest[k])) by {
            assert(forall|k: int| 0 <= k < rest.len() ==> rest[k] == elems[k + 1]);
        }
        lemma_fuel_bound_elems(rest);
    }
}

proof fn lemma_fuel_bound_members(members: Seq<(Seq<char>, JsonView)>)
    requires
        members.len() >= 1,
        forall|k: int| 0 <= k < members.len() ==> wf_view((#[trigger] members[k]).1),
    ensures
        fuel_for_members(members) <= 2 * spec_ser_members(members).len() + 1,
        spec_ser_members(members).len() >= 1,
    decreases members,
{
    lemma_fuel_bound(members[0].1);
    if members.len() > 1 {
        let rest = members.drop_first();
        assert(forall|k: int| 0 <= k < rest.len() ==> wf_view((#[trigger] rest[k]).1)) by {
            assert(forall|k: int| 0 <= k < rest.len() ==> rest[k] == members[k + 1]);
        }
        lemma_fuel_bound_members(rest);
    }
}

/// Round trip: rendering any well-formed tree and parsing the bytes yields
/// the tree back, exactly.
pub proof fn lemma_json_round_trip(v: JsonView)
    requires
        wf_view(v),
    ensures
        spec_parse_json(spec_ser(v)) == Some(v),
{
    let s = spec_ser(v);
    lemma_fuel_bound(v);
    assert(s.subrange(0, s.len() as int) =~= s);
    lemma_parse_ser_value(v, s, 0, spec_parse_fuel(s));
    assert(spec_parse_value(s, 0, spec_parse_fuel(s)) == Some((v, s.len() as int)));
    assert(spec_skip_ws(s, s.len() as int) == s.len());
}

} // verus!
