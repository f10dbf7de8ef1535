//! The crate's own JSON model and a verified serializer for it.
//!
//! Catalog documents, filter expressions in their structured surface form,
//! and serialized search descriptors all travel through this type.  Numbers
//! are carried as their decimal literal text, so every value is exact and
//! nothing in this crate touches machine floating point; the boundary code
//! that talks to a JSON library converts numbers to and from that text.

use vstd::prelude::*;

verus! {

/// A JSON value.  Object members keep their insertion order.
#[derive(Debug)]
pub enum JsonValue {
    /// The JSON `null`.
    Null,
    /// A JSON boolean.
    Bool(bool),
    /// A JSON number, as its decimal literal text (`"42"`, `"-10.5"`,
    /// `"1e-3"`), emitted verbatim.
    Num(String),
    /// A JSON string.
    Str(String),
    /// A JSON array.
    Array(Vec<JsonValue>),
    /// A JSON object, as an ordered member list.
    Object(Vec<(String, JsonValue)>),
}

impl JsonValue {
    /// True of arrays alone: batch inputs must satisfy this before any
    /// database work is planned.
    pub fn is_array(&self) -> (r: bool)
        ensures
            r == (self is Array),
    {
        match self {
            JsonValue::Array(_) => true,
            _ => false,
        }
    }

    /// True of objects alone: single catalog documents must satisfy this.
    pub fn is_object(&self) -> (r: bool)
        ensures
            r == (self is Object),
    {
        match self {
            JsonValue::Object(_) => true,
            _ => false,
        }
    }
}

/// The character for one hexadecimal digit.
pub open spec fn hex_digit(d: nat) -> char {
    if d < 10 {
        crate::num::dec_digit(d)
    } else if d == 10 {
        'a'
    } else if d == 11 {
        'b'
    } else if d == 12 {
        'c'
    } else if d == 13 {
        'd'
    } else if d == 14 {
        'e'
    } else {
        'f'
    }
}

/// How one character appears inside a JSON string literal: the quote and
/// the backslash get a two-character escape, the common control characters
/// their short forms, any other control character the `\u00XX` form, and
/// everything else stands as itself.
pub open spec fn esc_char(c: char) -> Seq<char> {
    if c == '"' {
        seq!['\\', '"']
    } else if c == '\\' {
        seq!['\\', '\\']
    } else if c == '\n' {
        seq!['\\', 'n']
    } else if c == '\r' {
        seq!['\\', 'r']
    } else if c == '\t' {
        seq!['\\', 't']
    } else if (c as nat) < 0x20 {
        seq!['\\', 'u', '0', '0', hex_digit((c as nat) / 16), hex_digit((c as nat) % 16)]
    } else {
        seq![c]
    }
}

/// A whole string body, escaped character by character.
pub open spec fn escaped(s: Seq<char>) -> Seq<char>
    decreases s.len(),
{
    if s.len() == 0 {
        Seq::empty()
    } else {
        esc_char(s[0]) + escaped(s.drop_first())
    }
}

/// Escaping distributes over extending the string by one character.
pub proof fn lemma_escaped_push(s: Seq<char>, c: char)
    ensures
        escaped(s.push(c)) == escaped(s) + esc_char(c),
    decreases s.len(),
{
    assert(s.push(c)[0] == if s.len() == 0 { c } else { s[0] });
    if s.len() == 0 {
        assert(s.push(c).drop_first() =~= Seq::<char>::empty());
        assert(escaped(s.push(c)) == esc_char(c) + escaped(Seq::<char>::empty()));
        assert(escaped(Seq::<char>::empty()) == Seq::<char>::empty());
        assert(escaped(s) == Seq::<char>::empty());
        assert(escaped(s.push(c)) =~= escaped(s) + esc_char(c));
    } else {
        assert(s.push(c).drop_first() =~= s.drop_first().push(c));
        lemma_escaped_push(s.drop_first(), c);
        assert(escaped(s.push(c)) == esc_char(s[0]) + escaped(s.drop_first().push(c)));
        assert(escaped(s) == esc_char(s[0]) + escaped(s.drop_first()));
        assert(escaped(s.push(c)) =~= escaped(s) + esc_char(c));
    }
}

/// The serialized text of a JSON value: no whitespace, members in order,
/// numbers verbatim.
pub open spec fn json_text_of(v: JsonValue) -> Seq<char>
    decreases v, 1nat,
{
    match v {
        JsonValue::Null => seq!['n', 'u', 'l', 'l'],
        JsonValue::Bool(b) => if b {
            seq!['t', 'r', 'u', 'e']
        } else {
            seq!['f', 'a', 'l', 's', 'e']
        },
        JsonValue::Num(s) => s@,
        JsonValue::Str(s) => seq!['"'] + escaped(s@) + seq!['"'],
        JsonValue::Array(elems) => seq!['['] + items_text_of(elems@) + seq![']'],
        JsonValue::Object(members) => seq!['{'] + members_text_of(members@) + seq!['}'],
    }
}

/// The comma-separated bodies of an array.
pub open spec fn items_text_of(items: Seq<JsonValue>) -> Seq<char>
    decreases items, 0nat,
{
    if items.len() == 0 {
        Seq::empty()
    } else if items.len() == 1 {
        json_text_of(items[0])
    } else {
        json_text_of(items[0]) + seq![','] + items_text_of(items.drop_first())
    }
}

/// The comma-separated members of an object, each a quoted escaped key, a
/// colon, and the member's text.
pub open spec fn members_text_of(members: Seq<(String, JsonValue)>) -> Seq<char>
    decreases members, 0nat,
{
    if members.len() == 0 {
        Seq::empty()
    } else {
        let head = seq!['"'] + escaped(members[0].0@) + seq!['"', ':'] + json_text_of(
            members[0].1,
        );
        if members.len() == 1 {
            head
        } else {
            head + seq![','] + members_text_of(members.drop_first())
        }
    }
}

/// A one-character string slice for the hexadecimal digit `d`.
fn hex_str(d: u32) -> (r: &'static str)
    requires
        d < 16,
    ensures
        r@ == seq![hex_digit(d as nat)],
{
    let r: &'static str = if d == 10 {
        "a"
    } else if d == 11 {
        "b"
    } else if d == 12 {
        "c"
    } else if d == 13 {
        "d"
    } else if d == 14 {
        "e"
    } else if d == 15 {
        "f"
    } else {
        crate::num::digit_str(d as u64)
    };
    proof {
        reveal_strlit("a");
        reveal_strlit("b");
        reveal_strlit("c");
        reveal_strlit("d");
        reveal_strlit("e");
        reveal_strlit("f");
        assert(r@ =~= seq![hex_digit(d as nat)]);
    }
    r
}

/// Appends the escaped body of `s` to `out`.
fn append_escaped(out: &mut String, s: &str)
    ensures
        final(out)@ == old(out)@ + escaped(s@),
{
    let len = s.unicode_len();
    let mut i: usize = 0;
    while i < len
        invariant
            i <= len,
            len == s@.len(),
            out@ == old(out)@ + escaped(s@.take(i as int)),
        decreases len - i,
    {
        proof {
            reveal_strlit("\\\"");
            reveal_strlit("\\\\");
            reveal_strlit("\\n");
            reveal_strlit("\\r");
            reveal_strlit("\\t");
            reveal_strlit("\\u00");
        }
        let ghost prev = out@;
        let c = s.get_char(i);
        let code = c as u32;
        if c == '"' {
            out.append("\\\"");
            proof {
                assert(out@ =~= prev + esc_char(c));
            }
        } else if c == '\\' {
            out.append("\\\\");
            proof {
                assert(out@ =~= prev + esc_char(c));
            }
        } else if c == '\n' {
            out.append("\\n");
            proof {
                assert(out@ =~= prev + esc_char(c));
            }
        } else if c == '\r' {
            out.append("\\r");
            proof {
                assert(out@ =~= prev + esc_char(c));
            }
        } else if c == '\t' {
            out.append("\\t");
            proof {
                assert(out@ =~= prev + esc_char(c));
            }
        } else if code < 0x20 {
            out.append("\\u00");
            out.append(hex_str(code / 16));
            out.append(hex_str(code % 16));
            proof {
                assert(out@ =~= prev + esc_char(c));
            }
        } else {
            out.append(s.substring_char(i, i + 1));
            proof {
                assert(s@.subrange(i as int, i + 1) =~= seq![s@[i as int]]);
                assert(out@ =~= prev + esc_char(c));
            }
        }
        proof {
            assert(s@.take(i as int).push(s@[i as int]) =~= s@.take(i + 1));
            lemma_escaped_push(s@.take(i as int), s@[i as int]);
            assert(out@ =~= old(out)@ + escaped(s@.take(i + 1)));
        }
        i = i + 1;
    }
    proof {
        assert(s@.take(len as int) =~= s@);
    }
}

/// Appends a quoted, escaped JSON string literal for `s` to `out`.
fn append_string_literal(out: &mut String, s: &str)
    ensures
        final(out)@ == old(out)@ + seq!['"'] + escaped(s@) + seq!['"'],
{
    out.append("\"");
    append_escaped(out, s);
    out.append("\"");
    proof {
        reveal_strlit("\"");
        assert(out@ =~= old(out)@ + seq!['"'] + escaped(s@) + seq!['"']);
    }
}

/// Appends the serialized text of `v` to `out`.
fn append_json(out: &mut String, v: &JsonValue)
    ensures
        final(out)@ == old(out)@ + json_text_of(*v),
    decreases *v, 1nat, 0nat,
{
    match v {
        JsonValue::Null => {
            out.append("null");
            proof {
                reveal_strlit("null");
                assert(out@ =~= old(out)@ + json_text_of(*v));
            }
        },
        JsonValue::Bool(b) => {
            if *b {
                out.append("true");
            } else {
                out.append("false");
            }
            proof {
                reveal_strlit("true");
                reveal_strlit("false");
                assert(out@ =~= old(out)@ + json_text_of(*v));
            }
        },
        JsonValue::Num(s) => {
            out.append(s.as_str());
        },
        JsonValue::Str(s) => {
            append_string_literal(out, s.as_str());
            proof {
                assert(out@ =~= old(out)@ + json_text_of(*v));
            }
        },
        JsonValue::Array(elems) => {
            out.append("[");
            append_items(out, elems, 0);
            out.append("]");
            proof {
                reveal_strlit("[");
                reveal_strlit("]");
                assert(elems@.skip(0) =~= elems@);
                assert(out@ =~= old(out)@ + json_text_of(*v));
            }
        },
        JsonValue::Object(members) => {
            out.append("{");
            append_members(out, members, 0);
            out.append("}");
            proof {
                reveal_strlit("{");
                reveal_strlit("}");
                assert(members@.skip(0) =~= members@);
                assert(out@ =~= old(out)@ + json_text_of(*v));
            }
        },
    }
}

/// Appends the texts of `elems[i..]`, comma-separated, to `out`.
fn append_items(out: &mut String, elems: &Vec<JsonValue>, i: usize)
    requires
        i <= elems@.len(),
    ensures
        final(out)@ == old(out)@ + items_text_of(elems@.skip(i as int)),
    decreases elems@, 0nat, (elems@.len() - i as int),
{
    if i < elems.len() {
        append_json(out, &elems[i]);
        if i + 1 < elems.len() {
            out.append(",");
            append_items(out, elems, i + 1);
        }
        proof {
            reveal_strlit(",");
            assert(elems@.skip(i as int).drop_first() =~= elems@.skip(i + 1));
            assert(elems@.skip(i as int)[0] == elems@[i as int]);
            assert(out@ =~= old(out)@ + items_text_of(elems@.skip(i as int)));
        }
    } else {
        proof {
            assert(elems@.skip(i as int) =~= Seq::<JsonValue>::empty());
        }
    }
}

/// Appends the members of `members[i..]`, comma-separated, to `out`.
fn append_members(out: &mut String, members: &Vec<(String, JsonValue)>, i: usize)
    requires
        i <= members@.len(),
    ensures
        final(out)@ == old(out)@ + members_text_of(members@.skip(i as int)),
    decreases members@, 0nat, (members@.len() - i as int),
{
    if i < members.len() {
        append_string_literal(out, members[i].0.as_str());
        out.append(":");
        append_json(out, &members[i].1);
        if i + 1 < members.len() {
            out.append(",");
            append_members(out, members, i + 1);
        }
        proof {
            reveal_strlit(":");
            reveal_strlit(",");
            assert(members@.skip(i as int).drop_first() =~= members@.skip(i + 1));
            assert(members@.skip(i as int)[0] == members@[i as int]);
            assert(out@ =~= old(out)@ + members_text_of(members@.skip(i as int)));
        }
    } else {
        proof {
            assert(members@.skip(i as int) =~= Seq::<(String, JsonValue)>::empty());
        }
    }
}

/// Serializes `v`: the canonical wire text, no whitespace, members in
/// order, numbers verbatim.
pub fn to_text(v: &JsonValue) -> (r: String)
    ensures
        r@ == json_text_of(*v),
{
    let mut out = String::new();
    append_json(&mut out, v);
    proof {
        assert(out@ =~= json_text_of(*v));
    }
    out
}

} // verus!
