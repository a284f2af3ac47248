//! Pretty-printed JSON text for diagnostics meant for tools.
//!
//! A number is held as the text it is printed as; an object's members are
//! held in the order they are printed.

use vstd::prelude::*;
use crate::text::push_char;
use vstd::string::{StrSliceExecFns, StringExecFns};

verus! {

/// A JSON value.
pub enum JsonValue {
    Null,
    Bool(bool),
    /// A number, as its printed text.
    Number(String),
    Str(String),
    Array(Vec<JsonValue>),
    /// The members, in printing order.
    Object(Vec<(String, JsonValue)>),
}

/// A string's characters with each backslash and each double quote escaped
/// by a backslash.
pub open spec fn escape_json(s: Seq<char>) -> Seq<char>
    decreases s.len(),
{
    if s.len() == 0 {
        s
    } else {
        escape_json(s.drop_last()) + if s.last() == '\\' {
            seq!['\\', '\\']
        } else if s.last() == '"' {
            seq!['\\', '"']
        } else {
            seq![s.last()]
        }
    }
}

/// The text of a value printed at the nesting whose indentation is `pad`:
/// scalars on one line; a non-empty array or object with one element per
/// line, indented one step (two spaces) further, separated by commas, and
/// the closing bracket on a line of its own at `pad`.
pub open spec fn json_text(v: JsonValue, pad: Seq<char>) -> Seq<char>
    decreases v,
{
    match v {
        JsonValue::Null => "null"@,
        JsonValue::Bool(b) => if b {
            "true"@
        } else {
            "false"@
        },
        JsonValue::Number(t) => t@,
        JsonValue::Str(s) => seq!['"'] + escape_json(s@) + seq!['"'],
        JsonValue::Array(items) => if items@.len() == 0 {
            "[]"@
        } else {
            "[\n"@ + items_text(items@, pad + "  "@) + "\n"@ + pad + "]"@
        },
        JsonValue::Object(members) => if members@.len() == 0 {
            "{}"@
        } else {
            "{\n"@ + members_text(members@, pad + "  "@) + "\n"@ + pad + "}"@
        },
    }
}

/// Array elements, each on a line of its own starting with `pad`, separated
/// by commas.
pub open spec fn items_text(items: Seq<JsonValue>, pad: Seq<char>) -> Seq<char>
    decreases items,
{
    if items.len() == 0 {
        Seq::empty()
    } else if items.len() == 1 {
        pad + json_text(items[0], pad)
    } else {
        items_text(items.drop_last(), pad) + ",\n"@ + pad + json_text(items.last(), pad)
    }
}

/// Object members, each on a line of its own starting with `pad`: the key
/// in double quotes, a colon and a space, then the value; separated by commas.
pub open spec fn members_text(members: Seq<(String, JsonValue)>, pad: Seq<char>) -> Seq<char>
    decreases members,
{
    if members.len() == 0 {
        Seq::empty()
    } else if members.len() == 1 {
        member_text(members[0], pad)
    } else {
        members_text(members.drop_last(), pad) + ",\n"@ + member_text(members.last(), pad)
    }
}

/// One object member on its line.
pub open spec fn member_text(m: (String, JsonValue), pad: Seq<char>) -> Seq<char>
    decreases m,
{
    pad + seq!['"'] + m.0@ + "\": "@ + json_text(m.1, pad)
}

/// Appends a string with its backslashes and double quotes escaped.
fn push_escaped(out: &mut String, s: &str)
    ensures
        final(out)@ == old(out)@ + escape_json(s@),
{
    let n = s.unicode_len();
    let mut i: usize = 0;
    while i < n
        invariant
            n == s@.len(),
            i <= n,
            out@ == old(out)@ + escape_json(s@.subrange(0, i as int)),
        decreases n - i,
    {
        let c = s.get_char(i);
        proof {
            assert(s@.subrange(0, i + 1).drop_last() =~= s@.subrange(0, i as int));
        }
        if c == '\\' {
            push_char(out, '\\');
            push_char(out, '\\');
        } else if c == '"' {
            push_char(out, '\\');
            push_char(out, '"');
        } else {
            push_char(out, c);
        }
        i += 1;
        proof {
            assert(out@ =~= old(out)@ + escape_json(s@.subrange(0, i as int)));
        }
    }
    assert(s@.subrange(0, n as int) =~= s@);
}

/// Appends the text of a value printed at indentation `pad`.
fn write_value(out: &mut String, v: &JsonValue, pad: &str)
    ensures
        final(out)@ == old(out)@ + json_text(*v, pad@),
    decreases v,
{
    proof {
        reveal_strlit("null");
        reveal_strlit("true");
        reveal_strlit("false");
        reveal_strlit("[]");
        reveal_strlit("{}");
        reveal_strlit("[\n");
        reveal_strlit("{\n");
        reveal_strlit("\n");
        reveal_strlit("]");
        reveal_strlit("}");
        reveal_strlit("  ");
    }
    match v {
        JsonValue::Null => {
            out.append("null");
        },
        JsonValue::Bool(b) => {
            if *b {
                out.append("true");
            } else {
                out.append("false");
            }
        },
        JsonValue::Number(t) => {
            out.append(t.as_str());
        },
        JsonValue::Str(s) => {
            push_char(out, '"');
            push_escaped(out, s.as_str());
            push_char(out, '"');
        },
        JsonValue::Array(items) => {
            if items.len() == 0 {
                out.append("[]");
            } else {
                let mut inner = pad.to_owned();
                inner.append("  ");
                out.append("[\n");
                write_items(out, items, inner.as_str());
                push_char(out, '\n');
                out.append(pad);
                push_char(out, ']');
                proof {
                    assert(out@ =~= old(out)@ + json_text(*v, pad@));
                }
            }
        },
        JsonValue::Object(members) => {
            if members.len() == 0 {
                out.append("{}");
            } else {
                let mut inner = pad.to_owned();
                inner.append("  ");
                out.append("{\n");
                write_members(out, members, inner.as_str());
                push_char(out, '\n');
                out.append(pad);
                push_char(out, '}');
                proof {
                    assert(out@ =~= old(out)@ + json_text(*v, pad@));
                }
            }
        },
    }
}

/// Appends array elements, each on its own line at indentation `pad`.
fn write_items(out: &mut String, items: &Vec<JsonValue>, pad: &str)
    ensures
        final(out)@ == old(out)@ + items_text(items@, pad@),
    decreases items,
{
    proof {
        reveal_strlit(",\n");
    }
    let mut i: usize = 0;
    while i < items.len()
        invariant
            i <= items@.len(),
            out@ == old(out)@ + items_text(items@.subrange(0, i as int), pad@),
        decreases items@.len() - i,
    {
        if i > 0 {
            out.append(",\n");
        }
        out.append(pad);
        write_value(out, &items[i], pad);
        proof {
            let p = items@.subrange(0, i + 1);
            assert(p.drop_last() =~= items@.subrange(0, i as int));
            assert(p.last() == items@[i as int]);
            if i == 0 {
                assert(p[0] == items@[0]);
            }
            assert(out@ =~= old(out)@ + items_text(p, pad@));
        }
        i += 1;
    }
    assert(items@.subrange(0, items@.len() as int) =~= items@);
}

/// Appends object members, each on its own line at indentation `pad`.
fn write_members(out: &mut String, members: &Vec<(String, JsonValue)>, pad: &str)
    ensures
        final(out)@ == old(out)@ + members_text(members@, pad@),
    decreases members,
{
    proof {
        reveal_strlit(",\n");
        reveal_strlit("\": ");
    }
    let mut i: usize = 0;
    while i < members.len()
        invariant
            i <= members@.len(),
            out@ == old(out)@ + members_text(members@.subrange(0, i as int), pad@),
        decreases members@.len() - i,
    {
        if i > 0 {
            out.append(",\n");
        }
        let ghost sep = out@;
        let m = &members[i];
        out.append(pad);
        push_char(out, '"');
        out.append(m.0.as_str());
        out.append("\": ");
        write_value(out, &m.1, pad);
        proof {
            assert(out@ =~= sep + member_text(*m, pad@));
            let p = members@.subrange(0, i + 1);
            assert(p.drop_last() =~= members@.subrange(0, i as int));
            assert(p.last() == members@[i as int]);
            if i == 0 {
                assert(p[0] == members@[0]);
            }
            assert(out@ =~= old(out)@ + members_text(p, pad@));
        }
        i += 1;
    }
    assert(members@.subrange(0, members@.len() as int) =~= members@);
}

/// The pretty-printed text of a value at the outermost level.
pub fn to_string_pretty(v: &JsonValue) -> (r: String)
    ensures
        r@ == json_text(*v, Seq::empty()),
{
    let mut out = String::new();
    proof {
        reveal_strlit("");
    }
    write_value(&mut out, v, "");
    out
}

} // verus!
