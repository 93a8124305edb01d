//! Canonical, compact JSON emission from [`JsonValue`].
//!
//! Object keys are already sorted by the model. Numbers are written so that
//! parsing restores the same variant: integral numbers keep an explicit `.0`.
use super::{Json, JsonValue, models, entry_models};
use crate::text::{push_char, push_str, push_decimal, hex_digit_char, nat_text, hex_char};
use vstd::prelude::*;

verus! {

broadcast use vstd::string::group_string_axioms;

/// The decimal text of an integer.
pub open spec fn int_text(n: int) -> Seq<char> {
    if n < 0 {
        seq!['-'] + nat_text((-n) as nat)
    } else {
        nat_text(n as nat)
    }
}

/// Number text, with `.0` added when it has no fraction or exponent.
pub open spec fn number_text(text: Seq<char>) -> Seq<char> {
    if text.contains('.') || text.contains('e') || text.contains('E') {
        text
    } else {
        text + seq!['.', '0']
    }
}

/// The escaped form of one string character.
pub open spec fn escape_char(c: char) -> Seq<char> {
    if c == '"' {
        seq!['\\', '"']
    } else if c == '\\' {
        seq!['\\', '\\']
    } else if c == '\n' {
        seq!['\\', 'n']
    } else if c == '\r' {
        seq!['\\', 'r']
    } else if c == '\t' {
        seq!['\\', 't']
    } else if c == '\u{8}' {
        seq!['\\', 'b']
    } else if c == '\u{c}' {
        seq!['\\', 'f']
    } else if (c as u32) < 0x20 {
        seq!['\\', 'u', '0', '0', hex_char(((c as u32) / 16) as int), hex_char(((c as u32) % 16) as int)]
    } else {
        seq![c]
    }
}

/// The escaped characters of a string body.
pub open spec fn escape_body(text: Seq<char>) -> Seq<char>
    decreases text.len(),
{
    if text.len() == 0 {
        Seq::empty()
    } else {
        escape_body(text.drop_last()) + escape_char(text.last())
    }
}

/// A quoted, escaped JSON string.
pub open spec fn string_text(text: Seq<char>) -> Seq<char> {
    seq!['"'] + escape_body(text) + seq!['"']
}

/// The compact text of a JSON value.
pub open spec fn emit_json(value: Json) -> Seq<char>
    decreases value, 0nat,
{
    match value {
        Json::Null => seq!['n', 'u', 'l', 'l'],
        Json::Bool(b) => if b {
            seq!['t', 'r', 'u', 'e']
        } else {
            seq!['f', 'a', 'l', 's', 'e']
        },
        Json::Integer(n) => int_text(n),
        Json::Number(text) => number_text(text),
        Json::Str(text) => string_text(text),
        Json::Array(items) => seq!['['] + emit_items(items) + seq![']'],
        Json::Object(entries) => seq!['{'] + emit_entries(entries) + seq!['}'],
    }
}

/// The comma-separated texts of array items.
pub open spec fn emit_items(items: Seq<Json>) -> Seq<char>
    decreases items, 1nat,
{
    if items.len() == 0 {
        Seq::empty()
    } else {
        let head = emit_items(items.drop_last());
        let sep = if items.len() > 1 {
            seq![',']
        } else {
            Seq::empty()
        };
        head + sep + emit_json(items.last())
    }
}

/// The comma-separated `key:value` texts of object entries.
pub open spec fn emit_entries(entries: Seq<(Seq<char>, Json)>) -> Seq<char>
    decreases entries, 1nat,
{
    if entries.len() == 0 {
        Seq::empty()
    } else {
        let head = emit_entries(entries.drop_last());
        let sep = if entries.len() > 1 {
            seq![',']
        } else {
            Seq::empty()
        };
        head + sep + string_text(entries.last().0) + seq![':'] + emit_json(entries.last().1)
    }
}

/// Emit compact JSON that [`super::parse::parse`] restores.
pub fn emit(value: &JsonValue) -> (text: String)
    ensures
        text@ == emit_json(value.model()),
{
    let mut out = String::new();
    write(value, &mut out);
    out
}

pub(crate) fn write_integer(n: i64, out: &mut String)
    ensures
        final(out)@ == old(out)@ + int_text(n as int),
{
    if n < 0 {
        push_char(out, '-');
        let magnitude: u64 = if n == i64::MIN {
            9_223_372_036_854_775_808u64
        } else {
            (-n) as u64
        };
        push_decimal(magnitude, out);
        assert(final(out)@ =~= old(out)@ + int_text(n as int));
    } else {
        push_decimal(n as u64, out);
    }
}

fn write_number(text: &str, out: &mut String)
    ensures
        final(out)@ == old(out)@ + number_text(text@),
{
    push_str(out, text);
    if !crate::text::contains_char(text, '.') && !crate::text::contains_char(text, 'e')
        && !crate::text::contains_char(text, 'E') {
        push_char(out, '.');
        push_char(out, '0');
        assert(final(out)@ =~= old(out)@ + (text@ + seq!['.', '0']));
    }
}

fn write_escaped(c: char, out: &mut String)
    ensures
        final(out)@ == old(out)@ + escape_char(c),
{
    if c == '"' {
        push_char(out, '\\');
        push_char(out, '"');
    } else if c == '\\' {
        push_char(out, '\\');
        push_char(out, '\\');
    } else if c == '\n' {
        push_char(out, '\\');
        push_char(out, 'n');
    } else if c == '\r' {
        push_char(out, '\\');
        push_char(out, 'r');
    } else if c == '\t' {
        push_char(out, '\\');
        push_char(out, 't');
    } else if c == '\u{8}' {
        push_char(out, '\\');
        push_char(out, 'b');
    } else if c == '\u{c}' {
        push_char(out, '\\');
        push_char(out, 'f');
    } else if (c as u32) < 0x20 {
        let code = c as u32;
        let high = match hex_digit_char(code / 16) {
            Some(h) => h,
            None => '0',
        };
        let low = match hex_digit_char(code % 16) {
            Some(l) => l,
            None => '0',
        };
        push_char(out, '\\');
        push_char(out, 'u');
        push_char(out, '0');
        push_char(out, '0');
        push_char(out, high);
        push_char(out, low);
    } else {
        push_char(out, c);
    }
    assert(final(out)@ =~= old(out)@ + escape_char(c));
}

fn write_string(text: &str, out: &mut String)
    ensures
        final(out)@ == old(out)@ + string_text(text@),
{
    let chars = crate::text::chars_of(text);
    push_char(out, '"');
    let ghost start = out@;
    let mut i: usize = 0;
    while i < chars.len()
        invariant
            i <= chars@.len(),
            chars@ == text@,
            start == old(out)@.push('"'),
            out@ == start + escape_body(chars@.subrange(0, i as int)),
        decreases chars@.len() - i,
    {
        let ghost prefix = chars@.subrange(0, i as int);
        write_escaped(chars[i], out);
        proof {
            let next = chars@.subrange(0, i + 1);
            assert(next.drop_last() =~= prefix);
            assert(next.last() == chars@[i as int]);
            assert(out@ =~= start + escape_body(next));
        }
        i = i + 1;
    }
    push_char(out, '"');
    assert(chars@.subrange(0, chars@.len() as int) =~= chars@);
    assert(final(out)@ =~= old(out)@ + string_text(text@));
}

fn write(value: &JsonValue, out: &mut String)
    ensures
        final(out)@ == old(out)@ + emit_json(value.model()),
    decreases value, 1nat,
{
    match value {
        JsonValue::Null => {
            push_str(out, "null");
            proof {
                reveal_strlit("null");
            }
        },
        JsonValue::Bool(b) => {
            if *b {
                push_str(out, "true");
                proof {
                    reveal_strlit("true");
                }
            } else {
                push_str(out, "false");
                proof {
                    reveal_strlit("false");
                }
            }
        },
        JsonValue::Integer(n) => write_integer(*n, out),
        JsonValue::Number(text) => write_number(text.as_str(), out),
        JsonValue::String(text) => write_string(text.as_str(), out),
        JsonValue::Array(_) => write_array(value, out),
        JsonValue::Object(_) => write_object(value, out),
    }
}

fn write_array(value: &JsonValue, out: &mut String)
    requires
        value is Array,
    ensures
        final(out)@ == old(out)@ + emit_json(value.model()),
    decreases value, 0nat,
{
    let items = match value {
        JsonValue::Array(items) => items,
        _ => {
            return;
        },
    };
    push_char(out, '[');
    let ghost start = out@;
    let ghost ms = models(items@);
    let mut i: usize = 0;
    while i < items.len()
        invariant
            value is Array,
            *items == value->Array_0,
            i <= items@.len(),
            ms == models(items@),
            start == old(out)@.push('['),
            out@ == start + emit_items(ms.subrange(0, i as int)),
        decreases items@.len() - i,
    {
        let ghost prefix = ms.subrange(0, i as int);
        let ghost mid = out@;
        if i > 0 {
            push_char(out, ',');
        }
        let ghost sep = out@;
        proof {
            assert(decreases_to!(*value => value->Array_0));
            assert(decreases_to!(value->Array_0 => items@));
            assert(decreases_to!(items@ => items@[i as int]));
        }
        write(&items[i], out);
        proof {
            let next = ms.subrange(0, i + 1);
            assert(next.drop_last() =~= prefix);
            assert(next.last() == items@[i as int].model());
            if i > 0 {
                assert(sep =~= mid + seq![',']);
            } else {
                assert(sep =~= mid + Seq::<char>::empty());
            }
            assert(out@ =~= start + emit_items(next));
        }
        i = i + 1;
    }
    push_char(out, ']');
    proof {
        assert(ms.subrange(0, ms.len() as int) =~= ms);
        assert(value.model() == Json::Array(ms)) by {
            assert(value.model()->Array_0 =~= ms);
        }
        assert(final(out)@ =~= old(out)@ + emit_json(value.model()));
    }
}

fn write_object(value: &JsonValue, out: &mut String)
    requires
        value is Object,
    ensures
        final(out)@ == old(out)@ + emit_json(value.model()),
    decreases value, 0nat,
{
    let entries = match value {
        JsonValue::Object(entries) => entries,
        _ => {
            return;
        },
    };
    push_char(out, '{');
    let ghost start = out@;
    let ghost ms = entry_models(entries@);
    let mut i: usize = 0;
    while i < entries.len()
        invariant
            value is Object,
            *entries == value->Object_0,
            i <= entries@.len(),
            ms == entry_models(entries@),
            start == old(out)@.push('{'),
            out@ == start + emit_entries(ms.subrange(0, i as int)),
        decreases entries@.len() - i,
    {
        let ghost prefix = ms.subrange(0, i as int);
        let ghost mid = out@;
        if i > 0 {
            push_char(out, ',');
        }
        let ghost sep = out@;
        let (key, item) = &entries[i];
        write_string(key.as_str(), out);
        push_char(out, ':');
        proof {
            assert(decreases_to!(*value => value->Object_0));
            assert(decreases_to!(value->Object_0 => entries@));
            assert(decreases_to!(entries@ => entries@[i as int]));
            assert(decreases_to!(entries@[i as int] => entries@[i as int].1));
        }
        write(item, out);
        proof {
            let next = ms.subrange(0, i + 1);
            assert(next.drop_last() =~= prefix);
            assert(next.last() == (key@, item.model()));
            if i > 0 {
                assert(sep =~= mid + seq![',']);
            } else {
                assert(sep =~= mid + Seq::<char>::empty());
            }
            assert(out@ =~= start + emit_entries(next));
        }
        i = i + 1;
    }
    push_char(out, '}');
    proof {
        assert(ms.subrange(0, ms.len() as int) =~= ms);
        assert(value.model() == Json::Object(ms)) by {
            assert(value.model()->Object_0 =~= ms);
        }
        assert(final(out)@ =~= old(out)@ + emit_json(value.model()));
    }
}

} // verus!
