//! Bounded, escaped text for errors raised while Lua runs.
use crate::config::{is_control, is_control_exec};
use crate::json::parse::byte_len;
use crate::terminal::render::{escape_text, escaped_control, escaped_text};
use crate::text::{chars_of, fits_bytes, push_char, push_str};
use vstd::prelude::*;

verus! {

broadcast use vstd::string::group_string_axioms;

/// The byte length after which an error message is cut.
pub const MAX_ERROR_BYTES: usize = 1024;

/// The `char::escape_default` form of a control character, or the character.
pub open spec fn message_char(c: char) -> Seq<char> {
    if !is_control(c) {
        seq![c]
    } else if c == '\t' {
        seq!['\\', 't']
    } else if c == '\n' {
        seq!['\\', 'n']
    } else {
        escaped_control(c)
    }
}

/// `t` with control characters escaped, appended to `out` while `out` is
/// shorter than [`MAX_ERROR_BYTES`].
pub open spec fn bounded_message(t: Seq<char>, out: Seq<char>) -> Seq<char>
    decreases t.len(),
{
    if t.len() == 0 || byte_len(out) >= MAX_ERROR_BYTES {
        out
    } else {
        bounded_message(t.drop_first(), out + message_char(t[0]))
    }
}

/// Escape control characters in a message and cut it once it reaches the bound.
pub fn escape_message(value: &str) -> (out: String)
    ensures
        out@ == bounded_message(value@, Seq::empty()),
{
    let chars = chars_of(value);
    let mut out = String::new();
    let mut i: usize = 0;
    assert(chars@.subrange(0, chars@.len() as int) =~= value@);
    while i < chars.len()
        invariant
            i <= chars@.len(),
            chars@ == value@,
            bounded_message(value@, Seq::empty()) == bounded_message(
                chars@.subrange(i as int, chars@.len() as int),
                out@,
            ),
        decreases chars@.len() - i,
    {
        if !fits_bytes(out.as_str(), MAX_ERROR_BYTES - 1) {
            return out;
        }
        let c = chars[i];
        let ghost before = out@;
        if !is_control_exec(c) {
            push_char(&mut out, c);
        } else if c == '\t' {
            push_char(&mut out, '\\');
            push_char(&mut out, 't');
        } else if c == '\n' {
            push_char(&mut out, '\\');
            push_char(&mut out, 'n');
        } else {
            let mut single = String::new();
            push_char(&mut single, c);
            let escaped = escape_text(single.as_str());
            proof {
                assert(single@ =~= seq![c]);
                assert(seq![c].drop_last() =~= Seq::<char>::empty());
                assert(seq![c].last() == c);
                assert(escaped_text(Seq::<char>::empty()) =~= Seq::<char>::empty());
                assert(escaped_text(seq![c]) =~= escaped_text(seq![c].drop_last()) + escaped_control(c));
                assert(escaped_text(seq![c]) =~= escaped_control(c));
            }
            push_str(&mut out, escaped.as_str());
        }
        proof {
            let rest = chars@.subrange(i as int, chars@.len() as int);
            assert(rest[0] == c);
            assert(rest.drop_first() =~= chars@.subrange(i + 1, chars@.len() as int));
            assert(out@ =~= before + message_char(c));
            assert(byte_len(before) < MAX_ERROR_BYTES);
            assert(bounded_message(rest, before) == bounded_message(rest.drop_first(), out@));
        }
        i = i + 1;
    }
    out
}

} // verus!
