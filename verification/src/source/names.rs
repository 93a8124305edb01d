//! Validate command and module names before using them as path components.
use crate::error::{ErrorCode, KoruError};
use crate::text::{chars_of, push_str, str_eq};
use vstd::prelude::*;

verus! {

broadcast use vstd::string::group_string_axioms;

/// Built-in subcommands that installed commands cannot shadow.
pub open spec fn builtins() -> Seq<Seq<char>> {
    seq!["model"@, "variant"@, "check"@, "recover"@, "help"@, "list"@, "inspect"@]
}

/// A portable lowercase identifier: a letter, then letters, digits or `_`, at
/// most 64 bytes.
pub open spec fn is_identifier(value: Seq<char>) -> bool {
    &&& value.len() > 0
    &&& value.len() <= 64
    &&& 'a' <= value[0] <= 'z'
    &&& forall|k: int|
        0 <= k < value.len() ==> ('a' <= #[trigger] value[k] <= 'z' || '0' <= value[k] <= '9'
            || value[k] == '_')
}

/// The dot-separated segments of `t[i..]`, after `done`.
pub open spec fn segments_ok(t: Seq<char>, start: int, i: int) -> bool
    decreases t.len() - i,
{
    if i < start || i > t.len() {
        false
    } else if i == t.len() {
        is_identifier(t.subrange(start, i))
    } else if t[i] == '.' {
        is_identifier(t.subrange(start, i)) && segments_ok(t, i + 1, i + 1)
    } else {
        segments_ok(t, start, i + 1)
    }
}

/// A non-empty dotted name whose every segment is an identifier.
pub open spec fn is_module_name(value: Seq<char>) -> bool {
    value.len() > 0 && segments_ok(value, 0, 0)
}

/// Whether a name is a portable identifier.
pub fn identifier(value: &str) -> (ok: bool)
    ensures
        ok == is_identifier(value@),
{
    let t = chars_of(value);
    assert(t@.subrange(0, t@.len() as int) =~= t@);
    identifier_chars(&t, 0, t.len())
}

fn identifier_chars(t: &Vec<char>, a: usize, b: usize) -> (ok: bool)
    requires
        a <= b <= t@.len(),
    ensures
        ok == is_identifier(t@.subrange(a as int, b as int)),
{
    let ghost s = t@.subrange(a as int, b as int);
    if b == a || b - a > 64 || !('a' <= t[a] && t[a] <= 'z') {
        return false;
    }
    let mut i = a;
    while i < b
        invariant
            a <= i <= b <= t@.len(),
            s == t@.subrange(a as int, b as int),
            forall|k: int|
                0 <= k < i - a ==> ('a' <= #[trigger] s[k] <= 'z' || '0' <= s[k] <= '9' || s[k]
                    == '_'),
        decreases b - i,
    {
        let c = t[i];
        if !(('a' <= c && c <= 'z') || ('0' <= c && c <= '9') || c == '_') {
            assert(s[i - a] == c);
            return false;
        }
        i = i + 1;
    }
    true
}

/// Validate an installed command's portable name.
pub fn command(name: &str) -> (result: Result<(), KoruError>)
    ensures
        result is Ok <==> (is_identifier(name@) && !builtins().contains(name@)),
        result matches Err(e) ==> e.spec_code() == ErrorCode::Validation,
{
    proof {
        reveal_strlit("model");
        reveal_strlit("variant");
        reveal_strlit("check");
        reveal_strlit("recover");
        reveal_strlit("help");
        reveal_strlit("list");
        reveal_strlit("inspect");
    }
    let reserved: [&str; 7] = ["model", "variant", "check", "recover", "help", "list", "inspect"];
    let ghost names = Seq::new(7, |k: int| reserved@[k]@);
    assert(names =~= builtins());
    let mut is_reserved = false;
    let mut i: usize = 0;
    while i < 7
        invariant
            i <= 7,
            names == Seq::new(7, |k: int| reserved@[k]@),
            is_reserved == exists|k: int| 0 <= k < i && names[k] == name@,
        decreases 7 - i,
    {
        assert(names[i as int] == reserved@[i as int]@);
        if str_eq(reserved[i], name) {
            is_reserved = true;
        }
        i = i + 1;
    }
    if !identifier(name) || is_reserved {
        let mut message = String::new();
        push_str(&mut message, "invalid or reserved command name ");
        push_str(&mut message, name);
        return Err(KoruError::new(ErrorCode::Validation, message.as_str()));
    }
    Ok(())
}

/// Whether a name is a dotted module name.
pub fn is_module(name: &str) -> (ok: bool)
    ensures
        ok == is_module_name(name@),
{
    let t = chars_of(name);
    if t.len() == 0 {
        return false;
    }
    let mut start: usize = 0;
    let mut i: usize = 0;
    while i < t.len()
        invariant
            start <= i <= t@.len(),
            t@ == name@,
            segments_ok(t@, 0, 0) == segments_ok(t@, start as int, i as int),
        decreases t@.len() - i,
    {
        if t[i] == '.' {
            if !identifier_chars(&t, start, i) {
                return false;
            }
            start = i + 1;
        }
        i = i + 1;
    }
    identifier_chars(&t, start, i)
}

/// Validate a pure-Lua dotted module name.
pub fn module(name: &str) -> (result: Result<(), KoruError>)
    ensures
        result is Ok <==> is_module_name(name@),
        result matches Err(e) ==> e.spec_code() == ErrorCode::Validation,
{
    if !is_module(name) {
        let mut message = String::new();
        push_str(&mut message, "invalid module name ");
        push_str(&mut message, name);
        return Err(KoruError::new(ErrorCode::Validation, message.as_str()));
    }
    Ok(())
}

} // verus!
