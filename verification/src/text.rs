//! Character-level helpers over `str` and `String` used by the parsers and validators.
use vstd::prelude::*;
use vstd::std_specs::iter::IteratorSpec;

verus! {

broadcast use vstd::string::group_string_axioms;

/// Append one character to a string.
#[verifier::external_body]
pub fn push_char(text: &mut String, ch: char)
    ensures
        final(text)@ == old(text)@.push(ch),
{
    text.push(ch);
}

/// The characters of a string slice, in order.
pub fn chars_of(text: &str) -> (chars: Vec<char>)
    ensures
        chars@ == text@,
{
    let mut out: Vec<char> = Vec::new();
    let mut iter = text.chars();
    loop
        invariant
            iter.obeys_prophetic_iter_laws(),
            iter.decrease() is Some,
            text@ == out@ + iter.remaining(),
        ensures
            out@ == text@,
        decreases iter.decrease()->0,
    {
        match iter.next() {
            Some(ch) => {
                out.push(ch);
            },
            None => {
                assert(out@ + iter.remaining() == out@);
                break;
            },
        }
    }
    out
}

/// A string holding exactly the given characters.
pub fn string_from_chars(chars: &[char]) -> (text: String)
    ensures
        text@ == chars@,
{
    let mut out = String::new();
    let mut i: usize = 0;
    while i < chars.len()
        invariant
            i <= chars@.len(),
            out@ == chars@.subrange(0, i as int),
        decreases chars@.len() - i,
    {
        push_char(&mut out, chars[i]);
        i = i + 1;
        assert(out@ == chars@.subrange(0, i as int));
    }
    assert(chars@.subrange(0, chars@.len() as int) == chars@);
    out
}

/// Append a string slice to a string.
pub fn push_str(text: &mut String, tail: &str)
    ensures
        final(text)@ == old(text)@ + tail@,
{
    let chars = chars_of(tail);
    let mut i: usize = 0;
    while i < chars.len()
        invariant
            i <= chars@.len(),
            chars@ == tail@,
            text@ == old(text)@ + chars@.subrange(0, i as int),
        decreases chars@.len() - i,
    {
        push_char(text, chars[i]);
        i = i + 1;
        assert(text@ == old(text)@ + chars@.subrange(0, i as int));
    }
    assert(chars@.subrange(0, chars@.len() as int) == chars@);
}

/// Whether a string slice contains a character.
pub fn contains_char(text: &str, ch: char) -> (found: bool)
    ensures
        found == text@.contains(ch),
{
    let chars = chars_of(text);
    let mut i: usize = 0;
    while i < chars.len()
        invariant
            i <= chars@.len(),
            chars@ == text@,
            forall|j: int| 0 <= j < i ==> chars@[j] != ch,
        decreases chars@.len() - i,
    {
        if chars[i] == ch {
            assert(text@[i as int] == ch);
            return true;
        }
        i = i + 1;
    }
    false
}

/// Whether two byte slices are equal.
pub fn bytes_eq(a: &[u8], b: &[u8]) -> (equal: bool)
    ensures
        equal == (a@ == b@),
{
    if a.len() != b.len() {
        return false;
    }
    let mut i: usize = 0;
    while i < a.len()
        invariant
            i <= a@.len(),
            a@.len() == b@.len(),
            forall|j: int| 0 <= j < i ==> a@[j] == b@[j],
        decreases a@.len() - i,
    {
        if a[i] != b[i] {
            return false;
        }
        i = i + 1;
    }
    assert(a@ =~= b@);
    true
}

} // verus!

verus! {

/// Whether two string slices hold the same characters.
pub fn str_eq(a: &str, b: &str) -> (equal: bool)
    ensures
        equal == (a@ == b@),
{
    let x = chars_of(a);
    let y = chars_of(b);
    if x.len() != y.len() {
        return false;
    }
    let mut i: usize = 0;
    while i < x.len()
        invariant
            i <= x@.len(),
            x@.len() == y@.len(),
            x@ == a@,
            y@ == b@,
            forall|j: int| 0 <= j < i ==> x@[j] == y@[j],
        decreases x@.len() - i,
    {
        if x[i] != y[i] {
            return false;
        }
        i = i + 1;
    }
    assert(x@ =~= y@);
    true
}

/// Whether two digests are equal.
pub fn digest_eq(a: &[u8; 32], b: &[u8; 32]) -> (equal: bool)
    ensures
        equal == (a@ == b@),
{
    let mut i: usize = 0;
    while i < 32
        invariant
            i <= 32,
            a@.len() == 32,
            b@.len() == 32,
            forall|j: int| 0 <= j < i ==> a@[j] == b@[j],
        decreases 32 - i,
    {
        if a[i] != b[i] {
            return false;
        }
        i = i + 1;
    }
    assert(a@ =~= b@);
    true
}

/// A copy of a byte vector.
pub fn copy_bytes(bytes: &Vec<u8>) -> (copy: Vec<u8>)
    ensures
        copy@ == bytes@,
{
    let mut out: Vec<u8> = Vec::new();
    let mut i: usize = 0;
    while i < bytes.len()
        invariant
            i <= bytes@.len(),
            out@ == bytes@.subrange(0, i as int),
        decreases bytes@.len() - i,
    {
        out.push(bytes[i]);
        i = i + 1;
        assert(out@ == bytes@.subrange(0, i as int));
    }
    assert(bytes@.subrange(0, bytes@.len() as int) == bytes@);
    out
}

/// The ASCII digit for a value below ten.
pub open spec fn digit_char(d: int) -> char {
    (('0' as int) + d) as char
}

/// The lowercase hexadecimal digit for a value below sixteen.
pub open spec fn hex_char(d: int) -> char {
    if d < 10 {
        digit_char(d)
    } else {
        (('a' as int) + d - 10) as char
    }
}

/// The decimal digits of a natural number.
pub open spec fn nat_text(n: nat) -> Seq<char>
    decreases n,
{
    if n < 10 {
        seq![digit_char(n as int)]
    } else {
        nat_text(n / 10).push(digit_char((n % 10) as int))
    }
}

/// Append the decimal digits of `n`.
pub fn push_decimal(n: u64, out: &mut String)
    ensures
        final(out)@ == old(out)@ + nat_text(n as nat),
    decreases n,
{
    if n >= 10 {
        push_decimal(n / 10, out);
    }
    let d = (n % 10) as u32;
    let c = match hex_digit_char(d) {
        Some(c) => c,
        None => '0',
    };
    push_char(out, c);
    proof {
        if n >= 10 {
            assert(old(out)@ + nat_text(n as nat) =~= old(out)@ + nat_text((n / 10) as nat) + seq![
                digit_char((n % 10) as int),
            ]);
        } else {
            assert(old(out)@ + nat_text(n as nat) =~= old(out)@ + seq![digit_char(n as int)]);
        }
    }
}

/// The lowercase hexadecimal digit for a value below sixteen.
pub fn hex_digit_char(d: u32) -> (c: Option<char>)
    requires
        d < 16,
    ensures
        c == Some(hex_char(d as int)),
{
    let code = if d < 10 {
        ('0' as u32) + d
    } else {
        ('a' as u32) + d - 10
    };
    let c = crate::json::parse::char_from_u32(code);
    proof {
        if let Some(ch) = c {
            vstd::utf8::char_u32_cast(ch, code);
        }
    }
    c
}

/// Whether a string's UTF-8 encoding is at most `limit` bytes.
pub fn fits_bytes(text: &str, limit: usize) -> (fits: bool)
    requires
        limit <= 1_048_576,
    ensures
        fits == (crate::json::parse::byte_len(text@) <= limit),
{
    let t = chars_of(text);
    let mut width: usize = 0;
    let mut i: usize = 0;
    while i < t.len()
        invariant
            i <= t@.len(),
            t@ == text@,
            width == crate::json::parse::byte_len(t@.subrange(0, i as int)),
            width <= limit,
            limit <= 1_048_576,
        decreases t@.len() - i,
    {
        proof {
            assert(t@.subrange(0, i + 1).drop_last() =~= t@.subrange(0, i as int));
        }
        width = width + crate::json::parse::char_width_exec(t[i]);
        if width > limit {
            proof {
                assert(crate::json::parse::byte_len(t@.subrange(0, i + 1)) == width);
                crate::config::lemma_byte_len_prefix(t@, i + 1);
            }
            return false;
        }
        i = i + 1;
    }
    assert(t@.subrange(0, i as int) =~= t@);
    true
}

} // verus!
