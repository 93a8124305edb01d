//! Strict, bounded JSON parsing into [`JsonValue`].
//!
//! Accepts RFC 8259 JSON with bounded depth, element count, and byte size.
//! Rejects trailing data, duplicate object keys, unescaped control characters,
//! invalid or lone-surrogate escapes, and malformed numbers. Input must be valid
//! UTF-8.
use super::{entry_models, models, Json, JsonLimits, JsonValue, MAX_SAFE_INTEGER};
use super::number::within_binary64;
use crate::error::{ErrorCode, KoruError};
use crate::text::string_from_chars;
use vstd::prelude::*;

verus! {

/// Parser position and charged counters.
pub struct St {
    /// Position in the decoded characters.
    pub pos: int,
    /// Elements charged so far.
    pub elements: int,
    /// String and key bytes charged so far.
    pub bytes: int,
}

/// JSON insignificant whitespace.
pub open spec fn is_ws(c: char) -> bool {
    c == ' ' || c == '\t' || c == '\n' || c == '\r'
}

/// An ASCII decimal digit.
pub open spec fn is_digit(c: char) -> bool {
    '0' <= c && c <= '9'
}

/// The position after any whitespace starting at `p`.
pub open spec fn ws_end(s: Seq<char>, p: int) -> int
    decreases s.len() - p,
{
    if 0 <= p < s.len() && is_ws(s[p]) {
        ws_end(s, p + 1)
    } else {
        p
    }
}

/// The position after any digits starting at `p`.
pub open spec fn digits_end(s: Seq<char>, p: int) -> int
    decreases s.len() - p,
{
    if 0 <= p < s.len() && is_digit(s[p]) {
        digits_end(s, p + 1)
    } else {
        p
    }
}

/// Saturating addition in `usize`.
pub open spec fn sat(n: int) -> int {
    if n > usize::MAX {
        usize::MAX as int
    } else {
        n
    }
}

/// Charge one element of `n` bytes.
pub open spec fn charge(limits: JsonLimits, st: St, n: int) -> Result<St, ErrorCode> {
    let elements = sat(st.elements + 1);
    let bytes = sat(st.bytes + n);
    if elements > limits.max_elements {
        Err(ErrorCode::BudgetExhausted)
    } else if bytes > limits.max_bytes {
        Err(ErrorCode::BudgetExhausted)
    } else {
        Ok(St { pos: st.pos, elements, bytes })
    }
}

/// The UTF-8 width of a character.
pub open spec fn char_width(c: char) -> int {
    if (c as u32) < 0x80 {
        1
    } else if (c as u32) < 0x800 {
        2
    } else if (c as u32) < 0x10000 {
        3
    } else {
        4
    }
}

/// The UTF-8 byte length of a character sequence.
pub open spec fn byte_len(text: Seq<char>) -> int
    decreases text.len(),
{
    if text.len() == 0 {
        0
    } else {
        byte_len(text.drop_last()) + char_width(text.last())
    }
}

/// Byte lengths are not negative.
pub proof fn lemma_byte_len_nonneg(t: Seq<char>)
    ensures
        byte_len(t) >= 0,
    decreases t.len(),
{
    if t.len() > 0 {
        lemma_byte_len_nonneg(t.drop_last());
    }
}

/// The byte length of a character sequence, split at its first character.
pub proof fn lemma_byte_len_front(t: Seq<char>)
    requires
        t.len() > 0,
    ensures
        byte_len(t) == char_width(t[0]) + byte_len(t.drop_first()),
    decreases t.len(),
{
    if t.len() > 1 {
        lemma_byte_len_front(t.drop_last());
        assert(t.drop_last().drop_first() =~= t.drop_first().drop_last());
        assert(t.drop_last()[0] == t[0]);
        assert(t.drop_first().last() == t.last());
        assert(byte_len(t.drop_first()) == byte_len(t.drop_first().drop_last()) + char_width(
            t.drop_first().last(),
        ));
        assert(byte_len(t) == byte_len(t.drop_last()) + char_width(t.last()));
    } else {
        assert(t.drop_first().len() == 0);
        assert(t.drop_last().len() == 0);
        assert(t.last() == t[0]);
        assert(byte_len(t) == byte_len(t.drop_last()) + char_width(t.last()));
    }
}

/// The UTF-8 encoding of characters is as long as their byte length.
pub proof fn lemma_encode_len(t: Seq<char>)
    ensures
        vstd::utf8::encode_utf8(t).len() == byte_len(t),
    decreases t.len(),
{
    if t.len() > 0 {
        lemma_encode_len(t.drop_first());
        lemma_byte_len_front(t);
        let c = t[0];
        let v = c as u32;
        assert(!(0xD800 <= v <= 0xDFFF) && v <= 0x10FFFF) by {
            vstd::utf8::char_u32_cast(c, v);
        }
        assert(vstd::utf8::encode_scalar(v).len() == char_width(c));
        assert(vstd::utf8::encode_utf8(t) == vstd::utf8::encode_scalar(v) + vstd::utf8::encode_utf8(
            t.drop_first(),
        ));
    }
}

/// The value of a hexadecimal digit.
pub open spec fn hex_value(c: char) -> Option<int> {
    if '0' <= c && c <= '9' {
        Some(c as int - '0' as int)
    } else if 'a' <= c && c <= 'f' {
        Some(c as int - 'a' as int + 10)
    } else if 'A' <= c && c <= 'F' {
        Some(c as int - 'A' as int + 10)
    } else {
        None
    }
}

/// Four hexadecimal digits at `p`.
pub open spec fn hex4(s: Seq<char>, p: int) -> Option<int> {
    if p < 0 || p + 4 > s.len() {
        None
    } else {
        match (hex_value(s[p]), hex_value(s[p + 1]), hex_value(s[p + 2]), hex_value(s[p + 3])) {
            (Some(a), Some(b), Some(c), Some(d)) => Some(((a * 16 + b) * 16 + c) * 16 + d),
            _ => None,
        }
    }
}

/// The character of an escape whose letter is at `p`, and the position after it.
pub open spec fn escape(s: Seq<char>, p: int) -> Option<(char, int)> {
    if p < 0 || p >= s.len() {
        None
    } else {
        let c = s[p];
        if c == '"' {
            Some(('"', p + 1))
        } else if c == '\\' {
            Some(('\\', p + 1))
        } else if c == '/' {
            Some(('/', p + 1))
        } else if c == 'b' {
            Some(('\u{8}', p + 1))
        } else if c == 'f' {
            Some(('\u{c}', p + 1))
        } else if c == 'n' {
            Some(('\n', p + 1))
        } else if c == 'r' {
            Some(('\r', p + 1))
        } else if c == 't' {
            Some(('\t', p + 1))
        } else if c == 'u' {
            match hex4(s, p + 1) {
                None => None,
                Some(code) => if 0xD800 <= code <= 0xDBFF {
                    if p + 5 < s.len() && s[p + 5] == '\\' && p + 6 < s.len() && s[p + 6] == 'u' {
                        match hex4(s, p + 7) {
                            Some(low) => if 0xDC00 <= low <= 0xDFFF {
                                Some(
                                    (
                                        ((0x10000 + (code - 0xD800) * 1024 + (low - 0xDC00)) as u32)
                                            as char,
                                        p + 11,
                                    ),
                                )
                            } else {
                                None
                            },
                            None => None,
                        }
                    } else {
                        None
                    }
                } else if 0xDC00 <= code <= 0xDFFF {
                    None
                } else {
                    Some(((code as u32) as char, p + 5))
                },
            }
        } else {
            None
        }
    }
}

/// The characters of a string body starting at `p`, and the position after the
/// closing quote.
pub open spec fn string_body(s: Seq<char>, p: int, out: Seq<char>) -> Option<(Seq<char>, int)>
    decreases s.len() - p,
{
    if p < 0 || p >= s.len() {
        None
    } else if s[p] == '"' {
        Some((out, p + 1))
    } else if s[p] == '\\' {
        match escape(s, p + 1) {
            Some((c, q)) => if q > p {
                string_body(s, q, out.push(c))
            } else {
                None
            },
            None => None,
        }
    } else if (s[p] as u32) < 0x20 {
        None
    } else {
        string_body(s, p + 1, out.push(s[p]))
    }
}

/// A string at `st.pos`, with its length limit and charge.
pub open spec fn string(s: Seq<char>, st: St, key: bool, limits: JsonLimits) -> Result<
    (Seq<char>, St),
    ErrorCode,
> {
    if !(0 <= st.pos < s.len() && s[st.pos] == '"') {
        Err(ErrorCode::Validation)
    } else {
        match string_body(s, st.pos + 1, Seq::empty()) {
            None => Err(ErrorCode::Validation),
            Some((out, q)) => {
                let n = byte_len(out);
                if key && n > limits.max_key_bytes {
                    Err(ErrorCode::BudgetExhausted)
                } else if !key && n > limits.max_string_bytes {
                    Err(ErrorCode::BudgetExhausted)
                } else {
                    match charge(limits, St { pos: q, ..st }, n) {
                        Ok(next) => Ok((out, next)),
                        Err(code) => Err(code),
                    }
                }
            },
        }
    }
}

/// The decimal value of a digit sequence.
pub open spec fn digits_value(ds: Seq<char>) -> int
    decreases ds.len(),
{
    if ds.len() == 0 {
        0
    } else {
        digits_value(ds.drop_last()) * 10 + (ds.last() as int - '0' as int)
    }
}

/// The end of a number lexeme at `p`, whether it is fractional or exponential,
/// and the range of its integer digits.
pub open spec fn number_lexeme(s: Seq<char>, p: int) -> Option<(int, bool, int)> {
    let q = if 0 <= p < s.len() && s[p] == '-' {
        p + 1
    } else {
        p
    };
    let int_end = if 0 <= q < s.len() && s[q] == '0' {
        q + 1
    } else if 0 <= q < s.len() && '1' <= s[q] && s[q] <= '9' {
        digits_end(s, q)
    } else {
        -1
    };
    if int_end < 0 {
        None
    } else {
        let has_fraction = 0 <= int_end < s.len() && s[int_end] == '.';
        let frac_ok = !has_fraction || (int_end + 1 < s.len() && is_digit(s[int_end + 1]));
        let frac_end = if has_fraction {
            digits_end(s, int_end + 1)
        } else {
            int_end
        };
        let has_exponent = 0 <= frac_end < s.len() && (s[frac_end] == 'e' || s[frac_end] == 'E');
        let sign_end = if has_exponent && frac_end + 1 < s.len() && (s[frac_end + 1] == '+'
            || s[frac_end + 1] == '-') {
            frac_end + 2
        } else {
            frac_end + 1
        };
        let exp_ok = !has_exponent || (sign_end < s.len() && is_digit(s[sign_end]));
        let end = if has_exponent {
            digits_end(s, sign_end)
        } else {
            frac_end
        };
        if !frac_ok || !exp_ok {
            None
        } else {
            Some((end, has_fraction || has_exponent, q))
        }
    }
}

/// The number at `p`: an integer when it is an exact portable integer, otherwise
/// its decimal text; none when its value is beyond the finite binary64 range.
pub open spec fn number(s: Seq<char>, p: int) -> Option<(Json, int)> {
    match number_lexeme(s, p) {
        None => None,
        Some((end, float, q)) => {
            let magnitude = digits_value(s.subrange(q, end));
            let value = if q > p {
                -magnitude
            } else {
                magnitude
            };
            if !float && magnitude <= MAX_SAFE_INTEGER {
                Some((Json::Integer(value), end))
            } else if within_binary64(s.subrange(p, end)) {
                Some((Json::Number(s.subrange(p, end)), end))
            } else {
                None
            }
        },
    }
}

/// Whether `lit` occurs at `p`.
pub open spec fn literal_at(s: Seq<char>, p: int, lit: Seq<char>) -> bool {
    0 <= p && p + lit.len() <= s.len() && s.subrange(p, p + lit.len()) == lit
}

/// A scalar that needs no nesting, followed by its charge.
pub open spec fn charged(
    limits: JsonLimits,
    st: St,
    value: Json,
    end: int,
) -> Result<(Json, St), ErrorCode> {
    match charge(limits, St { pos: end, ..st }, 0) {
        Ok(next) => Ok((value, next)),
        Err(code) => Err(code),
    }
}

/// Lexicographic order of object keys by code point.
pub open spec fn key_lt(a: Seq<char>, b: Seq<char>) -> bool
    decreases a.len(),
{
    if a.len() == 0 {
        b.len() > 0
    } else if b.len() == 0 {
        false
    } else if a[0] != b[0] {
        (a[0] as u32) < (b[0] as u32)
    } else {
        key_lt(a.drop_first(), b.drop_first())
    }
}

/// Insert an entry into ordered entries, or `None` when the key is present.
pub open spec fn obj_insert(entries: Seq<(Seq<char>, Json)>, key: Seq<char>, value: Json) -> Option<
    Seq<(Seq<char>, Json)>,
>
    decreases entries.len(),
{
    if entries.len() == 0 {
        Some(seq![(key, value)])
    } else if entries[0].0 == key {
        None
    } else if key_lt(key, entries[0].0) {
        Some(seq![(key, value)] + entries)
    } else {
        match obj_insert(entries.drop_first(), key, value) {
            Some(rest) => Some(seq![entries[0]] + rest),
            None => None,
        }
    }
}

/// One JSON value at `st.pos`.
pub open spec fn value(s: Seq<char>, st: St, depth: int, limits: JsonLimits) -> Result<
    (Json, St),
    ErrorCode,
>
    decreases s.len() - st.pos, 2int,
{
    let p = st.pos;
    if depth > limits.max_depth {
        Err(ErrorCode::BudgetExhausted)
    } else if p < 0 || p >= s.len() {
        Err(ErrorCode::Validation)
    } else {
        let c = s[p];
        if c == 'n' {
            if literal_at(s, p, seq!['n', 'u', 'l', 'l']) {
                charged(limits, st, Json::Null, p + 4)
            } else {
                Err(ErrorCode::Validation)
            }
        } else if c == 't' {
            if literal_at(s, p, seq!['t', 'r', 'u', 'e']) {
                charged(limits, st, Json::Bool(true), p + 4)
            } else {
                Err(ErrorCode::Validation)
            }
        } else if c == 'f' {
            if literal_at(s, p, seq!['f', 'a', 'l', 's', 'e']) {
                charged(limits, st, Json::Bool(false), p + 5)
            } else {
                Err(ErrorCode::Validation)
            }
        } else if c == '"' {
            match string(s, st, false, limits) {
                Ok((text, next)) => charged(limits, next, Json::Str(text), next.pos),
                Err(code) => Err(code),
            }
        } else if c == '[' {
            array(s, st, depth, limits)
        } else if c == '{' {
            object(s, st, depth, limits)
        } else if c == '-' || is_digit(c) {
            match number(s, p) {
                Some((v, end)) => charged(limits, st, v, end),
                None => Err(ErrorCode::Validation),
            }
        } else {
            Err(ErrorCode::Validation)
        }
    }
}

/// An array whose `[` is at `st.pos`.
pub open spec fn array(s: Seq<char>, st: St, depth: int, limits: JsonLimits) -> Result<
    (Json, St),
    ErrorCode,
>
    decreases s.len() - st.pos, 1int,
{
    let p = ws_end(s, st.pos + 1);
    if 0 <= p < s.len() && s[p] == ']' {
        Ok((Json::Array(Seq::empty()), St { pos: p + 1, ..st }))
    } else if st.pos < p <= s.len() {
        array_items(s, St { pos: p, ..st }, depth, limits, Seq::empty())
    } else {
        Err(ErrorCode::Validation)
    }
}

/// The remaining items of an array, starting before an item.
pub open spec fn array_items(
    s: Seq<char>,
    st: St,
    depth: int,
    limits: JsonLimits,
    items: Seq<Json>,
) -> Result<(Json, St), ErrorCode>
    decreases s.len() - st.pos, 3int,
{
    let p = ws_end(s, st.pos);
    if p < st.pos || p > s.len() {
        Err(ErrorCode::Validation)
    } else {
        match value(s, St { pos: p, ..st }, depth + 1, limits) {
            Err(code) => Err(code),
            Ok((item, next)) => {
                let q = ws_end(s, next.pos);
                if 0 <= q < s.len() && s[q] == ',' {
                    if q + 1 > st.pos {
                        array_items(s, St { pos: q + 1, ..next }, depth, limits, items.push(item))
                    } else {
                        Err(ErrorCode::Validation)
                    }
                } else if 0 <= q < s.len() && s[q] == ']' {
                    Ok((Json::Array(items.push(item)), St { pos: q + 1, ..next }))
                } else {
                    Err(ErrorCode::Validation)
                }
            },
        }
    }
}

/// An object whose `{` is at `st.pos`.
pub open spec fn object(s: Seq<char>, st: St, depth: int, limits: JsonLimits) -> Result<
    (Json, St),
    ErrorCode,
>
    decreases s.len() - st.pos, 1int,
{
    let p = ws_end(s, st.pos + 1);
    if 0 <= p < s.len() && s[p] == '}' {
        Ok((Json::Object(Seq::empty()), St { pos: p + 1, ..st }))
    } else if st.pos < p <= s.len() {
        object_entries(s, St { pos: p, ..st }, depth, limits, Seq::empty())
    } else {
        Err(ErrorCode::Validation)
    }
}

/// The remaining entries of an object, starting before a key.
pub open spec fn object_entries(
    s: Seq<char>,
    st: St,
    depth: int,
    limits: JsonLimits,
    entries: Seq<(Seq<char>, Json)>,
) -> Result<(Json, St), ErrorCode>
    decreases s.len() - st.pos, 3int,
{
    let p = ws_end(s, st.pos);
    if p < st.pos || p > s.len() {
        Err(ErrorCode::Validation)
    } else {
        match string(s, St { pos: p, ..st }, true, limits) {
            Err(code) => Err(code),
            Ok((key, after_key)) => {
                let colon = ws_end(s, after_key.pos);
                if !(0 <= colon < s.len() && s[colon] == ':') {
                    Err(ErrorCode::Validation)
                } else {
                    let start = ws_end(s, colon + 1);
                    if start < st.pos || start > s.len() {
                        Err(ErrorCode::Validation)
                    } else {
                        match value(s, St { pos: start, ..after_key }, depth + 1, limits) {
                            Err(code) => Err(code),
                            Ok((item, next)) => match obj_insert(entries, key, item) {
                                None => Err(ErrorCode::Validation),
                                Some(grown) => {
                                    let q = ws_end(s, next.pos);
                                    if 0 <= q < s.len() && s[q] == ',' {
                                        if q + 1 > st.pos {
                                            object_entries(
                                                s,
                                                St { pos: q + 1, ..next },
                                                depth,
                                                limits,
                                                grown,
                                            )
                                        } else {
                                            Err(ErrorCode::Validation)
                                        }
                                    } else if 0 <= q < s.len() && s[q] == '}' {
                                        Ok((Json::Object(grown), St { pos: q + 1, ..next }))
                                    } else {
                                        Err(ErrorCode::Validation)
                                    }
                                },
                            },
                        }
                    }
                }
            },
        }
    }
}

/// One JSON document over decoded characters.
pub open spec fn parse_chars(s: Seq<char>, limits: JsonLimits) -> Result<Json, ErrorCode> {
    match value(s, St { pos: ws_end(s, 0), elements: 0, bytes: 0 }, 0, limits) {
        Err(code) => Err(code),
        Ok((v, next)) => if ws_end(s, next.pos) == s.len() {
            Ok(v)
        } else {
            Err(ErrorCode::Validation)
        },
    }
}

/// One JSON document over bytes.
pub open spec fn spec_parse(bytes: Seq<u8>, limits: JsonLimits) -> Result<Json, ErrorCode> {
    if !vstd::utf8::valid_utf8(bytes) {
        Err(ErrorCode::Validation)
    } else if bytes.len() > limits.max_bytes {
        Err(ErrorCode::BudgetExhausted)
    } else {
        parse_chars(vstd::utf8::decode_utf8(bytes), limits)
    }
}



/// The standard library's UTF-8 validation: the text when `bytes` are valid UTF-8.
#[verifier::external_body]
pub(crate) fn utf8_text(bytes: &[u8]) -> (text: Option<&str>)
    ensures
        text is Some <==> vstd::utf8::valid_utf8(bytes@),
        text matches Some(t) ==> t@ == vstd::utf8::decode_utf8(bytes@),
{
    std::str::from_utf8(bytes).ok()
}

/// The standard library's conversion of a code point to a character.
#[verifier::external_body]
pub fn char_from_u32(code: u32) -> (ch: Option<char>)
    ensures
        ch is Some <==> (code <= 0x10FFFF && !(0xD800 <= code <= 0xDFFF)),
        ch matches Some(c) ==> c as u32 == code,
{
    char::from_u32(code)
}

fn invalid(detail: &str) -> (error: KoruError)
    ensures
        error.spec_code() == ErrorCode::Validation,
{
    KoruError::new(ErrorCode::Validation, detail)
}

/// Whether a result agrees with a specification outcome.
pub open spec fn agrees<T>(result: Result<T, KoruError>, spec: Result<Json, ErrorCode>, model: spec_fn(T) -> Json) -> bool {
    match spec {
        Ok(v) => result matches Ok(x) && model(x) == v,
        Err(code) => result matches Err(e) && e.spec_code() == code,
    }
}

struct Parser {
    text: Vec<char>,
    pos: usize,
    limits: JsonLimits,
    elements: usize,
    bytes: usize,
}

proof fn lemma_ws_end(s: Seq<char>, p: int)
    requires
        0 <= p <= s.len(),
    ensures
        p <= ws_end(s, p) <= s.len(),
        ws_end(s, p) < s.len() ==> !is_ws(s[ws_end(s, p)]),
        ws_end(s, ws_end(s, p)) == ws_end(s, p),
    decreases s.len() - p,
{
    if p < s.len() && is_ws(s[p]) {
        lemma_ws_end(s, p + 1);
    }
}

pub proof fn lemma_digits_end(s: Seq<char>, p: int)
    requires
        0 <= p <= s.len(),
    ensures
        p <= digits_end(s, p) <= s.len(),
        digits_end(s, p) < s.len() ==> !is_digit(s[digits_end(s, p)]),
        forall|k: int| p <= k < digits_end(s, p) ==> is_digit(s[k]),
    decreases s.len() - p,
{
    if p < s.len() && is_digit(s[p]) {
        lemma_digits_end(s, p + 1);
    }
}

pub proof fn lemma_digits_value_grows(ds: Seq<char>, d: char)
    requires
        is_digit(d),
    ensures
        digits_value(ds.push(d)) == digits_value(ds) * 10 + (d as int - '0' as int),
{
    assert(ds.push(d).drop_last() == ds);
}

pub proof fn lemma_digits_value_nonneg(ds: Seq<char>)
    requires
        forall|k: int| 0 <= k < ds.len() ==> is_digit(ds[k]),
    ensures
        digits_value(ds) >= 0,
    decreases ds.len(),
{
    if ds.len() > 0 {
        lemma_digits_value_nonneg(ds.drop_last());
    }
}

impl Parser {
    spec fn st(&self) -> St {
        St { pos: self.pos as int, elements: self.elements as int, bytes: self.bytes as int }
    }

    spec fn inv(&self) -> bool {
        &&& self.pos <= self.text@.len()
        &&& self.text@.len() <= usize::MAX
    }

    spec fn same_input(&self, other: &Parser) -> bool {
        self.text@ == other.text@ && self.limits == other.limits
    }

    fn peek(&self) -> (c: Option<char>)
        requires
            self.inv(),
        ensures
            self.pos < self.text@.len() ==> c == Some(self.text@[self.pos as int]),
            self.pos >= self.text@.len() ==> c is None,
    {
        if self.pos < self.text.len() {
            Some(self.text[self.pos])
        } else {
            None
        }
    }

    fn peek_is(&self, c: char) -> (found: bool)
        requires
            self.inv(),
        ensures
            found == (self.pos < self.text@.len() && self.text@[self.pos as int] == c),
    {
        self.pos < self.text.len() && self.text[self.pos] == c
    }

    fn skip_whitespace(&mut self)
        requires
            old(self).inv(),
        ensures
            final(self).inv(),
            final(self).same_input(&*old(self)),
            final(self).pos == ws_end(old(self).text@, old(self).pos as int),
            final(self).elements == old(self).elements,
            final(self).bytes == old(self).bytes,
    {
        proof {
            lemma_ws_end(self.text@, self.pos as int);
        }
        while self.pos < self.text.len() && (self.text[self.pos] == ' ' || self.text[self.pos]
            == '\t' || self.text[self.pos] == '\n' || self.text[self.pos] == '\r')
            invariant
                self.inv(),
                self.same_input(&*old(self)),
                self.elements == old(self).elements,
                self.bytes == old(self).bytes,
                ws_end(self.text@, self.pos as int) == ws_end(old(self).text@, old(self).pos as int),
            decreases self.text@.len() - self.pos,
        {
            self.pos = self.pos + 1;
        }
    }

    fn consume_digits(&mut self)
        requires
            old(self).inv(),
        ensures
            final(self).inv(),
            final(self).same_input(&*old(self)),
            final(self).pos == digits_end(old(self).text@, old(self).pos as int),
            final(self).elements == old(self).elements,
            final(self).bytes == old(self).bytes,
    {
        while self.pos < self.text.len() && '0' <= self.text[self.pos] && self.text[self.pos] <= '9'
            invariant
                self.inv(),
                self.same_input(&*old(self)),
                self.elements == old(self).elements,
                self.bytes == old(self).bytes,
                digits_end(self.text@, self.pos as int) == digits_end(
                    old(self).text@,
                    old(self).pos as int,
                ),
            decreases self.text@.len() - self.pos,
        {
            self.pos = self.pos + 1;
        }
    }

    fn charge(&mut self, n: usize) -> (result: Result<(), KoruError>)
        requires
            old(self).inv(),
        ensures
            final(self).inv(),
            final(self).same_input(&*old(self)),
            final(self).pos == old(self).pos,
            match charge(old(self).limits, old(self).st(), n as int) {
                Ok(next) => result is Ok && final(self).st() == next,
                Err(code) => result matches Err(e) && e.spec_code() == code,
            },
    {
        self.elements = if self.elements == usize::MAX {
            usize::MAX
        } else {
            self.elements + 1
        };
        if let Err(error) = self.limits.check_elements(self.elements) {
            return Err(error);
        }
        self.bytes = if n > usize::MAX - self.bytes {
            usize::MAX
        } else {
            self.bytes + n
        };
        self.limits.check_bytes(self.bytes)
    }

    fn hex4(&mut self) -> (result: Result<u32, KoruError>)
        requires
            old(self).inv(),
        ensures
            final(self).inv(),
            final(self).same_input(&*old(self)),
            final(self).elements == old(self).elements,
            final(self).bytes == old(self).bytes,
            match hex4(old(self).text@, old(self).pos as int) {
                Some(v) => result == Ok::<u32, KoruError>(v as u32) && v < 0x10000
                    && final(self).pos == old(self).pos + 4,
                None => result matches Err(e) && e.spec_code() == ErrorCode::Validation,
            },
    {
        if self.text.len() < 4 || self.pos > self.text.len() - 4 {
            return Err(invalid("truncated JSON unicode escape"));
        }
        let ghost start = self.pos as int;
        let mut value: u32 = 0;
        let mut k: usize = 0;
        while k < 4
            invariant
                self.inv(),
                self.same_input(&*old(self)),
                self.elements == old(self).elements,
                self.bytes == old(self).bytes,
                start == old(self).pos,
                start + 4 <= self.text@.len(),
                k <= 4,
                self.pos == start + k,
                value < pow16(k as int),
                forall|j: int| 0 <= j < k ==> hex_value(#[trigger] self.text@[start + j]) is Some,
                value == hex_prefix(self.text@, start, k as int),
            decreases 4 - k,
        {
            let len = self.text.len();
            assert(self.pos < len);
            let c = self.text[self.pos];
            let digit = match hex_digit(c) {
                Some(d) => d,
                None => {
                    assert(hex4(self.text@, start) is None);
                    return Err(invalid("invalid JSON unicode escape"));
                },
            };
            assert(pow16(k as int + 1) == 16 * pow16(k as int));
            assert(pow16(k as int + 1) <= 65536) by {
                reveal_with_fuel(pow16, 5);
            }
            assert(value * 16 + digit < pow16(k as int + 1)) by (nonlinear_arith)
                requires
                    value < pow16(k as int),
                    digit < 16,
                    pow16(k as int + 1) == 16 * pow16(k as int),
            ;
            value = value * 16 + digit;
            self.pos = self.pos + 1;
            k = k + 1;
        }
        let ghost s = self.text@;
        assert(hex_value(s[start + 0]) is Some);
        assert(hex_value(s[start + 1]) is Some);
        assert(hex_value(s[start + 2]) is Some);
        assert(hex_value(s[start + 3]) is Some);
        assert(hex_prefix(s, start, 4) == hex4(s, start)->0) by {
            reveal_with_fuel(hex_prefix, 5);
        }
        assert(pow16(4) == 65536) by {
            reveal_with_fuel(pow16, 5);
        }
        Ok(value)
    }
}

/// `16^k` for small `k`.
pub open spec fn pow16(k: int) -> int
    decreases k,
{
    if k <= 0 {
        1
    } else {
        16 * pow16(k - 1)
    }
}

/// The value of the first `k` hexadecimal digits at `p`.
pub open spec fn hex_prefix(s: Seq<char>, p: int, k: int) -> int
    decreases k,
{
    if k <= 0 {
        0
    } else {
        match hex_value(s[p + k - 1]) {
            Some(d) => hex_prefix(s, p, k - 1) * 16 + d,
            None => 0,
        }
    }
}

fn hex_digit(c: char) -> (digit: Option<u32>)
    ensures
        match hex_value(c) {
            Some(v) => digit == Some(v as u32) && v < 16,
            None => digit is None,
        },
{
    if '0' <= c && c <= '9' {
        Some((c as u32) - ('0' as u32))
    } else if 'a' <= c && c <= 'f' {
        Some((c as u32) - ('a' as u32) + 10)
    } else if 'A' <= c && c <= 'F' {
        Some((c as u32) - ('A' as u32) + 10)
    } else {
        None
    }
}


pub fn char_width_exec(c: char) -> (width: usize)
    ensures
        width == char_width(c),
{
    let code = c as u32;
    if code < 0x80 {
        1
    } else if code < 0x800 {
        2
    } else if code < 0x10000 {
        3
    } else {
        4
    }
}

fn copy_chars(text: &Vec<char>, start: usize, end: usize) -> (out: Vec<char>)
    requires
        start <= end <= text@.len(),
    ensures
        out@ == text@.subrange(start as int, end as int),
{
    let mut out: Vec<char> = Vec::new();
    let mut i = start;
    while i < end
        invariant
            start <= i <= end <= text@.len(),
            out@ == text@.subrange(start as int, i as int),
        decreases end - i,
    {
        out.push(text[i]);
        i = i + 1;
        assert(out@ == text@.subrange(start as int, i as int));
    }
    out
}

pub proof fn lemma_key_lt_irreflexive(a: Seq<char>)
    ensures
        !key_lt(a, a),
    decreases a.len(),
{
    if a.len() > 0 {
        lemma_key_lt_irreflexive(a.drop_first());
    }
}

pub proof fn lemma_key_lt_asymmetric(a: Seq<char>, b: Seq<char>)
    requires
        key_lt(a, b),
    ensures
        !key_lt(b, a),
        a != b,
    decreases a.len(),
{
    if a.len() > 0 && b.len() > 0 && a[0] == b[0] {
        lemma_key_lt_asymmetric(a.drop_first(), b.drop_first());
    }
    if a == b {
        lemma_key_lt_irreflexive(a);
    }
}

proof fn lemma_key_lt_skip(a: Seq<char>, b: Seq<char>, i: int)
    requires
        0 <= i <= a.len(),
        i <= b.len(),
        a.subrange(0, i) == b.subrange(0, i),
    ensures
        key_lt(a, b) == key_lt(a.subrange(i, a.len() as int), b.subrange(i, b.len() as int)),
    decreases i,
{
    if i > 0 {
        assert(a[0] == a.subrange(0, i)[0]);
        assert(b[0] == b.subrange(0, i)[0]);
        assert(a.drop_first().subrange(0, i - 1) =~= a.subrange(0, i).drop_first());
        assert(b.drop_first().subrange(0, i - 1) =~= b.subrange(0, i).drop_first());
        lemma_key_lt_skip(a.drop_first(), b.drop_first(), i - 1);
        assert(a.drop_first().subrange(i - 1, a.len() - 1) =~= a.subrange(i, a.len() as int));
        assert(b.drop_first().subrange(i - 1, b.len() - 1) =~= b.subrange(i, b.len() as int));
    } else {
        assert(a.subrange(0, a.len() as int) =~= a);
        assert(b.subrange(0, b.len() as int) =~= b);
    }
}

proof fn lemma_char_u32_injective(a: char, b: char)
    requires
        a != b,
    ensures
        (a as u32) != (b as u32),
{
    vstd::utf8::char_u32_cast(a, a as u32);
    vstd::utf8::char_u32_cast(b, b as u32);
}

/// Order two keys: negative when `a` sorts first, zero when equal, positive otherwise.
pub(crate) fn compare_keys(a: &str, b: &str) -> (order: i8)
    ensures
        order == 0 ==> a@ == b@,
        order < 0 ==> key_lt(a@, b@),
        order > 0 ==> key_lt(b@, a@) && a@ != b@,
{
    let x = crate::text::chars_of(a);
    let y = crate::text::chars_of(b);
    let mut i: usize = 0;
    while i < x.len() && i < y.len()
        invariant
            i <= x@.len(),
            i <= y@.len(),
            x@ == a@,
            y@ == b@,
            x@.subrange(0, i as int) == y@.subrange(0, i as int),
        decreases x@.len() - i,
    {
        if x[i] != y[i] {
            proof {
                broadcast use vstd::utf8::char_u32_cast;

                lemma_key_lt_skip(x@, y@, i as int);
                lemma_key_lt_skip(y@, x@, i as int);
                assert(x@.subrange(i as int, x@.len() as int)[0] == x@[i as int]);
                assert(y@.subrange(i as int, y@.len() as int)[0] == y@[i as int]);
            }
            if (x[i] as u32) < (y[i] as u32) {
                return -1;
            } else {
                proof {
                    broadcast use vstd::utf8::char_u32_cast;

                    let xs = x@.subrange(i as int, x@.len() as int);
                    let ys = y@.subrange(i as int, y@.len() as int);
                    assert(xs[0] == x@[i as int]);
                    assert(ys[0] == y@[i as int]);
                    lemma_char_u32_injective(xs[0], ys[0]);
                    assert(key_lt(ys, xs));
                    assert(key_lt(y@, x@));
                    lemma_key_lt_asymmetric(y@, x@);
                }
                return 1;
            }
        }
        i = i + 1;
        assert(x@.subrange(0, i as int) =~= y@.subrange(0, i as int));
    }
    proof {
        lemma_key_lt_skip(x@, y@, i as int);
        lemma_key_lt_skip(y@, x@, i as int);
    }
    if x.len() == y.len() {
        assert(x@ =~= y@) by {
            assert(x@ == x@.subrange(0, i as int));
            assert(y@ == y@.subrange(0, i as int));
        }
        0
    } else if x.len() < y.len() {
        -1
    } else {
        proof {
            lemma_key_lt_asymmetric(y@, x@);
        }
        1
    }
}

proof fn lemma_obj_insert_at(
    entries: Seq<(Seq<char>, Json)>,
    key: Seq<char>,
    value: Json,
    i: int,
)
    requires
        0 <= i <= entries.len(),
        forall|j: int| 0 <= j < i ==> key_lt(#[trigger] entries[j].0, key),
    ensures
        (i == entries.len() || key_lt(key, entries[i].0)) ==> obj_insert(entries, key, value)
            == Some(entries.insert(i, (key, value))),
        (i < entries.len() && entries[i].0 == key) ==> obj_insert(entries, key, value) is None,
    decreases i,
{
    if i > 0 {
        let rest = entries.drop_first();
        assert forall|j: int| 0 <= j < i - 1 implies key_lt(#[trigger] rest[j].0, key) by {
            assert(rest[j] == entries[j + 1]);
        }
        lemma_obj_insert_at(rest, key, value, i - 1);
        assert(key_lt(entries[0].0, key));
        lemma_key_lt_asymmetric(entries[0].0, key);
        if i == entries.len() || key_lt(key, entries[i].0) {
            if i < entries.len() {
                assert(rest[i - 1] == entries[i]);
            }
            assert(seq![entries[0]] + rest.insert(i - 1, (key, value)) =~= entries.insert(
                i,
                (key, value),
            ));
        }
        if i < entries.len() && entries[i].0 == key {
            assert(rest[i - 1] == entries[i]);
        }
    } else {
        if entries.len() > 0 && key_lt(key, entries[0].0) {
            lemma_key_lt_asymmetric(key, entries[0].0);
            assert(seq![(key, value)] + entries =~= entries.insert(0, (key, value)));
        }
        if entries.len() == 0 {
            assert(seq![(key, value)] =~= entries.insert(0, (key, value)));
        }
    }
}

pub(crate) fn insert_entry(entries: &mut Vec<(String, JsonValue)>, key: String, value: JsonValue) -> (inserted:
    bool)
    ensures
        match obj_insert(entry_models(old(entries)@), key@, value.model()) {
            Some(grown) => inserted && entry_models(final(entries)@) == grown,
            None => !inserted && final(entries)@ == old(entries)@,
        },
{
    let ghost models_before = entry_models(entries@);
    let ghost k = key@;
    let ghost v = value.model();
    let mut i: usize = 0;
    while i < entries.len()
        invariant
            i <= entries@.len(),
            entries@ == old(entries)@,
            models_before == entry_models(entries@),
            k == key@,
            v == value.model(),
            forall|j: int| 0 <= j < i ==> key_lt(#[trigger] models_before[j].0, k),
        decreases entries@.len() - i,
    {
        let order = compare_keys(key.as_str(), entries[i].0.as_str());
        assert(models_before[i as int].0 == entries@[i as int].0@);
        if order == 0 {
            proof {
                lemma_obj_insert_at(models_before, k, v, i as int);
            }
            return false;
        } else if order < 0 {
            proof {
                lemma_obj_insert_at(models_before, k, v, i as int);
            }
            entries.insert(i, (key, value));
            assert(entry_models(entries@) =~= models_before.insert(i as int, (k, v)));
            return true;
        }
        i = i + 1;
    }
    proof {
        lemma_obj_insert_at(models_before, k, v, i as int);
    }
    entries.push((key, value));
    assert(entry_models(entries@) =~= models_before.insert(i as int, (k, v)));
    true
}

pub proof fn lemma_array_model(items: Vec<JsonValue>)
    ensures
        JsonValue::Array(items).model() == Json::Array(models(items@)),
{
    let m = JsonValue::Array(items).model();
    assert(m->Array_0 =~= models(items@));
}

pub proof fn lemma_object_model(entries: Vec<(String, JsonValue)>)
    ensures
        JsonValue::Object(entries).model() == Json::Object(entry_models(entries@)),
{
    let m = JsonValue::Object(entries).model();
    assert(m->Object_0 =~= entry_models(entries@));
}

impl Parser {
    fn at_literal(&self, lit: &[char]) -> (found: bool)
        requires
            self.inv(),
        ensures
            found == literal_at(self.text@, self.pos as int, lit@),
    {
        let len = self.text.len();
        if lit.len() > len - self.pos {
            return false;
        }
        let mut i: usize = 0;
        while i < lit.len()
            invariant
                self.inv(),
                len == self.text@.len(),
                i <= lit@.len(),
                self.pos + lit@.len() <= self.text@.len(),
                forall|j: int| 0 <= j < i ==> self.text@[self.pos + j] == lit@[j],
            decreases lit@.len() - i,
        {
            if self.text[self.pos + i] != lit[i] {
                assert(self.text@.subrange(self.pos as int, self.pos + lit@.len())[i as int]
                    != lit@[i as int]);
                return false;
            }
            i = i + 1;
        }
        assert(self.text@.subrange(self.pos as int, self.pos + lit@.len()) =~= lit@);
        true
    }

    fn escape(&mut self) -> (result: Result<char, KoruError>)
        requires
            old(self).inv(),
        ensures
            final(self).inv(),
            final(self).same_input(&*old(self)),
            final(self).elements == old(self).elements,
            final(self).bytes == old(self).bytes,
            match escape(old(self).text@, old(self).pos as int) {
                Some((c, q)) => result == Ok::<char, KoruError>(c) && final(self).pos == q,
                None => result matches Err(e) && e.spec_code() == ErrorCode::Validation,
            },
    {
        broadcast use vstd::utf8::char_u32_cast;

        let c = match self.peek() {
            Some(c) => c,
            None => {
                return Err(invalid("unterminated JSON escape"));
            },
        };
        self.pos = self.pos + 1;
        if c == '"' {
            Ok('"')
        } else if c == '\\' {
            Ok('\\')
        } else if c == '/' {
            Ok('/')
        } else if c == 'b' {
            Ok('\u{8}')
        } else if c == 'f' {
            Ok('\u{c}')
        } else if c == 'n' {
            Ok('\n')
        } else if c == 'r' {
            Ok('\r')
        } else if c == 't' {
            Ok('\t')
        } else if c == 'u' {
            let code = match self.hex4() {
                Ok(code) => code,
                Err(error) => {
                    return Err(error);
                },
            };
            if 0xD800 <= code && code <= 0xDBFF {
                if !self.peek_is('\\') {
                    return Err(invalid("lone high surrogate in JSON string"));
                }
                self.pos = self.pos + 1;
                if !self.peek_is('u') {
                    return Err(invalid("lone high surrogate in JSON string"));
                }
                self.pos = self.pos + 1;
                let low = match self.hex4() {
                    Ok(low) => low,
                    Err(error) => {
                        return Err(error);
                    },
                };
                if !(0xDC00 <= low && low <= 0xDFFF) {
                    return Err(invalid("lone high surrogate in JSON string"));
                }
                let combined = 0x10000 + (code - 0xD800) * 1024 + (low - 0xDC00);
                match char_from_u32(combined) {
                    Some(ch) => {
                        proof {
                            vstd::utf8::char_u32_cast(ch, combined);
                        }
                        Ok(ch)
                    },
                    None => Err(invalid("invalid JSON surrogate pair")),
                }
            } else if 0xDC00 <= code && code <= 0xDFFF {
                Err(invalid("lone low surrogate in JSON string"))
            } else {
                match char_from_u32(code) {
                    Some(ch) => {
                        proof {
                            vstd::utf8::char_u32_cast(ch, code);
                        }
                        Ok(ch)
                    },
                    None => Err(invalid("invalid JSON escape")),
                }
            }
        } else {
            Err(invalid("invalid escape in JSON string"))
        }
    }
}


proof fn lemma_byte_len_push(text: Seq<char>, c: char)
    ensures
        byte_len(text.push(c)) == byte_len(text) + char_width(c),
        byte_len(text) >= 0,
        byte_len(text) <= 4 * text.len(),
    decreases text.len(),
{
    assert(text.push(c).drop_last() == text);
    if text.len() > 0 {
        lemma_byte_len_push(text.drop_last(), text.last());
        assert(text.drop_last().push(text.last()) == text);
    }
}

impl Parser {
    fn string(&mut self, key: bool) -> (result: Result<String, KoruError>)
        requires
            old(self).inv(),
        ensures
            final(self).inv(),
            final(self).same_input(&*old(self)),
            match string(old(self).text@, old(self).st(), key, old(self).limits) {
                Ok((out, next)) => result matches Ok(t) && t@ == out && final(self).st() == next,
                Err(code) => result matches Err(e) && e.spec_code() == code,
            },
            result is Ok ==> final(self).pos > old(self).pos,
    {
        let ghost s = self.text@;
        let ghost st0 = self.st();
        if !self.peek_is('"') {
            return Err(invalid("expected `\"` in JSON input"));
        }
        self.pos = self.pos + 1;
        let mut out: Vec<char> = Vec::new();
        let mut width: u128 = 0;
        loop
            invariant_except_break
                string_body(s, st0.pos + 1, Seq::empty()) == string_body(s, self.pos as int, out@),
            invariant
                self.inv(),
                self.same_input(&*old(self)),
                s == self.text@,
                st0 == old(self).st(),
                self.elements == old(self).elements,
                self.bytes == old(self).bytes,
                st0.pos < self.pos,
                out@.len() <= self.pos - st0.pos,
                width == byte_len(out@),
            ensures
                string_body(s, st0.pos + 1, Seq::empty()) == Some((out@, self.pos as int)),
            decreases self.text@.len() - self.pos,
        {
            proof {
                lemma_byte_len_push(out@, ' ');
            }
            let c = match self.peek() {
                Some(c) => c,
                None => {
                    return Err(invalid("unterminated JSON string"));
                },
            };
            if c == '"' {
                self.pos = self.pos + 1;
                break;
            } else if c == '\\' {
                self.pos = self.pos + 1;
                let ch = match self.escape() {
                    Ok(ch) => ch,
                    Err(error) => {
                        return Err(error);
                    },
                };
                proof {
                    lemma_byte_len_push(out@, ch);
                }
                out.push(ch);
                width = width + char_width_exec(ch) as u128;
            } else if (c as u32) < 0x20 {
                return Err(invalid("JSON strings must escape control characters"));
            } else {
                proof {
                    lemma_byte_len_push(out@, c);
                }
                out.push(c);
                width = width + char_width_exec(c) as u128;
                self.pos = self.pos + 1;
            }
        }
        let limit = if key {
            self.limits.max_key_bytes
        } else {
            self.limits.max_string_bytes
        };
        if width > limit as u128 {
            return Err(KoruError::new(
                ErrorCode::BudgetExhausted,
                if key {
                    "JSON key length limit exceeded"
                } else {
                    "JSON string length limit exceeded"
                },
            ));
        }
        let n = width as usize;
        match self.charge(n) {
            Ok(()) => {},
            Err(error) => {
                return Err(error);
            },
        }
        Ok(string_from_chars(out.as_slice()))
    }

    fn scan_number(&mut self) -> (result: Result<(usize, bool), KoruError>)
        requires
            old(self).inv(),
        ensures
            final(self).inv(),
            final(self).same_input(&*old(self)),
            final(self).elements == old(self).elements,
            final(self).bytes == old(self).bytes,
            match number_lexeme(old(self).text@, old(self).pos as int) {
                Some((end, float, q)) => result matches Ok((qq, f)) && qq == q && f == float
                    && final(self).pos == end && old(self).pos <= q < end
                    && (!float ==> forall|k: int| q <= k < end ==> is_digit(#[trigger] old(self).text@[k])),
                None => result matches Err(e) && e.spec_code() == ErrorCode::Validation,
            },
    {
        let ghost s = self.text@;
        let ghost p = self.pos as int;
        if self.peek_is('-') {
            self.pos = self.pos + 1;
        }
        let q = self.pos;
        if self.peek_is('0') {
            self.pos = self.pos + 1;
        } else if self.pos < self.text.len() && '1' <= self.text[self.pos] && self.text[self.pos]
            <= '9' {
            self.consume_digits();
            proof {
                lemma_digits_end(s, q as int);
            }
        } else {
            return Err(invalid("invalid JSON number"));
        }
        let int_end = self.pos;
        assert(forall|k: int| q <= k < int_end ==> is_digit(#[trigger] s[k]));
        let mut float = false;
        if self.peek_is('.') {
            float = true;
            self.pos = self.pos + 1;
            if !(self.pos < self.text.len() && '0' <= self.text[self.pos] && self.text[self.pos]
                <= '9') {
                return Err(invalid("JSON fraction needs digits"));
            }
            let ghost f = self.pos as int;
            self.consume_digits();
            proof {
                lemma_digits_end(s, f);
            }
        }
        if self.peek_is('e') || self.peek_is('E') {
            float = true;
            self.pos = self.pos + 1;
            if self.peek_is('+') || self.peek_is('-') {
                self.pos = self.pos + 1;
            }
            if !(self.pos < self.text.len() && '0' <= self.text[self.pos] && self.text[self.pos]
                <= '9') {
                return Err(invalid("JSON exponent needs digits"));
            }
            let ghost e = self.pos as int;
            self.consume_digits();
            proof {
                lemma_digits_end(s, e);
            }
        }
        Ok((q, float))
    }

    fn number(&mut self) -> (result: Result<JsonValue, KoruError>)
        requires
            old(self).inv(),
        ensures
            final(self).inv(),
            final(self).same_input(&*old(self)),
            final(self).elements == old(self).elements,
            final(self).bytes == old(self).bytes,
            match number(old(self).text@, old(self).pos as int) {
                Some((v, end)) => result matches Ok(x) && x.model() == v && final(self).pos == end,
                None => result matches Err(e) && e.spec_code() == ErrorCode::Validation,
            },
            result is Ok ==> final(self).pos > old(self).pos,
    {
        let start = self.pos;
        let (q, float) = match self.scan_number() {
            Ok(found) => found,
            Err(error) => {
                return Err(error);
            },
        };
        if !float {
            let (magnitude, big) = digits_magnitude(&self.text, q, self.pos);
            if !big {
                let m = magnitude as i64;
                return Ok(JsonValue::Integer(if q > start { -m } else { m }));
            }
        }
        let digits = copy_chars(&self.text, start, self.pos);
        let text = string_from_chars(digits.as_slice());
        if !crate::json::number::is_within_binary64(text.as_str()) {
            return Err(invalid("JSON number is not finite"));
        }
        Ok(JsonValue::Number(text))
    }
}

/// The decimal value of the digits in `text[start..end]`, or `big` once it passes
/// the portable integer range.
fn digits_magnitude(text: &Vec<char>, start: usize, end: usize) -> (result: (u64, bool))
    requires
        start <= end <= text@.len(),
        forall|k: int| start <= k < end ==> is_digit(#[trigger] text@[k]),
    ensures
        !result.1 ==> result.0 == digits_value(text@.subrange(start as int, end as int))
            && result.0 <= MAX_SAFE_INTEGER,
        result.1 ==> digits_value(text@.subrange(start as int, end as int)) > MAX_SAFE_INTEGER,
{
    let ghost s = text@;
    let mut magnitude: u64 = 0;
    let mut big = false;
    let mut i = start;
    assert(s.subrange(start as int, start as int) =~= Seq::<char>::empty());
    while i < end
        invariant
            start <= i <= end <= s.len(),
            s == text@,
            forall|k: int| start <= k < end ==> is_digit(#[trigger] s[k]),
            !big ==> magnitude == digits_value(s.subrange(start as int, i as int)),
            !big ==> magnitude <= MAX_SAFE_INTEGER,
            big ==> digits_value(s.subrange(start as int, i as int)) > MAX_SAFE_INTEGER,
        decreases end - i,
    {
        let d = text[i];
        let ghost prefix = s.subrange(start as int, i as int);
        proof {
            assert(s.subrange(start as int, i + 1) =~= prefix.push(d));
            lemma_digits_value_grows(prefix, d);
            assert forall|k: int| 0 <= k < prefix.len() implies is_digit(#[trigger] prefix[k]) by {
                assert(prefix[k] == s[start + k]);
            }
            lemma_digits_value_nonneg(prefix);
        }
        if !big {
            let next = magnitude * 10 + ((d as u32) - ('0' as u32)) as u64;
            if next > 9_007_199_254_740_991u64 {
                big = true;
            } else {
                magnitude = next;
            }
        }
        i = i + 1;
    }
    (magnitude, big)
}



/// The outcome of one parse step: the value's model and the parser state after it.
pub open spec fn step_matches(
    result: Result<JsonValue, KoruError>,
    spec: Result<(Json, St), ErrorCode>,
    after: St,
) -> bool {
    match spec {
        Ok((v, next)) => result matches Ok(x) && x.model() == v && after == next,
        Err(code) => result matches Err(e) && e.spec_code() == code,
    }
}

impl Parser {
    fn value(&mut self, depth: usize) -> (result: Result<JsonValue, KoruError>)
        requires
            old(self).inv(),
            depth <= old(self).pos,
        ensures
            final(self).inv(),
            final(self).same_input(&*old(self)),
            step_matches(
                result,
                value(old(self).text@, old(self).st(), depth as int, old(self).limits),
                final(self).st(),
            ),
            result is Ok ==> final(self).pos > old(self).pos,
        decreases old(self).text@.len() - old(self).pos, 2int,
    {
        if let Err(error) = self.limits.check_depth(depth) {
            return Err(error);
        }
        let c = match self.peek() {
            Some(c) => c,
            None => {
                return Err(invalid("unexpected end of JSON input"));
            },
        };
        if c == '[' {
            self.array(depth)
        } else if c == '{' {
            self.object(depth)
        } else {
            self.scalar(depth)
        }
    }

    fn scalar(&mut self, depth: usize) -> (result: Result<JsonValue, KoruError>)
        requires
            old(self).inv(),
            depth <= old(self).limits.max_depth,
            old(self).pos < old(self).text@.len(),
            old(self).text@[old(self).pos as int] != '[',
            old(self).text@[old(self).pos as int] != '{',
        ensures
            final(self).inv(),
            final(self).same_input(&*old(self)),
            step_matches(
                result,
                value(old(self).text@, old(self).st(), depth as int, old(self).limits),
                final(self).st(),
            ),
            result is Ok ==> final(self).pos > old(self).pos,
    {
        let c = self.text[self.pos];
        if c == 'n' || c == 't' || c == 'f' {
            let (lit, v): (&[char], JsonValue) = if c == 'n' {
                (&['n', 'u', 'l', 'l'], JsonValue::Null)
            } else if c == 't' {
                (&['t', 'r', 'u', 'e'], JsonValue::Bool(true))
            } else {
                (&['f', 'a', 'l', 's', 'e'], JsonValue::Bool(false))
            };
            proof {
                if c == 'n' {
                    assert(lit@ =~= seq!['n', 'u', 'l', 'l']);
                } else if c == 't' {
                    assert(lit@ =~= seq!['t', 'r', 'u', 'e']);
                } else {
                    assert(lit@ =~= seq!['f', 'a', 'l', 's', 'e']);
                }
            }
            if !self.at_literal(lit) {
                return Err(invalid("invalid JSON literal"));
            }
            self.pos = self.pos + lit.len();
            match self.charge(0) {
                Ok(()) => Ok(v),
                Err(error) => Err(error),
            }
        } else if c == '"' {
            let text = match self.string(false) {
                Ok(text) => text,
                Err(error) => {
                    return Err(error);
                },
            };
            match self.charge(0) {
                Ok(()) => Ok(JsonValue::String(text)),
                Err(error) => Err(error),
            }
        } else if c == '-' || ('0' <= c && c <= '9') {
            let number = match self.number() {
                Ok(number) => number,
                Err(error) => {
                    return Err(error);
                },
            };
            match self.charge(0) {
                Ok(()) => Ok(number),
                Err(error) => Err(error),
            }
        } else {
            Err(invalid("unexpected character in JSON input"))
        }
    }

    fn array(&mut self, depth: usize) -> (result: Result<JsonValue, KoruError>)
        requires
            old(self).inv(),
            old(self).pos < old(self).text@.len(),
            old(self).text@[old(self).pos as int] == '[',
            depth <= old(self).pos,
        ensures
            final(self).inv(),
            final(self).same_input(&*old(self)),
            step_matches(
                result,
                array(old(self).text@, old(self).st(), depth as int, old(self).limits),
                final(self).st(),
            ),
            result is Ok ==> final(self).pos > old(self).pos,
        decreases old(self).text@.len() - old(self).pos, 1int,
    {
        let ghost s = self.text@;
        let ghost st0 = self.st();
        let ghost limits = self.limits;
        self.pos = self.pos + 1;
        self.skip_whitespace();
        proof {
            lemma_ws_end(s, st0.pos + 1);
        }
        let mut items: Vec<JsonValue> = Vec::new();
        assert(models(items@) =~= Seq::<Json>::empty());
        if self.peek_is(']') {
            self.pos = self.pos + 1;
            proof {
                lemma_array_model(items);
            }
            return Ok(JsonValue::Array(items));
        }
        loop
            invariant
                self.inv(),
                self.same_input(&*old(self)),
                s == self.text@,
                limits == self.limits,
                st0 == old(self).st(),
                st0.pos < self.pos,
                depth <= st0.pos,
                array_items(s, self.st(), depth as int, limits, models(items@)) == array(
                    s,
                    st0,
                    depth as int,
                    limits,
                ),
            decreases self.text@.len() - self.pos,
        {
            let ghost here = self.st();
            self.skip_whitespace();
            proof {
                lemma_ws_end(s, here.pos);
            }
            let item = match self.value(depth + 1) {
                Ok(item) => item,
                Err(error) => {
                    return Err(error);
                },
            };
            let ghost after = self.st();
            self.skip_whitespace();
            proof {
                lemma_ws_end(s, after.pos);
                assert(models(items@.push(item)) =~= models(items@).push(item.model()));
            }
            if self.peek_is(',') {
                self.pos = self.pos + 1;
                items.push(item);
            } else if self.peek_is(']') {
                self.pos = self.pos + 1;
                items.push(item);
                proof {
                    lemma_array_model(items);
                }
                return Ok(JsonValue::Array(items));
            } else {
                return Err(invalid("expected `,` or `]` in JSON array"));
            }
        }
    }

    fn object(&mut self, depth: usize) -> (result: Result<JsonValue, KoruError>)
        requires
            old(self).inv(),
            old(self).pos < old(self).text@.len(),
            old(self).text@[old(self).pos as int] == '{',
            depth <= old(self).pos,
        ensures
            final(self).inv(),
            final(self).same_input(&*old(self)),
            step_matches(
                result,
                object(old(self).text@, old(self).st(), depth as int, old(self).limits),
                final(self).st(),
            ),
            result is Ok ==> final(self).pos > old(self).pos,
        decreases old(self).text@.len() - old(self).pos, 1int,
    {
        let ghost s = self.text@;
        let ghost st0 = self.st();
        let ghost limits = self.limits;
        self.pos = self.pos + 1;
        self.skip_whitespace();
        proof {
            lemma_ws_end(s, st0.pos + 1);
        }
        let mut entries: Vec<(String, JsonValue)> = Vec::new();
        assert(entry_models(entries@) =~= Seq::<(Seq<char>, Json)>::empty());
        if self.peek_is('}') {
            self.pos = self.pos + 1;
            proof {
                lemma_object_model(entries);
            }
            return Ok(JsonValue::Object(entries));
        }
        loop
            invariant
                self.inv(),
                self.same_input(&*old(self)),
                s == self.text@,
                limits == self.limits,
                st0 == old(self).st(),
                st0.pos < self.pos,
                depth <= st0.pos,
                object_entries(s, self.st(), depth as int, limits, entry_models(entries@))
                    == object(s, st0, depth as int, limits),
            decreases self.text@.len() - self.pos,
        {
            let ghost here = self.st();
            self.skip_whitespace();
            proof {
                lemma_ws_end(s, here.pos);
            }
            let key = match self.string(true) {
                Ok(key) => key,
                Err(error) => {
                    return Err(error);
                },
            };
            let ghost after_key = self.st();
            self.skip_whitespace();
            proof {
                lemma_ws_end(s, after_key.pos);
            }
            if !self.peek_is(':') {
                return Err(invalid("expected `:` in JSON object"));
            }
            self.pos = self.pos + 1;
            let ghost colon = self.pos as int;
            self.skip_whitespace();
            proof {
                lemma_ws_end(s, colon);
            }
            let item = match self.value(depth + 1) {
                Ok(item) => item,
                Err(error) => {
                    return Err(error);
                },
            };
            if !insert_entry(&mut entries, key, item) {
                return Err(invalid("JSON object contains a duplicate key"));
            }
            let ghost after = self.st();
            self.skip_whitespace();
            proof {
                lemma_ws_end(s, after.pos);
            }
            if self.peek_is(',') {
                self.pos = self.pos + 1;
            } else if self.peek_is('}') {
                self.pos = self.pos + 1;
                proof {
                    lemma_object_model(entries);
                }
                return Ok(JsonValue::Object(entries));
            } else {
                return Err(invalid("expected `,` or `}` in JSON object"));
            }
        }
    }
}

/// Parse one JSON document under the supplied limits.
pub fn parse(bytes: &[u8], limits: &JsonLimits) -> (result: Result<JsonValue, KoruError>)
    ensures
        match spec_parse(bytes@, *limits) {
            Ok(v) => result matches Ok(x) && x.model() == v,
            Err(code) => result matches Err(e) && e.spec_code() == code,
        },
{
    let text = match utf8_text(bytes) {
        Some(text) => text,
        None => {
            return Err(invalid("JSON input must be valid UTF-8"));
        },
    };
    if let Err(error) = limits.check_bytes(bytes.len()) {
        return Err(error);
    }
    let chars = crate::text::chars_of(text);
    let count = chars.len();
    let mut parser = Parser { text: chars, pos: 0, limits: *limits, elements: 0, bytes: 0 };
    assert(parser.text@.len() == count);
    let ghost s = parser.text@;
    parser.skip_whitespace();
    let value = match parser.value(0) {
        Ok(value) => value,
        Err(error) => {
            return Err(error);
        },
    };
    let ghost after = parser.pos as int;
    parser.skip_whitespace();
    if parser.pos != parser.text.len() {
        return Err(invalid("trailing data after the JSON value"));
    }
    Ok(value)
}

/// Inserting a key above every present key appends the entry.
pub proof fn lemma_obj_insert_last(entries: Seq<(Seq<char>, Json)>, key: Seq<char>, value: Json)
    requires
        forall|k: int| 0 <= k < entries.len() ==> key_lt(#[trigger] entries[k].0, key),
    ensures
        obj_insert(entries, key, value) == Some(entries.push((key, value))),
    decreases entries.len(),
{
    if entries.len() > 0 {
        lemma_key_lt_asymmetric(entries[0].0, key);
        let rest = entries.drop_first();
        assert forall|k: int| 0 <= k < rest.len() implies key_lt(#[trigger] rest[k].0, key) by {
            assert(rest[k] == entries[k + 1]);
        }
        lemma_obj_insert_last(rest, key, value);
        assert(seq![entries[0]] + rest.push((key, value)) =~= entries.push((key, value)));
    }
}

} // verus!
