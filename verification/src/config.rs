//! Versioned user configuration: a strict flat TOML subset.
//!
//! v1 `config.toml` is deliberately small: `schema_version = 1` plus optional
//! `provider`, `model`, and `variant` string keys. Only a flat subset of TOML is
//! accepted so the parser stays bounded and every unsupported construct fails with
//! a line-qualified error instead of being silently ignored. Loading, locking, and
//! the atomic replacement of the file belong to the application layer.
use crate::error::{ErrorCode, KoruError};
use crate::json::parse::{byte_len, digits_value, is_digit};
use crate::paths::{UserPaths, join};
use crate::text::{chars_of, push_char, push_decimal, push_str, string_from_chars};
use vstd::prelude::*;

verus! {

broadcast use vstd::string::group_string_axioms;

/// The only configuration schema version this build understands.
pub const CONFIG_SCHEMA_VERSION: u32 = 1;

/// Longest accepted provider, model, or variant string, in UTF-8 bytes.
pub const MAX_VALUE_BYTES: usize = 256;

/// The selected provider/model/variant. Missing values mean "not selected".
#[derive(Debug, Clone)]
pub struct Config {
    /// Service identity such as `deepseek` or `opencode-go`.
    pub provider: Option<String>,
    /// Model identity within the service.
    pub model: Option<String>,
    /// Optional effort variant for the selected model.
    pub variant: Option<String>,
}

/// The content of a configuration.
pub struct ConfigModel {
    /// The selected service.
    pub provider: Option<Seq<char>>,
    /// The selected model.
    pub model: Option<Seq<char>>,
    /// The selected variant.
    pub variant: Option<Seq<char>>,
}

/// The characters of an optional string.
pub open spec fn opt_text(value: Option<String>) -> Option<Seq<char>> {
    match value {
        Some(text) => Some(text@),
        None => None,
    }
}

impl View for Config {
    type V = ConfigModel;

    open spec fn view(&self) -> ConfigModel {
        ConfigModel {
            provider: opt_text(self.provider),
            model: opt_text(self.model),
            variant: opt_text(self.variant),
        }
    }
}

impl Default for Config {
    fn default() -> (config: Self)
        ensures
            config@ == empty_model(),
    {
        Config { provider: None, model: None, variant: None }
    }
}

/// The configuration with nothing selected.
pub open spec fn empty_model() -> ConfigModel {
    ConfigModel { provider: None, model: None, variant: None }
}

/// Unicode white space, as `char::is_whitespace` defines it.
pub open spec fn is_space(c: char) -> bool {
    let u = c as u32;
    (0x09 <= u <= 0x0D) || u == 0x20 || u == 0x85 || u == 0xA0 || u == 0x1680 || (0x2000 <= u
        <= 0x200A) || u == 0x2028 || u == 0x2029 || u == 0x202F || u == 0x205F || u == 0x3000
}

/// Control characters, as `char::is_control` defines them.
pub open spec fn is_control(c: char) -> bool {
    let u = c as u32;
    u < 0x20 || (0x7F <= u <= 0x9F)
}

/// The first position at or after `i` that is not white space.
pub open spec fn lead(t: Seq<char>, i: int) -> int
    decreases t.len() - i,
{
    if 0 <= i < t.len() && is_space(t[i]) {
        lead(t, i + 1)
    } else {
        i
    }
}

/// The end of `t[lo..j]` once trailing white space is removed.
pub open spec fn trail(t: Seq<char>, lo: int, j: int) -> int
    decreases j - lo,
{
    if lo < j && j <= t.len() && is_space(t[j - 1]) {
        trail(t, lo, j - 1)
    } else {
        j
    }
}

/// `t` without leading and trailing white space.
pub open spec fn trim(t: Seq<char>) -> Seq<char> {
    let a = lead(t, 0);
    t.subrange(a, trail(t, a, t.len() as int))
}

/// The first position of `c` at or after `i`, or the length.
pub open spec fn find(t: Seq<char>, c: char, i: int) -> int
    decreases t.len() - i,
{
    if i < 0 || i >= t.len() {
        t.len() as int
    } else if t[i] == c {
        i
    } else {
        find(t, c, i + 1)
    }
}

/// The unescaped characters of `t[i..]` appended to `out`.
pub open spec fn unescape(t: Seq<char>, i: int, out: Seq<char>) -> Option<Seq<char>>
    decreases t.len() - i,
{
    if i < 0 || i >= t.len() {
        Some(out)
    } else if t[i] != '\\' {
        unescape(t, i + 1, out.push(t[i]))
    } else if i + 1 >= t.len() {
        None
    } else {
        let e = t[i + 1];
        if e == '"' {
            unescape(t, i + 2, out.push('"'))
        } else if e == '\\' {
            unescape(t, i + 2, out.push('\\'))
        } else if e == 'n' {
            unescape(t, i + 2, out.push('\n'))
        } else if e == 't' {
            unescape(t, i + 2, out.push('\t'))
        } else {
            None
        }
    }
}

/// A double-quoted value with its escapes resolved.
pub open spec fn read_string(value: Seq<char>) -> Option<Seq<char>> {
    if value.len() >= 2 && value[0] == '"' && value.last() == '"' {
        unescape(value.subrange(1, value.len() - 1), 0, Seq::empty())
    } else {
        None
    }
}

/// The digits of unsigned decimal text, after an optional `+`.
pub open spec fn unsigned_digits(value: Seq<char>) -> Seq<char> {
    if value.len() > 0 && value[0] == '+' {
        value.drop_first()
    } else {
        value
    }
}

/// Every character is an ASCII digit.
pub open spec fn all_digits(t: Seq<char>) -> bool {
    forall|k: int| 0 <= k < t.len() ==> is_digit(#[trigger] t[k])
}

/// The value of unsigned decimal text, as `str::parse::<u32>` reads it.
pub open spec fn u32_value(value: Seq<char>) -> Option<int> {
    let digits = unsigned_digits(value);
    if digits.len() > 0 && all_digits(digits) && digits_value(digits) <= u32::MAX {
        Some(digits_value(digits))
    } else {
        None
    }
}

/// What the lines read so far have set.
pub struct ParseState {
    /// The schema version, once read.
    pub version: Option<int>,
    /// The selection read so far.
    pub config: ConfigModel,
}

/// The state after one line, or `None` when the line is rejected.
pub open spec fn step(st: ParseState, raw: Seq<char>) -> Option<ParseState> {
    let line = trim(raw);
    if line.len() == 0 || line[0] == '#' {
        Some(st)
    } else {
        let eq = find(line, '=', 0);
        if eq >= line.len() {
            None
        } else {
            let key = trim(line.subrange(0, eq));
            let value = trim(line.subrange(eq + 1, line.len() as int));
            if key == "schema_version"@ {
                if st.version is Some {
                    None
                } else {
                    match u32_value(value) {
                        Some(v) => Some(ParseState { version: Some(v), ..st }),
                        None => None,
                    }
                }
            } else if key == "provider"@ {
                if st.config.provider is Some {
                    None
                } else {
                    match read_string(value) {
                        Some(v) => Some(
                            ParseState { config: ConfigModel { provider: Some(v), ..st.config }, ..st },
                        ),
                        None => None,
                    }
                }
            } else if key == "model"@ {
                if st.config.model is Some {
                    None
                } else {
                    match read_string(value) {
                        Some(v) => Some(
                            ParseState { config: ConfigModel { model: Some(v), ..st.config }, ..st },
                        ),
                        None => None,
                    }
                }
            } else if key == "variant"@ {
                if st.config.variant is Some {
                    None
                } else {
                    match read_string(value) {
                        Some(v) => Some(
                            ParseState { config: ConfigModel { variant: Some(v), ..st.config }, ..st },
                        ),
                        None => None,
                    }
                }
            } else {
                None
            }
        }
    }
}

/// The state after the lines starting at `p`.
///
/// Lines are split at `\n`; a `\r` before it and an empty last line disappear
/// in `trim` and the blank-line rule, as they do for `str::lines`.
pub open spec fn run(s: Seq<char>, p: int, st: ParseState) -> Option<ParseState>
    decreases s.len() - p,
{
    if p < 0 || p > s.len() {
        None
    } else {
        let e = find(s, '\n', p);
        proof {
            lemma_find(s, '\n', p);
        }
        match step(st, s.subrange(p, e)) {
            None => None,
            Some(next) => if e < s.len() {
                run(s, e + 1, next)
            } else {
                Some(next)
            },
        }
    }
}

/// A configuration value is non-empty, short, and free of control characters.
pub open spec fn value_ok(value: Seq<char>) -> bool {
    &&& value.len() > 0
    &&& byte_len(value) <= MAX_VALUE_BYTES
    &&& forall|k: int| 0 <= k < value.len() ==> !is_control(#[trigger] value[k])
}

/// An optional value that is absent or acceptable.
pub open spec fn opt_ok(value: Option<Seq<char>>) -> bool {
    match value {
        Some(v) => value_ok(v),
        None => true,
    }
}

/// The rules a selection must satisfy.
pub open spec fn semantics_ok(m: ConfigModel) -> bool {
    &&& (m.variant is Some ==> m.provider is Some && m.model is Some)
    &&& opt_ok(m.provider)
    &&& opt_ok(m.model)
    &&& opt_ok(m.variant)
}

/// The configuration a file holds, or `None` when it is rejected.
pub open spec fn parse_config(text: Seq<char>) -> Option<ConfigModel> {
    match run(text, 0, ParseState { version: None, config: empty_model() }) {
        None => None,
        Some(st) => if st.version == Some(1int) && semantics_ok(st.config) {
            Some(st.config)
        } else {
            None
        },
    }
}

/// The escaped form of one value character, or `None` for a control character.
pub open spec fn escape_char(c: char) -> Option<Seq<char>> {
    if c == '"' {
        Some(seq!['\\', '"'])
    } else if c == '\\' {
        Some(seq!['\\', '\\'])
    } else if c == '\n' {
        Some(seq!['\\', 'n'])
    } else if c == '\t' {
        Some(seq!['\\', 't'])
    } else if is_control(c) {
        None
    } else {
        Some(seq![c])
    }
}

/// The escaped form of a value.
pub open spec fn escape(value: Seq<char>) -> Option<Seq<char>>
    decreases value.len(),
{
    if value.len() == 0 {
        Some(Seq::empty())
    } else {
        match (escape(value.drop_last()), escape_char(value.last())) {
            (Some(head), Some(tail)) => Some(head + tail),
            _ => None,
        }
    }
}

/// The `key = "value"` line of an optional value.
pub open spec fn render_line(key: Seq<char>, value: Option<Seq<char>>) -> Option<Seq<char>> {
    match value {
        None => Some(Seq::empty()),
        Some(v) => match escape(v) {
            Some(e) => Some(key + " = \""@ + e + "\"\n"@),
            None => None,
        },
    }
}

/// The canonical file contents of a configuration.
pub open spec fn render_config(m: ConfigModel) -> Option<Seq<char>> {
    match (
        render_line("provider"@, m.provider),
        render_line("model"@, m.model),
        render_line("variant"@, m.variant),
    ) {
        (Some(p), Some(mo), Some(v)) => Some("schema_version = 1\n"@ + p + mo + v),
        _ => None,
    }
}

fn invalid(detail: &str) -> (error: KoruError)
    ensures
        error.spec_code() == ErrorCode::Validation,
{
    KoruError::new(ErrorCode::Validation, detail)
}

fn parse_error(line: usize, detail: &str) -> (error: KoruError)
    ensures
        error.spec_code() == ErrorCode::Validation,
{
    let mut message = String::new();
    if line == 0 {
        push_str(&mut message, "invalid config: ");
    } else {
        push_str(&mut message, "invalid config line ");
        push_decimal(line as u64, &mut message);
        push_str(&mut message, ": ");
    }
    push_str(&mut message, detail);
    KoruError::new(ErrorCode::Validation, message.as_str())
}

pub fn is_space_exec(c: char) -> (space: bool)
    ensures
        space == is_space(c),
{
    let u = c as u32;
    (0x09 <= u && u <= 0x0D) || u == 0x20 || u == 0x85 || u == 0xA0 || u == 0x1680 || (0x2000 <= u
        && u <= 0x200A) || u == 0x2028 || u == 0x2029 || u == 0x202F || u == 0x205F || u == 0x3000
}

pub fn is_control_exec(c: char) -> (control: bool)
    ensures
        control == is_control(c),
{
    let u = c as u32;
    u < 0x20 || (0x7F <= u && u <= 0x9F)
}

fn slice_of(t: &Vec<char>, a: usize, b: usize) -> (out: Vec<char>)
    requires
        a <= b <= t@.len(),
    ensures
        out@ == t@.subrange(a as int, b as int),
{
    let mut out: Vec<char> = Vec::new();
    let mut i = a;
    while i < b
        invariant
            a <= i <= b <= t@.len(),
            out@ == t@.subrange(a as int, i as int),
        decreases b - i,
    {
        out.push(t[i]);
        i = i + 1;
        assert(out@ == t@.subrange(a as int, i as int));
    }
    out
}

proof fn lemma_lead(t: Seq<char>, i: int)
    requires
        0 <= i <= t.len(),
    ensures
        i <= lead(t, i) <= t.len(),
    decreases t.len() - i,
{
    if i < t.len() && is_space(t[i]) {
        lemma_lead(t, i + 1);
    }
}

proof fn lemma_trail(t: Seq<char>, lo: int, j: int)
    requires
        0 <= lo <= j <= t.len(),
    ensures
        lo <= trail(t, lo, j) <= j,
    decreases j - lo,
{
    if lo < j && is_space(t[j - 1]) {
        lemma_trail(t, lo, j - 1);
    }
}

pub proof fn lemma_find(t: Seq<char>, c: char, i: int)
    requires
        0 <= i <= t.len(),
    ensures
        i <= find(t, c, i) <= t.len(),
        find(t, c, i) < t.len() ==> t[find(t, c, i)] == c,
    decreases t.len() - i,
{
    if i < t.len() && t[i] != c {
        lemma_find(t, c, i + 1);
    }
}

/// The characters of `t` without leading and trailing white space.
fn trimmed(t: &Vec<char>) -> (out: Vec<char>)
    ensures
        out@ == trim(t@),
{
    let mut a: usize = 0;
    while a < t.len() && is_space_exec(t[a])
        invariant
            a <= t@.len(),
            lead(t@, a as int) == lead(t@, 0),
        decreases t@.len() - a,
    {
        a = a + 1;
    }
    let mut b: usize = t.len();
    while b > a && is_space_exec(t[b - 1])
        invariant
            a <= b <= t@.len(),
            a == lead(t@, 0),
            trail(t@, a as int, b as int) == trail(t@, a as int, t@.len() as int),
        decreases b - a,
    {
        b = b - 1;
    }
    slice_of(t, a, b)
}

fn find_char(t: &Vec<char>, c: char, start: usize) -> (at: usize)
    requires
        start <= t@.len(),
    ensures
        at == find(t@, c, start as int),
{
    let mut i = start;
    while i < t.len() && t[i] != c
        invariant
            start <= i <= t@.len(),
            find(t@, c, i as int) == find(t@, c, start as int),
        decreases t@.len() - i,
    {
        i = i + 1;
    }
    i
}

fn chars_are(t: &Vec<char>, lit: &str) -> (equal: bool)
    ensures
        equal == (t@ == lit@),
{
    let l = chars_of(lit);
    if l.len() != t.len() {
        return false;
    }
    let mut i: usize = 0;
    while i < t.len()
        invariant
            i <= t@.len(),
            l@.len() == t@.len(),
            l@ == lit@,
            forall|j: int| 0 <= j < i ==> t@[j] == l@[j],
        decreases t@.len() - i,
    {
        if t[i] != l[i] {
            return false;
        }
        i = i + 1;
    }
    assert(t@ =~= l@);
    true
}

fn read_string_exec(line: usize, value: &Vec<char>) -> (result: Result<String, KoruError>)
    ensures
        match read_string(value@) {
            Some(v) => result matches Ok(s) && s@ == v,
            None => result matches Err(e) && e.spec_code() == ErrorCode::Validation,
        },
{
    let n = value.len();
    if !(n >= 2 && value[0] == '"' && value[n - 1] == '"') {
        return Err(parse_error(line, "value must be a double-quoted string"));
    }
    let inner = slice_of(value, 1, n - 1);
    let ghost t = inner@;
    assert(read_string(value@) == unescape(t, 0, Seq::empty()));
    let mut out: Vec<char> = Vec::new();
    let mut i: usize = 0;
    while i < inner.len()
        invariant
            t == inner@,
            i <= t.len(),
            read_string(value@) == unescape(t, 0, Seq::empty()),
            unescape(t, 0, Seq::empty()) == unescape(t, i as int, out@),
        decreases t.len() - i,
    {
        let ch = inner[i];
        if ch != '\\' {
            out.push(ch);
            i = i + 1;
        } else if i + 1 >= inner.len() {
            assert(unescape(t, i as int, out@) is None);
            return Err(parse_error(line, "unterminated escape"));
        } else {
            let e = inner[i + 1];
            if e == '"' {
                out.push('"');
            } else if e == '\\' {
                out.push('\\');
            } else if e == 'n' {
                out.push('\n');
            } else if e == 't' {
                out.push('\t');
            } else {
                assert(unescape(t, i as int, out@) is None);
                return Err(parse_error(line, "unsupported escape"));
            }
            i = i + 2;
        }
    }
    Ok(string_from_chars(out.as_slice()))
}

fn u32_value_exec(value: &Vec<char>) -> (result: Option<u32>)
    ensures
        match u32_value(value@) {
            Some(v) => result matches Some(r) && r as int == v,
            None => result is None,
        },
{
    let start: usize = if value.len() > 0 && value[0] == '+' {
        1
    } else {
        0
    };
    let ghost digits = unsigned_digits(value@);
    assert(digits =~= value@.subrange(start as int, value@.len() as int));
    if start >= value.len() {
        assert(digits.len() == 0);
        return None;
    }
    let mut total: u64 = 0;
    let mut i = start;
    while i < value.len()
        invariant
            start <= i <= value@.len(),
            digits == value@.subrange(start as int, value@.len() as int),
            digits == unsigned_digits(value@),
            forall|k: int| start <= k < i ==> is_digit(#[trigger] value@[k]),
            total == digits_value(value@.subrange(start as int, i as int)),
            total <= u32::MAX,
        decreases value@.len() - i,
    {
        let c = value[i];
        if !('0' <= c && c <= '9') {
            assert(!is_digit(digits[i - start]));
            assert(!all_digits(digits));
            return None;
        }
        let ghost prefix = value@.subrange(start as int, i as int);
        proof {
            assert(value@.subrange(start as int, i + 1) =~= prefix.push(c));
            crate::json::parse::lemma_digits_value_grows(prefix, c);
        }
        total = total * 10 + ((c as u32) - ('0' as u32)) as u64;
        i = i + 1;
        if total > 4_294_967_295u64 {
            proof {
                let whole = value@.subrange(start as int, value@.len() as int);
                assert(whole == digits);
                if all_digits(whole) {
                    lemma_digits_value_prefix(whole, i - start);
                    assert(whole.subrange(0, i - start) =~= value@.subrange(start as int, i as int));
                }
            }
            return None;
        }
    }
    assert(value@.subrange(start as int, i as int) =~= digits);
    Some(total as u32)
}

proof fn lemma_digits_value_prefix(ds: Seq<char>, n: int)
    requires
        0 <= n <= ds.len(),
        forall|k: int| 0 <= k < ds.len() ==> is_digit(#[trigger] ds[k]),
    ensures
        digits_value(ds) >= digits_value(ds.subrange(0, n)),
    decreases ds.len() - n,
{
    if n < ds.len() {
        lemma_digits_value_prefix(ds, n + 1);
        let p = ds.subrange(0, n);
        assert(ds.subrange(0, n + 1) =~= p.push(ds[n]));
        crate::json::parse::lemma_digits_value_grows(p, ds[n]);
        assert forall|k: int| 0 <= k < p.len() implies is_digit(#[trigger] p[k]) by {
            assert(p[k] == ds[k]);
        }
        crate::json::parse::lemma_digits_value_nonneg(p);
    } else {
        assert(ds.subrange(0, n) =~= ds);
    }
}

fn validate_value(value: &str) -> (result: Result<(), KoruError>)
    ensures
        result is Ok <==> value_ok(value@),
        result matches Err(e) ==> e.spec_code() == ErrorCode::Validation,
{
    let chars = chars_of(value);
    if chars.len() == 0 {
        return Err(invalid("configuration values must not be empty"));
    }
    let mut width: usize = 0;
    let mut i: usize = 0;
    while i < chars.len()
        invariant
            i <= chars@.len(),
            chars@ == value@,
            width == byte_len(chars@.subrange(0, i as int)),
            width <= MAX_VALUE_BYTES,
            forall|k: int| 0 <= k < i ==> !is_control(#[trigger] chars@[k]),
        decreases chars@.len() - i,
    {
        let c = chars[i];
        proof {
            assert(chars@.subrange(0, i + 1).drop_last() =~= chars@.subrange(0, i as int));
        }
        width = width + crate::json::parse::char_width_exec(c);
        if width > MAX_VALUE_BYTES {
            proof {
                lemma_byte_len_prefix(chars@, i + 1);
            }
            return Err(invalid("configuration value exceeds 256 bytes"));
        }
        if is_control_exec(c) {
            return Err(invalid("configuration value contains control characters"));
        }
        i = i + 1;
    }
    assert(chars@.subrange(0, i as int) =~= chars@);
    Ok(())
}

pub proof fn lemma_byte_len_prefix(t: Seq<char>, n: int)
    requires
        0 <= n <= t.len(),
    ensures
        byte_len(t) >= byte_len(t.subrange(0, n)),
    decreases t.len() - n,
{
    if n < t.len() {
        lemma_byte_len_prefix(t, n + 1);
        assert(t.subrange(0, n + 1).drop_last() =~= t.subrange(0, n));
    } else {
        assert(t.subrange(0, n) =~= t);
    }
}

fn validate_optional(value: &Option<String>) -> (result: Result<(), KoruError>)
    ensures
        result is Ok <==> opt_ok(opt_text(*value)),
        result matches Err(e) ==> e.spec_code() == ErrorCode::Validation,
{
    match value {
        Some(text) => validate_value(text.as_str()),
        None => Ok(()),
    }
}

fn escape_value(value: &str) -> (result: Result<String, KoruError>)
    ensures
        match escape(value@) {
            Some(e) => result matches Ok(s) && s@ == e,
            None => result matches Err(err) && err.spec_code() == ErrorCode::Validation,
        },
{
    let chars = chars_of(value);
    let mut out = String::new();
    let mut i: usize = 0;
    while i < chars.len()
        invariant
            i <= chars@.len(),
            chars@ == value@,
            escape(chars@.subrange(0, i as int)) == Some(out@),
        decreases chars@.len() - i,
    {
        let c = chars[i];
        let ghost before = out@;
        proof {
            assert(chars@.subrange(0, i + 1).drop_last() =~= chars@.subrange(0, i as int));
        }
        if c == '"' {
            push_char(&mut out, '\\');
            push_char(&mut out, '"');
        } else if c == '\\' {
            push_char(&mut out, '\\');
            push_char(&mut out, '\\');
        } else if c == '\n' {
            push_char(&mut out, '\\');
            push_char(&mut out, 'n');
        } else if c == '\t' {
            push_char(&mut out, '\\');
            push_char(&mut out, 't');
        } else if is_control_exec(c) {
            proof {
                lemma_escape_none_extends(chars@, i + 1);
            }
            return Err(invalid("configuration value contains control characters"));
        } else {
            push_char(&mut out, c);
        }
        assert(out@ =~= before + escape_char(c)->0);
        i = i + 1;
    }
    assert(chars@.subrange(0, i as int) =~= chars@);
    Ok(out)
}

proof fn lemma_escape_none_extends(t: Seq<char>, n: int)
    requires
        0 < n <= t.len(),
        escape(t.subrange(0, n)) is None,
    ensures
        escape(t) is None,
    decreases t.len() - n,
{
    if n < t.len() {
        assert(t.subrange(0, n + 1).drop_last() =~= t.subrange(0, n));
        lemma_escape_none_extends(t, n + 1);
    } else {
        assert(t.subrange(0, n) =~= t);
    }
}

fn render_line_exec(out: &mut String, key: &str, value: &Option<String>) -> (result: Result<
    (),
    KoruError,
>)
    ensures
        match render_line(key@, opt_text(*value)) {
            Some(line) => result is Ok && final(out)@ == old(out)@ + line,
            None => result matches Err(e) && e.spec_code() == ErrorCode::Validation,
        },
{
    match value {
        None => {
            assert(old(out)@ + Seq::<char>::empty() =~= old(out)@);
            Ok(())
        },
        Some(text) => {
            let escaped = match escape_value(text.as_str()) {
                Ok(escaped) => escaped,
                Err(error) => {
                    return Err(error);
                },
            };
            push_str(out, key);
            push_str(out, " = \"");
            push_str(out, escaped.as_str());
            push_str(out, "\"\n");
            assert(final(out)@ =~= old(out)@ + (key@ + " = \""@ + escaped@ + "\"\n"@));
            Ok(())
        },
    }
}

/// The parse state held by a version and a configuration.
pub open spec fn state_of(version: Option<u32>, config: ConfigModel) -> ParseState {
    ParseState {
        version: match version {
            Some(v) => Some(v as int),
            None => None,
        },
        config,
    }
}

fn apply_line(
    line: usize,
    raw: &Vec<char>,
    version: &mut Option<u32>,
    config: &mut Config,
) -> (result: Result<(), KoruError>)
    ensures
        match step(state_of(*old(version), old(config)@), raw@) {
            Some(next) => result is Ok && state_of(*final(version), final(config)@) == next,
            None => result matches Err(e) && e.spec_code() == ErrorCode::Validation,
        },
{
    let trimmed_line = trimmed(raw);
    if trimmed_line.len() == 0 || trimmed_line[0] == '#' {
        return Ok(());
    }
    let eq = find_char(&trimmed_line, '=', 0);
    proof {
        lemma_find(trimmed_line@, '=', 0);
    }
    if eq >= trimmed_line.len() {
        return Err(parse_error(line, "expected `key = value`"));
    }
    let key = trimmed(&slice_of(&trimmed_line, 0, eq));
    let value = trimmed(&slice_of(&trimmed_line, eq + 1, trimmed_line.len()));
    proof {
        reveal_strlit("schema_version");
        reveal_strlit("provider");
        reveal_strlit("model");
        reveal_strlit("variant");
    }
    if chars_are(&key, "schema_version") {
        if version.is_some() {
            return Err(parse_error(line, "duplicate `schema_version`"));
        }
        match u32_value_exec(&value) {
            Some(v) => {
                *version = Some(v);
                Ok(())
            },
            None => Err(parse_error(line, "`schema_version` must be an integer")),
        }
    } else if chars_are(&key, "provider") {
        if config.provider.is_some() {
            return Err(parse_error(line, "duplicate `provider`"));
        }
        match read_string_exec(line, &value) {
            Ok(v) => {
                config.provider = Some(v);
                Ok(())
            },
            Err(error) => Err(error),
        }
    } else if chars_are(&key, "model") {
        if config.model.is_some() {
            return Err(parse_error(line, "duplicate `model`"));
        }
        match read_string_exec(line, &value) {
            Ok(v) => {
                config.model = Some(v);
                Ok(())
            },
            Err(error) => Err(error),
        }
    } else if chars_are(&key, "variant") {
        if config.variant.is_some() {
            return Err(parse_error(line, "duplicate `variant`"));
        }
        match read_string_exec(line, &value) {
            Ok(v) => {
                config.variant = Some(v);
                Ok(())
            },
            Err(error) => Err(error),
        }
    } else {
        Err(parse_error(line, "unknown key"))
    }
}

impl Config {
    /// Resolve the configuration path under the user's config directory.
    pub fn path(paths: &UserPaths) -> (path: Vec<u8>)
        ensures
            path@ == join(paths.config@, "config.toml"@),
    {
        proof {
            reveal_strlit("config.toml");
        }
        crate::paths::join_name(&paths.config, "config.toml")
    }

    /// Parse the strict flat subset; every error names its line.
    pub fn parse(text: &str) -> (result: Result<Config, KoruError>)
        ensures
            match parse_config(text@) {
                Some(m) => result matches Ok(c) && c@ == m,
                None => result matches Err(e) && e.spec_code() == ErrorCode::Validation,
            },
    {
        let s = chars_of(text);
        let mut config = Config::default();
        let mut version: Option<u32> = None;
        let mut p: usize = 0;
        let mut line: usize = 0;
        let ghost init = ParseState { version: None, config: empty_model() };
        loop
            invariant_except_break
                p <= s@.len(),
                run(s@, 0, init) == run(s@, p as int, state_of(version, config@)),
            invariant
                s@ == text@,
                init == (ParseState { version: None, config: empty_model() }),
            ensures
                run(s@, 0, init) == Some(state_of(version, config@)),
            decreases s@.len() - p,
        {
            let e = find_char(&s, '\n', p);
            proof {
                lemma_find(s@, '\n', p as int);
            }
            line = if line < usize::MAX {
                line + 1
            } else {
                line
            };
            let raw = slice_of(&s, p, e);
            let ghost st = state_of(version, config@);
            if let Err(error) = apply_line(line, &raw, &mut version, &mut config) {
                assert(run(s@, p as int, st) is None);
                return Err(error);
            }
            if e < s.len() {
                p = e + 1;
            } else {
                break;
            }
        }
        let v = match version {
            Some(v) => v,
            None => {
                return Err(parse_error(0, "missing `schema_version`"));
            },
        };
        if v != CONFIG_SCHEMA_VERSION {
            return Err(invalid("unsupported config schema version; this build supports 1"));
        }
        match config.check_semantics() {
            Ok(()) => Ok(config),
            Err(error) => Err(error),
        }
    }

    /// Render the canonical file contents.
    pub fn render(&self) -> (result: Result<String, KoruError>)
        ensures
            match render_config(self@) {
                Some(text) => result matches Ok(s) && s@ == text,
                None => result matches Err(e) && e.spec_code() == ErrorCode::Validation,
            },
    {
        let mut out = String::new();
        push_str(&mut out, "schema_version = ");
        push_decimal(CONFIG_SCHEMA_VERSION as u64, &mut out);
        push_char(&mut out, '\n');
        proof {
            reveal_strlit("schema_version = ");
            reveal_strlit("schema_version = 1\n");
            assert(crate::text::nat_text(1) =~= seq!['1']);
            assert(out@ =~= "schema_version = 1\n"@);
        }
        let ghost head = out@;
        if let Err(error) = render_line_exec(&mut out, "provider", &self.provider) {
            return Err(error);
        }
        let ghost with_provider = out@;
        if let Err(error) = render_line_exec(&mut out, "model", &self.model) {
            return Err(error);
        }
        let ghost with_model = out@;
        if let Err(error) = render_line_exec(&mut out, "variant", &self.variant) {
            return Err(error);
        }
        proof {
            let p = render_line("provider"@, opt_text(self.provider))->0;
            let mo = render_line("model"@, opt_text(self.model))->0;
            let v = render_line("variant"@, opt_text(self.variant))->0;
            assert(out@ =~= "schema_version = 1\n"@ + p + mo + v);
        }
        Ok(out)
    }

    fn check_semantics(&self) -> (result: Result<(), KoruError>)
        ensures
            result is Ok <==> semantics_ok(self@),
            result matches Err(e) ==> e.spec_code() == ErrorCode::Validation,
    {
        if self.variant.is_some() && (self.provider.is_none() || self.model.is_none()) {
            return Err(invalid("a variant requires a selected provider and model"));
        }
        if let Err(error) = validate_optional(&self.provider) {
            return Err(error);
        }
        if let Err(error) = validate_optional(&self.model) {
            return Err(error);
        }
        validate_optional(&self.variant)
    }

    /// The checks applied before a changed configuration is written.
    pub fn validate_change(&self) -> (result: Result<(), KoruError>)
        ensures
            result is Ok <==> semantics_ok(self@),
            result matches Err(e) ==> e.spec_code() == ErrorCode::Validation,
    {
        self.check_semantics()
    }
}

/// The characters of `text` without leading and trailing white space.
pub fn trimmed_text(text: &str) -> (out: Vec<char>)
    ensures
        out@ == trim(text@),
{
    let chars = chars_of(text);
    trimmed(&chars)
}


proof fn lemma_header_step()
    ensures
        step(
            ParseState { version: None, config: empty_model() },
            seq!['s', 'c', 'h', 'e', 'm', 'a', '_', 'v', 'e', 'r', 's', 'i', 'o', 'n', ' ', '=', ' ', '1'],
        ) == Some(ParseState { version: Some(1int), config: empty_model() }),
{
    reveal_strlit("schema_version");
    reveal_strlit("provider");
    reveal_strlit("model");
    reveal_strlit("variant");
    let line = seq!['s', 'c', 'h', 'e', 'm', 'a', '_', 'v', 'e', 'r', 's', 'i', 'o', 'n', ' ', '=', ' ', '1'];
    assert(lead(line, 0) == 0);
    assert(trail(line, 0, 18) == 18);
    assert(trim(line) =~= line);
    assert(find(line, '=', 0) == 15) by {
        reveal_with_fuel(find, 17);
    }
    let key = line.subrange(0, 15);
    assert(lead(key, 0) == 0);
    assert(trail(key, 0, 15) == 14) by {
        reveal_with_fuel(trail, 3);
    }
    assert(trim(key) =~= "schema_version"@);
    let value = line.subrange(16, 18);
    assert(lead(value, 0) == 1) by {
        reveal_with_fuel(lead, 3);
    }
    assert(trail(value, 1, 2) == 2);
    assert(trim(value) =~= seq!['1']);
    assert(unsigned_digits(seq!['1']) =~= seq!['1']);
    assert(seq!['1'].drop_last() =~= Seq::<char>::empty());
    assert(seq!['1'].last() == '1');
    assert(('1' as int) - ('0' as int) == 1);
    assert(digits_value(Seq::<char>::empty()) == 0);
    assert(digits_value(seq!['1']) == 1);
    assert(u32_value(seq!['1']) == Some(1int));
}


pub(crate) proof fn lemma_find_at(t: Seq<char>, c: char, i: int, j: int)
    requires
        0 <= i <= j <= t.len(),
        j == t.len() || t[j] == c,
        forall|k: int| i <= k < j ==> t[k] != c,
    ensures
        find(t, c, i) == j,
    decreases j - i,
{
    if i < j {
        lemma_find_at(t, c, i + 1, j);
    }
}

proof fn lemma_run_line(prefix: Seq<char>, line: Seq<char>, rest: Seq<char>, st: ParseState)
    requires
        forall|k: int| 0 <= k < line.len() ==> line[k] != '\n',
    ensures
        ({
            let s = prefix + line + seq!['\n'] + rest;
            run(s, prefix.len() as int, st) == match step(st, line) {
                None => None,
                Some(next) => run(s, (prefix.len() + line.len() + 1) as int, next),
            }
        }),
{
    let s = prefix + line + seq!['\n'] + rest;
    let p = prefix.len() as int;
    let e = p + line.len();
    assert forall|k: int| p <= k < e implies s[k] != '\n' by {
        assert(s[k] == line[k - p]);
    }
    assert(s[e] == '\n');
    lemma_find_at(s, '\n', p, e);
    assert(s.subrange(p, e) =~= line);
}

proof fn lemma_run_end(s: Seq<char>, st: ParseState)
    ensures
        run(s, s.len() as int, st) == Some(st),
{
    let p = s.len() as int;
    assert(find(s, '\n', p) == p);
    assert(s.subrange(p, p) =~= Seq::<char>::empty());
    assert(trim(Seq::<char>::empty()) =~= Seq::<char>::empty());
}

proof fn lemma_unescape_shift(a: Seq<char>, b: Seq<char>, j: int, out: Seq<char>)
    requires
        0 <= j,
    ensures
        unescape(a + b, a.len() + j, out) == unescape(b, j, out),
    decreases b.len() - j,
{
    let t = a + b;
    let i = a.len() + j;
    if j < b.len() {
        assert(t[i] == b[j]);
        if b[j] != '\\' {
            lemma_unescape_shift(a, b, j + 1, out.push(b[j]));
        } else if j + 1 < b.len() {
            assert(t[i + 1] == b[j + 1]);
            lemma_unescape_shift(a, b, j + 2, out.push('"'));
            lemma_unescape_shift(a, b, j + 2, out.push('\\'));
            lemma_unescape_shift(a, b, j + 2, out.push('\n'));
            lemma_unescape_shift(a, b, j + 2, out.push('\t'));
        }
    }
}

/// Escaping a value without control characters other than line feed and tab
/// succeeds, and unescaping what it gives restores the value.
proof fn lemma_unescape_escape(v: Seq<char>, r: Seq<char>, out: Seq<char>)
    requires
        escape(v) is Some,
    ensures
        unescape(escape(v)->0 + r, 0, out) == unescape(r, 0, out + v),
    decreases v.len(),
{
    if v.len() == 0 {
        assert(escape(v)->0 =~= Seq::<char>::empty());
        assert(escape(v)->0 + r =~= r);
        assert(out + v =~= out);
    } else {
        let w = v.drop_last();
        let c = v.last();
        let ec = escape_char(c)->0;
        lemma_unescape_escape(w, ec + r, out);
        assert(escape(v)->0 + r =~= escape(w)->0 + (ec + r));
        let t = ec + r;
        if ec.len() == 1 {
            assert(ec == seq![c]);
            assert(t[0] == c);
            assert(c != '\\');
            lemma_unescape_shift(ec, r, 0, (out + w).push(c));
            assert(ec + r =~= t);
        } else {
            assert(t[0] == '\\');
            assert(t[1] == ec[1]);
            lemma_unescape_shift(ec, r, 0, (out + w).push(c));
        }
        assert((out + w).push(c) =~= out + v);
    }
}

proof fn lemma_escape_ok(v: Seq<char>)
    requires
        forall|k: int| 0 <= k < v.len() ==> !is_control(#[trigger] v[k]),
    ensures
        escape(v) is Some,
        forall|k: int| 0 <= k < escape(v)->0.len() ==> escape(v)->0[k] != '\n',
    decreases v.len(),
{
    if v.len() > 0 {
        let w = v.drop_last();
        assert forall|k: int| 0 <= k < w.len() implies !is_control(#[trigger] w[k]) by {
            assert(w[k] == v[k]);
        }
        lemma_escape_ok(w);
        let c = v.last();
        assert(!is_control(v[v.len() - 1]));
        let e = escape(v)->0;
        let head = escape(w)->0;
        let tail = escape_char(c)->0;
        assert(e == head + tail);
        assert forall|k: int| 0 <= k < e.len() implies e[k] != '\n' by {
            if k < head.len() {
                assert(e[k] == head[k]);
            } else {
                assert(e[k] == tail[k - head.len()]);
            }
        }
    }
}

/// The line a value is rendered as.
pub open spec fn value_line(key: Seq<char>, v: Seq<char>) -> Seq<char> {
    key + " = \""@ + escape(v)->0 + seq!['"']
}

/// The state after reading `v` under one of the three selection keys.
pub open spec fn with_key(st: ParseState, key: Seq<char>, v: Seq<char>) -> ParseState {
    if key == "provider"@ {
        ParseState { config: ConfigModel { provider: Some(v), ..st.config }, ..st }
    } else if key == "model"@ {
        ParseState { config: ConfigModel { model: Some(v), ..st.config }, ..st }
    } else {
        ParseState { config: ConfigModel { variant: Some(v), ..st.config }, ..st }
    }
}

/// Whether the state has no value yet under `key`.
pub open spec fn key_free(st: ParseState, key: Seq<char>) -> bool {
    if key == "provider"@ {
        st.config.provider is None
    } else if key == "model"@ {
        st.config.model is None
    } else {
        st.config.variant is None
    }
}

#[verifier::rlimit(80)]
#[verifier::spinoff_prover]
proof fn lemma_value_step(st: ParseState, key: Seq<char>, v: Seq<char>)
    requires
        key == "provider"@ || key == "model"@ || key == "variant"@,
        key_free(st, key),
        forall|k: int| 0 <= k < v.len() ==> !is_control(#[trigger] v[k]),
    ensures
        step(st, value_line(key, v)) == Some(with_key(st, key, v)),
        forall|k: int| 0 <= k < value_line(key, v).len() ==> value_line(key, v)[k] != '\n',
{
    reveal_strlit("provider");
    reveal_strlit("model");
    reveal_strlit("variant");
    reveal_strlit("schema_version");
    reveal_strlit(" = \"");
    lemma_escape_ok(v);
    let e = escape(v)->0;
    let line = value_line(key, v);
    let kl = key.len() as int;
    assert(line =~= key + seq![' ', '=', ' ', '"'] + e + seq!['"']);
    assert(line[0] == key[0]);
    assert(!is_space(line[0]));
    assert(lead(line, 0) == 0);
    assert(line.last() == '"');
    assert(trail(line, 0, line.len() as int) == line.len());
    assert(trim(line) =~= line);
    assert forall|k: int| 0 <= k < kl implies line[k] != '=' by {
        assert(line[k] == key[k]);
    }
    assert(line[kl] == ' ');
    assert(line[kl + 1] == '=');
    lemma_find_at(line, '=', 0, kl + 1);
    let kpart = line.subrange(0, kl + 1);
    assert(kpart[0] == key[0]);
    assert(lead(kpart, 0) == 0);
    assert(kpart[kl] == ' ');
    assert(kpart[kl - 1] == key[kl - 1]);
    assert(!is_space(key[kl - 1]));
    assert(trail(kpart, 0, kl + 1) == trail(kpart, 0, kl));
    assert(trail(kpart, 0, kl) == kl);
    assert(trim(kpart) =~= key);
    let vpart = line.subrange(kl + 2, line.len() as int);
    assert(vpart =~= seq![' ', '"'] + e + seq!['"']);
    assert(lead(vpart, 1) == 1);
    assert(lead(vpart, 0) == 1);
    assert(trail(vpart, 1, vpart.len() as int) == vpart.len());
    let quoted = seq!['"'] + e + seq!['"'];
    assert(trim(vpart) =~= quoted);
    assert(quoted.subrange(1, quoted.len() - 1) =~= e);
    lemma_unescape_escape(v, Seq::empty(), Seq::empty());
    assert(e + Seq::<char>::empty() =~= e);
    assert(Seq::<char>::empty() + v =~= v);
    assert(unescape(Seq::<char>::empty(), 0, v) == Some(v));
    assert(read_string(quoted) == Some(v));
    assert(key != "schema_version"@) by {
        if key == "schema_version"@ {
            assert(key.len() == 14);
        }
    }
    if key == "model"@ {
        assert(key != "provider"@) by {
            assert(key.len() != "provider"@.len());
        }
    }
    if key == "variant"@ {
        assert(key != "provider"@) by {
            assert(key[0] != "provider"@[0]);
        }
        assert(key != "model"@) by {
            assert(key.len() != "model"@.len());
        }
    }
    assert forall|k: int| 0 <= k < line.len() implies line[k] != '\n' by {
        if k < kl {
            assert(line[k] == key[k]);
        } else if k >= kl + 4 && k < kl + 4 + e.len() {
            assert(line[k] == e[k - kl - 4]);
        }
    }
}

proof fn lemma_run_value(
    prefix: Seq<char>,
    key: Seq<char>,
    value: Option<Seq<char>>,
    rest: Seq<char>,
    st: ParseState,
)
    requires
        key == "provider"@ || key == "model"@ || key == "variant"@,
        key_free(st, key),
        opt_ok(value),
    ensures
        render_line(key, value) is Some,
        ({
            let line = render_line(key, value)->0;
            let s = prefix + line + rest;
            run(s, prefix.len() as int, st) == run(
                s,
                (prefix.len() + line.len()) as int,
                match value {
                    Some(v) => with_key(st, key, v),
                    None => st,
                },
            )
        }),
{
    match value {
        None => {},
        Some(v) => {
            reveal_strlit(" = \"");
            reveal_strlit("\"\n");
            lemma_escape_ok(v);
            lemma_value_step(st, key, v);
            let vl = value_line(key, v);
            assert("\"\n"@ =~= seq!['"'] + seq!['\n']);
            assert(render_line(key, value)->0 =~= vl + seq!['\n']);
            lemma_run_line(prefix, vl, rest, st);
            assert(prefix + render_line(key, value)->0 + rest =~= prefix + vl + seq!['\n'] + rest);
        },
    }
}

/// Rendering an acceptable configuration gives a file that parses back to
/// the same configuration.
pub proof fn config_round_trip(m: ConfigModel)
    requires
        semantics_ok(m),
    ensures
        render_config(m) is Some,
        parse_config(render_config(m)->0) == Some(m),
{
    reveal_strlit("schema_version = 1\n");
    reveal_strlit("provider");
    reveal_strlit("model");
    reveal_strlit("variant");
    assert("model"@ != "provider"@) by {
        assert("model"@.len() != "provider"@.len());
    }
    assert("variant"@ != "provider"@) by {
        assert("variant"@[0] != "provider"@[0]);
    }
    assert("variant"@ != "model"@) by {
        assert("variant"@.len() != "model"@.len());
    }
    let header = seq!['s', 'c', 'h', 'e', 'm', 'a', '_', 'v', 'e', 'r', 's', 'i', 'o', 'n', ' ', '=', ' ', '1'];
    let h = "schema_version = 1\n"@;
    assert(h =~= header + seq!['\n']);
    let p = render_line("provider"@, m.provider)->0;
    let mo = render_line("model"@, m.model)->0;
    let v = render_line("variant"@, m.variant)->0;
    let text = h + p + mo + v;
    let st0 = ParseState { version: None, config: empty_model() };
    let st1 = ParseState { version: Some(1int), config: empty_model() };
    let st2 = ParseState {
        version: Some(1int),
        config: ConfigModel { provider: m.provider, model: None, variant: None },
    };
    let st3 = ParseState {
        version: Some(1int),
        config: ConfigModel { provider: m.provider, model: m.model, variant: None },
    };
    let st4 = ParseState { version: Some(1int), config: m };
    lemma_header_step();
    lemma_run_line(Seq::empty(), header, p + mo + v, st0);
    assert(Seq::<char>::empty() + header + seq!['\n'] + (p + mo + v) =~= text);
    lemma_run_value(h, "provider"@, m.provider, mo + v, st1);
    assert(h + p + (mo + v) =~= text);
    assert(match m.provider {
        Some(x) => with_key(st1, "provider"@, x),
        None => st1,
    } == st2);
    lemma_run_value(h + p, "model"@, m.model, v, st2);
    assert(match m.model {
        Some(x) => with_key(st2, "model"@, x),
        None => st2,
    } == st3);
    lemma_run_value(h + p + mo, "variant"@, m.variant, Seq::empty(), st3);
    assert(h + p + mo + v + Seq::<char>::empty() =~= text);
    assert(match m.variant {
        Some(x) => with_key(st3, "variant"@, x),
        None => st3,
    } == st4);
    lemma_run_end(text, st4);
    assert(render_config(m) == Some(text));
}

} // verus!
