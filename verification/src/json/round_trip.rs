//! Parsing the emitted text of a value gives the value back.
//!
//! The emitter writes no white space, escapes what a string needs, writes
//! integers in plain decimal and keeps the text of other numbers, so the
//! parser reads each token back as it was written.
use super::emit::{emit_entries, emit_items, emit_json, escape_body, escape_char, int_text, number_text, string_text};
use super::parse::{byte_len, digits_end, digits_value, is_digit, is_ws, number, number_lexeme, ws_end};
use super::parse::{array_items, charge, key_lt, object_entries, string, value, St};
use super::parse::{lemma_obj_insert_last, parse_chars, spec_parse};
use super::entry_within;
use super::{add_cost, canonical, within, Json, JsonLimits, MAX_SAFE_INTEGER};
use super::number::within_binary64;
use crate::text::{digit_char, hex_char, nat_text};
use vstd::prelude::*;

verus! {

/// A character that may follow a value in emitted text.
pub open spec fn delimiter(c: char) -> bool {
    c == ',' || c == ']' || c == '}' || c == ':'
}

/// Position `p` ends a token: the text ends there or a delimiter follows.
pub open spec fn ends_token(s: Seq<char>, p: int) -> bool {
    p == s.len() || (0 <= p < s.len() && delimiter(s[p]))
}

/// `t` occurs in `s` at `p`.
pub open spec fn occurs(s: Seq<char>, p: int, t: Seq<char>) -> bool {
    0 <= p && p + t.len() <= s.len() && s.subrange(p, p + t.len()) == t
}

/// A JSON number with a fraction or an exponent, written out in full.
pub open spec fn decimal_text(t: Seq<char>) -> bool {
    match number_lexeme(t, 0) {
        Some((end, float, _)) => end == t.len() && float,
        None => false,
    }
}

proof fn lemma_ws_stop(s: Seq<char>, p: int)
    requires
        p == s.len() || (0 <= p < s.len() && !is_ws(s[p])),
    ensures
        ws_end(s, p) == p,
{
}

pub proof fn lemma_nat_text(k: nat)
    ensures
        nat_text(k).len() >= 1,
        forall|i: int| 0 <= i < nat_text(k).len() ==> is_digit(#[trigger] nat_text(k)[i]),
        k == 0 ==> nat_text(k) == seq!['0'],
        k > 0 ==> nat_text(k)[0] != '0',
        digits_value(nat_text(k)) == k,
    decreases k,
{
    if k < 10 {
        assert(digits_value(Seq::<char>::empty()) == 0);
        assert(seq![digit_char(k as int)].drop_last() =~= Seq::<char>::empty());
    } else {
        lemma_nat_text(k / 10);
        let head = nat_text(k / 10);
        let t = nat_text(k);
        assert(t == head.push(digit_char((k % 10) as int)));
        assert(t.drop_last() =~= head);
        assert forall|i: int| 0 <= i < t.len() implies is_digit(#[trigger] t[i]) by {
            if i < head.len() {
                assert(t[i] == head[i]);
            }
        }
        assert(t[0] == head[0]);
        assert((k / 10) * 10 + k % 10 == k) by (nonlinear_arith);
    }
}

proof fn lemma_digits_end_window(s: Seq<char>, q: int, end: int)
    requires
        0 <= q <= end <= s.len(),
        forall|i: int| q <= i < end ==> is_digit(#[trigger] s[i]),
        end == s.len() || !is_digit(s[end]),
    ensures
        digits_end(s, q) == end,
    decreases end - q,
{
    if q < end {
        lemma_digits_end_window(s, q + 1, end);
    }
}

proof fn lemma_integer(s: Seq<char>, p: int, n: int)
    requires
        occurs(s, p, int_text(n)),
        ends_token(s, p + int_text(n).len()),
        -MAX_SAFE_INTEGER <= n <= MAX_SAFE_INTEGER,
    ensures
        number(s, p) == Some((Json::Integer(n), p + int_text(n).len())),
{
    let text = int_text(n);
    let m: nat = if n < 0 { (-n) as nat } else { n as nat };
    let q = if n < 0 { p + 1 } else { p };
    let digits = nat_text(m);
    lemma_nat_text(m);
    let end = p + text.len();
    assert(text == if n < 0 { seq!['-'] + digits } else { digits });
    assert(s.subrange(q, end) =~= digits) by {
        assert forall|i: int| 0 <= i < digits.len() implies s.subrange(q, end)[i] == digits[i] by {
            assert(s[q + i] == s.subrange(p, end)[q + i - p]);
            assert(text[q + i - p] == digits[i]);
        }
    }
    assert(s[p] == text[0]);
    assert forall|i: int| q <= i < end implies is_digit(#[trigger] s[i]) by {
        assert(s[i] == s.subrange(q, end)[i - q]);
    }
    assert(s[q] == digits[0]);
    if m > 0 {
        lemma_digits_end_window(s, q, end);
    }
    assert(number_lexeme(s, p) == Some((end, false, q)));
}

proof fn lemma_digits_end_shift(s: Seq<char>, p: int, t: Seq<char>, i: int)
    requires
        occurs(s, p, t),
        ends_token(s, p + t.len()),
        0 <= i <= t.len(),
    ensures
        digits_end(s, p + i) == p + digits_end(t, i),
    decreases t.len() - i,
{
    if i < t.len() {
        assert(s[p + i] == s.subrange(p, p + t.len())[i]);
        if is_digit(t[i]) {
            lemma_digits_end_shift(s, p, t, i + 1);
        }
    }
}

proof fn lemma_decimal(s: Seq<char>, p: int, t: Seq<char>)
    requires
        decimal_text(t),
        within_binary64(t),
        occurs(s, p, t),
        ends_token(s, p + t.len()),
    ensures
        number(s, p) == Some((Json::Number(t), p + t.len())),
        number_text(t) == t,
{
    assert forall|i: int| 0 <= i < t.len() implies s[p + i] == #[trigger] t[i] by {
        assert(s[p + i] == s.subrange(p, p + t.len())[i]);
    }
    let q = if 0 < t.len() && t[0] == '-' { 1int } else { 0int };
    let int_end = if 0 <= q < t.len() && t[q] == '0' {
        q + 1
    } else if 0 <= q < t.len() && '1' <= t[q] && t[q] <= '9' {
        digits_end(t, q)
    } else {
        -1
    };
    if q <= t.len() {
        lemma_digits_end_shift(s, p, t, q);
    }
    lemma_digits_end_t(t, q);
    let has_fraction = 0 <= int_end < t.len() && t[int_end] == '.';
    let frac_end = if has_fraction { digits_end(t, int_end + 1) } else { int_end };
    if has_fraction {
        lemma_digits_end_shift(s, p, t, int_end + 1);
        lemma_digits_end_t(t, int_end + 1);
    }
    let has_exponent = 0 <= frac_end < t.len() && (t[frac_end] == 'e' || t[frac_end] == 'E');
    let sign_end = if has_exponent && frac_end + 1 < t.len() && (t[frac_end + 1] == '+' || t[frac_end
        + 1] == '-') {
        frac_end + 2
    } else {
        frac_end + 1
    };
    if has_exponent && sign_end <= t.len() {
        lemma_digits_end_shift(s, p, t, sign_end);
    }
    assert(number_lexeme(s, p) == Some((p + t.len(), true, p + q)));
    assert(s.subrange(p, p + t.len()) == t);
    if has_fraction {
        assert(t[int_end] == '.');
        assert(t.contains('.'));
    } else {
        assert(has_exponent);
        assert(t[frac_end] == 'e' || t[frac_end] == 'E');
        if t[frac_end] == 'e' {
            assert(t.contains('e'));
        } else {
            assert(t.contains('E'));
        }
    }
}

proof fn lemma_digits_end_t(t: Seq<char>, i: int)
    ensures
        0 <= i ==> i <= digits_end(t, i),
        0 <= i <= t.len() ==> digits_end(t, i) <= t.len(),
    decreases t.len() - i,
{
    if 0 <= i < t.len() && is_digit(t[i]) {
        lemma_digits_end_t(t, i + 1);
    }
}

proof fn lemma_escape_body_front(t: Seq<char>)
    requires
        t.len() > 0,
    ensures
        escape_body(t) == escape_char(t[0]) + escape_body(t.drop_first()),
    decreases t.len(),
{
    if t.len() == 1 {
        assert(t.drop_last() =~= Seq::<char>::empty());
        assert(t.drop_first() =~= Seq::<char>::empty());
        assert(escape_body(t.drop_last()) =~= Seq::<char>::empty());
        assert(escape_body(t.drop_first()) =~= Seq::<char>::empty());
        assert(t.last() == t[0]);
        assert(escape_body(t) =~= escape_char(t[0]));
        assert(escape_char(t[0]) + Seq::<char>::empty() =~= escape_char(t[0]));
    } else {
        let dl = t.drop_last();
        lemma_escape_body_front(dl);
        assert(dl[0] == t[0]);
        assert(dl.drop_first() =~= t.drop_first().drop_last());
        assert(t.drop_first().last() == t.last());
        assert(escape_body(t) =~= escape_char(t[0]) + escape_body(t.drop_first()));
    }
}

proof fn lemma_hex_digit(d: int)
    requires
        0 <= d < 16,
    ensures
        super::parse::hex_value(hex_char(d)) == Some(d),
{
}

proof fn lemma_string_body(s: Seq<char>, p: int, t: Seq<char>, out: Seq<char>)
    requires
        occurs(s, p, escape_body(t)),
        p + escape_body(t).len() < s.len(),
        s[p + escape_body(t).len()] == '"',
    ensures
        super::parse::string_body(s, p, out) == Some((out + t, p + escape_body(t).len() + 1)),
    decreases t.len(),
{
    let e = escape_body(t);
    if t.len() == 0 {
        assert(out + t =~= out);
    } else {
        lemma_escape_body_front(t);
        let c = t[0];
        let ec = escape_char(c);
        let rest = t.drop_first();
        let er = escape_body(rest);
        assert(e == ec + er);
        assert forall|i: int| 0 <= i < ec.len() implies s[p + i] == #[trigger] ec[i] by {
            assert(s[p + i] == s.subrange(p, p + e.len())[i]);
            assert(e[i] == ec[i]);
        }
        assert(s.subrange(p + ec.len(), p + ec.len() + er.len()) =~= er) by {
            assert forall|i: int| 0 <= i < er.len() implies s.subrange(
                p + ec.len(),
                p + ec.len() + er.len(),
            )[i] == er[i] by {
                assert(s[p + ec.len() + i] == s.subrange(p, p + e.len())[ec.len() + i]);
                assert(e[ec.len() + i] == er[i]);
            }
        }
        lemma_string_body(s, p + ec.len(), rest, out.push(c));
        assert(out.push(c) + rest =~= out + t);
        let u = c as u32;
        vstd::utf8::char_u32_cast(c, u);
        if c == '"' || c == '\\' || c == '\n' || c == '\r' || c == '\t' || c == '\u{8}' || c
            == '\u{c}' {
            assert(s[p] == '\\');
            assert(s[p + 1] == ec[1]);
            assert(super::parse::escape(s, p + 1) == Some((c, p + 2)));
            assert(super::parse::string_body(s, p, out) == super::parse::string_body(s, p + 2, out.push(c)));
        } else if u < 0x20 {
            lemma_hex_digit((u / 16) as int);
            lemma_hex_digit((u % 16) as int);
            assert(hex_char(0) == '0');
            assert(super::parse::hex4(s, p + 2) == Some(u as int));
            assert(s[p] == '\\');
            assert(s[p + 1] == 'u');
            assert(super::parse::escape(s, p + 1) == Some((c, p + 6)));
            assert(super::parse::string_body(s, p, out) == super::parse::string_body(s, p + 6, out.push(c)));
        } else {
            assert(ec == seq![c]);
            assert(ec[0] == c);
            assert(s[p] == c);
            assert(super::parse::string_body(s, p, out) == super::parse::string_body(s, p + 1, out.push(c)));
        }
    }
}

/// Every number that is not an integer is written with a fraction or an
/// exponent, and lies within the finite binary64 range.
pub open spec fn decimal_numbers(v: Json) -> bool
    decreases v,
{
    match v {
        Json::Number(t) => decimal_text(t) && within_binary64(t),
        Json::Array(items) => forall|k: int|
            0 <= k < items.len() ==> decimal_numbers(#[trigger] items[k]),
        Json::Object(entries) => forall|k: int|
            0 <= k < entries.len() ==> decimal_numbers(#[trigger] entries[k].1),
        _ => true,
    }
}

/// The elements and bytes the parser charges for a value.
pub open spec fn text_cost(v: Json) -> (int, int)
    decreases v, 0nat,
{
    match v {
        Json::Str(t) => (2, byte_len(t)),
        Json::Array(items) => text_items_cost(items),
        Json::Object(entries) => text_entries_cost(entries),
        _ => (1, 0),
    }
}

/// The parser's charge for array items.
pub open spec fn text_items_cost(items: Seq<Json>) -> (int, int)
    decreases items, 1nat,
{
    if items.len() == 0 {
        (0, 0)
    } else {
        add_cost(text_items_cost(items.drop_last()), text_cost(items.last()))
    }
}

/// The parser's charge for object entries: a key is an element with its bytes.
pub open spec fn text_entries_cost(entries: Seq<(Seq<char>, Json)>) -> (int, int)
    decreases entries, 1nat,
{
    if entries.len() == 0 {
        (0, 0)
    } else {
        add_cost(
            text_entries_cost(entries.drop_last()),
            add_cost((1, byte_len(entries.last().0)), text_cost(entries.last().1)),
        )
    }
}

/// The parser state at `pos` once a cost is charged.
pub open spec fn advance(st: St, pos: int, c: (int, int)) -> St {
    St { pos, elements: st.elements + c.0, bytes: st.bytes + c.1 }
}

proof fn lemma_text_cost_nonneg(v: Json)
    ensures
        text_cost(v).0 >= 0,
        text_cost(v).1 >= 0,
    decreases v, 0nat,
{
    match v {
        Json::Str(t) => super::parse::lemma_byte_len_nonneg(t),
        Json::Array(items) => lemma_text_items_nonneg(items),
        Json::Object(entries) => lemma_text_entries_nonneg(entries),
        _ => {},
    }
}

proof fn lemma_text_items_nonneg(items: Seq<Json>)
    ensures
        text_items_cost(items).0 >= 0,
        text_items_cost(items).1 >= 0,
    decreases items, 1nat,
{
    if items.len() > 0 {
        lemma_text_items_nonneg(items.drop_last());
        lemma_text_cost_nonneg(items.last());
    }
}

proof fn lemma_text_entries_nonneg(entries: Seq<(Seq<char>, Json)>)
    ensures
        text_entries_cost(entries).0 >= 0,
        text_entries_cost(entries).1 >= 0,
    decreases entries, 1nat,
{
    if entries.len() > 0 {
        lemma_text_entries_nonneg(entries.drop_last());
        lemma_text_cost_nonneg(entries.last().1);
        super::parse::lemma_byte_len_nonneg(entries.last().0);
    }
}

proof fn lemma_text_items_prefix(items: Seq<Json>, j: int)
    requires
        0 <= j <= items.len(),
    ensures
        text_items_cost(items.take(j)).0 <= text_items_cost(items).0,
        text_items_cost(items.take(j)).1 <= text_items_cost(items).1,
    decreases items.len(),
{
    if j < items.len() {
        lemma_text_items_prefix(items.drop_last(), j);
        assert(items.drop_last().take(j) =~= items.take(j));
        lemma_text_cost_nonneg(items.last());
    } else {
        assert(items.take(j) =~= items);
    }
}

proof fn lemma_text_entries_prefix(entries: Seq<(Seq<char>, Json)>, j: int)
    requires
        0 <= j <= entries.len(),
    ensures
        text_entries_cost(entries.take(j)).0 <= text_entries_cost(entries).0,
        text_entries_cost(entries.take(j)).1 <= text_entries_cost(entries).1,
    decreases entries.len(),
{
    if j < entries.len() {
        lemma_text_entries_prefix(entries.drop_last(), j);
        assert(entries.drop_last().take(j) =~= entries.take(j));
        lemma_text_cost_nonneg(entries.last().1);
        super::parse::lemma_byte_len_nonneg(entries.last().0);
    } else {
        assert(entries.take(j) =~= entries);
    }
}

/// The emitted items of a prefix begin the emitted items, and a comma
/// follows each item but the last.
proof fn lemma_items_prefix(items: Seq<Json>, m: int)
    requires
        0 <= m <= items.len(),
    ensures
        emit_items(items.take(m)).len() <= emit_items(items).len(),
        emit_items(items).subrange(0, emit_items(items.take(m)).len() as int) == emit_items(
            items.take(m),
        ),
        0 < m < items.len() ==> emit_items(items)[emit_items(items.take(m)).len() as int] == ','
            && emit_items(items.take(m)).len() < emit_items(items).len(),
    decreases items.len(),
{
    let e = emit_items(items);
    if m == items.len() {
        assert(items.take(m) =~= items);
        assert(e.subrange(0, e.len() as int) =~= e);
    } else {
        let dl = items.drop_last();
        lemma_items_prefix(dl, m);
        assert(dl.take(m) =~= items.take(m));
        let d = emit_items(dl);
        let sep = if items.len() > 1 { seq![','] } else { Seq::<char>::empty() };
        assert(e == d + sep + emit_json(items.last()));
        let lm = emit_items(items.take(m)).len() as int;
        assert(e.subrange(0, lm) =~= d.subrange(0, lm));
        if 0 < m {
            if m < dl.len() {
                assert(e[lm] == d[lm]);
            } else {
                assert(dl.take(m) =~= dl);
                assert(e[lm] == sep[0]);
            }
        }
    }
}

/// The emitted entries of a prefix begin the emitted entries, and a comma
/// follows each entry but the last.
proof fn lemma_entries_prefix(entries: Seq<(Seq<char>, Json)>, m: int)
    requires
        0 <= m <= entries.len(),
    ensures
        emit_entries(entries.take(m)).len() <= emit_entries(entries).len(),
        emit_entries(entries).subrange(0, emit_entries(entries.take(m)).len() as int)
            == emit_entries(entries.take(m)),
        0 < m < entries.len() ==> emit_entries(entries)[emit_entries(entries.take(m)).len() as int]
            == ',' && emit_entries(entries.take(m)).len() < emit_entries(entries).len(),
    decreases entries.len(),
{
    let e = emit_entries(entries);
    if m == entries.len() {
        assert(entries.take(m) =~= entries);
        assert(e.subrange(0, e.len() as int) =~= e);
    } else {
        let dl = entries.drop_last();
        lemma_entries_prefix(dl, m);
        assert(dl.take(m) =~= entries.take(m));
        let d = emit_entries(dl);
        let sep = if entries.len() > 1 { seq![','] } else { Seq::<char>::empty() };
        assert(e == d + sep + string_text(entries.last().0) + seq![':'] + emit_json(entries.last().1));
        let lm = emit_entries(entries.take(m)).len() as int;
        assert(e.subrange(0, lm) =~= d.subrange(0, lm));
        if 0 < m {
            if m < dl.len() {
                assert(e[lm] == d[lm]);
            } else {
                assert(dl.take(m) =~= dl);
                assert(e[lm] == sep[0]);
            }
        }
    }
}

/// A character that can begin a value's text.
pub open spec fn starts_value(c: char) -> bool {
    c == 'n' || c == 't' || c == 'f' || c == '"' || c == '[' || c == '{' || c == '-' || is_digit(c)
}

proof fn lemma_first_char(v: Json)
    requires
        decimal_numbers(v),
    ensures
        emit_json(v).len() > 0,
        starts_value(emit_json(v)[0]),
{
    match v {
        Json::Integer(n) => {
            let m: nat = if n < 0 { (-n) as nat } else { n as nat };
            lemma_nat_text(m);
            if n >= 0 {
                assert(emit_json(v)[0] == nat_text(m)[0]);
            }
        },
        Json::Number(t) => {
            assert((t + seq![',']).subrange(0, t.len() as int) =~= t);
            assert((t + seq![','])[t.len() as int] == ',');
            lemma_decimal(t + seq![','], 0, t);
            assert(t[0] == '-' || is_digit(t[0]));
        },
        _ => {},
    }
}

proof fn lemma_charge(limits: JsonLimits, st: St, n: int)
    requires
        0 <= st.elements,
        0 <= st.bytes,
        0 <= n,
        st.elements + 1 <= limits.max_elements,
        st.bytes + n <= limits.max_bytes,
    ensures
        charge(limits, st, n) == Ok::<St, crate::error::ErrorCode>(
            St { pos: st.pos, elements: st.elements + 1, bytes: st.bytes + n },
        ),
{
}

proof fn lemma_value_back(s: Seq<char>, p: int, v: Json, depth: int, st: St, limits: JsonLimits)
    requires
        occurs(s, p, emit_json(v)),
        ends_token(s, p + emit_json(v).len()),
        st.pos == p,
        canonical(v),
        within(v, depth, limits),
        decimal_numbers(v),
        0 <= depth,
        0 <= st.elements,
        0 <= st.bytes,
        st.elements + text_cost(v).0 <= limits.max_elements,
        st.bytes + text_cost(v).1 <= limits.max_bytes,
    ensures
        value(s, st, depth, limits) == Ok::<(Json, St), crate::error::ErrorCode>(
            (v, advance(st, p + emit_json(v).len(), text_cost(v))),
        ),
    decreases v, 0int, 0int,
{
    let e = emit_json(v);
    lemma_first_char(v);
    assert forall|i: int| 0 <= i < e.len() implies s[p + i] == #[trigger] e[i] by {
        assert(s[p + i] == s.subrange(p, p + e.len())[i]);
    }
    match v {
        Json::Null => {
            assert(s.subrange(p, p + 4) =~= seq!['n', 'u', 'l', 'l']);
            lemma_charge(limits, St { pos: p + 4, ..st }, 0);
        },
        Json::Bool(b) => {
            if b {
                assert(s.subrange(p, p + 4) =~= seq!['t', 'r', 'u', 'e']);
                lemma_charge(limits, St { pos: p + 4, ..st }, 0);
            } else {
                assert(s.subrange(p, p + 5) =~= seq!['f', 'a', 'l', 's', 'e']);
                lemma_charge(limits, St { pos: p + 5, ..st }, 0);
            }
        },
        Json::Integer(n) => {
            lemma_integer(s, p, n);
            lemma_charge(limits, St { pos: p + e.len(), ..st }, 0);
        },
        Json::Number(t) => {
            assert((t + seq![',']).subrange(0, t.len() as int) =~= t);
            assert((t + seq![','])[t.len() as int] == ',');
            lemma_decimal(t + seq![','], 0, t);
            lemma_decimal(s, p, t);
            lemma_charge(limits, St { pos: p + e.len(), ..st }, 0);
        },
        Json::Str(t) => {
            let eb = escape_body(t);
            assert(e == seq!['"'] + eb + seq!['"']);
            assert(s.subrange(p + 1, p + 1 + eb.len()) =~= eb) by {
                assert forall|i: int| 0 <= i < eb.len() implies s.subrange(
                    p + 1,
                    p + 1 + eb.len(),
                )[i] == eb[i] by {
                    assert(e[1 + i] == eb[i]);
                }
            }
            assert(s[p + 1 + eb.len()] == e[1 + eb.len() as int]);
            lemma_string_body(s, p + 1, t, Seq::empty());
            assert(Seq::<char>::empty() + t =~= t);
            super::parse::lemma_byte_len_nonneg(t);
            let q = p + e.len();
            lemma_charge(limits, St { pos: q, ..st }, byte_len(t));
            let next = St { pos: q, elements: st.elements + 1, bytes: st.bytes + byte_len(t) };
            assert(string(s, st, false, limits) == Ok::<(Seq<char>, St), crate::error::ErrorCode>(
                (t, next),
            ));
            lemma_charge(limits, next, 0);
        },
        Json::Array(items) => {
            let body = emit_items(items);
            assert(e == seq!['['] + body + seq![']']);
            if items.len() == 0 {
                assert(body.len() == 0);
                assert(e[1] == ']');
                assert(s[p + 1] == ']');
                assert(items =~= Seq::<Json>::empty());
            } else {
                lemma_items_prefix(items, 0);
                assert(items.take(0) =~= Seq::<Json>::empty());
                lemma_items_prefix(items, 1);
                lemma_first_char(items[0]);
                assert(items.take(1).drop_last() =~= items.take(0));
                assert(emit_items(items.take(1)) =~= emit_json(items[0]));
                assert(e[1] == body[0]);
                assert(s[p + 1] == body[0]);
                assert(body[0] == emit_json(items[0])[0]);
                lemma_items_back(s, p, items, depth, st, limits, 0);
            }
        },
        Json::Object(entries) => {
            let body = emit_entries(entries);
            assert(e == seq!['{'] + body + seq!['}']);
            if entries.len() == 0 {
                assert(body.len() == 0);
                assert(e[1] == '}');
                assert(s[p + 1] == '}');
                assert(entries =~= Seq::<(Seq<char>, Json)>::empty());
            } else {
                lemma_entries_prefix(entries, 0);
                assert(entries.take(0) =~= Seq::<(Seq<char>, Json)>::empty());
                lemma_entries_prefix(entries, 1);
                assert(entries.take(1).drop_last() =~= entries.take(0));
                assert(e[1] == body[0]);
                assert(s[p + 1] == body[0]);
                let first = entries.take(1);
                assert(emit_entries(first) =~= string_text(entries[0].0) + seq![':'] + emit_json(
                    entries[0].1,
                ));
                assert(body[0] == body.subrange(0, emit_entries(first).len() as int)[0]);
                assert(body[0] == '"');
                lemma_entries_back(s, p, entries, depth, st, limits, 0);
            }
        },
    }
}

/// Where item `m` of an emitted array starting at `b` begins.
pub open spec fn item_start(items: Seq<Json>, b: int, m: int) -> int {
    b + 1 + emit_items(items.take(m)).len() + if m > 0 { 1int } else { 0int }
}

/// Where entry `m` of an emitted object starting at `b` begins.
pub open spec fn entry_start(entries: Seq<(Seq<char>, Json)>, b: int, m: int) -> int {
    b + 1 + emit_entries(entries.take(m)).len() + if m > 0 { 1int } else { 0int }
}

#[verifier::rlimit(80)]
#[verifier::spinoff_prover]
proof fn lemma_items_back(
    s: Seq<char>,
    b: int,
    items: Seq<Json>,
    depth: int,
    st0: St,
    limits: JsonLimits,
    m: int,
)
    requires
        occurs(s, b, emit_json(Json::Array(items))),
        0 <= m < items.len(),
        forall|k: int| 0 <= k < items.len() ==> canonical(#[trigger] items[k]),
        forall|k: int| 0 <= k < items.len() ==> within(#[trigger] items[k], depth + 1, limits),
        forall|k: int| 0 <= k < items.len() ==> decimal_numbers(#[trigger] items[k]),
        0 <= depth,
        0 <= st0.elements,
        0 <= st0.bytes,
        st0.elements + text_items_cost(items).0 <= limits.max_elements,
        st0.bytes + text_items_cost(items).1 <= limits.max_bytes,
    ensures
        array_items(
            s,
            advance(st0, item_start(items, b, m), text_items_cost(items.take(m))),
            depth,
            limits,
            items.take(m),
        ) == Ok::<(Json, St), crate::error::ErrorCode>(
            (
                Json::Array(items),
                advance(st0, b + emit_json(Json::Array(items)).len(), text_items_cost(items)),
            ),
        ),
    decreases items, 1int, items.len() - m,
{
    let e = emit_json(Json::Array(items));
    let body = emit_items(items);
    assert(e == seq!['['] + body + seq![']']);
    assert forall|i: int| 0 <= i < body.len() implies s[b + 1 + i] == #[trigger] body[i] by {
        assert(s[b + 1 + i] == s.subrange(b, b + e.len())[1 + i]);
        assert(e[1 + i] == body[i]);
    }
    assert(s[b + 1 + body.len()] == s.subrange(b, b + e.len())[1 + body.len() as int]);
    let before = items.take(m);
    let after = items.take(m + 1);
    let item = items[m];
    let ej = emit_json(item);
    lemma_items_prefix(items, m);
    lemma_items_prefix(items, m + 1);
    assert(after.drop_last() =~= before);
    assert(after.last() == item);
    let lb = emit_items(before).len() as int;
    let la = emit_items(after).len() as int;
    let sep = if m > 0 { seq![','] } else { Seq::<char>::empty() };
    assert(emit_items(after) == emit_items(before) + sep + ej);
    let start = item_start(items, b, m);
    let end = start + ej.len();
    assert(end == b + 1 + la);
    assert(s.subrange(start, end) =~= ej) by {
        assert forall|i: int| 0 <= i < ej.len() implies s.subrange(start, end)[i] == ej[i] by {
            assert(emit_items(after)[lb + sep.len() + i] == ej[i]);
            assert(body[lb + sep.len() + i] == emit_items(after)[lb + sep.len() + i]);
        }
    }
    if m + 1 < items.len() {
        assert(body[emit_items(items.take(m + 1)).len() as int] == ',');
        assert(s[end] == ',');
    } else {
        assert(items.take(m + 1) =~= items);
        assert(s[end] == ']');
    }
    lemma_first_char(item);
    assert(s[start] == ej[0]);
    lemma_text_items_prefix(items, m + 1);
    lemma_text_items_nonneg(before);
    lemma_text_cost_nonneg(item);
    let st = advance(st0, start, text_items_cost(before));
    lemma_value_back(s, start, item, depth + 1, st, limits);
    let next = advance(st0, end, text_items_cost(after));
    assert(advance(st, end, text_cost(item)) == next);
    assert(before.push(item) =~= after);
    if m + 1 < items.len() {
        lemma_first_char(items[m + 1]);
        lemma_items_back(s, b, items, depth, st0, limits, m + 1);
    } else {
        assert(after =~= items);
    }
}

#[verifier::rlimit(80)]
#[verifier::spinoff_prover]
proof fn lemma_entries_back(
    s: Seq<char>,
    b: int,
    entries: Seq<(Seq<char>, Json)>,
    depth: int,
    st0: St,
    limits: JsonLimits,
    m: int,
)
    requires
        occurs(s, b, emit_json(Json::Object(entries))),
        0 <= m < entries.len(),
        forall|i: int, j: int|
            0 <= i < j < entries.len() ==> key_lt(#[trigger] entries[i].0, #[trigger] entries[j].0),
        forall|k: int| 0 <= k < entries.len() ==> canonical(#[trigger] entries[k].1),
        forall|k: int| 0 <= k < entries.len() ==> entry_within(#[trigger] entries[k], depth + 1, limits),
        forall|k: int| 0 <= k < entries.len() ==> decimal_numbers(#[trigger] entries[k].1),
        0 <= depth,
        0 <= st0.elements,
        0 <= st0.bytes,
        st0.elements + text_entries_cost(entries).0 <= limits.max_elements,
        st0.bytes + text_entries_cost(entries).1 <= limits.max_bytes,
    ensures
        object_entries(
            s,
            advance(st0, entry_start(entries, b, m), text_entries_cost(entries.take(m))),
            depth,
            limits,
            entries.take(m),
        ) == Ok::<(Json, St), crate::error::ErrorCode>(
            (
                Json::Object(entries),
                advance(st0, b + emit_json(Json::Object(entries)).len(), text_entries_cost(entries)),
            ),
        ),
    decreases entries, 1int, entries.len() - m,
{
    let e = emit_json(Json::Object(entries));
    let body = emit_entries(entries);
    assert(e == seq!['{'] + body + seq!['}']);
    assert forall|i: int| 0 <= i < body.len() implies s[b + 1 + i] == #[trigger] body[i] by {
        assert(s[b + 1 + i] == s.subrange(b, b + e.len())[1 + i]);
        assert(e[1 + i] == body[i]);
    }
    assert(s[b + 1 + body.len()] == s.subrange(b, b + e.len())[1 + body.len() as int]);
    let before = entries.take(m);
    let after = entries.take(m + 1);
    let key = entries[m].0;
    let item = entries[m].1;
    let ek = string_text(key);
    let ej = emit_json(item);
    lemma_entries_prefix(entries, m);
    lemma_entries_prefix(entries, m + 1);
    assert(after.drop_last() =~= before);
    assert(after.last() == entries[m]);
    let lb = emit_entries(before).len() as int;
    let la = emit_entries(after).len() as int;
    let sep = if m > 0 { seq![','] } else { Seq::<char>::empty() };
    let piece = ek + seq![':'] + ej;
    assert(emit_entries(after) =~= emit_entries(before) + sep + piece);
    let start = entry_start(entries, b, m);
    let end = start + piece.len();
    assert(end == b + 1 + la);
    assert forall|i: int| 0 <= i < piece.len() implies s[start + i] == #[trigger] piece[i] by {
        assert(emit_entries(after)[lb + sep.len() + i] == piece[i]);
        assert(body[lb + sep.len() + i] == emit_entries(after)[lb + sep.len() + i]);
    }
    if m + 1 < entries.len() {
        assert(body[emit_entries(entries.take(m + 1)).len() as int] == ',');
        assert(s[end] == ',');
    } else {
        assert(entries.take(m + 1) =~= entries);
        assert(s[end] == '}');
    }
    let eb = escape_body(key);
    assert(ek == seq!['"'] + eb + seq!['"']);
    assert(s[start] == piece[0]);
    assert(s.subrange(start + 1, start + 1 + eb.len()) =~= eb) by {
        assert forall|i: int| 0 <= i < eb.len() implies s.subrange(start + 1, start + 1 + eb.len())[i]
            == eb[i] by {
            assert(piece[1 + i] == eb[i]);
        }
    }
    assert(s[start + 1 + eb.len()] == piece[1 + eb.len() as int]);
    lemma_string_body(s, start + 1, key, Seq::empty());
    assert(Seq::<char>::empty() + key =~= key);
    lemma_text_entries_prefix(entries, m + 1);
    lemma_text_entries_nonneg(before);
    lemma_text_cost_nonneg(item);
    super::parse::lemma_byte_len_nonneg(key);
    let st = advance(st0, start, text_entries_cost(before));
    let kend = start + ek.len();
    lemma_charge(limits, St { pos: kend, ..st }, byte_len(key));
    let after_key = St { pos: kend, elements: st.elements + 1, bytes: st.bytes + byte_len(key) };
    assert(string(s, st, true, limits) == Ok::<(Seq<char>, St), crate::error::ErrorCode>(
        (key, after_key),
    ));
    assert(s[kend] == piece[ek.len() as int]);
    let vstart = kend + 1;
    assert(s.subrange(vstart, end) =~= ej) by {
        assert forall|i: int| 0 <= i < ej.len() implies s.subrange(vstart, end)[i] == ej[i] by {
            assert(piece[ek.len() + 1 + i] == ej[i]);
        }
    }
    lemma_first_char(item);
    assert(s[vstart] == ej[0]);
    lemma_value_back(s, vstart, item, depth + 1, St { pos: vstart, ..after_key }, limits);
    let next = advance(st0, end, text_entries_cost(after));
    assert(advance(St { pos: vstart, ..after_key }, end, text_cost(item)) == next);
    assert forall|k: int| 0 <= k < before.len() implies key_lt(#[trigger] before[k].0, key) by {
        assert(before[k] == entries[k]);
    }
    lemma_obj_insert_last(before, key, item);
    assert(before.push((key, item)) =~= after);
    if m + 1 < entries.len() {
        lemma_entries_back(s, b, entries, depth, st0, limits, m + 1);
    } else {
        assert(after =~= entries);
    }
}

/// Parsing the text that `emit` writes gives the value back, for a value
/// whose object keys ascend, whose numbers other than portable integers are
/// written with a fraction or an exponent, and which stays within the limits,
/// the limit on the length of the whole text included.
pub proof fn emit_parse_round_trip(v: Json, limits: JsonLimits)
    requires
        canonical(v),
        decimal_numbers(v),
        within(v, 0, limits),
        text_cost(v).0 <= limits.max_elements,
        text_cost(v).1 <= limits.max_bytes,
        byte_len(emit_json(v)) <= limits.max_bytes,
    ensures
        spec_parse(vstd::utf8::encode_utf8(emit_json(v)), limits) == Ok::<
            Json,
            crate::error::ErrorCode,
        >(v),
{
    let s = emit_json(v);
    assert(s.subrange(0, s.len() as int) =~= s);
    lemma_first_char(v);
    lemma_ws_stop(s, 0);
    lemma_ws_stop(s, s.len() as int);
    lemma_value_back(s, 0, v, 0, St { pos: 0, elements: 0, bytes: 0 }, limits);
    assert(parse_chars(s, limits) == Ok::<Json, crate::error::ErrorCode>(v));
    super::parse::lemma_encode_len(s);
    vstd::utf8::encode_utf8_valid_utf8(s);
    vstd::utf8::encode_utf8_decode_utf8(s);
}

} // verus!
