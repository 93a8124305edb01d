//! Human-readable rendering of one workflow result.
//!
//! Command output is the intended product, so the terminal adapter routes
//! captured stdout back to standard output, diagnostics to standard error, and
//! never prints a raw JSON envelope for the reference shell and commit
//! workflows.
use super::style::{painted, Style};
use crate::config::is_control;
use crate::json::emit::{emit_json, int_text, string_text, write_integer};
use crate::json::{field, field_of, lookup, models, entry_models, Json, JsonValue};
use crate::text::{chars_of, hex_char, hex_digit_char, nat_text, push_char, push_decimal, push_str};
use vstd::prelude::*;

verus! {

broadcast use vstd::string::group_string_axioms;

/// The `char::escape_default` form of a control character.
pub open spec fn escaped_control(c: char) -> Seq<char> {
    let u = c as u32;
    if c == '\r' {
        seq!['\\', 'r']
    } else if u < 16 {
        seq!['\\', 'u', '{', hex_char(u as int), '}']
    } else {
        seq!['\\', 'u', '{', hex_char((u / 16) as int), hex_char((u % 16) as int), '}']
    }
}

/// Untrusted text with control characters other than line feed and tab escaped.
pub open spec fn escaped_text(text: Seq<char>) -> Seq<char>
    decreases text.len(),
{
    if text.len() == 0 {
        Seq::empty()
    } else {
        let c = text.last();
        escaped_text(text.drop_last()) + if is_control(c) && c != '\n' && c != '\t' {
            escaped_control(c)
        } else {
            seq![c]
        }
    }
}

fn hex(d: u32) -> (c: char)
    requires
        d < 16,
    ensures
        c == hex_char(d as int),
{
    match hex_digit_char(d) {
        Some(c) => c,
        None => '0',
    }
}

/// Escape control characters in untrusted text while keeping line breaks.
pub fn escape_text(value: &str) -> (out: String)
    ensures
        out@ == escaped_text(value@),
{
    let chars = chars_of(value);
    let mut out = String::new();
    let mut i: usize = 0;
    while i < chars.len()
        invariant
            i <= chars@.len(),
            chars@ == value@,
            out@ == escaped_text(chars@.subrange(0, i as int)),
        decreases chars@.len() - i,
    {
        let c = chars[i];
        let ghost before = out@;
        if crate::config::is_control_exec(c) && c != '\n' && c != '\t' {
            let u = c as u32;
            push_char(&mut out, '\\');
            if c == '\r' {
                push_char(&mut out, 'r');
            } else {
                push_char(&mut out, 'u');
                push_char(&mut out, '{');
                if u >= 16 {
                    push_char(&mut out, hex(u / 16));
                    push_char(&mut out, hex(u % 16));
                } else {
                    push_char(&mut out, hex(u));
                }
                push_char(&mut out, '}');
            }
        } else {
            push_char(&mut out, c);
        }
        proof {
            let pre = chars@.subrange(0, i + 1);
            assert(pre.drop_last() =~= chars@.subrange(0, i as int));
            assert(pre.last() == c);
            assert(out@ =~= escaped_text(pre));
        }
        i = i + 1;
    }
    assert(chars@.subrange(0, chars@.len() as int) =~= chars@);
    out
}

/// A result with captured output streams and an exit code or signal.
pub open spec fn is_shell_result(value: Json) -> bool {
    &&& field(value, "stdout"@) is Some
    &&& field(value, "stderr"@) is Some
    &&& (field(value, "exit_code"@) is Some || field(value, "signal"@) is Some)
}

/// A failed effect envelope: an object `error` that is not a shell result.
pub open spec fn is_error_envelope(value: Json) -> bool {
    field(value, "error"@) matches Some(Json::Object(_)) && !is_shell_result(value)
}

/// `n` limited to the range of a process status.
pub open spec fn clamp_status(n: int) -> int {
    if n < 0 {
        0
    } else if n > 255 {
        255
    } else {
        n
    }
}

/// An integer as `i32::try_from` reads it, or `fallback` outside the range.
pub open spec fn as_i32(n: int, fallback: int) -> int {
    if i32::MIN <= n <= i32::MAX {
        n
    } else {
        fallback
    }
}

/// The process exit status a workflow result implies.
pub open spec fn exit_status(value: Json) -> int {
    match value {
        Json::Object(_) => if is_error_envelope(value) {
            1
        } else if !is_shell_result(value) {
            0
        } else {
            match field(value, "signal"@) {
                Some(Json::Integer(signal)) => clamp_status(128 + as_i32(signal, 0)),
                _ => match field(value, "exit_code"@) {
                    Some(Json::Integer(code)) => clamp_status(as_i32(code, 1)),
                    _ => 0,
                },
            }
        },
        _ => 0,
    }
}

/// The process exit status implied by one workflow result.
///
/// A shell result propagates the child's exit code, or `128 + signal` when the
/// child was terminated. A failed effect envelope exits nonzero; every other
/// shape exits zero so ordinary workflows keep the existing status.
pub fn exit_code(value: &JsonValue) -> (status: i32)
    ensures
        status == exit_status(value.model()),
{
    if !matches!(value, JsonValue::Object(_)) {
        return 0;
    }
    proof {
        reveal_strlit("stdout");
        reveal_strlit("stderr");
        reveal_strlit("exit_code");
        reveal_strlit("signal");
        reveal_strlit("error");
    }
    let shell = field_of(value, "stdout").is_some() && field_of(value, "stderr").is_some() && (
    field_of(value, "exit_code").is_some() || field_of(value, "signal").is_some());
    let envelope = match field_of(value, "error") {
        Some(JsonValue::Object(_)) => !shell,
        _ => false,
    };
    if envelope {
        return 1;
    }
    if !shell {
        return 0;
    }
    if let Some(JsonValue::Integer(signal)) = field_of(value, "signal") {
        let s: i64 = if -2147483648i64 <= *signal && *signal <= 2147483647i64 {
            *signal
        } else {
            0
        };
        return clamp(128 + s);
    }
    match field_of(value, "exit_code") {
        Some(JsonValue::Integer(code)) => {
            let c: i64 = if -2147483648i64 <= *code && *code <= 2147483647i64 {
                *code
            } else {
                1
            };
            clamp(c)
        },
        _ => 0,
    }
}

fn clamp(n: i64) -> (status: i32)
    ensures
        status == clamp_status(n as int),
{
    if n < 0 {
        0
    } else if n > 255 {
        255
    } else {
        n as i32
    }
}

/// Whether text ends with a line feed.
pub open spec fn ends_line(t: Seq<char>) -> bool {
    t.len() > 0 && t.last() == '\n'
}

/// The string under `name`, when the field holds a string.
pub open spec fn string_field(value: Json, name: Seq<char>) -> Option<Seq<char>> {
    match field(value, name) {
        Some(Json::Str(t)) => Some(t),
        _ => None,
    }
}

/// Whether the field under `name` is `true`.
pub open spec fn flag_set(value: Json, name: Seq<char>) -> bool {
    field(value, name) == Some(Json::Bool(true))
}

/// A string field, or the empty text.
pub open spec fn text_or_empty(value: Json, name: Seq<char>) -> Seq<char> {
    match string_field(value, name) {
        Some(t) => t,
        None => Seq::empty(),
    }
}

/// The captured streams of a shell result and the notices after them.
pub open spec fn shell_streams(value: Json, err_on: bool) -> (Seq<char>, Seq<char>) {
    let out = text_or_empty(value, "stdout"@);
    let err = text_or_empty(value, "stderr"@);
    let ended = if err.len() > 0 {
        ends_line(err)
    } else if out.len() > 0 {
        ends_line(out)
    } else {
        true
    };
    let gap = if ended {
        Seq::empty()
    } else {
        seq!['\n']
    };
    (out, err + gap + truncation_text(value, err_on) + status_text(value, err_on))
}

/// The notice that captured output was cut short.
pub open spec fn truncation_text(value: Json, err_on: bool) -> Seq<char> {
    if flag_set(value, "stdout_truncated"@) || flag_set(value, "stderr_truncated"@) {
        painted(err_on, seq!['3', '3'], "koru: output truncated\n"@)
    } else {
        Seq::empty()
    }
}

/// The notice of a signal or a nonzero exit status.
pub open spec fn status_text(value: Json, err_on: bool) -> Seq<char> {
    match field(value, "signal"@) {
        Some(Json::Integer(signal)) => painted(
            err_on,
            seq!['3', '1'],
            "koru: shell terminated by signal "@ + int_text(signal) + seq!['\n'],
        ),
        _ => match field(value, "exit_code"@) {
            Some(Json::Integer(code)) => if code != 0 {
                painted(
                    err_on,
                    seq!['3', '1'],
                    "koru: shell exited with status "@ + int_text(code) + seq!['\n'],
                )
            } else {
                Seq::empty()
            },
            _ => Seq::empty(),
        },
    }
}

/// The diagnostic line of a failed effect envelope.
pub open spec fn error_line(value: Json, err_on: bool) -> Seq<char> {
    let entries = match field(value, "error"@) {
        Some(Json::Object(entries)) => entries,
        _ => Seq::empty(),
    };
    let code = match lookup(entries, "code"@) {
        Some(Json::Str(code)) => code,
        _ => "error"@,
    };
    let message = match lookup(entries, "message"@) {
        Some(Json::Str(message)) => message,
        _ => "the workflow could not complete the requested action"@,
    };
    painted(err_on, seq!['3', '1'], "koru ["@ + code + "]: "@ + escaped_text(message) + seq!['\n'])
}

/// A commit plan result: a `status` and `groups`.
pub open spec fn is_commit_plan(value: Json) -> bool {
    field(value, "status"@) is Some && field(value, "groups"@) is Some
}

/// The strings among change identities.
pub open spec fn string_ids(ids: Seq<Json>) -> Seq<Seq<char>>
    decreases ids.len(),
{
    if ids.len() == 0 {
        Seq::empty()
    } else {
        let head = string_ids(ids.drop_last());
        match ids.last() {
            Json::Str(t) => head.push(t),
            _ => head,
        }
    }
}

/// Texts joined with `, `.
pub open spec fn comma_joined(texts: Seq<Seq<char>>) -> Seq<char>
    decreases texts.len(),
{
    if texts.len() == 0 {
        Seq::empty()
    } else if texts.len() == 1 {
        texts[0]
    } else {
        comma_joined(texts.drop_last()) + seq![',', ' '] + texts.last()
    }
}

/// The summary lines of one commit group, numbered `number`.
pub open spec fn group_text(group: Json, number: nat, on: bool) -> Seq<char> {
    match group {
        Json::Object(_) => {
            let message = match string_field(group, "message"@) {
                Some(m) => m,
                None => "(no message)"@,
            };
            let changes = match field(group, "changes"@) {
                Some(Json::Array(ids)) => "     changes: "@ + comma_joined(string_ids(ids)) + seq![
                    '\n',
                ],
                _ => Seq::empty(),
            };
            let rationale = match string_field(group, "rationale"@) {
                Some(r) => if r.len() > 0 {
                    "     rationale: "@ + escaped_text(r) + seq!['\n']
                } else {
                    Seq::empty()
                },
                None => Seq::empty(),
            };
            seq![' ', ' '] + nat_text(number) + seq!['.', ' '] + painted(on, seq!['1'], message)
                + seq!['\n'] + changes + rationale
        },
        _ => Seq::empty(),
    }
}

/// The lines of the commit groups, numbered from one.
pub open spec fn groups_text(groups: Seq<Json>, on: bool) -> Seq<char>
    decreases groups.len(),
{
    if groups.len() == 0 {
        Seq::empty()
    } else {
        groups_text(groups.drop_last(), on) + group_text(groups.last(), groups.len(), on)
    }
}

/// An optional `  label: value` line.
pub open spec fn labelled_line(value: Json, name: Seq<char>, label: Seq<char>) -> Seq<char> {
    match string_field(value, name) {
        Some(t) => label + t + seq!['\n'],
        None => Seq::empty(),
    }
}

/// The status, change count, snapshot and plan lines of a commit plan.
pub open spec fn commit_head(value: Json, on: bool) -> Seq<char> {
    let status = match string_field(value, "status"@) {
        Some(s) => s,
        None => "unknown"@,
    };
    let changes = match field(value, "change_count"@) {
        Some(Json::Integer(n)) => int_text(n),
        _ => seq!['?'],
    };
    painted(on, seq!['1'], "commit plan:"@) + seq![' '] + status + seq!['\n'] + "  changes: "@
        + changes + seq!['\n'] + labelled_line(value, "snapshot_id"@, "  snapshot: "@)
        + labelled_line(value, "plan_id"@, "  plan: "@)
}

/// The summary of a commit plan result.
pub open spec fn commit_text(value: Json, on: bool) -> Seq<char> {
    commit_head(value, on) + match field(value, "groups"@) {
        Some(Json::Array(groups)) => groups_text(groups, on),
        _ => Seq::empty(),
    }
}

/// Indented, coloured JSON for results of no known shape.
pub open spec fn json_text(value: Json, ind: Seq<char>, on: bool) -> Seq<char>
    decreases value, 0nat,
{
    match value {
        Json::Object(entries) => if entries.len() > 0 {
            seq!['{', '\n'] + entries_text(entries, ind + seq![' ', ' '], on) + seq!['\n'] + ind
                + seq!['}']
        } else {
            emit_json(value)
        },
        Json::Array(items) => if items.len() > 0 {
            seq!['[', '\n'] + items_text(items, ind + seq![' ', ' '], on) + seq!['\n'] + ind
                + seq![']']
        } else {
            emit_json(value)
        },
        Json::Str(_) => painted(on, seq!['3', '2'], emit_json(value)),
        Json::Integer(_) => painted(on, seq!['3', '3'], emit_json(value)),
        Json::Number(_) => painted(on, seq!['3', '3'], emit_json(value)),
        _ => painted(on, seq!['2'], emit_json(value)),
    }
}

/// The entries of an indented object, separated by `,` and line feeds.
pub open spec fn entries_text(entries: Seq<(Seq<char>, Json)>, ind: Seq<char>, on: bool) -> Seq<char>
    decreases entries, 1nat,
{
    if entries.len() == 0 {
        Seq::empty()
    } else {
        let sep = if entries.len() > 1 {
            seq![',', '\n']
        } else {
            Seq::empty()
        };
        entries_text(entries.drop_last(), ind, on) + sep + ind + painted(
            on,
            seq!['3', '6'],
            string_text(entries.last().0),
        ) + seq![':', ' '] + json_text(entries.last().1, ind, on)
    }
}

/// The items of an indented array, separated by `,` and line feeds.
pub open spec fn items_text(items: Seq<Json>, ind: Seq<char>, on: bool) -> Seq<char>
    decreases items, 1nat,
{
    if items.len() == 0 {
        Seq::empty()
    } else {
        let sep = if items.len() > 1 {
            seq![',', '\n']
        } else {
            Seq::empty()
        };
        items_text(items.drop_last(), ind, on) + sep + ind + json_text(items.last(), ind, on)
    }
}

/// What a workflow result prints: its standard output and standard error text.
pub open spec fn rendered(value: Json, out_on: bool, err_on: bool) -> (Seq<char>, Seq<char>) {
    match value {
        Json::Null => (Seq::empty(), Seq::empty()),
        Json::Str(t) => {
            let e = escaped_text(t);
            (
                e + if ends_line(e) {
                    Seq::empty()
                } else {
                    seq!['\n']
                },
                Seq::empty(),
            )
        },
        Json::Object(_) => if is_shell_result(value) {
            shell_streams(value, err_on)
        } else if is_error_envelope(value) {
            (Seq::empty(), error_line(value, err_on))
        } else if is_commit_plan(value) {
            (commit_text(value, out_on), Seq::empty())
        } else {
            (json_text(value, Seq::empty(), out_on), Seq::empty())
        },
        _ => (json_text(value, Seq::empty(), out_on), Seq::empty()),
    }
}

fn text_field<'a>(value: &'a JsonValue, name: &str) -> (found: Option<&'a str>)
    ensures
        match string_field(value.model(), name@) {
            Some(t) => found matches Some(s) && s@ == t,
            None => found is None,
        },
{
    match field_of(value, name) {
        Some(JsonValue::String(t)) => Some(t.as_str()),
        _ => None,
    }
}

fn flag(value: &JsonValue, name: &str) -> (set: bool)
    ensures
        set == flag_set(value.model(), name@),
{
    match field_of(value, name) {
        Some(JsonValue::Bool(b)) => *b,
        _ => false,
    }
}

fn integer_field(value: &JsonValue, name: &str) -> (found: Option<i64>)
    ensures
        match field(value.model(), name@) {
            Some(Json::Integer(n)) => found matches Some(x) && x as int == n,
            _ => found is None,
        },
{
    match field_of(value, name) {
        Some(JsonValue::Integer(n)) => Some(*n),
        _ => None,
    }
}

/// Whether a text is non-empty, and whether it then ends with a line feed.
fn line_end(text: &str) -> (end: Option<bool>)
    ensures
        end == if text@.len() > 0 {
            Some(ends_line(text@))
        } else {
            None::<bool>
        },
{
    let chars = chars_of(text);
    if chars.len() == 0 {
        None
    } else {
        Some(chars[chars.len() - 1] == '\n')
    }
}

fn truncation_notice(value: &JsonValue, err_style: Style) -> (notice: String)
    ensures
        notice@ == truncation_text(value.model(), err_style.spec_enabled()),
{
    proof {
        reveal_strlit("stdout_truncated");
        reveal_strlit("stderr_truncated");
    }
    if flag(value, "stdout_truncated") || flag(value, "stderr_truncated") {
        err_style.yellow("koru: output truncated\n")
    } else {
        String::new()
    }
}

fn status_notice(value: &JsonValue, err_style: Style) -> (notice: String)
    ensures
        notice@ == status_text(value.model(), err_style.spec_enabled()),
{
    proof {
        reveal_strlit("signal");
        reveal_strlit("exit_code");
    }
    let mut line = String::new();
    match integer_field(value, "signal") {
        Some(signal) => {
            push_str(&mut line, "koru: shell terminated by signal ");
            write_integer(signal, &mut line);
            push_char(&mut line, '\n');
            err_style.red(line.as_str())
        },
        None => match integer_field(value, "exit_code") {
            Some(code) => if code != 0 {
                push_str(&mut line, "koru: shell exited with status ");
                write_integer(code, &mut line);
                push_char(&mut line, '\n');
                err_style.red(line.as_str())
            } else {
                String::new()
            },
            None => String::new(),
        },
    }
}

fn shell_output(value: &JsonValue, err_style: Style) -> (streams: (String, String))
    ensures
        streams.0@ == shell_streams(value.model(), err_style.spec_enabled()).0,
        streams.1@ == shell_streams(value.model(), err_style.spec_enabled()).1,
{
    proof {
        reveal_strlit("stdout");
        reveal_strlit("stderr");
        reveal_strlit("stdout_truncated");
        reveal_strlit("stderr_truncated");
        reveal_strlit("signal");
        reveal_strlit("exit_code");
    }
    let ghost on = err_style.spec_enabled();
    let mut out = String::new();
    let mut err = String::new();
    let mut ended = true;
    if let Some(t) = text_field(value, "stdout") {
        push_str(&mut out, t);
        if let Some(e) = line_end(t) {
            ended = e;
        }
    }
    if let Some(t) = text_field(value, "stderr") {
        push_str(&mut err, t);
        if let Some(e) = line_end(t) {
            ended = e;
        }
    }
    assert(out@ == shell_streams(value.model(), on).0);
    let ghost streamed = err@;
    if !ended {
        push_char(&mut err, '\n');
    }
    let ghost gapped = err@;
    let notice = truncation_notice(value, err_style);
    push_str(&mut err, notice.as_str());
    let ghost noticed = err@;
    let status = status_notice(value, err_style);
    push_str(&mut err, status.as_str());
    proof {
        let v = value.model();
        let err0 = text_or_empty(v, "stderr"@);
        assert(streamed == err0);
        let out0 = text_or_empty(v, "stdout"@);
        let spec_ended = if err0.len() > 0 {
            ends_line(err0)
        } else if out0.len() > 0 {
            ends_line(out0)
        } else {
            true
        };
        assert(ended == spec_ended);
        let gap = if ended { Seq::<char>::empty() } else { seq!['\n'] };
        assert(gapped =~= err0 + gap);
        assert(noticed =~= gapped + truncation_text(v, on));
        assert(err@ =~= noticed + status_text(v, on));
        assert(err@ =~= shell_streams(v, on).1);
    }
    (out, err)
}

fn error_output(value: &JsonValue, err_style: Style) -> (line: String)
    requires
        field(value.model(), "error"@) matches Some(Json::Object(_)),
    ensures
        line@ == error_line(value.model(), err_style.spec_enabled()),
{
    proof {
        reveal_strlit("error");
        reveal_strlit("code");
        reveal_strlit("message");
    }
    let error = match field_of(value, "error") {
        Some(e) => e,
        None => {
            return String::new();
        },
    };
    let code = match text_field(error, "code") {
        Some(c) => c,
        None => "error",
    };
    let message = match text_field(error, "message") {
        Some(m) => m,
        None => "the workflow could not complete the requested action",
    };
    let mut text = String::new();
    push_str(&mut text, "koru [");
    push_str(&mut text, code);
    push_str(&mut text, "]: ");
    let escaped = escape_text(message);
    push_str(&mut text, escaped.as_str());
    push_char(&mut text, '\n');
    err_style.red(text.as_str())
}

fn joined_ids(ids: &Vec<JsonValue>) -> (text: String)
    ensures
        text@ == comma_joined(string_ids(models(ids@))),
{
    let ghost ms = models(ids@);
    let mut text = String::new();
    let mut first = true;
    let mut i: usize = 0;
    while i < ids.len()
        invariant
            i <= ids@.len(),
            ms == models(ids@),
            text@ == comma_joined(string_ids(ms.subrange(0, i as int))),
            first == (string_ids(ms.subrange(0, i as int)).len() == 0),
        decreases ids@.len() - i,
    {
        let ghost before = ms.subrange(0, i as int);
        let ghost after = ms.subrange(0, i + 1);
        assert(after.drop_last() =~= before);
        assert(after.last() == ids@[i as int].model());
        if let JsonValue::String(t) = &ids[i] {
            if !first {
                push_str(&mut text, ", ");
                proof {
                    reveal_strlit(", ");
                }
            }
            push_str(&mut text, t.as_str());
            first = false;
            proof {
                let l = string_ids(before);
                assert(string_ids(after) == l.push(t@));
                assert(l.push(t@).drop_last() =~= l);
                if l.len() == 0 {
                    assert(comma_joined(l.push(t@)) == l.push(t@)[0]);
                }
                assert(text@ =~= comma_joined(string_ids(after)));
            }
        }
        i = i + 1;
    }
    assert(ms.subrange(0, ms.len() as int) =~= ms);
    text
}

fn group_line(group: &JsonValue, number: u64, style: Style) -> (text: String)
    ensures
        text@ == group_text(group.model(), number as nat, style.spec_enabled()),
{
    proof {
        reveal_strlit("message");
        reveal_strlit("changes");
        reveal_strlit("rationale");
        reveal_strlit("(no message)");
        reveal_strlit("     changes: ");
        reveal_strlit("     rationale: ");
    }
    if !matches!(group, JsonValue::Object(_)) {
        return String::new();
    }
    let message = match text_field(group, "message") {
        Some(m) => m,
        None => "(no message)",
    };
    let mut text = String::new();
    push_str(&mut text, "  ");
    push_decimal(number, &mut text);
    push_str(&mut text, ". ");
    let bold = style.bold(message);
    push_str(&mut text, bold.as_str());
    push_char(&mut text, '\n');
    let ghost head = text@;
    if let Some(JsonValue::Array(ids)) = field_of(group, "changes") {
        proof {
            crate::json::parse::lemma_array_model(*ids);
        }
        push_str(&mut text, "     changes: ");
        let joined = joined_ids(ids);
        push_str(&mut text, joined.as_str());
        push_char(&mut text, '\n');
    }
    let ghost middle = text@;
    if let Some(r) = text_field(group, "rationale") {
        if line_end(r).is_some() {
            push_str(&mut text, "     rationale: ");
            let escaped = escape_text(r);
            push_str(&mut text, escaped.as_str());
            push_char(&mut text, '\n');
        }
    }
    proof {
        reveal_strlit("  ");
        reveal_strlit(". ");
        assert(head =~= seq![' ', ' '] + nat_text(number as nat) + seq!['.', ' '] + painted(
            style.spec_enabled(),
            seq!['1'],
            message@,
        ) + seq!['\n']);
    }
    assert(text@ =~= group_text(group.model(), number as nat, style.spec_enabled()));
    text
}

fn commit_head_text(value: &JsonValue, style: Style) -> (text: String)
    ensures
        text@ == commit_head(value.model(), style.spec_enabled()),
{
    proof {
        reveal_strlit("status");
        reveal_strlit("unknown");
        reveal_strlit("change_count");
        reveal_strlit("snapshot_id");
        reveal_strlit("plan_id");
        reveal_strlit("commit plan:");
        reveal_strlit("  changes: ");
        reveal_strlit("  snapshot: ");
        reveal_strlit("  plan: ");
    }
    let status = match text_field(value, "status") {
        Some(s) => s,
        None => "unknown",
    };
    let mut text = style.bold("commit plan:");
    push_char(&mut text, ' ');
    push_str(&mut text, status);
    push_char(&mut text, '\n');
    push_str(&mut text, "  changes: ");
    match integer_field(value, "change_count") {
        Some(n) => write_integer(n, &mut text),
        None => push_char(&mut text, '?'),
    }
    push_char(&mut text, '\n');
    let snapshot = labelled(value, "snapshot_id", "  snapshot: ");
    push_str(&mut text, snapshot.as_str());
    let plan = labelled(value, "plan_id", "  plan: ");
    push_str(&mut text, plan.as_str());
    text
}

fn labelled(value: &JsonValue, name: &str, label: &str) -> (line: String)
    ensures
        line@ == labelled_line(value.model(), name@, label@),
{
    let mut line = String::new();
    if let Some(t) = text_field(value, name) {
        push_str(&mut line, label);
        push_str(&mut line, t);
        push_char(&mut line, '\n');
    }
    line
}

fn groups_lines(groups: &Vec<JsonValue>, style: Style) -> (text: String)
    ensures
        text@ == groups_text(models(groups@), style.spec_enabled()),
{
    let ghost on = style.spec_enabled();
    let ghost ms = models(groups@);
    let mut text = String::new();
    let mut i: usize = 0;
    while i < groups.len()
        invariant
            i <= groups@.len(),
            ms == models(groups@),
            text@ == groups_text(ms.subrange(0, i as int), on),
            on == style.spec_enabled(),
        decreases groups@.len() - i,
    {
        let line = group_line(&groups[i], (i + 1) as u64, style);
        push_str(&mut text, line.as_str());
        proof {
            let after = ms.subrange(0, i + 1);
            assert(after.drop_last() =~= ms.subrange(0, i as int));
            assert(after.last() == groups@[i as int].model());
            assert(text@ =~= groups_text(after, on));
        }
        i = i + 1;
    }
    assert(ms.subrange(0, ms.len() as int) =~= ms);
    text
}

fn commit_output(value: &JsonValue, style: Style) -> (text: String)
    ensures
        text@ == commit_text(value.model(), style.spec_enabled()),
{
    proof {
        reveal_strlit("groups");
    }
    let mut text = commit_head_text(value, style);
    if let Some(JsonValue::Array(groups)) = field_of(value, "groups") {
        proof {
            crate::json::parse::lemma_array_model(*groups);
        }
        let lines = groups_lines(groups, style);
        push_str(&mut text, lines.as_str());
    }
    text
}

fn write_json(value: &JsonValue, ind: &str, style: Style, out: &mut String)
    ensures
        final(out)@ == old(out)@ + json_text(value.model(), ind@, style.spec_enabled()),
    decreases value,
{
    let ghost on = style.spec_enabled();
    match value {
        JsonValue::Object(entries) => {
            proof {
                crate::json::parse::lemma_object_model(*entries);
            }
            if entries.len() == 0 {
                let text = crate::json::emit(value);
                push_str(out, text.as_str());
                return;
            }
            let ghost ms = entry_models(entries@);
            let mut child = ind.to_owned();
            push_str(&mut child, "  ");
            proof {
                reveal_strlit("  ");
            }
            push_char(out, '{');
            push_char(out, '\n');
            let ghost start = out@;
            let mut i: usize = 0;
            while i < entries.len()
                invariant
                    value is Object,
                    *entries == value->Object_0,
                    i <= entries@.len(),
                    ms == entry_models(entries@),
                    child@ == ind@ + seq![' ', ' '],
                    on == style.spec_enabled(),
                    out@ == start + entries_text(ms.subrange(0, i as int), child@, on),
                decreases entries@.len() - i,
            {
                let ghost mid = out@;
                if i > 0 {
                    push_char(out, ',');
                    push_char(out, '\n');
                }
                let ghost sep = out@;
                let (key, item) = &entries[i];
                push_str(out, child.as_str());
                let key_value = JsonValue::String(key.clone());
                let key_text = crate::json::emit(&key_value);
                let painted_key = style.cyan(key_text.as_str());
                push_str(out, painted_key.as_str());
                push_char(out, ':');
                push_char(out, ' ');
                let ghost before_item = out@;
                proof {
                    assert(decreases_to!(*value => value->Object_0));
                    assert(decreases_to!(value->Object_0 => entries@));
                    assert(decreases_to!(entries@ => entries@[i as int]));
                    assert(decreases_to!(entries@[i as int] => entries@[i as int].1));
                }
                write_json(item, child.as_str(), style, out);
                proof {
                    let next = ms.subrange(0, i + 1);
                    assert(next.drop_last() =~= ms.subrange(0, i as int));
                    assert(next.last() == (key@, item.model()));
                    let sep_text = if i > 0 { seq![',', '\n'] } else { Seq::<char>::empty() };
                    assert(sep =~= mid + sep_text);
                    assert(before_item =~= sep + child@ + painted(on, seq!['3', '6'], string_text(key@))
                        + seq![':', ' ']);
                    assert(out@ =~= start + entries_text(next, child@, on));
                }
                i = i + 1;
            }
            push_char(out, '\n');
            push_str(out, ind);
            push_char(out, '}');
            proof {
                assert(ms.subrange(0, ms.len() as int) =~= ms);
                assert(value.model() == Json::Object(ms));
                assert(final(out)@ =~= old(out)@ + json_text(value.model(), ind@, on));
            }
        },
        JsonValue::Array(items) => {
            proof {
                crate::json::parse::lemma_array_model(*items);
            }
            if items.len() == 0 {
                let text = crate::json::emit(value);
                push_str(out, text.as_str());
                return;
            }
            let ghost ms = models(items@);
            let mut child = ind.to_owned();
            push_str(&mut child, "  ");
            proof {
                reveal_strlit("  ");
            }
            push_char(out, '[');
            push_char(out, '\n');
            let ghost start = out@;
            let mut i: usize = 0;
            while i < items.len()
                invariant
                    value is Array,
                    *items == value->Array_0,
                    i <= items@.len(),
                    ms == models(items@),
                    child@ == ind@ + seq![' ', ' '],
                    on == style.spec_enabled(),
                    out@ == start + items_text(ms.subrange(0, i as int), child@, on),
                decreases items@.len() - i,
            {
                let ghost mid = out@;
                if i > 0 {
                    push_char(out, ',');
                    push_char(out, '\n');
                }
                let ghost sep = out@;
                push_str(out, child.as_str());
                let ghost before_item = out@;
                proof {
                    assert(decreases_to!(*value => value->Array_0));
                    assert(decreases_to!(value->Array_0 => items@));
                    assert(decreases_to!(items@ => items@[i as int]));
                }
                write_json(&items[i], child.as_str(), style, out);
                proof {
                    let next = ms.subrange(0, i + 1);
                    assert(next.drop_last() =~= ms.subrange(0, i as int));
                    assert(next.last() == items@[i as int].model());
                    let sep_text = if i > 0 { seq![',', '\n'] } else { Seq::<char>::empty() };
                    assert(sep =~= mid + sep_text);
                    assert(out@ =~= start + items_text(next, child@, on));
                }
                i = i + 1;
            }
            push_char(out, '\n');
            push_str(out, ind);
            push_char(out, ']');
            proof {
                assert(ms.subrange(0, ms.len() as int) =~= ms);
                assert(value.model() == Json::Array(ms));
                assert(final(out)@ =~= old(out)@ + json_text(value.model(), ind@, on));
            }
        },
        JsonValue::String(_) => {
            let text = crate::json::emit(value);
            let colored = style.green(text.as_str());
            push_str(out, colored.as_str());
        },
        JsonValue::Integer(_) | JsonValue::Number(_) => {
            let text = crate::json::emit(value);
            let colored = style.yellow(text.as_str());
            push_str(out, colored.as_str());
        },
        JsonValue::Bool(_) | JsonValue::Null => {
            let text = crate::json::emit(value);
            let colored = style.dim(text.as_str());
            push_str(out, colored.as_str());
        },
    }
}

/// The standard output and standard error text of one workflow result.
///
/// Shell results stream their captured output, failed effect envelopes and
/// commit plans are summarised, and any other shape is shown as indented JSON.
pub fn render(value: &JsonValue, out_style: Style, err_style: Style) -> (streams: (String, String))
    ensures
        streams.0@ == rendered(value.model(), out_style.spec_enabled(), err_style.spec_enabled()).0,
        streams.1@ == rendered(value.model(), out_style.spec_enabled(), err_style.spec_enabled()).1,
{
    proof {
        reveal_strlit("stdout");
        reveal_strlit("stderr");
        reveal_strlit("exit_code");
        reveal_strlit("signal");
        reveal_strlit("error");
        reveal_strlit("status");
        reveal_strlit("groups");
    }
    match value {
        JsonValue::Null => (String::new(), String::new()),
        JsonValue::String(text) => {
            let mut out = escape_text(text.as_str());
            if line_end(out.as_str()) != Some(true) {
                push_char(&mut out, '\n');
            }
            (out, String::new())
        },
        JsonValue::Object(_) => {
            let shell = field_of(value, "stdout").is_some() && field_of(value, "stderr").is_some() && (
            field_of(value, "exit_code").is_some() || field_of(value, "signal").is_some());
            let envelope = match field_of(value, "error") {
                Some(JsonValue::Object(_)) => !shell,
                _ => false,
            };
            if shell {
                shell_output(value, err_style)
            } else if envelope {
                (String::new(), error_output(value, err_style))
            } else if field_of(value, "status").is_some() && field_of(value, "groups").is_some() {
                (commit_output(value, out_style), String::new())
            } else {
                let mut out = String::new();
                write_json(value, "", out_style, &mut out);
                proof {
                    reveal_strlit("");
                }
                (out, String::new())
            }
        },
        _ => {
            let mut out = String::new();
            write_json(value, "", out_style, &mut out);
            proof {
                reveal_strlit("");
            }
            (out, String::new())
        },
    }
}


/// A commit plan result is shown with its identities on labelled lines: the
/// line after `  snapshot: ` carries the result's `snapshot_id` and the line
/// after `  plan: ` its `plan_id`, the snapshot line first.
pub proof fn commit_plan_shows_its_identities(
    value: Json,
    snapshot: Seq<char>,
    plan: Seq<char>,
    out_on: bool,
    err_on: bool,
)
    requires
        value is Object,
        field(value, "status"@) is Some,
        field(value, "groups"@) is Some,
        field(value, "stdout"@) is None,
        field(value, "error"@) is None,
        field(value, "snapshot_id"@) == Some(Json::Str(snapshot)),
        field(value, "plan_id"@) == Some(Json::Str(plan)),
    ensures
        exists|before: Seq<char>, after: Seq<char>|
            rendered(value, out_on, err_on).0 == before + "  snapshot: "@ + snapshot + seq!['\n']
                + "  plan: "@ + plan + seq!['\n'] + after,
        rendered(value, out_on, err_on).1 == Seq::<char>::empty(),
{
    let status = match string_field(value, "status"@) {
        Some(s) => s,
        None => "unknown"@,
    };
    let changes = match field(value, "change_count"@) {
        Some(Json::Integer(n)) => int_text(n),
        _ => seq!['?'],
    };
    let before = painted(out_on, seq!['1'], "commit plan:"@) + seq![' '] + status + seq!['\n']
        + "  changes: "@ + changes + seq!['\n'];
    let after = match field(value, "groups"@) {
        Some(Json::Array(groups)) => groups_text(groups, out_on),
        _ => Seq::empty(),
    };
    assert(!is_shell_result(value));
    assert(!is_error_envelope(value));
    assert(is_commit_plan(value));
    assert(rendered(value, out_on, err_on).0 =~= before + "  snapshot: "@ + snapshot + seq!['\n']
        + "  plan: "@ + plan + seq!['\n'] + after);
}

/// Without styling, a commit plan result opens with its status, its change
/// count and its identities, one labelled line each and in that order,
/// followed by its groups.
pub proof fn plain_commit_plan_opens_with_its_fields(
    value: Json,
    status: Seq<char>,
    count: int,
    snapshot: Seq<char>,
    plan: Seq<char>,
    err_on: bool,
)
    requires
        value is Object,
        field(value, "status"@) == Some(Json::Str(status)),
        field(value, "change_count"@) == Some(Json::Integer(count)),
        field(value, "groups"@) is Some,
        field(value, "stdout"@) is None,
        field(value, "error"@) is None,
        field(value, "snapshot_id"@) == Some(Json::Str(snapshot)),
        field(value, "plan_id"@) == Some(Json::Str(plan)),
    ensures
        exists|after: Seq<char>|
            rendered(value, false, err_on).0 == "commit plan:"@ + seq![' '] + status + seq!['\n']
                + "  changes: "@ + int_text(count) + seq!['\n'] + "  snapshot: "@ + snapshot
                + seq!['\n'] + "  plan: "@ + plan + seq!['\n'] + after,
{
    let after = match field(value, "groups"@) {
        Some(Json::Array(groups)) => groups_text(groups, false),
        _ => Seq::empty(),
    };
    assert(!is_shell_result(value));
    assert(!is_error_envelope(value));
    assert(is_commit_plan(value));
    assert(rendered(value, false, err_on).0 =~= "commit plan:"@ + seq![' '] + status + seq!['\n']
        + "  changes: "@ + int_text(count) + seq!['\n'] + "  snapshot: "@ + snapshot + seq!['\n']
        + "  plan: "@ + plan + seq!['\n'] + after);
}

/// A failed effect envelope prints nothing on standard output, reports its
/// error code and message on one standard-error line, and exits with status 1.
pub proof fn error_envelopes_report_on_stderr(
    value: Json,
    error: Seq<(Seq<char>, Json)>,
    code: Seq<char>,
    message: Seq<char>,
    out_on: bool,
)
    requires
        value is Object,
        field(value, "error"@) == Some(Json::Object(error)),
        lookup(error, "code"@) == Some(Json::Str(code)),
        lookup(error, "message"@) == Some(Json::Str(message)),
        field(value, "stdout"@) is None,
    ensures
        rendered(value, out_on, false).0 == Seq::<char>::empty(),
        rendered(value, out_on, false).1 == "koru ["@ + code + "]: "@ + escaped_text(message)
            + seq!['\n'],
        exit_status(value) == 1,
{
    assert(!is_shell_result(value));
    assert(is_error_envelope(value));
}

/// A shell result exits with the child's status when it lies in `0..=255`,
/// or with `128 + signal` when the child was terminated by a signal in
/// `1..=127`; the signal takes precedence over the exit code.
pub proof fn shell_results_carry_the_child_status(value: Json, signal: int, code: int)
    requires
        value is Object,
        is_shell_result(value),
    ensures
        field(value, "signal"@) == Some(Json::Integer(signal)) && 1 <= signal <= 127
            ==> exit_status(value) == 128 + signal,
        field(value, "signal"@) is None && field(value, "exit_code"@) == Some(Json::Integer(code))
            && 0 <= code <= 255 ==> exit_status(value) == code,
{
}

} // verus!
