//! Approval answers and task lines.
//!
//! Reading the terminal belongs to the application; what an answer means and
//! which task lines are accepted is decided here.
use crate::config::{is_space, lead, trim};
use crate::error::{ErrorCode, KoruError};
use crate::json::parse::byte_len;
use crate::permissions::Decision;
use crate::text::{chars_of, string_from_chars};
use vstd::prelude::*;

verus! {

broadcast use vstd::string::group_string_axioms;

/// Longest accepted task line, in bytes.
pub const MAX_TASK_BYTES: usize = 8192;

/// The ASCII lowercase form of a character.
pub open spec fn ascii_lower(c: char) -> char {
    if 'A' <= c && c <= 'Z' {
        ((c as u32) + 32) as char
    } else {
        c
    }
}

/// Equal ignoring ASCII case.
pub open spec fn eq_ignore_ascii_case(a: Seq<char>, b: Seq<char>) -> bool {
    a.len() == b.len() && forall|k: int| 0 <= k < a.len() ==> ascii_lower(#[trigger] a[k]) == ascii_lower(b[k])
}

/// The decision an answer line expresses: approval only for `y` or `yes` in any
/// case, surrounded by any white space.
pub open spec fn answer_decision(answer: Seq<char>) -> Decision {
    let t = trim(answer);
    if eq_ignore_ascii_case(t, seq!['y']) || eq_ignore_ascii_case(t, seq!['y', 'e', 's']) {
        Decision::ApproveOnce
    } else {
        Decision::Deny
    }
}

fn lower_exec(c: char) -> (l: char)
    ensures
        l == ascii_lower(c),
{
    if 'A' <= c && c <= 'Z' {
        let code = (c as u32) + 32;
        match crate::json::parse::char_from_u32(code) {
            Some(l) => {
                proof {
                    vstd::utf8::char_u32_cast(l, code);
                }
                l
            },
            None => c,
        }
    } else {
        c
    }
}

fn same_ignoring_case(a: &Vec<char>, b: &[char]) -> (same: bool)
    ensures
        same == eq_ignore_ascii_case(a@, b@),
{
    if a.len() != b.len() {
        return false;
    }
    let mut i: usize = 0;
    while i < a.len()
        invariant
            i <= a@.len(),
            a@.len() == b@.len(),
            forall|k: int| 0 <= k < i ==> ascii_lower(#[trigger] a@[k]) == ascii_lower(b@[k]),
        decreases a@.len() - i,
    {
        if lower_exec(a[i]) != lower_exec(b[i]) {
            return false;
        }
        i = i + 1;
    }
    true
}

/// The decision an answer line expresses.
pub fn parse_answer(answer: &str) -> (decision: Decision)
    ensures
        decision == answer_decision(answer@),
{
    let t = crate::config::trimmed_text(answer);
    let y: [char; 1] = ['y'];
    let yes: [char; 3] = ['y', 'e', 's'];
    assert(y@ =~= seq!['y']);
    assert(yes@ =~= seq!['y', 'e', 's']);
    if same_ignoring_case(&t, &y) || same_ignoring_case(&t, &yes) {
        Decision::ApproveOnce
    } else {
        Decision::Deny
    }
}

/// `line` without trailing `\n` and `\r` characters.
pub open spec fn strip_line_end(line: Seq<char>) -> Seq<char>
    decreases line.len(),
{
    if line.len() > 0 && (line.last() == '\n' || line.last() == '\r') {
        strip_line_end(line.drop_last())
    } else {
        line
    }
}

/// Check one task line as read: its line ending is removed, and it must be at
/// most [`MAX_TASK_BYTES`] bytes and not blank.
pub fn check_task(line: &str) -> (result: Result<String, KoruError>)
    ensures
        ({
            let task = strip_line_end(line@);
            if byte_len(task) > MAX_TASK_BYTES {
                result matches Err(e) && e.spec_code() == ErrorCode::BudgetExhausted
            } else if trim(task).len() == 0 {
                result matches Err(e) && e.spec_code() == ErrorCode::Validation
            } else {
                result matches Ok(t) && t@ == task
            }
        }),
{
    let chars = chars_of(line);
    let mut end = chars.len();
    assert(chars@.subrange(0, chars@.len() as int) =~= chars@);
    while end > 0 && (chars[end - 1] == '\n' || chars[end - 1] == '\r')
        invariant
            end <= chars@.len(),
            strip_line_end(chars@) == strip_line_end(chars@.subrange(0, end as int)),
        decreases end,
    {
        proof {
            assert(chars@.subrange(0, end as int).drop_last() =~= chars@.subrange(0, end - 1));
        }
        end = end - 1;
    }
    let task = string_from_chars(&chars.as_slice()[0..end]);
    assert(task@ =~= chars@.subrange(0, end as int));
    if !crate::text::fits_bytes(task.as_str(), MAX_TASK_BYTES) {
        return Err(KoruError::new(ErrorCode::BudgetExhausted, "shell task exceeds the 8192-byte limit"));
    }
    let trimmed = crate::config::trimmed_text(task.as_str());
    if trimmed.len() == 0 {
        return Err(KoruError::new(ErrorCode::Validation, "shell task must not be empty"));
    }
    Ok(task)
}

} // verus!
