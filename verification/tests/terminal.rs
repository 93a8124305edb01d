use koru::permissions::Decision;
use koru::terminal::input::{check_task, parse_answer};
use koru::terminal::render::{escape_text, exit_code, render};
use koru::terminal::style::Style;
use koru::error::ErrorCode;
use koru::json::parse;
use koru::json::JsonLimits;

#[test]
fn only_yes_answers_approve() {
    assert!(matches!(parse_answer("y\n"), Decision::ApproveOnce));
    assert!(matches!(parse_answer("YES\n"), Decision::ApproveOnce));
    assert!(matches!(parse_answer("n\n"), Decision::Deny));
    assert!(matches!(parse_answer(""), Decision::Deny));
}

#[test]
fn control_characters_are_escaped() {
    assert_eq!(escape_text("a\u{1b}[31mb"), "a\\u{1b}[31mb");
}

#[test]
fn answers_with_surrounding_space_and_mixed_case() {
    assert!(matches!(parse_answer("  Yes \r\n"), Decision::ApproveOnce));
    assert!(matches!(parse_answer("yess"), Decision::Deny));
    assert!(matches!(parse_answer("y e s"), Decision::Deny));
}

#[test]
fn escaping_keeps_line_breaks_and_tabs() {
    assert_eq!(escape_text("a\nb\tc"), "a\nb\tc");
    assert_eq!(escape_text("x\ry"), "x\\ry");
    assert_eq!(escape_text("\u{0}\u{7f}\u{9f}"), "\\u{0}\\u{7f}\\u{9f}");
}

#[test]
fn task_lines_are_trimmed_bounded_and_non_blank() {
    assert_eq!(check_task("list files\n").unwrap(), "list files");
    assert_eq!(check_task("list files\r\n").unwrap(), "list files");
    let long = format!("{}\n", "x".repeat(8193));
    assert_eq!(check_task(&long).unwrap_err().code(), ErrorCode::BudgetExhausted);
    assert_eq!(check_task("   \n").unwrap_err().code(), ErrorCode::Validation);
}

#[test]
fn plain_style_emits_no_escape_codes() {
    let plain = Style::plain();
    assert!(!plain.enabled());
    assert_eq!(plain.bold("x"), "x");
    let on = Style::detect(true, false, false);
    assert_eq!(on.red("x"), "\u{1b}[31mx\u{1b}[0m");
    assert_eq!(on.cyan(">"), "\u{1b}[36m>\u{1b}[0m");
    assert!(!Style::detect(true, true, false).enabled());
    assert!(!Style::detect(true, false, true).enabled());
    assert!(!Style::detect(false, false, false).enabled());
}

fn value(text: &str) -> koru::json::JsonValue {
    parse(text.as_bytes(), &JsonLimits::default()).unwrap()
}

#[test]
fn shell_results_propagate_their_exit_status() {
    let shell = |status: &str| {
        value(&format!(
            r#"{{"stdout":"","stderr":"","exit_code":{status},"signal":null}}"#
        ))
    };
    assert_eq!(exit_code(&shell("0")), 0);
    assert_eq!(exit_code(&shell("3")), 3);
    assert_eq!(
        exit_code(&value(
            r#"{"stdout":"","stderr":"","exit_code":null,"signal":9}"#
        )),
        137
    );
    assert_eq!(exit_code(&value(r#""plain text""#)), 0);
}

#[test]
fn error_envelopes_exit_nonzero() {
    assert_eq!(
        exit_code(&value("{\"ok\":false,\"error\":{\"code\":\"permission_denied\",\"message\":\"denied\"}}")),
        1
    );
    assert_eq!(exit_code(&value("{\"exit_code\":300,\"stdout\":\"\",\"stderr\":\"\"}")), 255);
    assert_eq!(exit_code(&value("{\"exit_code\":-3,\"stdout\":\"\",\"stderr\":\"\"}")), 0);
}

#[test]
fn task_input_is_bounded_and_rejects_redirected_input() {
    assert_eq!(check_task("list files\n").unwrap(), "list files");
    let long = format!("{}\n", "x".repeat(8193));
    assert_eq!(check_task(&long).unwrap_err().code(), ErrorCode::BudgetExhausted);
}

fn render_plain(text: &str) -> (String, String) {
    render(&value(text), Style::plain(), Style::plain())
}

#[test]
fn a_shell_result_streams_output_instead_of_json() {
    let (out, err) = render_plain(
        r#"{"ok":true,"exit_code":0,"signal":null,"stdout":"line one\nline two\n","stderr":"warn\n","stdout_truncated":false,"stderr_truncated":false}"#,
    );
    assert_eq!(out, "line one\nline two\n");
    assert_eq!(err, "warn\n");
}

#[test]
fn a_failing_shell_result_reports_its_status() {
    let (out, err) = render_plain(
        r#"{"ok":false,"exit_code":2,"signal":null,"stdout":"partial","stderr":"","stdout_truncated":false,"stderr_truncated":true}"#,
    );
    assert_eq!(out, "partial");
    assert!(err.contains("output truncated"), "{err}");
    assert!(err.contains("status 2"), "{err}");
}

#[test]
fn an_error_envelope_is_reported_without_json() {
    let (out, err) =
        render_plain(r#"{"ok":false,"error":{"code":"permission_denied","message":"denied"}}"#);
    assert!(out.is_empty());
    assert!(err.contains("permission_denied"), "{err}");
    assert!(err.contains("denied"), "{err}");
}

#[test]
fn a_commit_plan_is_rendered_as_a_summary() {
    let (out, _) = render_plain(
        r#"{"status":"plan_only","snapshot_id":"snap","plan_id":"plan","change_count":2,"groups":[{"changes":["a","b"],"message":"feat: group","rationale":"why"}]}"#,
    );
    assert!(out.contains("commit plan: plan_only"), "{out}");
    assert!(out.contains("feat: group"), "{out}");
    assert!(out.contains("a, b"), "{out}");
}

#[test]
fn an_unavailable_commit_reports_its_error() {
    let (out, err) = render_plain(
        r#"{"status":"unavailable","error":{"code":"permission_denied","message":"no"}}"#,
    );
    assert!(out.is_empty());
    assert!(err.contains("permission_denied"), "{err}");
}

#[test]
fn a_shell_string_result_keeps_line_breaks() {
    let (out, err) = render_plain(r#""hello\nworld\n""#);
    assert_eq!(out, "hello\nworld\n");
    assert!(err.is_empty());
}

#[test]
fn unknown_objects_fall_back_to_indented_json() {
    let (out, _) = render_plain(r#"{"a":1,"b":["x"]}"#);
    assert!(out.contains("\"a\": 1"), "{out}");
    assert!(out.contains("\"x\""), "{out}");
}

#[test]
fn rendering_is_exact_for_each_shape() {
    let (out, err) = render_plain(r#"{"a":1,"b":["x",true],"c":{}}"#);
    assert_eq!(out, "{\n  \"a\": 1,\n  \"b\": [\n    \"x\",\n    true\n  ],\n  \"c\": {}\n}");
    assert!(err.is_empty());
    let (out, err) = render_plain(
        r#"{"stdout":"out","stderr":"","signal":9,"exit_code":null}"#,
    );
    assert_eq!(out, "out");
    assert_eq!(err, "\nkoru: shell terminated by signal 9\n");
    let (out, err) = render_plain(r#"{"error":{"message":"bad\u001b"}}"#);
    assert!(out.is_empty());
    assert_eq!(err, "koru [error]: bad\\u{1b}\n");
    let (out, _) = render_plain(
        r#"{"status":"done","groups":[3,{"message":"m","changes":["a",1,"b"],"rationale":""}]}"#,
    );
    assert_eq!(out, "commit plan: done\n  changes: ?\n  2. m\n     changes: a, b\n");
    assert_eq!(render_plain("null"), (String::new(), String::new()));
    assert_eq!(render_plain("\"no break\"").0, "no break\n");
    assert_eq!(render_plain("2.5").0, "2.5");
}

#[test]
fn coloured_rendering_paints_tokens() {
    let on = Style::detect(true, false, false);
    let (out, _) = render(&value(r#"{"k":"v"}"#), on, on);
    assert_eq!(out, "{\n  \u{1b}[36m\"k\"\u{1b}[0m: \u{1b}[32m\"v\"\u{1b}[0m\n}");
    let (_, err) = render(&value(r#"{"stdout":"","stderr":"","exit_code":1}"#), on, on);
    assert_eq!(err, "\u{1b}[31mkoru: shell exited with status 1\n\u{1b}[0m");
}
