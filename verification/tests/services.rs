use koru::ai::{agent_start, agent_step, AgentEvent, AiRequest, ServiceCapabilities, ServiceError, ServiceErrorKind};
use koru::ids::IdSource;
use koru::runtime::{ExecutionContext, Limits};
use koru::credentials::{credential_variable_names, Credentials, MapEnvironment};
use koru::error::ErrorCode;
use koru::paths::{join_name, UserPaths};
use koru::terminal::style::Style;

#[test]
fn credentials_come_from_the_environment() {
    let env = MapEnvironment::new(vec![
        ("DEEPSEEK_API_KEY".to_owned(), "sk-one".to_owned()),
        ("OPENCODE_API_KEY".to_owned(), String::new()),
        ("HOME".to_owned(), "/home/u".to_owned()),
    ]);
    assert_eq!(env.value("HOME").as_deref(), Some("/home/u"));
    assert_eq!(env.value("PATH"), None);
    let credentials = Credentials::from_environment(&env);
    assert_eq!(credentials.require("DEEPSEEK_API_KEY").unwrap(), "sk-one");
    assert!(credentials.is_set("DEEPSEEK_API_KEY"));
    assert!(!credentials.is_set("OPENCODE_API_KEY"));
    assert_eq!(credentials.require("OPENCODE_API_KEY").unwrap_err().code(), ErrorCode::Validation);
    assert_eq!(credentials.require("HOME").unwrap_err().code(), ErrorCode::Validation);
    assert_eq!(credential_variable_names(), ["DEEPSEEK_API_KEY", "OPENCODE_API_KEY"]);
}

#[test]
fn credentials_are_redacted_from_text() {
    let credentials = Credentials::from_values(Some("sk-one".to_owned()), Some("oc-two".to_owned()));
    assert_eq!(
        credentials.redact("a sk-one b oc-two c sk-one"),
        "a [redacted] b [redacted] c [redacted]"
    );
    let none = Credentials::from_values(None, Some(String::new()));
    assert_eq!(none.redact("sk-one"), "sk-one");
    assert_eq!(koru::credentials::replace("aaa", "aa", "b"), "ba");
    assert_eq!(koru::credentials::redact(&vec!["k", ""], "kkx"), "[redacted][redacted]x");
}

#[test]
fn tool_capable_services_accept_the_schema_subset() {
    let caps = ServiceCapabilities::tool_capable("fake");
    assert_eq!(caps.provider, "fake");
    assert!(caps.tools);
    assert!(!caps.structured_output);
    assert_eq!(caps.schema_keywords.len(), 12);
    assert!(caps.supports_keywords(&vec!["type".to_owned(), "required".to_owned()]));
    assert!(!caps.supports_keywords(&vec!["type".to_owned(), "pattern".to_owned()]));
    assert!(caps.supports_keywords(&Vec::new()));
}

#[test]
fn service_errors_keep_their_kind_and_message() {
    let error = ServiceError::tool("bad arguments");
    assert_eq!(error.kind, ServiceErrorKind::Tool);
    assert_eq!(error.message, "bad arguments");
    assert_eq!(ServiceError::provider("x").kind, ServiceErrorKind::Provider);
    assert_eq!(ServiceError::cancelled("x").kind, ServiceErrorKind::Cancelled);
}

#[test]
fn paths_join_with_one_separator() {
    assert_eq!(join_name(&b"/a".to_vec(), "b"), b"/a/b".to_vec());
    assert_eq!(join_name(&b"/a/".to_vec(), "b"), b"/a/b".to_vec());
    assert_eq!(join_name(&Vec::new(), "b"), b"b".to_vec());
    let paths = UserPaths { config: b"/c".to_vec(), cache: b"/k".to_vec(), state: b"/s".to_vec() };
    assert_eq!(paths.commands(), b"/c/commands".to_vec());
}

#[test]
fn styles_paint_only_when_enabled() {
    let on = Style::detect(true, false, false);
    assert!(on.enabled());
    assert_eq!(on.red("x"), "\u{1b}[31mx\u{1b}[0m");
    assert_eq!(on.bold("x"), "\u{1b}[1mx\u{1b}[0m");
    assert!(!Style::detect(true, true, false).enabled());
    assert!(!Style::detect(true, false, true).enabled());
    assert!(!Style::detect(false, false, false).enabled());
    assert_eq!(Style::plain().green("x"), "x");
}

#[test]
fn set_names_shows_which_credentials_are_present_without_values() {
    let both = Credentials::from_values(Some("sk-one".to_owned()), Some("sk-two".to_owned()));
    assert_eq!(both.set_names(), vec!["DEEPSEEK_API_KEY", "OPENCODE_API_KEY"]);
    let one = Credentials::from_values(None, Some("sk-two".to_owned()));
    assert_eq!(one.set_names(), vec!["OPENCODE_API_KEY"]);
    let empty = Credentials::from_values(Some(String::new()), None);
    assert!(empty.set_names().is_empty());
}

#[test]
fn require_names_the_missing_variable() {
    let env = MapEnvironment::new(vec![("OPENCODE_API_KEY".to_owned(), String::new())]);
    let credentials = Credentials::from_environment(&env);
    let error = credentials.require("OPENCODE_API_KEY").unwrap_err();
    assert_eq!(error.code(), ErrorCode::Validation);
    assert_eq!(error.message(), "OPENCODE_API_KEY is not set; export it to use this provider");
}

#[test]
fn agent_steps_charge_and_stop_the_run() {
    use_agent_steps();
}

fn use_agent_steps() {
    let mut ids = IdSource::new();
    let mut run = ExecutionContext::new("ask", [0; 32], Limits::default(), 0, &mut ids).unwrap();
    let request = AiRequest { prompt: "héllo".to_owned(), tools: Vec::new(), max_turns: 1 };
    agent_start(&mut run, &request, &ServiceCapabilities::tool_capable("fake"), 1).unwrap();
    assert_eq!(run.usage().model_requests, 1);
    assert_eq!(run.usage().bytes, 6);
    agent_step(&mut run, AgentEvent::ToolCall, 2).unwrap();
    assert_eq!(run.usage().tool_calls, 1);
    agent_step(&mut run, AgentEvent::Tick, 3).unwrap();
    assert_eq!(agent_step(&mut run, AgentEvent::Finished, 600_000).unwrap_err().code(), ErrorCode::Timeout);
    let second = ExecutionContext::new("ask", [0; 32], Limits::default(), 0, &mut ids).unwrap();
    assert_ne!(second.run_id(), run.run_id());
}
