use koru::error::ErrorCode;
use koru::git::plan::{finish_plan, validate_message, validate_plan};
use koru::json::emit;
use koru::json::JsonValue;

fn object(mut entries: Vec<(&str, JsonValue)>) -> JsonValue {
    entries.sort_by(|a, b| a.0.cmp(b.0));
    JsonValue::Object(entries.into_iter().map(|(k, v)| (k.to_owned(), v)).collect())
}

fn proposal(changes: &[&str], message: &str) -> JsonValue {
    object(vec![(
        "groups",
        JsonValue::Array(vec![object(vec![
            (
                "changes",
                JsonValue::Array(
                    changes
                        .iter()
                        .map(|id| JsonValue::String((*id).to_owned()))
                        .collect(),
                ),
            ),
            ("message", JsonValue::String(message.to_owned())),
        ])]),
    )])
}

fn known(ids: &[&str]) -> Vec<String> {
    ids.iter().map(|id| (*id).to_owned()).collect()
}

fn field<'a>(value: &'a JsonValue, name: &str) -> Option<&'a JsonValue> {
    match value {
        JsonValue::Object(entries) => entries.iter().find(|(k, _)| k == name).map(|(_, v)| v),
        _ => None,
    }
}

#[test]
fn accepts_complete_conventional_plan() {
    let known = known(&["a", "b"]);
    let value = validate_plan(&known, &proposal(&["a", "b"], "feat(cli): group files")).unwrap();
    assert!(matches!(value, JsonValue::Object(_)), "object");
    assert!(matches!(field(&value, "status"), Some(JsonValue::String(s)) if s == "plan_only"));
}

#[test]
fn rejects_duplicate_unknown_missing_ids_and_invalid_messages() {
    let known = known(&["a", "b"]);
    for plan in [
        proposal(&["a", "a"], "feat: duplicate"),
        proposal(&["a", "x"], "feat: unknown"),
        proposal(&["a"], "feat: missing"),
        proposal(&["a", "b"], "Feature: invalid type"),
    ] {
        assert_eq!(
            validate_plan(&known, &plan).unwrap_err().code(),
            ErrorCode::Validation
        );
    }
}

fn insert(value: &mut JsonValue, key: &str, item: JsonValue) {
    if let JsonValue::Object(entries) = value {
        entries.push((key.to_owned(), item));
        entries.sort_by(|a, b| a.0.cmp(&b.0));
    }
}

#[test]
fn rejects_paths_and_commands_outside_the_plan_contract() {
    let known = known(&["a"]);
    let mut value = proposal(&["a"], "feat: safe plan");
    insert(&mut value, "path", JsonValue::String("/tmp/file".to_owned()));
    assert_eq!(
        validate_plan(&known, &value).unwrap_err().code(),
        ErrorCode::Validation
    );

    let mut value = proposal(&["a"], "feat: safe plan");
    if let JsonValue::Object(entries) = &mut value {
        if let Some((_, JsonValue::Array(groups))) = entries.iter_mut().find(|(k, _)| k == "groups") {
            insert(&mut groups[0], "command", JsonValue::String("git reset".to_owned()));
        }
    }
    assert_eq!(
        validate_plan(&known, &value).unwrap_err().code(),
        ErrorCode::Validation
    );
}

#[test]
fn accepted_plans_are_normalized() {
    let known = known(&["a", "b"]);
    let value = validate_plan(&known, &proposal(&["b", "a"], "fix!: x")).unwrap();
    assert_eq!(
        koru::json::emit(&value),
        "{\"change_count\":2,\"groups\":[{\"changes\":[\"b\",\"a\"],\"message\":\"fix!: x\",\"rationale\":\"\"}],\"status\":\"plan_only\"}"
    );
}

#[test]
fn conventional_commit_subjects() {
    for good in ["feat: x", "fix(core-1/a.b_c): y", "chore!: z", "a-b(s)!: w"] {
        assert!(validate_message(good).is_ok(), "{good}");
    }
    for bad in [
        "",
        "feat:x",
        "feat:  ",
        "Feat: x",
        "-feat: x",
        "feat(): x",
        "feat(a b): x",
        "feat(a: x",
        "feat: a\u{1}b",
    ] {
        assert_eq!(validate_message(bad).unwrap_err().code(), ErrorCode::Validation, "{bad}");
    }
    let long = format!("feat: {}", "x".repeat(67));
    assert!(validate_message(&long).is_err());
    let fits = format!("feat: {}", "x".repeat(66));
    assert!(validate_message(&fits).is_ok());
}

#[test]
fn finished_plans_are_bound_to_their_snapshot() {
    let known = known(&["a", "b"]);
    let plan = finish_plan(&known, "snap1", &proposal(&["a", "b"], "feat(cli): group files")).unwrap();
    let names: Vec<&str> = match &plan {
        JsonValue::Object(entries) => entries.iter().map(|(k, _)| k.as_str()).collect(),
        _ => Vec::new(),
    };
    assert_eq!(names, vec!["change_count", "groups", "plan_id", "snapshot_id", "status"]);
    assert!(matches!(field(&plan, "snapshot_id"), Some(JsonValue::String(s)) if s == "snap1"));
    let mut bound = validate_plan(&known, &proposal(&["a", "b"], "feat(cli): group files")).unwrap();
    if let JsonValue::Object(entries) = &mut bound {
        entries.insert(2, ("snapshot_id".to_owned(), JsonValue::String("snap1".to_owned())));
    }
    let mut data = b"snap1".to_vec();
    data.extend_from_slice(emit(&bound).as_bytes());
    let digest = <sha2::Sha256 as sha2::Digest>::digest(&data);
    let hex: String = digest.iter().map(|b| format!("{b:02x}")).collect();
    assert!(matches!(field(&plan, "plan_id"), Some(JsonValue::String(s)) if *s == hex));
    let other = finish_plan(&known, "snap2", &proposal(&["a", "b"], "feat(cli): group files")).unwrap();
    assert_ne!(field(&plan, "plan_id"), field(&other, "plan_id"));
    let error = finish_plan(&known, "snap1", &proposal(&["a"], "feat(cli): group files")).unwrap_err();
    assert_eq!(error.code(), ErrorCode::Validation);
}
