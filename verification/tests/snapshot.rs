use koru::error::ErrorCode;
use koru::git::snapshot::{describe_section, finish_snapshot, parse_changes, MAX_CHANGES};

fn no_secrets() -> Vec<&'static str> {
    Vec::new()
}

#[test]
fn change_ids_hide_paths_and_excerpts_hide_patch_headers() {
    let diff = "diff --git a/private-name.txt b/private-name.txt\nindex 123..456 100644\n--- a/private-name.txt\n+++ b/private-name.txt\n@@ -1 +1 @@\n-old value\n+new value\n";
    let changes = parse_changes(diff, &no_secrets()).unwrap();
    assert_eq!(changes.len(), 1);
    assert!(!changes[0].id.contains("private-name"));
    assert!(!changes[0].excerpt.contains("private-name"));
    assert!(changes[0].excerpt.contains("new value"));
}

#[test]
fn staged_change_count_is_bounded() {
    let diff = (0..=MAX_CHANGES)
        .map(|index| format!("diff --git a/{index} b/{index}\n@@ -0,0 +1 @@\n+x\n"))
        .collect::<String>();
    assert_eq!(
        parse_changes(&diff, &no_secrets()).unwrap_err().code(),
        ErrorCode::BudgetExhausted
    );
}

#[test]
fn quoted_unusual_paths_stay_out_of_lua_change_data() {
    let diff = "diff --git \"a/file with\\nnewline.txt\" \"b/file with\\nnewline.txt\"\nindex 123..456 100644\n--- \"a/file with\\nnewline.txt\"\n+++ \"b/file with\\nnewline.txt\"\n@@ -1 +1 @@\n-old\n+new\n";
    let changes = parse_changes(diff, &no_secrets()).unwrap();
    assert_eq!(changes.len(), 1);
    assert!(!changes[0].excerpt.contains("file with"));
}

#[test]
fn sections_are_described_by_kind_and_line_counts() {
    let (kind, excerpt) =
        describe_section("diff --git a/x b/x\n@@ -1,2 +1 @@\n-a\n-b\n+c\n", &no_secrets());
    assert_eq!(kind, "modified: +1 -2 lines");
    assert_eq!(excerpt, "@@ -1,2 +1 @@\n-a\n-b\n+c\n");
    let (kind, excerpt) =
        describe_section("diff --git a/x b/x\nnew file mode 100644\nBinary files /dev/null and b/x differ\n", &no_secrets());
    assert!(kind.starts_with("added") || kind.starts_with("binary"));
    assert_eq!(excerpt, "[binary contents omitted]");
}

#[test]
fn secrets_are_redacted_from_excerpts() {
    let secrets = vec!["hunter2"];
    let (_, excerpt) = describe_section("diff --git a/x b/x\n@@ -0,0 +1 @@\n+key=hunter2\n", &secrets);
    assert_eq!(excerpt, "@@ -0,0 +1 @@\n+key=[REDACTED]\n");
}

#[test]
fn identical_sections_get_identical_ids_and_distinct_ones_differ() {
    let one = "diff --git a/x b/x\n@@ -0,0 +1 @@\n+x\n";
    let two = "diff --git a/y b/y\n@@ -0,0 +1 @@\n+y\n";
    let first = parse_changes(one, &no_secrets()).unwrap();
    let again = parse_changes(one, &no_secrets()).unwrap();
    let other = parse_changes(two, &no_secrets()).unwrap();
    assert_eq!(first[0].id, again[0].id);
    assert_ne!(first[0].id, other[0].id);
    assert!(first[0].id.starts_with("chg_"));
    assert_eq!(first[0].id.len(), 4 + 20);
}

#[test]
fn an_empty_diff_has_no_changes() {
    assert_eq!(parse_changes("", &no_secrets()).unwrap().len(), 0);
}

#[test]
fn snapshots_check_the_git_outcome_before_parsing() {
    let repository = b"/work/repo".to_vec();
    let diff = b"diff --git a/x b/x\n@@ -1 +1 @@\n-a\n+b\n".to_vec();
    let code = |exit: Option<i32>, out: &Vec<u8>, truncated: bool| {
        finish_snapshot(&repository, exit, out, truncated, &no_secrets()).unwrap_err().code()
    };
    assert_eq!(code(Some(1), &diff, false), ErrorCode::Validation);
    assert_eq!(code(None, &diff, false), ErrorCode::Validation);
    assert_eq!(code(Some(0), &diff, true), ErrorCode::BudgetExhausted);
    assert_eq!(code(Some(0), &vec![0xff, 0xfe], false), ErrorCode::UnsupportedCapability);
    assert_eq!(code(Some(0), &Vec::new(), false), ErrorCode::Validation);
    assert_eq!(code(Some(0), &b"not a diff\n".to_vec(), false), ErrorCode::UnsupportedCapability);
    let snapshot = finish_snapshot(&repository, Some(0), &diff, false, &no_secrets()).unwrap();
    assert_eq!(snapshot.changes.len(), 1);
    let mut data = repository.clone();
    data.extend_from_slice(&diff);
    let expected: [u8; 32] = <sha2::Sha256 as sha2::Digest>::digest(&data).into();
    assert_eq!(snapshot.digest, expected);
}
