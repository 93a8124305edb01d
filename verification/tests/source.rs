use koru::error::ErrorCode;
use koru::source::bundle::{CapturedSource, Loader, SourceBundle, SourceLimits, Visit};
use koru::source::names::{command, identifier, is_module, module};
use koru::source::reader::parse_directives;

fn captured(text: &str) -> CapturedSource {
    CapturedSource::from_bytes(text.as_bytes().to_vec(), 262_144).unwrap()
}

#[test]
fn names_follow_the_identifier_rules() {
    assert!(identifier("deploy_2"));
    assert!(!identifier("2deploy"));
    assert!(!identifier("Deploy"));
    assert!(!identifier(""));
    assert!(!identifier(&"a".repeat(65)));
    assert!(command("deploy").is_ok());
    assert_eq!(command("help").unwrap_err().code(), ErrorCode::Validation);
    assert!(is_module("util.text"));
    assert!(!is_module("util..text"));
    assert!(!is_module(".util"));
    assert!(module("util").is_ok());
    assert_eq!(module("util/text").unwrap_err().code(), ErrorCode::Validation);
}

#[test]
fn header_directives_declare_modules() {
    let text = "-- a comment\n--[[ long\ncomment ]] -- koru-module: util.text\n-- koru-module: net\n\nlocal x = 1\n-- koru-module: late\n";
    assert_eq!(parse_directives(text).unwrap(), vec!["util.text".to_owned(), "net".to_owned()]);
    assert_eq!(
        parse_directives("-- koru-module: a\n-- koru-module: a\n").unwrap_err().code(),
        ErrorCode::Validation
    );
    assert_eq!(
        parse_directives("-- koru-module: Bad\n").unwrap_err().code(),
        ErrorCode::Validation
    );
    assert!(parse_directives("").unwrap().is_empty());
}

#[test]
fn captured_sources_are_checked() {
    let source = captured("-- koru-module: util\nreturn 1\n");
    assert_eq!(source.text(), "-- koru-module: util\nreturn 1\n");
    assert_eq!(source.dependencies(), &["util".to_owned()]);
    assert_eq!(
        CapturedSource::from_bytes(b"\x1bLua".to_vec(), 100).unwrap_err().code(),
        ErrorCode::Validation
    );
    assert_eq!(
        CapturedSource::from_bytes(vec![0xff], 100).unwrap_err().code(),
        ErrorCode::Validation
    );
    assert_eq!(
        CapturedSource::from_bytes(b"return 1".to_vec(), 3).unwrap_err().code(),
        ErrorCode::BudgetExhausted
    );
}

#[test]
fn source_limits_stay_under_the_ceilings() {
    assert!(SourceLimits::default().validate().is_ok());
    let too_deep = SourceLimits { max_depth: 17, ..SourceLimits::default() };
    assert_eq!(too_deep.validate().unwrap_err().code(), ErrorCode::Validation);
    let no_files = SourceLimits { max_file_bytes: 0, ..SourceLimits::default() };
    assert_eq!(no_files.validate().unwrap_err().code(), ErrorCode::Validation);
}

#[test]
fn bundles_are_identified_by_their_digest() {
    let entry = captured("return 1\n");
    let one = SourceBundle::assemble("deploy", entry.clone(), vec![("util".to_owned(), captured("return 2\n"))]);
    let same = SourceBundle::assemble("deploy", captured("return 1\n"), vec![("util".to_owned(), captured("return 2\n"))]);
    let other = SourceBundle::assemble("deploy", captured("return 1\n"), vec![("util".to_owned(), captured("return 3\n"))]);
    assert_eq!(one.digest(), same.digest());
    assert_ne!(one.digest(), other.digest());
    assert_eq!(one.digest_hex().len(), 64);
    assert_eq!(one.command(), "deploy");
    assert_eq!(one.entry().text(), "return 1\n");
    assert_eq!(one.modules().len(), 1);
    assert!(one.module("util").is_some());
    assert!(one.module("net").is_none());
}

#[test]
fn the_loader_decides_each_visit() {
    let entry = captured("-- koru-module: b\n-- koru-module: a\n");
    let mut loader = Loader::new(&b"/cmds".to_vec(), SourceLimits::default(), &entry).unwrap();
    let path = match loader.enter("b", 1).unwrap() {
        Visit::Read(path) => path,
        Visit::Captured => panic!("b was not captured yet"),
    };
    assert_eq!(path, b"/cmds/lib/b.lua".to_vec());
    assert_eq!(loader.enter("b", 2).unwrap_err().code(), ErrorCode::Validation);
    let b = captured("return 'b'\n");
    loader.account(&b).unwrap();
    loader.leave("b", b);
    assert!(matches!(loader.enter("b", 1).unwrap(), Visit::Captured));
    match loader.enter("a.x", 1).unwrap() {
        Visit::Read(path) => assert_eq!(path, b"/cmds/lib/a/x.lua".to_vec()),
        Visit::Captured => panic!("a.x was not captured yet"),
    }
    let a = captured("return 'a'\n");
    loader.account(&a).unwrap();
    loader.leave("a.x", a);
    assert_eq!(loader.enter("z", 17).unwrap_err().code(), ErrorCode::BudgetExhausted);
    let modules = loader.into_modules();
    let names: Vec<&str> = modules.iter().map(|(name, _)| name.as_str()).collect();
    assert_eq!(names, vec!["a.x", "b"]);
}

#[test]
fn the_loader_bounds_total_bytes() {
    let limits = SourceLimits { max_total_bytes: 12, ..SourceLimits::default() };
    let entry = captured("return 1\n");
    let mut loader = Loader::new(&b"/cmds".to_vec(), limits, &entry).unwrap();
    assert!(matches!(loader.enter("m", 1).unwrap(), Visit::Read(_)));
    assert_eq!(loader.account(&captured("return 22\n")).unwrap_err().code(), ErrorCode::BudgetExhausted);
    assert_eq!(
        Loader::new(&b"/cmds".to_vec(), limits, &captured("return 123456\n")).unwrap_err().code(),
        ErrorCode::BudgetExhausted
    );
}

#[test]
fn code_before_a_directive_ends_the_header() {
    assert!(parse_directives("#!/usr/bin/env koru\n-- koru-module: util\n").unwrap().is_empty());
}
