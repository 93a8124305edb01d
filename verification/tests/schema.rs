use koru::ai::{preflight, AiRequest, ServiceCapabilities, ToolSpec};
use koru::error::ErrorCode;
use koru::json::number::{decimal_of, Decimal};
use koru::json::{parse, JsonLimits, JsonValue};
use koru::schema::{JsonSchema, JsonType};

fn doc(text: &str) -> JsonValue {
    parse(text.as_bytes(), &JsonLimits::default()).unwrap()
}

fn schema(text: &str) -> JsonSchema {
    JsonSchema::compile(&doc(text), &JsonLimits::default()).unwrap()
}

fn compile_code(text: &str) -> ErrorCode {
    JsonSchema::compile(&doc(text), &JsonLimits::default()).unwrap_err().code()
}

fn accepts(schema: &JsonSchema, text: &str) -> bool {
    schema.validate(&doc(text)).is_ok()
}

const COMMIT_PLAN: &str = r#"{"type":"object","properties":{"groups":{"type":"array","minItems":1,"maxItems":64,"items":{"type":"object","properties":{"changes":{"type":"array","minItems":1,"maxItems":64,"items":{"type":"string","minLength":1,"maxLength":24}},"message":{"type":"string","minLength":1,"maxLength":72},"rationale":{"type":"string","maxLength":512}},"required":["changes","message"],"additionalProperties":false}}},"required":["groups"],"additionalProperties":false}"#;

#[test]
fn compiles_the_commit_plan_schema() {
    let plan = schema(COMMIT_PLAN);
    assert!(plan.is_object_root());
    assert!(accepts(&plan, r#"{"groups":[{"changes":["a1"],"message":"fix"}]}"#));
    assert!(!accepts(&plan, r#"{"groups":[]}"#));
    assert!(!accepts(&plan, r#"{"groups":[{"changes":["a1"]}]}"#));
    assert!(!accepts(&plan, r#"{"groups":[{"changes":["a1"],"message":"fix","extra":1}]}"#));
    assert!(!accepts(&plan, r#"{"groups":[{"changes":[""],"message":"fix"}]}"#));
    assert!(!accepts(&plan, r#"[]"#));
}

#[test]
fn validation_errors_carry_the_path() {
    let plan = schema(COMMIT_PLAN);
    let error = plan
        .validate(&doc(r#"{"groups":[{"changes":["a1"],"message":"fix","extra":1}]}"#))
        .unwrap_err();
    assert_eq!(error.code(), ErrorCode::Validation);
    assert!(error.message().starts_with("/groups/0/extra:"));
}

#[test]
fn keywords_lists_every_keyword_used() {
    let plan = schema(COMMIT_PLAN);
    let words = plan.keywords();
    for word in [
        "type",
        "properties",
        "required",
        "additionalProperties",
        "items",
        "minItems",
        "maxItems",
        "minLength",
        "maxLength",
    ] {
        assert!(words.iter().any(|w| w == word), "{word}");
    }
    assert!(!words.iter().any(|w| w == "enum"));
    assert!(!words.iter().any(|w| w == "minimum"));
}

#[test]
fn unsupported_keywords_are_rejected() {
    assert_eq!(compile_code(r#"{"type":"string","pattern":"a+"}"#), ErrorCode::Validation);
    assert_eq!(compile_code(r##"{"$ref":"#/x"}"##), ErrorCode::Validation);
    assert_eq!(compile_code(r#""string""#), ErrorCode::Validation);
}

#[test]
fn description_must_be_a_string() {
    schema(r#"{"type":"string","description":"a name"}"#);
    assert_eq!(compile_code(r#"{"description":1}"#), ErrorCode::Validation);
}

#[test]
fn keywords_need_a_matching_type() {
    assert_eq!(compile_code(r#"{"type":"string","minItems":1}"#), ErrorCode::Validation);
    assert_eq!(compile_code(r#"{"type":"boolean","minimum":1}"#), ErrorCode::Validation);
    let implied = schema(r#"{"minLength":2}"#);
    assert!(accepts(&implied, r#""ab""#));
    assert!(!accepts(&implied, r#"1"#));
}

#[test]
fn type_lists_are_checked() {
    assert_eq!(compile_code(r#"{"type":[]}"#), ErrorCode::Validation);
    assert_eq!(compile_code(r#"{"type":["string","string"]}"#), ErrorCode::Validation);
    assert_eq!(compile_code(r#"{"type":"float"}"#), ErrorCode::Validation);
    assert_eq!(compile_code(r#"{"type":[1]}"#), ErrorCode::Validation);
    let either = schema(r#"{"type":["string","null"]}"#);
    assert!(accepts(&either, "null"));
    assert!(accepts(&either, r#""x""#));
    assert!(!accepts(&either, "true"));
    assert!(!either.is_object_root());
}

#[test]
fn integers_are_numbers_but_not_the_reverse() {
    let number = schema(r#"{"type":"number"}"#);
    assert!(accepts(&number, "3"));
    assert!(accepts(&number, "3.5"));
    let integer = schema(r#"{"type":"integer"}"#);
    assert!(accepts(&integer, "3"));
    assert!(!accepts(&integer, "3.5"));
}

#[test]
fn numeric_bounds_are_inclusive_and_exact() {
    let range = schema(r#"{"type":"number","minimum":0.5,"maximum":10}"#);
    assert!(accepts(&range, "0.5"));
    assert!(accepts(&range, "0.50"));
    assert!(accepts(&range, "10"));
    assert!(accepts(&range, "1e1"));
    assert!(accepts(&range, "7"));
    assert!(!accepts(&range, "0.4999"));
    assert!(!accepts(&range, "10.001"));
    assert!(!accepts(&range, "-3"));
    assert!(!accepts(&range, "1.1e1"));
}

#[test]
fn crossed_bounds_are_rejected() {
    assert_eq!(compile_code(r#"{"minimum":2,"maximum":1.5}"#), ErrorCode::Validation);
    assert_eq!(compile_code(r#"{"minLength":3,"maxLength":2}"#), ErrorCode::Validation);
    assert_eq!(compile_code(r#"{"minItems":3,"maxItems":2}"#), ErrorCode::Validation);
    schema(r#"{"minimum":1.5,"maximum":1.5}"#);
}

#[test]
fn integer_bounds_must_be_whole_and_safe() {
    assert_eq!(compile_code(r#"{"type":"integer","minimum":0.5}"#), ErrorCode::Validation);
    assert_eq!(
        compile_code(r#"{"type":"integer","maximum":9007199254740992}"#),
        ErrorCode::Validation
    );
    schema(r#"{"type":"integer","minimum":1.0,"maximum":9007199254740991}"#);
    schema(r#"{"type":["integer","number"],"minimum":0.5}"#);
}

#[test]
fn enums_are_unique_typed_and_matched_by_value() {
    assert_eq!(compile_code(r#"{"enum":[]}"#), ErrorCode::Validation);
    assert_eq!(compile_code(r#"{"enum":["a","a"]}"#), ErrorCode::Validation);
    assert_eq!(compile_code(r#"{"enum":[1.5,1.50]}"#), ErrorCode::Validation);
    assert_eq!(compile_code(r#"{"type":"string","enum":["a",1]}"#), ErrorCode::Validation);
    let choice = schema(r#"{"enum":["red","green",2.5]}"#);
    assert!(accepts(&choice, r#""red""#));
    assert!(accepts(&choice, "2.50"));
    assert!(!accepts(&choice, r#""blue""#));
    assert!(!accepts(&choice, "null"));
}

#[test]
fn required_names_must_be_declared_and_unique() {
    assert_eq!(
        compile_code(r#"{"properties":{"a":{}},"required":["b"]}"#),
        ErrorCode::Validation
    );
    assert_eq!(
        compile_code(r#"{"properties":{"a":{}},"required":["a","a"]}"#),
        ErrorCode::Validation
    );
    let object = schema(r#"{"properties":{"a":{"type":"string"}},"required":["a"]}"#);
    assert!(object.is_object_root());
    assert!(accepts(&object, r#"{"a":"x","b":1}"#));
    assert!(!accepts(&object, r#"{"b":1}"#));
    assert!(!accepts(&object, r#"{"a":1}"#));
}

#[test]
fn string_lengths_count_bytes() {
    let short = schema(r#"{"type":"string","maxLength":2}"#);
    assert!(accepts(&short, r#""ab""#));
    assert!(!accepts(&short, r#""é1""#));
}

#[test]
fn nesting_beyond_the_depth_limit_is_refused() {
    let limits = JsonLimits { max_depth: 1, ..JsonLimits::default() };
    let document = doc(r#"{"items":{"items":{}}}"#);
    let error = JsonSchema::compile(&document, &limits).unwrap_err();
    assert_eq!(error.code(), ErrorCode::BudgetExhausted);
    let shallow = doc(r#"{"items":{}}"#);
    assert!(JsonSchema::compile(&shallow, &limits).is_ok());
}

#[test]
fn compiled_schema_keeps_its_document() {
    let document = doc(r#"{"type":"string"}"#);
    let compiled = JsonSchema::compile(&document, &JsonLimits::default()).unwrap();
    assert_eq!(compiled.document(), &document);
}

#[test]
fn type_names_round_trip() {
    for kind in [
        JsonType::Object,
        JsonType::Array,
        JsonType::String,
        JsonType::Boolean,
        JsonType::Integer,
        JsonType::Number,
        JsonType::Null,
    ] {
        assert_eq!(JsonType::from_name(kind.name()), Some(kind));
    }
    assert_eq!(JsonType::from_name("float"), None);
}

#[test]
fn decimals_compare_by_value() {
    let half = Decimal::from_text("0.5").unwrap();
    let big = Decimal::from_text("5e-1").unwrap();
    assert!(!half.lt(&big) && !big.lt(&half));
    let minus = Decimal::from_text("-2").unwrap();
    assert!(minus.lt(&half));
    assert!(Decimal::from_integer(-3).lt(&minus));
    assert!(Decimal::from_text("1e2").unwrap().is_whole());
    assert!(!Decimal::from_text("1.25e1").unwrap().is_whole());
    assert!(Decimal::from_text("12.50e1").unwrap().is_whole());
    assert!(Decimal::from_text("1e").is_none());
    assert!(Decimal::from_text("1e1234567890123456789").is_none());
    assert!(decimal_of(&JsonValue::Null).is_none());
    assert!(decimal_of(&JsonValue::Integer(7)).is_some());
}

fn tool(name: &str, parameters: &str) -> ToolSpec {
    ToolSpec {
        name: name.to_owned(),
        description: String::new(),
        parameters: schema(parameters),
    }
}

#[test]
fn preflight_checks_tools_against_the_service() {
    let plain = AiRequest { prompt: "hi".to_owned(), tools: Vec::new(), max_turns: 1 };
    let mut caps = ServiceCapabilities::tool_capable("fake");
    caps.tools = false;
    assert!(preflight(&plain, &caps).is_ok());
    let with_tool = AiRequest {
        prompt: "hi".to_owned(),
        tools: vec![tool("pick", r#"{"type":"object","properties":{"c":{"enum":["a","b"]}}}"#)],
        max_turns: 1,
    };
    assert_eq!(
        preflight(&with_tool, &caps).unwrap_err().code(),
        ErrorCode::UnsupportedCapability
    );
    let full = ServiceCapabilities::tool_capable("fake");
    assert!(preflight(&with_tool, &full).is_ok());
    let mut narrow = ServiceCapabilities::tool_capable("fake");
    narrow.schema_keywords.retain(|word| word != "enum");
    assert_eq!(
        preflight(&with_tool, &narrow).unwrap_err().code(),
        ErrorCode::UnsupportedCapability
    );
}
