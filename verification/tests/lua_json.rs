use koru::error::{ErrorCode, KoruError};
use koru::json::{emit, JsonLimits, JsonValue};
use koru::lua::json::{to_json, LuaHeap, LuaTable, LuaValue, Tag};

fn integer(n: i64) -> LuaValue {
    LuaValue::Integer(n)
}

fn text(s: &str) -> LuaValue {
    LuaValue::String(s.as_bytes().to_vec())
}

fn table(tag: Option<Tag>, length: usize, pairs: Vec<(LuaValue, LuaValue)>) -> LuaTable {
    LuaTable { tag, length, pairs }
}

fn convert(tables: Vec<LuaTable>, root: LuaValue, limits: &JsonLimits) -> Result<JsonValue, KoruError> {
    let heap = LuaHeap { tables };
    to_json(&heap, &root, limits)
}

fn default_convert(tables: Vec<LuaTable>, root: LuaValue) -> Result<JsonValue, KoruError> {
    convert(tables, root, &JsonLimits::default())
}

#[test]
fn rejects_ambiguous_and_mixed_tables() {
    // { 1, 2, x = 3 }, { [1] = 1, [3] = 3 }, { [0] = 1 }
    let cases = vec![
        vec![table(None, 2, vec![(integer(1), integer(1)), (integer(2), integer(2)), (text("x"), integer(3))])],
        vec![table(None, 1, vec![(integer(1), integer(1)), (integer(3), integer(3))])],
        vec![table(None, 0, vec![(integer(0), integer(1))])],
    ];
    for tables in cases {
        assert_eq!(
            default_convert(tables, LuaValue::Table(0)).unwrap_err().code(),
            ErrorCode::Validation
        );
    }
}

#[test]
fn rejects_cycles_and_unsupported_values() {
    // local t = {} t.self = t return t
    assert_eq!(
        default_convert(vec![table(None, 0, vec![(text("self"), LuaValue::Table(0))])], LuaValue::Table(0))
            .unwrap_err()
            .code(),
        ErrorCode::Validation
    );
    // print
    assert_eq!(
        default_convert(vec![], LuaValue::Other).unwrap_err().code(),
        ErrorCode::Validation
    );
    // string.char(255)
    assert_eq!(
        default_convert(vec![], LuaValue::String(vec![255])).unwrap_err().code(),
        ErrorCode::Validation
    );
    // nil
    assert_eq!(
        default_convert(vec![], LuaValue::Nil).unwrap_err().code(),
        ErrorCode::Validation
    );
}

#[test]
fn rejects_nonfinite_and_unsafe_numbers() {
    // math.huge
    assert_eq!(
        default_convert(vec![], LuaValue::Number { finite: false, text: "inf".to_owned() })
            .unwrap_err()
            .code(),
        ErrorCode::Validation
    );
    // 9007199254740993
    assert_eq!(
        default_convert(vec![], integer(9007199254740993)).unwrap_err().code(),
        ErrorCode::Validation
    );
}

#[test]
fn enforces_depth_element_and_byte_limits() {
    let shallow = JsonLimits {
        max_depth: 1,
        ..JsonLimits::default()
    };
    // {{ 1 }}
    let nested = vec![
        table(None, 1, vec![(integer(1), LuaValue::Table(1))]),
        table(None, 1, vec![(integer(1), integer(1))]),
    ];
    assert_eq!(
        convert(nested, LuaValue::Table(0), &shallow).unwrap_err().code(),
        ErrorCode::BudgetExhausted
    );
    let tiny = JsonLimits {
        max_string_bytes: 1,
        ..JsonLimits::default()
    };
    // 'too long'
    assert_eq!(
        convert(vec![], text("too long"), &tiny).unwrap_err().code(),
        ErrorCode::BudgetExhausted
    );
    let few = JsonLimits {
        max_elements: 0,
        ..JsonLimits::default()
    };
    // {1,2,3}
    let three = vec![table(None, 3, vec![(integer(1), integer(1)), (integer(2), integer(2)), (integer(3), integer(3))])];
    assert_eq!(
        convert(three, LuaValue::Table(0), &few).unwrap_err().code(),
        ErrorCode::BudgetExhausted
    );
}

#[test]
fn scalars_null_and_tagged_containers_convert() {
    assert!(matches!(default_convert(vec![], LuaValue::Null).unwrap(), JsonValue::Null));
    assert!(matches!(default_convert(vec![], LuaValue::Boolean(true)).unwrap(), JsonValue::Bool(true)));
    assert!(matches!(default_convert(vec![], integer(42)).unwrap(), JsonValue::Integer(42)));
    assert!(matches!(default_convert(vec![], text("hi")).unwrap(), JsonValue::String(ref s) if s == "hi"));
    let number = default_convert(vec![], LuaValue::Number { finite: true, text: "1.5".to_owned() }).unwrap();
    assert_eq!(emit(&number), "1.5");
    let empty_object = default_convert(vec![table(None, 0, vec![])], LuaValue::Table(0)).unwrap();
    assert_eq!(emit(&empty_object), "{}");
    let empty_array = default_convert(vec![table(Some(Tag::Array), 0, vec![])], LuaValue::Table(0)).unwrap();
    assert_eq!(emit(&empty_array), "[]");
    let tagged_object = default_convert(vec![table(Some(Tag::Object), 0, vec![])], LuaValue::Table(0)).unwrap();
    assert_eq!(emit(&tagged_object), "{}");
}

#[test]
fn nested_tables_become_sorted_objects_and_arrays() {
    // { b = { true, json.null }, a = 1 }
    let tables = vec![
        table(None, 0, vec![(text("b"), LuaValue::Table(1)), (text("a"), integer(1))]),
        table(None, 2, vec![(integer(1), LuaValue::Boolean(true)), (integer(2), LuaValue::Null)]),
    ];
    let value = default_convert(tables, LuaValue::Table(0)).unwrap();
    assert_eq!(emit(&value), "{\"a\":1,\"b\":[true,null]}");
}

#[test]
fn a_shared_table_is_not_a_cycle() {
    // local s = { 1 } return { a = s, b = s }
    let tables = vec![
        table(None, 0, vec![(text("a"), LuaValue::Table(1)), (text("b"), LuaValue::Table(1))]),
        table(None, 1, vec![(integer(1), integer(1))]),
    ];
    let value = default_convert(tables, LuaValue::Table(0)).unwrap();
    assert_eq!(emit(&value), "{\"a\":[1],\"b\":[1]}");
}
