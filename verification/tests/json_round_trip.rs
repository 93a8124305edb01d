use koru::error::ErrorCode;
use koru::json::{emit, parse, JsonLimits, JsonValue};
use koru::lua::json::emit::from_json;
use koru::lua::json::{to_json, LuaHeap, LuaTable, LuaValue, Tag};

fn string_value(s: &str) -> JsonValue {
    JsonValue::String(s.to_owned())
}

fn object_value(entries: Vec<(&str, JsonValue)>) -> JsonValue {
    JsonValue::Object(entries.into_iter().map(|(k, v)| (k.to_owned(), v)).collect())
}

fn lua_text(s: &str) -> LuaValue {
    LuaValue::String(s.as_bytes().to_vec())
}

fn convert_default(tables: Vec<LuaTable>, root: LuaValue) -> JsonValue {
    let heap = LuaHeap { tables };
    to_json(&heap, &root, &JsonLimits::default()).unwrap()
}

fn through_lua(value: &JsonValue) -> JsonValue {
    let mut heap = LuaHeap { tables: Vec::new() };
    let root = from_json(&mut heap, value);
    to_json(&heap, &root, &JsonLimits::default()).unwrap()
}

#[test]
fn round_trips_scalars_and_null() {
    // json.null, true, 42, 1.5, 'hi'
    assert_eq!(convert_default(vec![], LuaValue::Null), JsonValue::Null);
    assert_eq!(convert_default(vec![], LuaValue::Boolean(true)), JsonValue::Bool(true));
    assert_eq!(convert_default(vec![], LuaValue::Integer(42)), JsonValue::Integer(42));
    assert_eq!(
        convert_default(vec![], LuaValue::Number { finite: true, text: "1.5".to_owned() }),
        JsonValue::Number("1.5".to_owned())
    );
    assert_eq!(convert_default(vec![], lua_text("hi")), string_value("hi"));
}

#[test]
fn distinguishes_empty_arrays_and_objects() {
    // {}
    let untagged = LuaTable { tag: None, length: 0, pairs: vec![] };
    assert_eq!(convert_default(vec![untagged], LuaValue::Table(0)), JsonValue::Object(Vec::new()));
    // json.array({})
    let array = LuaTable { tag: Some(Tag::Array), length: 0, pairs: vec![] };
    assert_eq!(convert_default(vec![array], LuaValue::Table(0)), JsonValue::Array(Vec::new()));
    // json.object({})
    let tagged = LuaTable { tag: Some(Tag::Object), length: 0, pairs: vec![] };
    assert_eq!(convert_default(vec![tagged], LuaValue::Table(0)), JsonValue::Object(Vec::new()));
}

#[test]
fn round_trips_nested_containers_through_lua() {
    // { a = 1, b = { true, json.null }, c = json.array({}) }
    let inner = LuaTable {
        tag: None,
        length: 2,
        pairs: vec![
            (LuaValue::Integer(1), LuaValue::Boolean(true)),
            (LuaValue::Integer(2), LuaValue::Null),
        ],
    };
    let empty = LuaTable { tag: Some(Tag::Array), length: 0, pairs: vec![] };
    let root = LuaTable {
        tag: None,
        length: 0,
        pairs: vec![
            (lua_text("c"), LuaValue::Table(1)),
            (lua_text("a"), LuaValue::Integer(1)),
            (lua_text("b"), LuaValue::Table(0)),
        ],
    };
    let json = convert_default(vec![inner, empty, root], LuaValue::Table(2));
    assert_eq!(
        json,
        object_value(vec![
            ("a", JsonValue::Integer(1)),
            ("b", JsonValue::Array(vec![JsonValue::Bool(true), JsonValue::Null])),
            ("c", JsonValue::Array(vec![])),
        ])
    );
    assert_eq!(through_lua(&json), json);
}

struct Rng(u64);

impl Rng {
    fn next(&mut self) -> u64 {
        self.0 = self
            .0
            .wrapping_mul(6_364_136_223_846_793_005)
            .wrapping_add(1_442_695_040_888_963_407);
        self.0
    }
}

fn random_json(rng: &mut Rng, depth: usize) -> JsonValue {
    let pick = rng.next() % if depth == 0 { 6 } else { 8 };
    match pick {
        0 => JsonValue::Null,
        1 => JsonValue::Bool(rng.next() % 2 == 0),
        2 => JsonValue::Integer((rng.next() % 2000) as i64 - 1000),
        3 => JsonValue::Number(format!("{:?}", (rng.next() % 100) as f64 / 4.0)),
        4 => JsonValue::String(format!("s{}", rng.next() % 50)),
        5 => JsonValue::String(String::new()),
        6 => {
            let length = (rng.next() % 4) as usize;
            let items = (0..length).map(|_| random_json(rng, depth - 1)).collect::<Vec<_>>();
            JsonValue::Array(items)
        }
        _ => {
            let length = (rng.next() % 4) as usize;
            let mut entries = Vec::new();
            for index in 0..length {
                entries.push((format!("k{index}"), random_json(rng, depth - 1)));
            }
            JsonValue::Object(entries)
        }
    }
}

#[test]
fn property_round_trips_generated_values() {
    let mut rng = Rng(0x1234_5678);
    for _ in 0..500 {
        let value = random_json(&mut rng, 3);
        assert_eq!(through_lua(&value), value);
    }
}

#[test]
fn generated_values_survive_emit_and_parse() {
    let mut rng = Rng(0x8765_4321);
    for _ in 0..500 {
        let value = random_json(&mut rng, 3);
        let text = emit(&value);
        assert_eq!(parse(text.as_bytes(), &JsonLimits::default()).unwrap(), value);
    }
}

#[test]
fn from_json_tags_containers_and_appends_tables() {
    let mut heap = LuaHeap { tables: vec![LuaTable { tag: None, length: 0, pairs: vec![] }] };
    let value = JsonValue::Array(vec![object_value(vec![]), JsonValue::Array(vec![])]);
    let root = from_json(&mut heap, &value);
    assert_eq!(heap.tables.len(), 4);
    assert!(matches!(root, LuaValue::Table(3)));
    assert_eq!(heap.tables[0].tag, None);
    assert_eq!(heap.tables[1].tag, Some(Tag::Object));
    assert_eq!(heap.tables[2].tag, Some(Tag::Array));
    assert_eq!(heap.tables[3].tag, Some(Tag::Array));
    assert_eq!(heap.tables[3].length, 2);
}

#[test]
fn emits_compact_canonical_text() {
    let value = object_value(vec![
        ("a", JsonValue::Array(vec![JsonValue::Integer(-12), JsonValue::Number("2".to_owned())])),
        ("b", string_value("q\"\\\n\u{1}")),
        ("c", JsonValue::Null),
    ]);
    assert_eq!(emit(&value), "{\"a\":[-12,2.0],\"b\":\"q\\\"\\\\\\n\\u0001\",\"c\":null}");
}

#[test]
fn parses_documents_and_reports_errors() {
    let limits = JsonLimits::default();
    let value = parse(b" { \"z\" : [1, 2.5e3, true], \"a\" : \"\\u00e9\" } ", &limits).unwrap();
    assert_eq!(
        value,
        object_value(vec![
            ("a", string_value("\u{e9}")),
            (
                "z",
                JsonValue::Array(vec![
                    JsonValue::Integer(1),
                    JsonValue::Number("2.5e3".to_owned()),
                    JsonValue::Bool(true),
                ]),
            ),
        ])
    );
    assert_eq!(
        parse(b"9007199254740993", &limits).unwrap(),
        JsonValue::Number("9007199254740993".to_owned())
    );
    assert_eq!(parse(b"{\"a\":1,\"a\":2}", &limits).unwrap_err().code(), ErrorCode::Validation);
    assert_eq!(parse(b"[1,]", &limits).unwrap_err().code(), ErrorCode::Validation);
    assert_eq!(parse(&[0xff], &limits).unwrap_err().code(), ErrorCode::Validation);
    let shallow = JsonLimits { max_depth: 1, ..JsonLimits::default() };
    assert_eq!(parse(b"[[1]]", &shallow).unwrap_err().code(), ErrorCode::BudgetExhausted);
}

#[test]
fn parse_rejects_malformed_and_non_finite_input() {
    let limits = JsonLimits::default();
    let rejected: Vec<Vec<u8>> = vec![
        br#"{"a":1,"a":2}"#.to_vec(),
        b"1 2".to_vec(),
        br#""\ud800""#.to_vec(),
        vec![0x22, 0x61, 0x01, 0x22],
        b"1e400".to_vec(),
        b"-1e400".to_vec(),
        b"01".to_vec(),
        b"[1,]".to_vec(),
        vec![0xFF],
    ];
    for bytes in rejected {
        assert_eq!(parse(&bytes, &limits).unwrap_err().code(), ErrorCode::Validation);
    }
    assert!(parse(b"1.7976931348623157e308", &limits).is_ok());
    assert!(parse(b"1e-400", &limits).is_ok());
    assert!(parse(b"1.7976931348623159e308", &limits).is_err());
}

#[test]
fn limit_errors_name_the_limit() {
    let limits = JsonLimits { max_depth: 1, ..JsonLimits::default() };
    assert!(limits.check_depth(1).is_ok());
    let error = limits.check_depth(2).unwrap_err();
    assert_eq!(error.code(), ErrorCode::BudgetExhausted);
    assert_eq!(error.message(), "JSON nesting depth limit exceeded");
    assert_eq!(JsonLimits::default().check_key_bytes(2000).unwrap_err().message(), "JSON key length limit exceeded");
}
