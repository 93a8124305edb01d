use koru::declaration::{
    Argument, ArgumentType, ArgumentValue, Capabilities, CommandDeclaration, ToolDeclaration,
};
use koru::effects::process::{Stream, STREAM_CAP};
use koru::error::{ErrorCode, KoruError};
use koru::json::JsonValue;
use koru::schema::JsonType;

fn argument(name: &str, kind: ArgumentType) -> Argument {
    Argument {
        name: name.to_owned(),
        kind,
        required: false,
        default: None,
        help: None,
        min: None,
        max: None,
        max_len: None,
    }
}

fn tool(name: &str) -> ToolDeclaration {
    ToolDeclaration {
        name: name.to_owned(),
        description: "does things".to_owned(),
        parameters: JsonValue::Object(Vec::new()),
        result: None,
    }
}

fn declare(arguments: Vec<Argument>, tools: Vec<ToolDeclaration>) -> Result<CommandDeclaration, KoruError> {
    CommandDeclaration::new(1, "deploy the site".to_owned(), arguments, Capabilities::default(), tools)
}

#[test]
fn valid_declarations_keep_their_parts() {
    let mut count = argument("count", ArgumentType::Integer);
    count.min = Some(1.0f64.to_bits());
    count.max = Some(10.0f64.to_bits());
    count.default = Some(ArgumentValue::Integer(3));
    let mut mode = argument("mode", ArgumentType::Enum(vec!["fast".to_owned(), "slow".to_owned()]));
    mode.default = Some(ArgumentValue::String("slow".to_owned()));
    let declaration = CommandDeclaration::new(
        1,
        "deploy the site".to_owned(),
        vec![count, mode],
        Capabilities { direct_processes: true },
        vec![tool("lookup")],
    )
    .unwrap();
    assert_eq!(declaration.api_version(), 1);
    assert_eq!(declaration.description(), "deploy the site");
    assert_eq!(declaration.arguments().len(), 2);
    assert!(declaration.capabilities().direct_processes);
    assert_eq!(declaration.tools()[0].name, "lookup");
}

#[test]
fn declarations_are_checked_as_a_whole() {
    let error = CommandDeclaration::new(2, "x".to_owned(), vec![], Capabilities::default(), vec![]).err().unwrap();
    assert_eq!(error.code(), ErrorCode::UnsupportedCapability);
    let error = CommandDeclaration::new(1, String::new(), vec![], Capabilities::default(), vec![]).err().unwrap();
    assert_eq!(error.code(), ErrorCode::Validation);
    let twice = vec![argument("a", ArgumentType::String), argument("a", ArgumentType::Boolean)];
    assert_eq!(declare(twice, vec![]).err().unwrap().code(), ErrorCode::Validation);
    assert_eq!(declare(vec![], vec![tool("t"), tool("t")]).err().unwrap().code(), ErrorCode::Validation);
    let mut bad_tool = tool("t");
    bad_tool.parameters = JsonValue::Array(Vec::new());
    assert_eq!(declare(vec![], vec![bad_tool]).err().unwrap().code(), ErrorCode::Validation);
    let many = (0..33).map(|i| argument(&format!("a{i}"), ArgumentType::String)).collect();
    assert_eq!(declare(many, vec![]).err().unwrap().code(), ErrorCode::Validation);
}

#[test]
fn arguments_are_checked_field_by_field() {
    let mut a = argument("Bad", ArgumentType::String);
    assert!(a.validate().is_err());
    a = argument("n", ArgumentType::String);
    a.min = Some(0.0f64.to_bits());
    assert_eq!(a.validate().unwrap_err().code(), ErrorCode::Validation);
    a = argument("n", ArgumentType::Number);
    a.min = Some(2.5f64.to_bits());
    a.max = Some((-1.0f64).to_bits());
    assert!(a.validate().is_err());
    a.max = Some(f64::INFINITY.to_bits());
    assert!(a.validate().is_err());
    a.max = Some(2.5f64.to_bits());
    assert!(a.validate().is_ok());
    a.min = Some((-0.0f64).to_bits());
    a.max = Some(0.0f64.to_bits());
    assert!(a.validate().is_ok());
    a.default = Some(ArgumentValue::Number(f64::NAN.to_bits()));
    assert!(a.validate().is_err());
    a.default = Some(ArgumentValue::Number(1.5f64.to_bits()));
    assert!(a.validate().is_ok());
    a.required = true;
    assert!(a.validate().is_err());
    let mut e = argument("e", ArgumentType::Enum(vec![]));
    assert!(e.validate().is_err());
    e.kind = ArgumentType::Enum(vec!["x".to_owned(), "x".to_owned()]);
    assert!(e.validate().is_err());
    e.kind = ArgumentType::Enum(vec!["x".to_owned(), "y".to_owned()]);
    e.default = Some(ArgumentValue::String("z".to_owned()));
    assert!(e.validate().is_err());
    let mut s = argument("s", ArgumentType::Boolean);
    s.max_len = Some(3);
    assert!(s.validate().is_err());
    s.kind = ArgumentType::String;
    s.help = Some("bell\u{7}".to_owned());
    assert!(s.validate().is_err());
    s.help = Some("a short help".to_owned());
    assert!(s.validate().is_ok());
    let mut i = argument("i", ArgumentType::Integer);
    i.default = Some(ArgumentValue::Integer(9_007_199_254_740_992));
    assert!(i.validate().is_err());
}

#[test]
fn json_types_have_stable_names() {
    for kind in [
        JsonType::Object,
        JsonType::Array,
        JsonType::String,
        JsonType::Boolean,
        JsonType::Integer,
        JsonType::Number,
        JsonType::Null,
    ] {
        assert_eq!(JsonType::from_name(kind.name()), Some(kind));
    }
    assert_eq!(JsonType::Boolean.name(), "boolean");
    assert_eq!(JsonType::from_name("float"), None);
}

#[test]
fn process_streams_keep_only_the_cap() {
    let mut stream = Stream::new();
    stream.accept(&vec![1u8; STREAM_CAP - 10]);
    assert!(!stream.truncated);
    stream.accept(&[2u8; 10]);
    assert_eq!(stream.bytes.len(), STREAM_CAP);
    assert!(!stream.truncated);
    stream.accept(&[3u8; 1]);
    assert_eq!(stream.bytes.len(), STREAM_CAP);
    assert!(stream.truncated);
    let mut short = Stream::new();
    short.accept(&vec![5u8; STREAM_CAP + 1]);
    assert_eq!(short.bytes.len(), STREAM_CAP);
    assert!(short.truncated);
}

#[test]
fn path_errors_keep_their_cause() {
    let error = KoruError::at_path("/tmp/x", std::io::Error::new(std::io::ErrorKind::Other, "gone"));
    assert_eq!(error.code(), ErrorCode::Io);
    assert_eq!(error.message(), "cannot access /tmp/x");
    let (_, _, source) = error.into_parts();
    assert!(source.is_some());
}
