//! The API version 1 command declaration contract and its validation.
//!
//! The Lua adapter converts evaluated values into these types; numeric bounds
//! and number defaults arrive as the bit patterns of IEEE-754 doubles, and
//! [`CommandDeclaration::new`] is the single validator.
use crate::config::{is_control, is_control_exec};
use crate::error::{ErrorCode, KoruError};
use crate::json::parse::byte_len;
use crate::json::{Json, JsonValue, MAX_SAFE_INTEGER};
use crate::source::names::{identifier, is_identifier};
use crate::source::reader::string_texts;
use crate::text::{chars_of, fits_bytes, str_eq};
use vstd::prelude::*;

verus! {

broadcast use vstd::string::group_string_axioms;

/// Maximum bytes in a declaration description.
pub const MAX_DESCRIPTION_BYTES: usize = 1024;

/// Maximum number of declared arguments.
pub const MAX_ARGUMENTS: usize = 32;

/// Maximum number of declared tools.
pub const MAX_TOOLS: usize = 32;

/// Maximum values in one enum argument.
pub const MAX_ENUM_VALUES: usize = 64;

/// Maximum bytes in argument help text.
pub const MAX_HELP_BYTES: usize = 1024;

/// Maximum bytes in a string default or enum value.
pub const MAX_VALUE_BYTES: usize = 4096;

/// Whether the double with these bits is finite: its exponent is not all ones.
pub open spec fn finite_bits(bits: u64) -> bool {
    bits % 0x8000_0000_0000_0000 < 0x7FF0_0000_0000_0000
}

/// The order of finite doubles as integers: the magnitude bits, negated for
/// a set sign bit, so that both zeros meet at zero.
pub open spec fn order_key(bits: u64) -> int {
    if bits >= 0x8000_0000_0000_0000 {
        -((bits - 0x8000_0000_0000_0000) as int)
    } else {
        bits as int
    }
}

/// Text that is present when required, short enough, and free of control
/// characters.
pub open spec fn text_ok(value: Seq<char>, max_bytes: int, require_nonempty: bool) -> bool {
    &&& !require_nonempty || value.len() > 0
    &&& byte_len(value) <= max_bytes
    &&& forall|k: int| 0 <= k < value.len() ==> !is_control(#[trigger] value[k])
}

/// Supported argument value types; version 1 has no arrays or objects.
#[derive(Debug, Clone, PartialEq, Eq)]
pub enum ArgumentType {
    /// A UTF-8 string.
    String,
    /// A portable integer within the exact JSON number range.
    Integer,
    /// A finite number.
    Number,
    /// A boolean.
    Boolean,
    /// One of a fixed set of strings.
    Enum(Vec<String>),
}

/// A literal default value for an argument.
#[derive(Debug, Clone, PartialEq)]
pub enum ArgumentValue {
    /// A string literal.
    String(String),
    /// An integer literal.
    Integer(i64),
    /// A number literal, as the bits of a double.
    Number(u64),
    /// A boolean literal.
    Boolean(bool),
}

/// Whether a default value matches the argument type.
pub open spec fn default_ok(value: ArgumentValue, kind: ArgumentType) -> bool {
    match (value, kind) {
        (ArgumentValue::String(v), ArgumentType::String) => text_ok(v@, MAX_VALUE_BYTES as int, false),
        (ArgumentValue::String(v), ArgumentType::Enum(values)) => string_texts(values@).contains(v@),
        (ArgumentValue::Integer(n), ArgumentType::Integer) => -MAX_SAFE_INTEGER <= n <= MAX_SAFE_INTEGER,
        (ArgumentValue::Number(bits), ArgumentType::Number) => finite_bits(bits),
        (ArgumentValue::Boolean(_), ArgumentType::Boolean) => true,
        _ => false,
    }
}

/// One declared command argument and its schema.
#[derive(Debug, Clone, PartialEq)]
pub struct Argument {
    /// Portable lowercase name, unique within the declaration.
    pub name: String,
    /// Expected value type.
    pub kind: ArgumentType,
    /// Whether the caller must supply the argument.
    pub required: bool,
    /// Default value used when the argument is omitted.
    pub default: Option<ArgumentValue>,
    /// Short help text for the argument.
    pub help: Option<String>,
    /// Inclusive lower bound for numeric arguments, as the bits of a double.
    pub min: Option<u64>,
    /// Inclusive upper bound for numeric arguments, as the bits of a double.
    pub max: Option<u64>,
    /// Maximum byte length for string arguments.
    pub max_len: Option<u64>,
}

/// Whether an argument declaration is valid.
pub open spec fn argument_ok(a: Argument) -> bool {
    &&& is_identifier(a.name@)
    &&& match a.help {
        Some(h) => text_ok(h@, MAX_HELP_BYTES as int, false),
        None => true,
    }
    &&& !(a.required && a.default is Some)
    &&& match a.default {
        Some(d) => default_ok(d, a.kind),
        None => true,
    }
    &&& (a.min is Some || a.max is Some) ==> (a.kind is Integer || a.kind is Number)
    &&& match a.min {
        Some(b) => finite_bits(b),
        None => true,
    }
    &&& match a.max {
        Some(b) => finite_bits(b),
        None => true,
    }
    &&& match (a.min, a.max) {
        (Some(lo), Some(hi)) => order_key(lo) <= order_key(hi),
        _ => true,
    }
    &&& a.max_len is Some ==> a.kind is String
    &&& match a.kind {
        ArgumentType::Enum(values) => {
            let texts = string_texts(values@);
            &&& 1 <= texts.len() <= MAX_ENUM_VALUES
            &&& forall|k: int|
                0 <= k < texts.len() ==> text_ok(#[trigger] texts[k], MAX_VALUE_BYTES as int, false)
            &&& texts.no_duplicates()
        },
        _ => true,
    }
}

/// A tool declaration; the callback is retained by the Lua adapter.
#[derive(Debug, PartialEq)]
pub struct ToolDeclaration {
    /// Unique portable tool name.
    pub name: String,
    /// Human-readable description.
    pub description: String,
    /// JSON schema document for the tool arguments.
    pub parameters: JsonValue,
    /// Optional JSON schema document for the tool result.
    pub result: Option<JsonValue>,
}

/// Whether a tool declaration is valid.
pub open spec fn tool_ok(t: ToolDeclaration) -> bool {
    &&& is_identifier(t.name@)
    &&& text_ok(t.description@, MAX_DESCRIPTION_BYTES as int, true)
    &&& t.parameters.model() is Object
    &&& match t.result {
        Some(r) => r.model() is Object,
        None => true,
    }
}

/// Capabilities a script requests; the policy resolver alone produces grants.
#[derive(Debug, Clone, Copy, Default, PartialEq, Eq)]
pub struct Capabilities {
    /// The script asks to invoke direct processes.
    pub direct_processes: bool,
}

/// The names of arguments.
pub open spec fn argument_names(arguments: Seq<Argument>) -> Seq<Seq<char>> {
    Seq::new(arguments.len(), |k: int| arguments[k].name@)
}

/// The names of tools.
pub open spec fn tool_names(tools: Seq<ToolDeclaration>) -> Seq<Seq<char>> {
    Seq::new(tools.len(), |k: int| tools[k].name@)
}

/// Whether the parts of a version 1 declaration are valid.
pub open spec fn declaration_ok(
    description: Seq<char>,
    arguments: Seq<Argument>,
    tools: Seq<ToolDeclaration>,
) -> bool {
    &&& text_ok(description, MAX_DESCRIPTION_BYTES as int, true)
    &&& arguments.len() <= MAX_ARGUMENTS
    &&& forall|k: int| 0 <= k < arguments.len() ==> argument_ok(#[trigger] arguments[k])
    &&& argument_names(arguments).no_duplicates()
    &&& tools.len() <= MAX_TOOLS
    &&& forall|k: int| 0 <= k < tools.len() ==> tool_ok(#[trigger] tools[k])
    &&& tool_names(tools).no_duplicates()
}

fn invalid(detail: &str) -> (error: KoruError)
    ensures
        error.spec_code() == ErrorCode::Validation,
{
    KoruError::new(ErrorCode::Validation, detail)
}

fn text_valid(value: &str, max_bytes: usize, require_nonempty: bool) -> (ok: bool)
    requires
        max_bytes <= 4096,
    ensures
        ok == text_ok(value@, max_bytes as int, require_nonempty),
{
    let chars = chars_of(value);
    if require_nonempty && chars.len() == 0 {
        return false;
    }
    if !fits_bytes(value, max_bytes) {
        return false;
    }
    let mut i: usize = 0;
    while i < chars.len()
        invariant
            i <= chars@.len(),
            chars@ == value@,
            forall|k: int| 0 <= k < i ==> !is_control(#[trigger] value@[k]),
        decreases chars@.len() - i,
    {
        if is_control_exec(chars[i]) {
            assert(is_control(value@[i as int]));
            return false;
        }
        i = i + 1;
    }
    true
}

fn finite(bits: u64) -> (ok: bool)
    ensures
        ok == finite_bits(bits),
{
    bits % 0x8000_0000_0000_0000 < 0x7FF0_0000_0000_0000
}

/// Whether `lo` orders above `hi`.
fn above(lo: u64, hi: u64) -> (greater: bool)
    ensures
        greater == (order_key(lo) > order_key(hi)),
{
    let top: u64 = 0x8000_0000_0000_0000;
    if lo >= top {
        if hi >= top {
            lo - top < hi - top
        } else {
            false
        }
    } else if hi >= top {
        lo > 0 || hi > top
    } else {
        lo > hi
    }
}

fn contains_text(values: &Vec<String>, value: &str) -> (found: bool)
    ensures
        found == string_texts(values@).contains(value@),
{
    let mut i: usize = 0;
    while i < values.len()
        invariant
            i <= values@.len(),
            forall|k: int| 0 <= k < i ==> string_texts(values@)[k] != value@,
        decreases values@.len() - i,
    {
        if str_eq(values[i].as_str(), value) {
            assert(string_texts(values@)[i as int] == value@);
            return true;
        }
        i = i + 1;
    }
    proof {
        if string_texts(values@).contains(value@) {
            let k = string_texts(values@).index_of(value@);
            assert(string_texts(values@)[k] == value@);
        }
    }
    false
}

impl ArgumentValue {
    fn matches(&self, kind: &ArgumentType) -> (ok: bool)
        ensures
            ok == default_ok(*self, *kind),
    {
        match (self, kind) {
            (ArgumentValue::String(v), ArgumentType::String) => text_valid(v.as_str(), MAX_VALUE_BYTES, false),
            (ArgumentValue::String(v), ArgumentType::Enum(values)) => contains_text(values, v.as_str()),
            (ArgumentValue::Integer(n), ArgumentType::Integer) => -MAX_SAFE_INTEGER <= *n && *n <= MAX_SAFE_INTEGER,
            (ArgumentValue::Number(bits), ArgumentType::Number) => finite(*bits),
            (ArgumentValue::Boolean(_), ArgumentType::Boolean) => true,
            _ => false,
        }
    }
}

fn enum_values_valid(values: &Vec<String>) -> (ok: bool)
    ensures
        ok == ({
            let texts = string_texts(values@);
            &&& 1 <= texts.len() <= MAX_ENUM_VALUES
            &&& forall|k: int|
                0 <= k < texts.len() ==> text_ok(#[trigger] texts[k], MAX_VALUE_BYTES as int, false)
            &&& texts.no_duplicates()
        }),
{
    let ghost texts = string_texts(values@);
    if values.len() == 0 || values.len() > MAX_ENUM_VALUES {
        return false;
    }
    let mut i: usize = 0;
    while i < values.len()
        invariant
            i <= values@.len(),
            texts == string_texts(values@),
            forall|k: int| 0 <= k < i ==> text_ok(#[trigger] texts[k], MAX_VALUE_BYTES as int, false),
            forall|a: int, b: int| 0 <= a < b < i ==> texts[a] != texts[b],
        decreases values@.len() - i,
    {
        if !text_valid(values[i].as_str(), MAX_VALUE_BYTES, false) {
            assert(!text_ok(texts[i as int], MAX_VALUE_BYTES as int, false));
            return false;
        }
        let mut j: usize = 0;
        while j < i
            invariant
                j <= i < values@.len(),
                texts == string_texts(values@),
                forall|a: int| 0 <= a < j ==> texts[a] != texts[i as int],
            decreases i - j,
        {
            if str_eq(values[j].as_str(), values[i].as_str()) {
                assert(texts[j as int] == texts[i as int]);
                return false;
            }
            j = j + 1;
        }
        i = i + 1;
    }
    true
}

impl Argument {
    /// Check one argument declaration.
    pub fn validate(&self) -> (result: Result<(), KoruError>)
        ensures
            result is Ok <==> argument_ok(*self),
            result matches Err(e) ==> e.spec_code() == ErrorCode::Validation,
    {
        if !identifier(self.name.as_str()) {
            return Err(invalid("invalid argument name"));
        }
        if let Some(help) = &self.help {
            if !text_valid(help.as_str(), MAX_HELP_BYTES, false) {
                return Err(invalid("argument help is not valid text"));
            }
        }
        if self.required && self.default.is_some() {
            return Err(invalid("an argument cannot be required and have a default"));
        }
        if let Some(default) = &self.default {
            if !default.matches(&self.kind) {
                return Err(invalid("default does not match the argument type"));
            }
        }
        let numeric = match self.kind {
            ArgumentType::Integer | ArgumentType::Number => true,
            _ => false,
        };
        if (self.min.is_some() || self.max.is_some()) && !numeric {
            return Err(invalid("argument has numeric bounds but is not numeric"));
        }
        if let Some(lo) = self.min {
            if !finite(lo) {
                return Err(invalid("argument has a nonfinite bound"));
            }
        }
        if let Some(hi) = self.max {
            if !finite(hi) {
                return Err(invalid("argument has a nonfinite bound"));
            }
        }
        if let (Some(lo), Some(hi)) = (self.min, self.max) {
            if above(lo, hi) {
                return Err(invalid("argument has min greater than max"));
            }
        }
        if self.max_len.is_some() && !matches!(self.kind, ArgumentType::String) {
            return Err(invalid("argument has max_len but is not a string"));
        }
        if let ArgumentType::Enum(values) = &self.kind {
            if !enum_values_valid(values) {
                return Err(invalid("argument enum values are not valid"));
            }
        }
        Ok(())
    }
}

impl ToolDeclaration {
    /// Check one tool declaration.
    pub fn validate(&self) -> (result: Result<(), KoruError>)
        ensures
            result is Ok <==> tool_ok(*self),
            result matches Err(e) ==> e.spec_code() == ErrorCode::Validation,
    {
        if !identifier(self.name.as_str()) {
            return Err(invalid("invalid tool name"));
        }
        if !text_valid(self.description.as_str(), MAX_DESCRIPTION_BYTES, true) {
            return Err(invalid("tool description is not valid text"));
        }
        if !matches!(self.parameters, JsonValue::Object(_)) {
            return Err(invalid("tool parameters must be a JSON object"));
        }
        if let Some(result) = &self.result {
            if !matches!(result, JsonValue::Object(_)) {
                return Err(invalid("tool result must be a JSON object"));
            }
        }
        Ok(())
    }
}

/// A validated API version 1 command declaration.
#[derive(Debug, PartialEq)]
pub struct CommandDeclaration {
    api_version: u32,
    description: String,
    arguments: Vec<Argument>,
    capabilities: Capabilities,
    tools: Vec<ToolDeclaration>,
}

fn arguments_valid(arguments: &Vec<Argument>) -> (result: Result<(), KoruError>)
    ensures
        result is Ok <==> (forall|k: int| 0 <= k < arguments@.len() ==> argument_ok(#[trigger] arguments@[k]))
            && argument_names(arguments@).no_duplicates(),
        result matches Err(e) ==> e.spec_code() == ErrorCode::Validation,
{
    let ghost names = argument_names(arguments@);
    let mut i: usize = 0;
    while i < arguments.len()
        invariant
            i <= arguments@.len(),
            names == argument_names(arguments@),
            forall|k: int| 0 <= k < i ==> argument_ok(#[trigger] arguments@[k]),
            forall|a: int, b: int| 0 <= a < b < i ==> names[a] != names[b],
        decreases arguments@.len() - i,
    {
        if let Err(error) = arguments[i].validate() {
            return Err(error);
        }
        let mut j: usize = 0;
        while j < i
            invariant
                j <= i < arguments@.len(),
                names == argument_names(arguments@),
                forall|a: int| 0 <= a < j ==> names[a] != names[i as int],
            decreases i - j,
        {
            if str_eq(arguments[j].name.as_str(), arguments[i].name.as_str()) {
                assert(names[j as int] == names[i as int]);
                return Err(invalid("duplicate argument name"));
            }
            j = j + 1;
        }
        i = i + 1;
    }
    Ok(())
}

fn tools_valid(tools: &Vec<ToolDeclaration>) -> (result: Result<(), KoruError>)
    ensures
        result is Ok <==> (forall|k: int| 0 <= k < tools@.len() ==> tool_ok(#[trigger] tools@[k]))
            && tool_names(tools@).no_duplicates(),
        result matches Err(e) ==> e.spec_code() == ErrorCode::Validation,
{
    let ghost names = tool_names(tools@);
    let mut i: usize = 0;
    while i < tools.len()
        invariant
            i <= tools@.len(),
            names == tool_names(tools@),
            forall|k: int| 0 <= k < i ==> tool_ok(#[trigger] tools@[k]),
            forall|a: int, b: int| 0 <= a < b < i ==> names[a] != names[b],
        decreases tools@.len() - i,
    {
        if let Err(error) = tools[i].validate() {
            return Err(error);
        }
        let mut j: usize = 0;
        while j < i
            invariant
                j <= i < tools@.len(),
                names == tool_names(tools@),
                forall|a: int| 0 <= a < j ==> names[a] != names[i as int],
            decreases i - j,
        {
            if str_eq(tools[j].name.as_str(), tools[i].name.as_str()) {
                assert(names[j as int] == names[i as int]);
                return Err(invalid("duplicate tool name"));
            }
            j = j + 1;
        }
        i = i + 1;
    }
    Ok(())
}

impl CommandDeclaration {
    /// The declared API version.
    pub closed spec fn spec_api_version(&self) -> u32 {
        self.api_version
    }

    /// The description.
    pub closed spec fn spec_description(&self) -> Seq<char> {
        self.description@
    }

    /// The arguments.
    pub closed spec fn spec_arguments(&self) -> Seq<Argument> {
        self.arguments@
    }

    /// The requested capabilities.
    pub closed spec fn spec_capabilities(&self) -> Capabilities {
        self.capabilities
    }

    /// The tools.
    pub closed spec fn spec_tools(&self) -> Seq<ToolDeclaration> {
        self.tools@
    }

    /// Validate and construct a declaration from already-parsed parts.
    pub fn new(
        api_version: u32,
        description: String,
        arguments: Vec<Argument>,
        capabilities: Capabilities,
        tools: Vec<ToolDeclaration>,
    ) -> (result: Result<CommandDeclaration, KoruError>)
        ensures
            api_version != 1 ==> (result matches Err(e) && e.spec_code()
                == ErrorCode::UnsupportedCapability),
            api_version == 1 && declaration_ok(description@, arguments@, tools@) ==> (
            result matches Ok(d) && d.spec_api_version() == 1 && d.spec_description()
                == description@ && d.spec_arguments() == arguments@ && d.spec_capabilities()
                == capabilities && d.spec_tools() == tools@),
            api_version == 1 && !declaration_ok(description@, arguments@, tools@) ==> (
            result matches Err(e) && e.spec_code() == ErrorCode::Validation),
    {
        if api_version != crate::API_VERSION {
            return Err(KoruError::new(ErrorCode::UnsupportedCapability, "unsupported declaration API version"));
        }
        if !text_valid(description.as_str(), MAX_DESCRIPTION_BYTES, true) {
            return Err(invalid("description is not valid text"));
        }
        if arguments.len() > MAX_ARGUMENTS {
            return Err(invalid("a command may declare at most 32 arguments"));
        }
        if let Err(error) = arguments_valid(&arguments) {
            return Err(error);
        }
        if tools.len() > MAX_TOOLS {
            return Err(invalid("a command may declare at most 32 tools"));
        }
        if let Err(error) = tools_valid(&tools) {
            return Err(error);
        }
        Ok(CommandDeclaration { api_version, description, arguments, capabilities, tools })
    }

    /// The declared API version, always 1 when valid.
    pub fn api_version(&self) -> (version: u32)
        ensures
            version == self.spec_api_version(),
    {
        self.api_version
    }

    /// One-line human-readable summary.
    pub fn description(&self) -> (description: &str)
        ensures
            description@ == self.spec_description(),
    {
        self.description.as_str()
    }

    /// Declared arguments in order.
    pub fn arguments(&self) -> (arguments: &[Argument])
        ensures
            arguments@ == self.spec_arguments(),
    {
        self.arguments.as_slice()
    }

    /// Capabilities requested by the script; never a grant.
    pub fn capabilities(&self) -> (capabilities: Capabilities)
        ensures
            capabilities == self.spec_capabilities(),
    {
        self.capabilities
    }

    /// Declared tools in order; callbacks are retained by the Lua adapter.
    pub fn tools(&self) -> (tools: &[ToolDeclaration])
        ensures
            tools@ == self.spec_tools(),
    {
        self.tools.as_slice()
    }
}

} // verus!
