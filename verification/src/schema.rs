//! The schema subset used to validate tool contracts.
//!
//! Only the documented subset is accepted: `type`, `properties`, `required`,
//! `additionalProperties`, `items`, `minItems`, `maxItems`, `minLength`,
//! `maxLength`, `minimum`, `maximum`, `enum`, and the `description` annotation.
//! Every other keyword is rejected, so a provider never silently ignores a
//! constraint. Compilation and checking live in submodules; this root holds
//! the data model and shared helpers.
mod compile;
mod read;
mod validate;

pub use compile::{
    all_keywords, blank_draft, compile_doc, declares, finalize, integer_bound_ok, known_keyword,
    lengths_cross, unsupported_keywords_are_rejected,
    props_model, put, read_entries, read_props, resolve, step, Draft,
};
pub use read::{enum_types, enum_values, number_bound, read_types, required_names, type_names, types_of};
pub use validate::{at_least, bound_ok, enum_ok, has_key, keys_cover, length_ok, type_allowed, valid};

use crate::ai::supported_keywords;
use crate::error::{ErrorCode, KoruError};
use crate::json::{Json, JsonLimits, JsonValue};
use vstd::prelude::*;

verus! {

broadcast use vstd::string::group_string_axioms;

/// A JSON type name supported by the schema subset.
#[derive(Debug, Clone, Copy, PartialEq, Eq, PartialOrd, Ord, Hash, Structural)]
pub enum JsonType {
    /// A JSON object.
    Object,
    /// A JSON array.
    Array,
    /// A JSON string.
    String,
    /// A JSON boolean.
    Boolean,
    /// A JSON integer within the portable range.
    Integer,
    /// A finite JSON number.
    Number,
    /// JSON null.
    Null,
}

/// The stable name of a type.
pub open spec fn kind_label(kind: JsonType) -> Seq<char> {
    match kind {
        JsonType::Object => "object"@,
        JsonType::Array => "array"@,
        JsonType::String => "string"@,
        JsonType::Boolean => "boolean"@,
        JsonType::Integer => "integer"@,
        JsonType::Number => "number"@,
        JsonType::Null => "null"@,
    }
}

/// The type a name denotes, if any.
pub open spec fn named_type(name: Seq<char>) -> Option<JsonType> {
    if name == kind_label(JsonType::Object) {
        Some(JsonType::Object)
    } else if name == kind_label(JsonType::Array) {
        Some(JsonType::Array)
    } else if name == kind_label(JsonType::String) {
        Some(JsonType::String)
    } else if name == kind_label(JsonType::Boolean) {
        Some(JsonType::Boolean)
    } else if name == kind_label(JsonType::Integer) {
        Some(JsonType::Integer)
    } else if name == kind_label(JsonType::Number) {
        Some(JsonType::Number)
    } else if name == kind_label(JsonType::Null) {
        Some(JsonType::Null)
    } else {
        None
    }
}

proof fn lemma_labels_distinct()
    ensures
        forall|a: JsonType, b: JsonType| a != b ==> kind_label(a) != kind_label(b),
{
    reveal_strlit("object");
    reveal_strlit("array");
    reveal_strlit("string");
    reveal_strlit("boolean");
    reveal_strlit("integer");
    reveal_strlit("number");
    reveal_strlit("null");
    assert forall|a: JsonType, b: JsonType| a != b implies kind_label(a) != kind_label(b) by {
        let x = kind_label(a);
        let y = kind_label(b);
        if x == y {
            assert(x.len() == y.len());
            assert(x[0] == y[0]);
            assert(x[1] == y[1]);
            assert(x[2] == y[2]);
        }
    }
}

impl JsonType {
    /// Stable name used in error messages.
    pub fn name(self) -> (name: &'static str)
        ensures
            name@ == kind_label(self),
    {
        match self {
            JsonType::Object => "object",
            JsonType::Array => "array",
            JsonType::String => "string",
            JsonType::Boolean => "boolean",
            JsonType::Integer => "integer",
            JsonType::Number => "number",
            JsonType::Null => "null",
        }
    }

    /// The type with this name, if any.
    pub fn from_name(name: &str) -> (kind: Option<JsonType>)
        ensures
            kind == named_type(name@),
    {
        proof {
            lemma_labels_distinct();
        }
        let all = [
            JsonType::Object,
            JsonType::Array,
            JsonType::String,
            JsonType::Boolean,
            JsonType::Integer,
            JsonType::Number,
            JsonType::Null,
        ];
        let mut i: usize = 0;
        while i < 7
            invariant
                i <= 7,
                all@ == seq![
                    JsonType::Object,
                    JsonType::Array,
                    JsonType::String,
                    JsonType::Boolean,
                    JsonType::Integer,
                    JsonType::Number,
                    JsonType::Null,
                ],
                forall|j: int| 0 <= j < i ==> kind_label(#[trigger] all@[j]) != name@,
            decreases 7 - i,
        {
            if crate::text::str_eq(all[i].name(), name) {
                return Some(all[i]);
            }
            i = i + 1;
        }
        assert forall|k: JsonType| kind_label(k) != name@ by {
            match k {
                JsonType::Object => assert(kind_label(all@[0]) != name@),
                JsonType::Array => assert(kind_label(all@[1]) != name@),
                JsonType::String => assert(kind_label(all@[2]) != name@),
                JsonType::Boolean => assert(kind_label(all@[3]) != name@),
                JsonType::Integer => assert(kind_label(all@[4]) != name@),
                JsonType::Number => assert(kind_label(all@[5]) != name@),
                JsonType::Null => assert(kind_label(all@[6]) != name@),
            }
        }
        None
    }
}


/// A set of JSON types, one flag per type.
#[derive(Debug, Clone, Copy, PartialEq, Eq, Structural)]
pub struct TypeSet {
    /// Objects.
    pub object: bool,
    /// Arrays.
    pub array: bool,
    /// Strings.
    pub string: bool,
    /// Booleans.
    pub boolean: bool,
    /// Integers.
    pub integer: bool,
    /// Numbers.
    pub number: bool,
    /// Null.
    pub null: bool,
}

/// The set with no type.
pub open spec fn no_types() -> TypeSet {
    TypeSet {
        object: false,
        array: false,
        string: false,
        boolean: false,
        integer: false,
        number: false,
        null: false,
    }
}

impl TypeSet {
    /// Whether the set holds `kind`.
    pub open spec fn has(self, kind: JsonType) -> bool {
        match kind {
            JsonType::Object => self.object,
            JsonType::Array => self.array,
            JsonType::String => self.string,
            JsonType::Boolean => self.boolean,
            JsonType::Integer => self.integer,
            JsonType::Number => self.number,
            JsonType::Null => self.null,
        }
    }

    /// The set with `kind` added.
    pub open spec fn with(self, kind: JsonType) -> TypeSet {
        match kind {
            JsonType::Object => TypeSet { object: true, ..self },
            JsonType::Array => TypeSet { array: true, ..self },
            JsonType::String => TypeSet { string: true, ..self },
            JsonType::Boolean => TypeSet { boolean: true, ..self },
            JsonType::Integer => TypeSet { integer: true, ..self },
            JsonType::Number => TypeSet { number: true, ..self },
            JsonType::Null => TypeSet { null: true, ..self },
        }
    }

    /// The empty set.
    pub fn empty() -> (set: TypeSet)
        ensures
            set == no_types(),
    {
        TypeSet {
            object: false,
            array: false,
            string: false,
            boolean: false,
            integer: false,
            number: false,
            null: false,
        }
    }

    /// Whether the set holds `kind`.
    pub fn contains(&self, kind: JsonType) -> (found: bool)
        ensures
            found == self.has(kind),
    {
        match kind {
            JsonType::Object => self.object,
            JsonType::Array => self.array,
            JsonType::String => self.string,
            JsonType::Boolean => self.boolean,
            JsonType::Integer => self.integer,
            JsonType::Number => self.number,
            JsonType::Null => self.null,
        }
    }

    /// Add `kind` to the set.
    pub fn insert(&mut self, kind: JsonType)
        ensures
            *final(self) == old(self).with(kind),
    {
        match kind {
            JsonType::Object => self.object = true,
            JsonType::Array => self.array = true,
            JsonType::String => self.string = true,
            JsonType::Boolean => self.boolean = true,
            JsonType::Integer => self.integer = true,
            JsonType::Number => self.number = true,
            JsonType::Null => self.null = true,
        }
    }
}

/// The supported keyword at position `i` of [`supported_keywords`].
pub fn keyword_name(i: usize) -> (name: &'static str)
    requires
        i < 12,
    ensures
        name@ == supported_keywords()[i as int],
{
    match i {
        0 => "type",
        1 => "enum",
        2 => "minimum",
        3 => "maximum",
        4 => "minLength",
        5 => "maxLength",
        6 => "items",
        7 => "minItems",
        8 => "maxItems",
        9 => "properties",
        10 => "required",
        _ => "additionalProperties",
    }
}

/// No keyword marked.
pub open spec fn no_keywords() -> Seq<bool> {
    Seq::new(12, |i: int| false)
}

/// `marks` with the supported keyword `key`, if it is one, marked.
pub open spec fn mark_keyword(marks: Seq<bool>, key: Seq<char>) -> Seq<bool> {
    Seq::new(12, |i: int| marks[i] || supported_keywords()[i] == key)
}

/// The content of a compiled schema.
pub struct SchemaModel {
    /// The accepted types, when restricted.
    pub types: Option<TypeSet>,
    /// The allowed values, when restricted.
    pub enum_values: Option<Seq<Json>>,
    /// The inclusive lower bound of numbers.
    pub minimum: Option<Json>,
    /// The inclusive upper bound of numbers.
    pub maximum: Option<Json>,
    /// The least string length in bytes.
    pub min_length: Option<u64>,
    /// The greatest string length in bytes.
    pub max_length: Option<u64>,
    /// The schema of array items.
    pub items: Option<Box<SchemaModel>>,
    /// The least array length.
    pub min_items: Option<u64>,
    /// The greatest array length.
    pub max_items: Option<u64>,
    /// The schemas of named properties, by name.
    pub properties: Seq<(Seq<char>, SchemaModel)>,
    /// The properties an object must have.
    pub required: Seq<Seq<char>>,
    /// Whether undeclared properties are allowed.
    pub additional_properties: bool,
    /// The supported keywords used anywhere, one flag per keyword.
    pub keywords: Seq<bool>,
    /// The document the schema was compiled from.
    pub document: Json,
}

/// A schema that accepts everything, before any keyword is read.
pub open spec fn blank_model() -> SchemaModel {
    SchemaModel {
        types: None,
        enum_values: None,
        minimum: None,
        maximum: None,
        min_length: None,
        max_length: None,
        items: None,
        min_items: None,
        max_items: None,
        properties: Seq::empty(),
        required: Seq::empty(),
        additional_properties: true,
        keywords: no_keywords(),
        document: Json::Null,
    }
}

/// The schema under `name` among `properties`, the first one listed.
pub open spec fn property(properties: Seq<(Seq<char>, SchemaModel)>, name: Seq<char>) -> Option<
    SchemaModel,
>
    decreases properties.len(),
{
    if properties.len() == 0 {
        None
    } else if properties[0].0 == name {
        Some(properties[0].1)
    } else {
        property(properties.drop_first(), name)
    }
}

/// A compiled, bounded JSON schema.
#[derive(Debug, PartialEq)]
pub struct JsonSchema {
    pub(crate) types: Option<TypeSet>,
    pub(crate) enum_values: Option<Vec<JsonValue>>,
    pub(crate) minimum: Option<JsonValue>,
    pub(crate) maximum: Option<JsonValue>,
    pub(crate) min_length: Option<u64>,
    pub(crate) max_length: Option<u64>,
    pub(crate) items: Option<Box<JsonSchema>>,
    pub(crate) min_items: Option<u64>,
    pub(crate) max_items: Option<u64>,
    pub(crate) properties: Vec<(String, JsonSchema)>,
    pub(crate) required: Vec<String>,
    pub(crate) additional_properties: bool,
    pub(crate) keywords: Vec<bool>,
    pub(crate) document: JsonValue,
}

impl JsonSchema {
    /// The content of this schema.
    pub open(crate) spec fn model(&self) -> SchemaModel
        decreases self,
    {
        SchemaModel {
            types: self.types,
            enum_values: match &self.enum_values {
                Some(values) => Some(crate::json::models(values@)),
                None => None,
            },
            minimum: match &self.minimum {
                Some(v) => Some(v.model()),
                None => None,
            },
            maximum: match &self.maximum {
                Some(v) => Some(v.model()),
                None => None,
            },
            min_length: self.min_length,
            max_length: self.max_length,
            items: match &self.items {
                Some(schema) => Some(Box::new(schema.model())),
                None => None,
            },
            min_items: self.min_items,
            max_items: self.max_items,
            properties: Seq::new(
                self.properties@.len(),
                |k: int|
                    if 0 <= k < self.properties@.len() {
                        (self.properties@[k].0@, self.properties@[k].1.model())
                    } else {
                        (Seq::empty(), blank_model())
                    },
            ),
            required: Seq::new(self.required@.len(), |k: int| self.required@[k]@),
            additional_properties: self.additional_properties,
            keywords: self.keywords@,
            document: self.document.model(),
        }
    }
}


/// A path segment with `~` and `/` escaped as in a JSON pointer.
pub open spec fn escaped_segment(segment: Seq<char>) -> Seq<char>
    decreases segment.len(),
{
    if segment.len() == 0 {
        Seq::empty()
    } else {
        let c = segment.last();
        escaped_segment(segment.drop_last()) + if c == '~' {
            seq!['~', '0']
        } else if c == '/' {
            seq!['~', '1']
        } else {
            seq![c]
        }
    }
}

/// The path of `segment` below `path`.
pub fn child(path: &str, segment: &str) -> (out: String)
    ensures
        out@ == path@ + seq!['/'] + escaped_segment(segment@),
{
    let mut out = path.to_string();
    crate::text::push_char(&mut out, '/');
    let chars = crate::text::chars_of(segment);
    let mut i: usize = 0;
    while i < chars.len()
        invariant
            i <= chars@.len(),
            chars@ == segment@,
            out@ == path@ + seq!['/'] + escaped_segment(chars@.take(i as int)),
        decreases chars@.len() - i,
    {
        let c = chars[i];
        assert(chars@.take(i + 1).drop_last() =~= chars@.take(i as int));
        if c == '~' {
            crate::text::push_char(&mut out, '~');
            crate::text::push_char(&mut out, '0');
        } else if c == '/' {
            crate::text::push_char(&mut out, '~');
            crate::text::push_char(&mut out, '1');
        } else {
            crate::text::push_char(&mut out, c);
        }
        i = i + 1;
    }
    assert(chars@.take(chars@.len() as int) =~= chars@);
    out
}

/// A validation error at `path`.
pub fn schema_error(path: &str, detail: &str) -> (error: KoruError)
    ensures
        error.spec_code() == ErrorCode::Validation,
{
    if path.len() == 0 {
        KoruError::new(ErrorCode::Validation, detail)
    } else {
        let mut message = path.to_string();
        crate::text::push_str(&mut message, ": ");
        crate::text::push_str(&mut message, detail);
        KoruError::new(ErrorCode::Validation, message.as_str())
    }
}


/// The names of the marked keywords among the first `n`, in the order of
/// [`supported_keywords`].
pub open spec fn marked_names(marks: Seq<bool>, n: int) -> Seq<Seq<char>>
    decreases n,
{
    if n <= 0 {
        Seq::empty()
    } else {
        marked_names(marks, n - 1) + if n - 1 < marks.len() && marks[n - 1] {
            seq![supported_keywords()[n - 1]]
        } else {
            Seq::empty()
        }
    }
}

/// The set holding only objects.
pub open spec fn object_only() -> TypeSet {
    no_types().with(JsonType::Object)
}

impl JsonSchema {
    /// Compile a bounded schema document; unsupported keywords are rejected.
    pub fn compile(document: &JsonValue, limits: &JsonLimits) -> (result: Result<JsonSchema, KoruError>)
        ensures
            match compile_doc(document.model(), *limits, 0) {
                Ok(m) => result matches Ok(s) && s.model() == m,
                Err(code) => result matches Err(e) && e.spec_code() == code,
            },
    {
        Self::compile_at(document, limits, 0, "")
    }

    /// Validate one value, returning a path-qualified error on mismatch.
    pub fn validate(&self, value: &JsonValue) -> (result: Result<(), KoruError>)
        ensures
            result is Ok == valid(self.model(), value.model()),
            result matches Err(e) ==> e.spec_code() == ErrorCode::Validation,
    {
        self.validate_at(value, "")
    }

    /// Validation keywords used anywhere in this schema.
    pub fn keywords(&self) -> (names: Vec<String>)
        ensures
            crate::ai::texts(names@) == marked_names(self.model().keywords, 12),
    {
        let mut names: Vec<String> = Vec::new();
        let mut i: usize = 0;
        while i < 12
            invariant
                i <= 12,
                crate::ai::texts(names@) == marked_names(self.keywords@, i as int),
            decreases 12 - i,
        {
            let ghost before = names@;
            if i < self.keywords.len() && self.keywords[i] {
                names.push(keyword_name(i).to_string());
                assert(crate::ai::texts(names@) =~= crate::ai::texts(before).push(
                    supported_keywords()[i as int],
                ));
            }
            assert(crate::ai::texts(names@) =~= marked_names(self.keywords@, i + 1));
            i = i + 1;
        }
        names
    }

    /// The original bounded schema document, for protocol payloads.
    pub fn document(&self) -> (document: &JsonValue)
        ensures
            document.model() == self.model().document,
    {
        &self.document
    }

    /// Whether this schema accepts objects at its root and only objects.
    ///
    /// Tool argument schemas must describe an object, so a schema with no type
    /// or a union that also accepts non-objects is rejected by the caller.
    pub fn is_object_root(&self) -> (root: bool)
        ensures
            root == (self.model().types == Some(object_only())),
    {
        match self.types {
            Some(t) => t == TypeSet { object: true, ..TypeSet::empty() },
            None => false,
        }
    }
}

} // verus!
