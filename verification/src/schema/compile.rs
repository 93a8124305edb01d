//! Compile a bounded schema document into the schema model.
use super::read::{
    enum_types, enum_values, number_bound, read_bool, read_enum, read_number, read_required, type_names,
    read_types, read_types_of, read_u64, refused, required_names, types_of_values, types_of,
};
use super::validate::{at_least, at_least_exec, type_allowed, type_allowed_exec, valid};
use super::{blank_model, child, keyword_name, mark_keyword, named_type, no_keywords, no_types, schema_error};
use super::{JsonSchema, JsonType, SchemaModel, TypeSet};
use crate::ai::supported_keywords;
use crate::error::{ErrorCode, KoruError};
use crate::json::parse::byte_len;
use crate::json::number::{decimal_of, is_whole, number_value, value_lt, Decimal};
use crate::json::{entry_models, models, Json, JsonLimits, JsonValue, MAX_SAFE_INTEGER};
use vstd::prelude::*;

verus! {

broadcast use vstd::string::group_string_axioms;

/// The state of compilation after some keywords of a schema document: the
/// schema so far, and which kinds of keywords were used.
pub struct Draft {
    /// The schema so far.
    pub schema: SchemaModel,
    /// An object keyword was used.
    pub object: bool,
    /// An array keyword was used.
    pub array: bool,
    /// A string keyword was used.
    pub string: bool,
    /// A numeric keyword was used.
    pub number: bool,
}

/// Nothing read yet.
pub open spec fn blank_draft() -> Draft {
    Draft { schema: blank_model(), object: false, array: false, string: false, number: false }
}

/// `properties` with the schema under `name` replaced, or added at the end.
pub open spec fn put(properties: Seq<(Seq<char>, SchemaModel)>, name: Seq<char>, schema: SchemaModel) -> Seq<
    (Seq<char>, SchemaModel),
>
    decreases properties.len(),
{
    if properties.len() == 0 {
        seq![(name, schema)]
    } else if properties[0].0 == name {
        properties.update(0, (name, schema))
    } else {
        seq![properties[0]] + put(properties.drop_first(), name, schema)
    }
}

/// The schema a document compiles to at `depth`, or the error.
pub open spec fn compile_doc(doc: Json, limits: JsonLimits, depth: int) -> Result<
    SchemaModel,
    ErrorCode,
>
    decreases doc, 3nat,
{
    if depth > limits.max_depth {
        Err(ErrorCode::BudgetExhausted)
    } else {
        match doc {
            Json::Object(entries) => match read_entries(entries, limits, depth) {
                Err(e) => Err(e),
                Ok(d) => match finalize(d, doc) {
                    Some(s) => Ok(s),
                    None => Err(ErrorCode::Validation),
                },
            },
            _ => Err(ErrorCode::Validation),
        }
    }
}

/// The draft after reading the entries of a schema document in order.
pub open spec fn read_entries(entries: Seq<(Seq<char>, Json)>, limits: JsonLimits, depth: int) -> Result<
    Draft,
    ErrorCode,
>
    decreases entries, 2nat,
{
    if entries.len() == 0 {
        Ok(blank_draft())
    } else {
        match read_entries(entries.drop_last(), limits, depth) {
            Err(e) => Err(e),
            Ok(d) => step(d, entries.last().0, entries.last().1, limits, depth),
        }
    }
}

/// The schemas of a `properties` object, compiled one level deeper.
pub open spec fn read_props(entries: Seq<(Seq<char>, Json)>, limits: JsonLimits, depth: int) -> Result<
    Seq<(Seq<char>, SchemaModel)>,
    ErrorCode,
>
    decreases entries, 2nat,
{
    if entries.len() == 0 {
        Ok(Seq::empty())
    } else {
        match read_props(entries.drop_last(), limits, depth) {
            Err(e) => Err(e),
            Ok(props) => match compile_doc(entries.last().1, limits, depth + 1) {
                Err(e) => Err(e),
                Ok(s) => Ok(put(props, entries.last().0, s)),
            },
        }
    }
}

/// The draft after the keyword `key` with `value`.
pub open spec fn step(d: Draft, key: Seq<char>, value: Json, limits: JsonLimits, depth: int) -> Result<
    Draft,
    ErrorCode,
>
    decreases value, 4nat,
{
    let s = SchemaModel { keywords: mark_keyword(d.schema.keywords, key), ..d.schema };
    let d = Draft { schema: s, ..d };
    if key == "type"@ {
        match read_types(value) {
            Some(t) => Ok(Draft { schema: SchemaModel { types: Some(t), ..s }, ..d }),
            None => Err(ErrorCode::Validation),
        }
    } else if key == "enum"@ {
        match enum_values(value) {
            Some(vs) => Ok(Draft { schema: SchemaModel { enum_values: Some(vs), ..s }, ..d }),
            None => Err(ErrorCode::Validation),
        }
    } else if key == "minimum"@ {
        match number_bound(value) {
            Some(n) => Ok(Draft { schema: SchemaModel { minimum: Some(n), ..s }, number: true, ..d }),
            None => Err(ErrorCode::Validation),
        }
    } else if key == "maximum"@ {
        match number_bound(value) {
            Some(n) => Ok(Draft { schema: SchemaModel { maximum: Some(n), ..s }, number: true, ..d }),
            None => Err(ErrorCode::Validation),
        }
    } else if key == "minLength"@ {
        match value {
            Json::Integer(n) => if 0 <= n <= u64::MAX {
                Ok(Draft { schema: SchemaModel { min_length: Some(n as u64), ..s }, string: true, ..d })
            } else {
                Err(ErrorCode::Validation)
            },
            _ => Err(ErrorCode::Validation),
        }
    } else if key == "maxLength"@ {
        match value {
            Json::Integer(n) => if 0 <= n <= u64::MAX {
                Ok(Draft { schema: SchemaModel { max_length: Some(n as u64), ..s }, string: true, ..d })
            } else {
                Err(ErrorCode::Validation)
            },
            _ => Err(ErrorCode::Validation),
        }
    } else if key == "items"@ {
        match compile_doc(value, limits, depth + 1) {
            Ok(inner) => Ok(
                Draft { schema: SchemaModel { items: Some(Box::new(inner)), ..s }, array: true, ..d },
            ),
            Err(e) => Err(e),
        }
    } else if key == "minItems"@ {
        match value {
            Json::Integer(n) => if 0 <= n <= u64::MAX {
                Ok(Draft { schema: SchemaModel { min_items: Some(n as u64), ..s }, array: true, ..d })
            } else {
                Err(ErrorCode::Validation)
            },
            _ => Err(ErrorCode::Validation),
        }
    } else if key == "maxItems"@ {
        match value {
            Json::Integer(n) => if 0 <= n <= u64::MAX {
                Ok(Draft { schema: SchemaModel { max_items: Some(n as u64), ..s }, array: true, ..d })
            } else {
                Err(ErrorCode::Validation)
            },
            _ => Err(ErrorCode::Validation),
        }
    } else if key == "properties"@ {
        match value {
            Json::Object(entries) => match read_props(entries, limits, depth) {
                Ok(props) => Ok(
                    Draft { schema: SchemaModel { properties: props, ..s }, object: true, ..d },
                ),
                Err(e) => Err(e),
            },
            _ => Err(ErrorCode::Validation),
        }
    } else if key == "required"@ {
        match required_names(value) {
            Some(names) => Ok(
                Draft { schema: SchemaModel { required: names, ..s }, object: true, ..d },
            ),
            None => Err(ErrorCode::Validation),
        }
    } else if key == "additionalProperties"@ {
        match value {
            Json::Bool(b) => Ok(
                Draft { schema: SchemaModel { additional_properties: b, ..s }, object: true, ..d },
            ),
            _ => Err(ErrorCode::Validation),
        }
    } else if key == "description"@ {
        if value is Str {
            Ok(d)
        } else {
            Err(ErrorCode::Validation)
        }
    } else {
        Err(ErrorCode::Validation)
    }
}

/// The keywords used by a schema, its item schema and its property schemas.
pub open spec fn all_keywords(s: SchemaModel) -> Seq<bool> {
    Seq::new(
        12,
        |i: int|
            s.keywords[i] || (s.items matches Some(inner) && i < inner.keywords.len()
                && inner.keywords[i]) || exists|k: int|
                0 <= k < s.properties.len() && i < (#[trigger] s.properties[k]).1.keywords.len()
                    && s.properties[k].1.keywords[i],
    )
}

/// The types a draft accepts, checked against the kinds of keywords it uses:
/// `None` when they conflict, `Some(None)` when no type is implied.
pub open spec fn resolve(explicit: Option<TypeSet>, d: Draft) -> Option<Option<TypeSet>> {
    match explicit {
        Some(t) => if (d.object && !t.object) || (d.array && !t.array) || (d.string && !t.string)
            || (d.number && !t.integer && !t.number) {
            None
        } else {
            Some(Some(t))
        },
        None => {
            let implied = TypeSet {
                object: d.object,
                array: d.array,
                string: d.string,
                boolean: false,
                integer: d.number,
                number: d.number,
                null: false,
            };
            if implied == no_types() {
                Some(None)
            } else {
                Some(Some(implied))
            }
        },
    }
}

/// A bound on an integer-only schema is a whole number no further from zero
/// than the portable integer range allows.
pub open spec fn integer_bound_ok(bound: Json) -> bool {
    match number_value(bound) {
        Some(v) => is_whole(v) && !value_lt(v, (-MAX_SAFE_INTEGER as int, 0int)) && !value_lt(
            (MAX_SAFE_INTEGER as int, 0int),
            v,
        ),
        None => false,
    }
}

/// A lower and an upper length bound that cross.
pub open spec fn lengths_cross(low: Option<u64>, high: Option<u64>) -> bool {
    low matches Some(a) && high matches Some(b) && a > b
}

/// Some property is declared under `name`.
pub open spec fn declares(properties: Seq<(Seq<char>, SchemaModel)>, name: Seq<char>) -> bool {
    exists|k: int| 0 <= k < properties.len() && (#[trigger] properties[k]).0 == name
}

/// The finished schema of a draft read from `doc`, when it is consistent.
pub open spec fn finalize(d: Draft, doc: Json) -> Option<SchemaModel> {
    let s = d.schema;
    let explicit = if s.enum_values is Some && s.types is None {
        Some(enum_types(s.enum_values->0))
    } else {
        s.types
    };
    match resolve(explicit, d) {
        None => None,
        Some(types) => {
            let enum_ok = match s.enum_values {
                Some(vs) => vs.len() > 0 && forall|k: int|
                    0 <= k < vs.len() ==> type_allowed(types, #[trigger] vs[k]),
                None => true,
            };
            let numbers_cross = s.minimum is Some && s.maximum is Some && !at_least(
                s.maximum->0,
                s.minimum->0,
            );
            let integer_only = types matches Some(t) && t.integer && !t.number;
            let integer_bounds_ok = !integer_only || ((s.minimum matches Some(m) ==> integer_bound_ok(m))
                && (s.maximum matches Some(m) ==> integer_bound_ok(m)));
            let required_ok = forall|r: int|
                0 <= r < s.required.len() ==> declares(s.properties, #[trigger] s.required[r]);
            if enum_ok && !numbers_cross && !lengths_cross(s.min_length, s.max_length)
                && !lengths_cross(s.min_items, s.max_items) && integer_bounds_ok && required_ok {
                Some(SchemaModel { types, keywords: all_keywords(s), document: doc, ..s })
            } else {
                None
            }
        },
    }
}


/// The model of a list of named schemas.
pub open spec fn props_model(v: Seq<(String, JsonSchema)>) -> Seq<(Seq<char>, SchemaModel)> {
    Seq::new(v.len(), |k: int| (v[k].0@, v[k].1.model()))
}

proof fn lemma_put_found(
    properties: Seq<(Seq<char>, SchemaModel)>,
    name: Seq<char>,
    schema: SchemaModel,
    j: int,
)
    requires
        0 <= j < properties.len(),
        properties[j].0 == name,
        forall|m: int| 0 <= m < j ==> (#[trigger] properties[m]).0 != name,
    ensures
        put(properties, name, schema) == properties.update(j, (name, schema)),
    decreases j,
{
    if j > 0 {
        let rest = properties.drop_first();
        assert forall|m: int| 0 <= m < j - 1 implies (#[trigger] rest[m]).0 != name by {
            assert(rest[m] == properties[m + 1]);
        }
        lemma_put_found(rest, name, schema, j - 1);
        assert(seq![properties[0]] + rest.update(j - 1, (name, schema)) =~= properties.update(
            j,
            (name, schema),
        ));
    }
}

proof fn lemma_put_missing(properties: Seq<(Seq<char>, SchemaModel)>, name: Seq<char>, schema: SchemaModel)
    requires
        forall|m: int| 0 <= m < properties.len() ==> (#[trigger] properties[m]).0 != name,
    ensures
        put(properties, name, schema) == properties.push((name, schema)),
    decreases properties.len(),
{
    if properties.len() > 0 {
        let rest = properties.drop_first();
        assert forall|m: int| 0 <= m < rest.len() implies (#[trigger] rest[m]).0 != name by {
            assert(rest[m] == properties[m + 1]);
        }
        lemma_put_missing(rest, name, schema);
        assert(seq![properties[0]] + rest.push((name, schema)) =~= properties.push((name, schema)));
    } else {
        assert(seq![(name, schema)] =~= properties.push((name, schema)));
    }
}

proof fn lemma_read_entries_fails(
    entries: Seq<(Seq<char>, Json)>,
    limits: JsonLimits,
    depth: int,
    j: int,
    code: ErrorCode,
)
    requires
        0 <= j <= entries.len(),
        read_entries(entries.take(j), limits, depth) == Err::<Draft, ErrorCode>(code),
    ensures
        read_entries(entries, limits, depth) == Err::<Draft, ErrorCode>(code),
    decreases entries.len() - j,
{
    if j < entries.len() {
        assert(entries.take(j + 1).drop_last() =~= entries.take(j));
        lemma_read_entries_fails(entries, limits, depth, j + 1, code);
    } else {
        assert(entries.take(j) =~= entries);
    }
}

proof fn lemma_read_props_fails(
    entries: Seq<(Seq<char>, Json)>,
    limits: JsonLimits,
    depth: int,
    j: int,
    code: ErrorCode,
)
    requires
        0 <= j <= entries.len(),
        read_props(entries.take(j), limits, depth) == Err::<Seq<(Seq<char>, SchemaModel)>, ErrorCode>(
            code,
        ),
    ensures
        read_props(entries, limits, depth) == Err::<Seq<(Seq<char>, SchemaModel)>, ErrorCode>(code),
    decreases entries.len() - j,
{
    if j < entries.len() {
        assert(entries.take(j + 1).drop_last() =~= entries.take(j));
        lemma_read_props_fails(entries, limits, depth, j + 1, code);
    } else {
        assert(entries.take(j) =~= entries);
    }
}

/// A schema with no keyword read.
fn blank_schema() -> (s: JsonSchema)
    ensures
        s.model() == blank_model(),
        s.keywords@.len() == 12,
{
    let mut keywords: Vec<bool> = Vec::new();
    let mut i: usize = 0;
    while i < 12
        invariant
            i <= 12,
            keywords@ == Seq::new(i as nat, |k: int| false),
        decreases 12 - i,
    {
        keywords.push(false);
        assert(keywords@ =~= Seq::new((i + 1) as nat, |k: int| false));
        i = i + 1;
    }
    let s = JsonSchema {
        types: None,
        enum_values: None,
        minimum: None,
        maximum: None,
        min_length: None,
        max_length: None,
        items: None,
        min_items: None,
        max_items: None,
        properties: Vec::new(),
        required: Vec::new(),
        additional_properties: true,
        keywords,
        document: JsonValue::Null,
    };
    assert(s.model().properties =~= Seq::<(Seq<char>, SchemaModel)>::empty());
    assert(s.model().required =~= Seq::<Seq<char>>::empty());
    assert(s.model().keywords =~= no_keywords());
    s
}

/// Mark the supported keyword `key`, if it is one.
fn mark_keywords(marks: &mut Vec<bool>, key: &str)
    requires
        old(marks)@.len() == 12,
    ensures
        final(marks)@ == mark_keyword(old(marks)@, key@),
{
    let ghost start = marks@;
    let mut i: usize = 0;
    while i < 12
        invariant
            i <= 12,
            marks@.len() == 12,
            forall|k: int|
                0 <= k < 12 ==> #[trigger] marks@[k] == if k < i {
                    start[k] || supported_keywords()[k] == key@
                } else {
                    start[k]
                },
        decreases 12 - i,
    {
        let on = marks[i] || crate::text::str_eq(keyword_name(i), key);
        marks.set(i, on);
        i = i + 1;
    }
    assert(marks@ =~= mark_keyword(start, key@));
}

/// Put the schema under `name` into the list, replacing an earlier one.
fn insert_property(out: &mut Vec<(String, JsonSchema)>, name: String, schema: JsonSchema)
    ensures
        props_model(final(out)@) == put(props_model(old(out)@), name@, schema.model()),
{
    let ghost ps = props_model(out@);
    let mut j: usize = 0;
    let mut found = false;
    while j < out.len() && !found
        invariant
            j <= out@.len(),
            ps == props_model(out@),
            found ==> j < out@.len() && ps[j as int].0 == name@,
            forall|m: int| 0 <= m < j ==> (#[trigger] ps[m]).0 != name@,
        decreases out@.len() - j + (if found { 0int } else { 1int }),
    {
        if crate::text::str_eq(out[j].0.as_str(), name.as_str()) {
            found = true;
        } else {
            j = j + 1;
        }
    }
    let ghost entry = (name@, schema.model());
    if found {
        proof {
            lemma_put_found(ps, name@, schema.model(), j as int);
        }
        out.set(j, (name, schema));
        assert(props_model(out@) =~= ps.update(j as int, entry));
    } else {
        proof {
            lemma_put_missing(ps, name@, schema.model());
        }
        out.push((name, schema));
        assert(props_model(out@) =~= ps.push(entry));
    }
}

/// A schema being compiled, and which kinds of keywords it used.
struct Building {
    schema: JsonSchema,
    object: bool,
    array: bool,
    string: bool,
    number: bool,
}

impl Building {
    spec fn view(&self) -> Draft {
        Draft {
            schema: self.schema.model(),
            object: self.object,
            array: self.array,
            string: self.string,
            number: self.number,
        }
    }
}

/// The error for a nesting depth past the limit.
fn too_deep() -> (error: KoruError)
    ensures
        error.spec_code() == ErrorCode::BudgetExhausted,
{
    KoruError::new(ErrorCode::BudgetExhausted, "JSON nesting depth limit exceeded")
}


/// Read one keyword of a schema document into the schema being compiled.
fn apply(
    b: &mut Building,
    key: &String,
    value: &JsonValue,
    limits: &JsonLimits,
    depth: usize,
    path: &str,
) -> (result: Result<(), KoruError>)
    requires
        depth <= limits.max_depth,
        old(b).schema.keywords@.len() == 12,
    ensures
        match step(old(b).view(), key@, value.model(), *limits, depth as int) {
            Ok(d) => result is Ok && final(b).view() == d && final(b).schema.keywords@.len() == 12,
            Err(code) => result matches Err(e) && e.spec_code() == code,
        },
    decreases limits.max_depth + 1 - depth, 1int,
{
    mark_keywords(&mut b.schema.keywords, key.as_str());
    let k = key.as_str();
    if crate::text::str_eq(k, "type") {
        match read_types_of(value, path) {
            Ok(t) => {
                b.schema.types = Some(t);
                Ok(())
            },
            Err(e) => Err(e),
        }
    } else if crate::text::str_eq(k, "enum") {
        match read_enum(value, path) {
            Ok(values) => {
                b.schema.enum_values = Some(values);
                Ok(())
            },
            Err(e) => Err(e),
        }
    } else if crate::text::str_eq(k, "minimum") {
        match read_number(value, path) {
            Ok(n) => {
                b.schema.minimum = Some(n);
                b.number = true;
                Ok(())
            },
            Err(e) => Err(e),
        }
    } else if crate::text::str_eq(k, "maximum") {
        match read_number(value, path) {
            Ok(n) => {
                b.schema.maximum = Some(n);
                b.number = true;
                Ok(())
            },
            Err(e) => Err(e),
        }
    } else if crate::text::str_eq(k, "minLength") {
        match read_u64(value, path) {
            Ok(n) => {
                b.schema.min_length = Some(n);
                b.string = true;
                Ok(())
            },
            Err(e) => Err(e),
        }
    } else if crate::text::str_eq(k, "maxLength") {
        match read_u64(value, path) {
            Ok(n) => {
                b.schema.max_length = Some(n);
                b.string = true;
                Ok(())
            },
            Err(e) => Err(e),
        }
    } else if crate::text::str_eq(k, "items") {
        if depth == usize::MAX {
            return Err(too_deep());
        }
        let here = child(path, "items");
        match JsonSchema::compile_at(value, limits, depth + 1, here.as_str()) {
            Ok(inner) => {
                b.schema.items = Some(Box::new(inner));
                b.array = true;
                Ok(())
            },
            Err(e) => Err(e),
        }
    } else if crate::text::str_eq(k, "minItems") {
        match read_u64(value, path) {
            Ok(n) => {
                b.schema.min_items = Some(n);
                b.array = true;
                Ok(())
            },
            Err(e) => Err(e),
        }
    } else if crate::text::str_eq(k, "maxItems") {
        match read_u64(value, path) {
            Ok(n) => {
                b.schema.max_items = Some(n);
                b.array = true;
                Ok(())
            },
            Err(e) => Err(e),
        }
    } else if crate::text::str_eq(k, "properties") {
        match value {
            JsonValue::Object(entries) => {
                proof {
                    crate::json::parse::lemma_object_model(*entries);
                }
                match read_properties(entries, limits, depth, path) {
                    Ok(props) => {
                        b.schema.properties = props;
                        b.object = true;
                        proof {
                            assert(b.schema.model().properties =~= props_model(b.schema.properties@));
                        }
                        Ok(())
                    },
                    Err(e) => Err(e),
                }
            },
            _ => Err(schema_error(path, "`properties` must be an object")),
        }
    } else if crate::text::str_eq(k, "required") {
        match read_required(value, path) {
            Ok(names) => {
                b.schema.required = names;
                b.object = true;
                Ok(())
            },
            Err(e) => Err(e),
        }
    } else if crate::text::str_eq(k, "additionalProperties") {
        match read_bool(value, path) {
            Ok(flag) => {
                b.schema.additional_properties = flag;
                b.object = true;
                Ok(())
            },
            Err(e) => Err(e),
        }
    } else if crate::text::str_eq(k, "description") {
        match value {
            JsonValue::String(_) => Ok(()),
            _ => Err(schema_error(path, "`description` must be a string")),
        }
    } else {
        Err(schema_error(path, "unsupported schema keyword"))
    }
}

/// Compile the schemas of a `properties` object one level deeper.
fn read_properties(
    entries: &Vec<(String, JsonValue)>,
    limits: &JsonLimits,
    depth: usize,
    path: &str,
) -> (result: Result<Vec<(String, JsonSchema)>, KoruError>)
    requires
        depth <= limits.max_depth,
    ensures
        match read_props(entry_models(entries@), *limits, depth as int) {
            Ok(props) => result matches Ok(v) && props_model(v@) == props,
            Err(code) => result matches Err(e) && e.spec_code() == code,
        },
    decreases limits.max_depth + 1 - depth, 0int,
{
    let ghost es = entry_models(entries@);
    let mut out: Vec<(String, JsonSchema)> = Vec::new();
    let mut i: usize = 0;
    assert(es.take(0) =~= Seq::<(Seq<char>, Json)>::empty());
    assert(props_model(out@) =~= Seq::<(Seq<char>, SchemaModel)>::empty());
    while i < entries.len()
        invariant
            i <= entries@.len(),
            depth <= limits.max_depth,
            es == entry_models(entries@),
            read_props(es.take(i as int), *limits, depth as int) == Ok::<
                Seq<(Seq<char>, SchemaModel)>,
                ErrorCode,
            >(props_model(out@)),
        decreases entries@.len() - i,
    {
        assert(es.take(i + 1).drop_last() =~= es.take(i as int));
        assert(es.take(i + 1).last() == es[i as int]);
        if depth == usize::MAX {
            proof {
                lemma_read_props_fails(es, *limits, depth as int, i + 1, ErrorCode::BudgetExhausted);
            }
            return Err(too_deep());
        }
        let name = &entries[i].0;
        let here = child(path, name.as_str());
        match JsonSchema::compile_at(&entries[i].1, limits, depth + 1, here.as_str()) {
            Ok(schema) => {
                insert_property(&mut out, name.clone(), schema);
            },
            Err(e) => {
                proof {
                    lemma_read_props_fails(es, *limits, depth as int, i + 1, e.spec_code());
                }
                return Err(e);
            },
        }
        i = i + 1;
    }
    assert(es.take(entries@.len() as int) =~= es);
    Ok(out)
}

impl JsonSchema {
    pub(super) fn compile_at(document: &JsonValue, limits: &JsonLimits, depth: usize, path: &str) -> (
        result: Result<JsonSchema, KoruError>)
        ensures
            match compile_doc(document.model(), *limits, depth as int) {
                Ok(m) => result matches Ok(s) && s.model() == m,
                Err(code) => result matches Err(e) && e.spec_code() == code,
            },
        decreases limits.max_depth + 1 - depth, 2int,
    {
        match limits.check_depth(depth) {
            Ok(()) => {},
            Err(e) => {
                return Err(e);
            },
        }
        let entries = match document {
            JsonValue::Object(entries) => entries,
            _ => {
                return Err(schema_error(path, "a JSON schema must be an object"));
            },
        };
        proof {
            crate::json::parse::lemma_object_model(*entries);
        }
        let ghost es = entry_models(entries@);
        let mut b = Building {
            schema: blank_schema(),
            object: false,
            array: false,
            string: false,
            number: false,
        };
        let mut i: usize = 0;
        assert(es.take(0) =~= Seq::<(Seq<char>, Json)>::empty());
        while i < entries.len()
            invariant
                i <= entries@.len(),
                depth <= limits.max_depth,
                es == entry_models(entries@),
                document.model() == Json::Object(es),
                b.schema.keywords@.len() == 12,
                read_entries(es.take(i as int), *limits, depth as int) == Ok::<Draft, ErrorCode>(
                    b.view(),
                ),
            decreases entries@.len() - i,
        {
            assert(es.take(i + 1).drop_last() =~= es.take(i as int));
            assert(es.take(i + 1).last() == es[i as int]);
            match apply(&mut b, &entries[i].0, &entries[i].1, limits, depth, path) {
                Ok(()) => {},
                Err(e) => {
                    proof {
                        lemma_read_entries_fails(es, *limits, depth as int, i + 1, e.spec_code());
                    }
                    return Err(e);
                },
            }
            i = i + 1;
        }
        assert(es.take(entries@.len() as int) =~= es);
        finalize_schema(b, document, path)
    }
}


/// Whether a bound of an integer-only schema is acceptable.
fn integer_bound_ok_exec(bound: &JsonValue) -> (ok: bool)
    ensures
        ok == integer_bound_ok(bound.model()),
{
    match decimal_of(bound) {
        None => false,
        Some(d) => {
            let low = Decimal::from_integer(-9_007_199_254_740_991i64);
            let high = Decimal::from_integer(9_007_199_254_740_991i64);
            d.is_whole() && !d.lt(&low) && !high.lt(&d)
        },
    }
}

/// The keywords used by the schema, its item schema and its property schemas.
fn union_keywords(s: &JsonSchema) -> (marks: Vec<bool>)
    requires
        s.keywords@.len() == 12,
    ensures
        marks@ == all_keywords(s.model()),
{
    let ghost m = s.model();
    let mut marks: Vec<bool> = Vec::new();
    let mut i: usize = 0;
    while i < 12
        invariant
            i <= 12,
            m == s.model(),
            s.keywords@.len() == 12,
            marks@.len() == i,
            forall|j: int| 0 <= j < i ==> #[trigger] marks@[j] == all_keywords(m)[j],
        decreases 12 - i,
    {
        let mut on = s.keywords[i];
        assert(m.keywords == s.keywords@);
        if let Some(inner) = &s.items {
            assert(m.items == Some(Box::new(inner.model())));
            assert(inner.model().keywords == inner.keywords@);
            if i < inner.keywords.len() && inner.keywords[i] {
                on = true;
            }
        }
        let ghost base = on;
        assert(base == (m.keywords[i as int] || (m.items matches Some(inner) && i
            < inner.keywords.len() && inner.keywords[i as int])));
        let mut k: usize = 0;
        let mut found = false;
        while k < s.properties.len()
            invariant
                k <= s.properties@.len(),
                m == s.model(),
                i < 12,
                found == exists|x: int|
                    0 <= x < k && i < (#[trigger] m.properties[x]).1.keywords.len()
                        && m.properties[x].1.keywords[i as int],
            decreases s.properties@.len() - k,
        {
            let p = &s.properties[k].1;
            assert(m.properties[k as int].1 == p.model());
            assert(m.properties[k as int].1.keywords == p.keywords@);
            if i < p.keywords.len() && p.keywords[i] {
                found = true;
            }
            k = k + 1;
        }
        assert(m.properties.len() == s.properties@.len());
        let ghost before = marks@;
        marks.push(on || found);
        assert(marks@[i as int] == all_keywords(m)[i as int]);
        assert forall|j: int| 0 <= j < i implies #[trigger] marks@[j] == before[j] by {}
        i = i + 1;
    }
    assert(marks@ =~= all_keywords(m));
    marks
}

/// Whether some property is declared under `name`.
fn declares_exec(properties: &Vec<(String, JsonSchema)>, name: &str) -> (found: bool)
    ensures
        found == declares(props_model(properties@), name@),
{
    let ghost ps = props_model(properties@);
    let mut k: usize = 0;
    while k < properties.len()
        invariant
            k <= properties@.len(),
            ps == props_model(properties@),
            forall|x: int| 0 <= x < k ==> (#[trigger] ps[x]).0 != name@,
        decreases properties@.len() - k,
    {
        if crate::text::str_eq(properties[k].0.as_str(), name) {
            assert(ps[k as int].0 == name@);
            return true;
        }
        k = k + 1;
    }
    false
}

/// Finish a compiled schema: gather keywords, settle the types and check that
/// the keywords agree with each other.
#[verifier::rlimit(80)]
#[verifier::spinoff_prover]
#[verifier::loop_isolation(false)]
fn finalize_schema(b: Building, document: &JsonValue, path: &str) -> (result: Result<
    JsonSchema,
    KoruError,
>)
    requires
        b.schema.keywords@.len() == 12,
    ensures
        match finalize(b.view(), document.model()) {
            Some(m) => result matches Ok(s) && s.model() == m,
            None => refused(result),
        },
{
    let ghost d = b.view();
    let ghost sm = d.schema;
    let Building { schema: mut s, object, array, string, number } = b;
    let keywords = union_keywords(&s);
    let explicit: Option<TypeSet> = match (&s.enum_values, s.types) {
        (Some(values), None) => Some(types_of_values(values)),
        _ => s.types,
    };
    let types: Option<TypeSet> = match explicit {
        Some(t) => {
            if (object && !t.object) || (array && !t.array) || (string && !t.string) || (number
                && !t.integer && !t.number) {
                return Err(schema_error(path, "keywords require a matching `type`"));
            }
            Some(t)
        },
        None => {
            let implied = TypeSet {
                object,
                array,
                string,
                boolean: false,
                integer: number,
                number,
                null: false,
            };
            if implied == TypeSet::empty() {
                None
            } else {
                Some(implied)
            }
        },
    };
    assert(resolve(
        if sm.enum_values is Some && sm.types is None {
            Some(enum_types(sm.enum_values->0))
        } else {
            sm.types
        },
        d,
    ) == Some(types));
    if let Some(values) = &s.enum_values {
        let ghost vs = models(values@);
        assert(sm.enum_values == Some(vs));
        if values.len() == 0 {
            return Err(schema_error(path, "`enum` must not be empty"));
        }
        let mut k: usize = 0;
        while k < values.len()
            invariant
                k <= values@.len(),
                vs == models(values@),
                forall|x: int| 0 <= x < k ==> type_allowed(types, #[trigger] vs[x]),
            decreases values@.len() - k,
        {
            if !type_allowed_exec(types, &values[k]) {
                assert(!type_allowed(types, vs[k as int]));
                return Err(schema_error(path, "each `enum` value must match the declared `type`"));
            }
            k = k + 1;
        }
    }
    if let (Some(low), Some(high)) = (&s.minimum, &s.maximum) {
        if !at_least_exec(high, low) {
            return Err(schema_error(path, "`minimum` greater than its maximum"));
        }
    }
    if let (Some(low), Some(high)) = (s.min_length, s.max_length) {
        if low > high {
            return Err(schema_error(path, "`minLength` greater than its maximum"));
        }
    }
    if let (Some(low), Some(high)) = (s.min_items, s.max_items) {
        if low > high {
            return Err(schema_error(path, "`minItems` greater than its maximum"));
        }
    }
    if let Some(t) = types {
        if t.integer && !t.number {
            if let Some(m) = &s.minimum {
                if !integer_bound_ok_exec(m) {
                    return Err(schema_error(path, "integer bounds must be whole numbers in the safe range"));
                }
            }
            if let Some(m) = &s.maximum {
                if !integer_bound_ok_exec(m) {
                    return Err(schema_error(path, "integer bounds must be whole numbers in the safe range"));
                }
            }
        }
    }
    let ghost ps = props_model(s.properties@);
    assert(sm.properties =~= ps);
    let mut r: usize = 0;
    while r < s.required.len()
        invariant
            r <= s.required@.len(),
            ps == props_model(s.properties@),
            sm.required == Seq::new(s.required@.len(), |k: int| s.required@[k]@),
            forall|x: int| 0 <= x < r ==> declares(ps, #[trigger] sm.required[x]),
        decreases s.required@.len() - r,
    {
        if !declares_exec(&s.properties, s.required[r].as_str()) {
            assert(!declares(ps, sm.required[r as int]));
            return Err(schema_error(path, "`required` names an undeclared property"));
        }
        r = r + 1;
    }
    s.types = types;
    s.keywords = keywords;
    s.document = document.clone_value();
    Ok(s)
}


/// A key the schema subset understands: a validation keyword or `description`.
pub open spec fn known_keyword(key: Seq<char>) -> bool {
    supported_keywords().contains(key) || key == "description"@
}

proof fn lemma_unknown_key_fails(d: Draft, key: Seq<char>, value: Json, limits: JsonLimits, depth: int)
    requires
        !known_keyword(key),
    ensures
        step(d, key, value, limits, depth) == Err::<Draft, ErrorCode>(ErrorCode::Validation),
{
    assert(supported_keywords()[0] == "type"@);
    assert(supported_keywords()[1] == "enum"@);
    assert(supported_keywords()[2] == "minimum"@);
    assert(supported_keywords()[3] == "maximum"@);
    assert(supported_keywords()[4] == "minLength"@);
    assert(supported_keywords()[5] == "maxLength"@);
    assert(supported_keywords()[6] == "items"@);
    assert(supported_keywords()[7] == "minItems"@);
    assert(supported_keywords()[8] == "maxItems"@);
    assert(supported_keywords()[9] == "properties"@);
    assert(supported_keywords()[10] == "required"@);
    assert(supported_keywords()[11] == "additionalProperties"@);
}

proof fn lemma_entries_fail_after(
    entries: Seq<(Seq<char>, Json)>,
    limits: JsonLimits,
    depth: int,
    k: int,
    n: int,
)
    requires
        0 <= k < n <= entries.len(),
        !known_keyword(entries[k].0),
    ensures
        read_entries(entries.take(n), limits, depth) is Err,
    decreases n,
{
    let prefix = entries.take(n);
    assert(prefix.drop_last() =~= entries.take(n - 1));
    assert(prefix.last() == entries[n - 1]);
    if n - 1 > k {
        lemma_entries_fail_after(entries, limits, depth, k, n - 1);
    } else {
        match read_entries(entries.take(n - 1), limits, depth) {
            Err(_) => {},
            Ok(d) => {
                lemma_unknown_key_fails(d, entries[k].0, entries[k].1, limits, depth);
            },
        }
    }
}

/// A schema document that uses any key outside the supported subset and
/// `description` does not compile: no constraint is silently ignored.
pub proof fn unsupported_keywords_are_rejected(doc: Json, limits: JsonLimits, depth: int, k: int)
    requires
        doc matches Json::Object(entries) && 0 <= k < entries.len() && !known_keyword(
            entries[k].0,
        ),
    ensures
        compile_doc(doc, limits, depth) is Err,
{
    if depth <= limits.max_depth {
        let entries = doc->Object_0;
        lemma_entries_fail_after(entries, limits, depth, k, entries.len() as int);
        assert(entries.take(entries.len() as int) =~= entries);
    }
}

} // verus!

verus! {

/// The length keywords: bounds on a string's bytes or an array's items.
pub open spec fn length_keyword(key: Seq<char>) -> bool {
    key == "minLength"@ || key == "maxLength"@ || key == "minItems"@ || key == "maxItems"@
}

/// The bound that the length keyword `key` set in a schema.
pub open spec fn length_bound(s: SchemaModel, key: Seq<char>) -> Option<u64> {
    if key == "minLength"@ {
        s.min_length
    } else if key == "maxLength"@ {
        s.max_length
    } else if key == "minItems"@ {
        s.min_items
    } else {
        s.max_items
    }
}

proof fn lemma_length_keys_distinct()
    ensures
        "minLength"@ != "type"@ && "minLength"@ != "enum"@ && "minLength"@ != "minimum"@
            && "minLength"@ != "maximum"@,
        "maxLength"@ != "type"@ && "maxLength"@ != "enum"@ && "maxLength"@ != "minimum"@
            && "maxLength"@ != "maximum"@ && "maxLength"@ != "minLength"@,
        "minItems"@ != "type"@ && "minItems"@ != "enum"@ && "minItems"@ != "minimum"@
            && "minItems"@ != "maximum"@ && "minItems"@ != "minLength"@ && "minItems"@ != "maxLength"@
            && "minItems"@ != "items"@,
        "maxItems"@ != "type"@ && "maxItems"@ != "enum"@ && "maxItems"@ != "minimum"@
            && "maxItems"@ != "maximum"@ && "maxItems"@ != "minLength"@ && "maxItems"@ != "maxLength"@
            && "maxItems"@ != "items"@ && "maxItems"@ != "minItems"@,
{
    reveal_strlit("type");
    reveal_strlit("enum");
    reveal_strlit("minimum");
    reveal_strlit("maximum");
    reveal_strlit("minLength");
    reveal_strlit("maxLength");
    reveal_strlit("items");
    reveal_strlit("minItems");
    reveal_strlit("maxItems");
    assert("minLength"@[1] != "maxLength"@[1]);
    assert("minItems"@[1] != "maxItems"@[1]);
    assert("minItems"@[3] != "minLength"@[3]);
    assert("minItems"@[1] != "maxLength"@[1]);
    assert("maxItems"@[1] != "minLength"@[1]);
    assert("maxItems"@[3] != "maxLength"@[3]);
}

/// Once a length keyword's entry is read and no later entry uses that key,
/// the draft carries its bound.
proof fn lemma_length_bound_read(
    entries: Seq<(Seq<char>, Json)>,
    limits: JsonLimits,
    depth: int,
    key: Seq<char>,
    i: int,
    n: int,
    m: int,
)
    requires
        length_keyword(key),
        0 <= i < m <= entries.len(),
        entries[i] == (key, Json::Integer(n)),
        forall|j: int| i < j < entries.len() ==> (#[trigger] entries[j]).0 != key,
        read_entries(entries.take(m), limits, depth) is Ok,
    ensures
        0 <= n <= u64::MAX,
        length_bound(read_entries(entries.take(m), limits, depth)->Ok_0.schema, key) == Some(
            n as u64,
        ),
    decreases m,
{
    let prefix = entries.take(m);
    assert(prefix.drop_last() =~= entries.take(m - 1));
    assert(prefix.last() == entries[m - 1]);
    assert(read_entries(entries.take(m - 1), limits, depth) is Ok);
    let d0 = read_entries(entries.take(m - 1), limits, depth)->Ok_0;
    assert(read_entries(prefix, limits, depth) == step(d0, entries[m - 1].0, entries[m - 1].1, limits, depth));
    lemma_length_keys_distinct();
    if m - 1 == i {
        assert(step(d0, key, Json::Integer(n), limits, depth) is Ok);
        assert(0 <= n <= u64::MAX);
    } else {
        lemma_length_bound_read(entries, limits, depth, key, i, n, m - 1);
        assert(entries[m - 1].0 != key);
    }
}

/// A length keyword of a schema document bounds every value the schema
/// accepts: with `minLength` or `maxLength` equal to `n`, an accepted string
/// has at least or at most `n` bytes in UTF-8; with `minItems` or `maxItems`
/// equal to `n`, an accepted array has at least or at most `n` items.
pub proof fn length_keywords_bound_accepted_values(
    doc: Json,
    limits: JsonLimits,
    depth: int,
    key: Seq<char>,
    i: int,
    n: int,
    value: Json,
)
    requires
        length_keyword(key),
        doc matches Json::Object(entries) && 0 <= i < entries.len() && entries[i] == (
            key,
            Json::Integer(n),
        ) && forall|j: int| i < j < entries.len() ==> (#[trigger] entries[j]).0 != key,
        compile_doc(doc, limits, depth) is Ok,
        valid(compile_doc(doc, limits, depth)->Ok_0, value),
    ensures
        key == "minLength"@ && value is Str ==> byte_len(value->Str_0) >= n,
        key == "maxLength"@ && value is Str ==> byte_len(value->Str_0) <= n,
        key == "minItems"@ && value is Array ==> value->Array_0.len() >= n,
        key == "maxItems"@ && value is Array ==> value->Array_0.len() <= n,
{
    let entries = doc->Object_0;
    assert(entries.take(entries.len() as int) =~= entries);
    lemma_length_bound_read(entries, limits, depth, key, i, n, entries.len() as int);
    lemma_length_keys_distinct();
}

/// Once a `required` entry is read and no later entry uses that key, the
/// draft requires its names.
proof fn lemma_required_read(
    entries: Seq<(Seq<char>, Json)>,
    limits: JsonLimits,
    depth: int,
    i: int,
    names: Seq<Json>,
    m: int,
)
    requires
        0 <= i < m <= entries.len(),
        entries[i] == ("required"@, Json::Array(names)),
        forall|j: int| i < j < entries.len() ==> (#[trigger] entries[j]).0 != "required"@,
        read_entries(entries.take(m), limits, depth) is Ok,
    ensures
        required_names(Json::Array(names)) is Some,
        read_entries(entries.take(m), limits, depth)->Ok_0.schema.required == required_names(
            Json::Array(names),
        )->0,
    decreases m,
{
    let prefix = entries.take(m);
    assert(prefix.drop_last() =~= entries.take(m - 1));
    assert(prefix.last() == entries[m - 1]);
    assert(read_entries(entries.take(m - 1), limits, depth) is Ok);
    let d0 = read_entries(entries.take(m - 1), limits, depth)->Ok_0;
    assert(read_entries(prefix, limits, depth) == step(d0, entries[m - 1].0, entries[m - 1].1, limits, depth));
    if m - 1 == i {
        reveal_strlit("type");
        reveal_strlit("enum");
        reveal_strlit("minimum");
        reveal_strlit("maximum");
        reveal_strlit("minLength");
        reveal_strlit("maxLength");
        reveal_strlit("items");
        reveal_strlit("minItems");
        reveal_strlit("maxItems");
        reveal_strlit("properties");
        reveal_strlit("required");
        assert("required"@ != "type"@) by { assert("required"@.len() != "type"@.len()); }
        assert("required"@ != "enum"@) by { assert("required"@.len() != "enum"@.len()); }
        assert("required"@ != "items"@) by { assert("required"@.len() != "items"@.len()); }
        assert("required"@ != "minimum"@) by { assert("required"@.len() != "minimum"@.len()); }
        assert("required"@ != "maximum"@) by { assert("required"@.len() != "maximum"@.len()); }
        assert("required"@ != "minLength"@) by { assert("required"@.len() != "minLength"@.len()); }
        assert("required"@ != "maxLength"@) by { assert("required"@.len() != "maxLength"@.len()); }
        assert("required"@ != "minItems"@) by { assert("required"@[0] != "minItems"@[0]); }
        assert("required"@ != "maxItems"@) by { assert("required"@[0] != "maxItems"@[0]); }
        assert("required"@ != "properties"@) by { assert("required"@.len() != "properties"@.len()); }
        assert(step(d0, "required"@, Json::Array(names), limits, depth) is Ok);
    } else {
        lemma_required_read(entries, limits, depth, i, names, m - 1);
        assert(entries[m - 1].0 != "required"@);
    }
}

/// Every object that a schema document accepts has each name listed in its
/// `required` keyword as a key.
pub proof fn required_names_are_present_in_accepted_objects(
    doc: Json,
    limits: JsonLimits,
    depth: int,
    i: int,
    names: Seq<Json>,
    fields: Seq<(Seq<char>, Json)>,
    r: int,
)
    requires
        doc matches Json::Object(entries) && 0 <= i < entries.len() && entries[i] == (
            "required"@,
            Json::Array(names),
        ) && forall|j: int| i < j < entries.len() ==> (#[trigger] entries[j]).0 != "required"@,
        compile_doc(doc, limits, depth) is Ok,
        valid(compile_doc(doc, limits, depth)->Ok_0, Json::Object(fields)),
        0 <= r < names.len(),
    ensures
        names[r] is Str,
        exists|k: int| 0 <= k < fields.len() && (#[trigger] fields[k]).0 == names[r]->Str_0,
{
    let entries = doc->Object_0;
    assert(entries.take(entries.len() as int) =~= entries);
    lemma_required_read(entries, limits, depth, i, names, entries.len() as int);
    let required = required_names(Json::Array(names))->0;
    assert(required[r] == names[r]->Str_0);
    assert(super::validate::has_key(fields, required[r]));
}

/// Once a `type` entry is read and no later entry uses that key, the draft
/// holds the types it names.
proof fn lemma_types_read(
    entries: Seq<(Seq<char>, Json)>,
    limits: JsonLimits,
    depth: int,
    i: int,
    m: int,
)
    requires
        0 <= i < m <= entries.len(),
        entries[i].0 == "type"@,
        forall|j: int| i < j < entries.len() ==> (#[trigger] entries[j]).0 != "type"@,
        read_entries(entries.take(m), limits, depth) is Ok,
    ensures
        read_types(entries[i].1) is Some,
        read_entries(entries.take(m), limits, depth)->Ok_0.schema.types == read_types(entries[i].1),
    decreases m,
{
    let prefix = entries.take(m);
    assert(prefix.drop_last() =~= entries.take(m - 1));
    assert(prefix.last() == entries[m - 1]);
    assert(read_entries(entries.take(m - 1), limits, depth) is Ok);
    let d0 = read_entries(entries.take(m - 1), limits, depth)->Ok_0;
    assert(read_entries(prefix, limits, depth) == step(d0, entries[m - 1].0, entries[m - 1].1, limits, depth));
    if m - 1 > i {
        lemma_types_read(entries, limits, depth, i, m - 1);
        assert(entries[m - 1].0 != "type"@);
    }
}

/// A schema document whose `type` is a single type name accepts only values
/// of that JSON type; an integer also counts as a number.
pub proof fn type_keyword_restricts_accepted_values(
    doc: Json,
    limits: JsonLimits,
    depth: int,
    i: int,
    name: Seq<char>,
    value: Json,
)
    requires
        doc matches Json::Object(entries) && 0 <= i < entries.len() && entries[i] == (
            "type"@,
            Json::Str(name),
        ) && forall|j: int| i < j < entries.len() ==> (#[trigger] entries[j]).0 != "type"@,
        compile_doc(doc, limits, depth) is Ok,
        valid(compile_doc(doc, limits, depth)->Ok_0, value),
    ensures
        name == "object"@ ==> value is Object,
        name == "array"@ ==> value is Array,
        name == "string"@ ==> value is Str,
        name == "boolean"@ ==> value is Bool,
        name == "integer"@ ==> value is Integer,
        name == "number"@ ==> value is Integer || value is Number,
        name == "null"@ ==> value is Null,
{
    let entries = doc->Object_0;
    assert(entries.take(entries.len() as int) =~= entries);
    lemma_types_read(entries, limits, depth, i, entries.len() as int);
    reveal_strlit("object");
    reveal_strlit("array");
    reveal_strlit("string");
    reveal_strlit("boolean");
    reveal_strlit("integer");
    reveal_strlit("number");
    reveal_strlit("null");
    let names = seq![name];
    assert(type_names(Json::Str(name)) == Some(names));
    assert(names.drop_last() =~= Seq::<Seq<char>>::empty());
    assert(names.last() == name);
    let t = read_types(Json::Str(name))->0;
    let d = read_entries(entries, limits, depth)->Ok_0;
    assert(d.schema.types == Some(t));
    let compiled = compile_doc(doc, limits, depth)->Ok_0;
    assert(compiled.types == Some(t));
    assert(type_allowed(Some(t), value));
    super::lemma_labels_distinct();
    assert(super::kind_label(JsonType::Boolean) != super::kind_label(JsonType::Object));
    if let Some(kind) = named_type(name) {
        assert(types_of(names.drop_last()) == Some(no_types()));
        assert(types_of(names) == Some(no_types().with(kind)));
        assert(t == no_types().with(kind));
    }
}

/// The bound that the numeric keyword `key` set in a schema.
pub open spec fn numeric_bound(s: SchemaModel, key: Seq<char>) -> Option<Json> {
    if key == "minimum"@ {
        s.minimum
    } else {
        s.maximum
    }
}

/// Once a `minimum`, `maximum` or `enum` entry is read and no later entry
/// uses that key, the draft holds what it gives.
proof fn lemma_value_keyword_read(
    entries: Seq<(Seq<char>, Json)>,
    limits: JsonLimits,
    depth: int,
    key: Seq<char>,
    i: int,
    m: int,
)
    requires
        key == "minimum"@ || key == "maximum"@ || key == "enum"@,
        0 <= i < m <= entries.len(),
        entries[i].0 == key,
        forall|j: int| i < j < entries.len() ==> (#[trigger] entries[j]).0 != key,
        read_entries(entries.take(m), limits, depth) is Ok,
    ensures
        key == "enum"@ ==> enum_values(entries[i].1) is Some
            && read_entries(entries.take(m), limits, depth)->Ok_0.schema.enum_values == enum_values(
            entries[i].1,
        ),
        key != "enum"@ ==> number_bound(entries[i].1) is Some && numeric_bound(
            read_entries(entries.take(m), limits, depth)->Ok_0.schema,
            key,
        ) == number_bound(entries[i].1),
    decreases m,
{
    let prefix = entries.take(m);
    assert(prefix.drop_last() =~= entries.take(m - 1));
    assert(prefix.last() == entries[m - 1]);
    assert(read_entries(entries.take(m - 1), limits, depth) is Ok);
    let d0 = read_entries(entries.take(m - 1), limits, depth)->Ok_0;
    assert(read_entries(prefix, limits, depth) == step(d0, entries[m - 1].0, entries[m - 1].1, limits, depth));
    reveal_strlit("type");
    reveal_strlit("enum");
    reveal_strlit("minimum");
    reveal_strlit("maximum");
    assert("enum"@ != "type"@) by { assert("enum"@[0] != "type"@[0]); }
    assert("minimum"@ != "type"@) by { assert("minimum"@.len() != "type"@.len()); }
    assert("minimum"@ != "enum"@) by { assert("minimum"@.len() != "enum"@.len()); }
    assert("maximum"@ != "type"@) by { assert("maximum"@.len() != "type"@.len()); }
    assert("maximum"@ != "enum"@) by { assert("maximum"@.len() != "enum"@.len()); }
    assert("maximum"@ != "minimum"@) by { assert("maximum"@[1] != "minimum"@[1]); }
    if m - 1 > i {
        lemma_value_keyword_read(entries, limits, depth, key, i, m - 1);
        assert(entries[m - 1].0 != key);
    }
}

/// A schema document whose `minimum` or `maximum` is `bound` accepts only
/// numbers at or above, or at or below, that bound.
pub proof fn numeric_bounds_hold_for_accepted_numbers(
    doc: Json,
    limits: JsonLimits,
    depth: int,
    key: Seq<char>,
    i: int,
    bound: Json,
    value: Json,
)
    requires
        key == "minimum"@ || key == "maximum"@,
        doc matches Json::Object(entries) && 0 <= i < entries.len() && entries[i] == (key, bound)
            && forall|j: int| i < j < entries.len() ==> (#[trigger] entries[j]).0 != key,
        compile_doc(doc, limits, depth) is Ok,
        valid(compile_doc(doc, limits, depth)->Ok_0, value),
        value is Integer || value is Number,
    ensures
        key == "minimum"@ ==> at_least(value, bound),
        key == "maximum"@ ==> at_least(bound, value),
{
    let entries = doc->Object_0;
    assert(entries.take(entries.len() as int) =~= entries);
    reveal_strlit("enum");
    reveal_strlit("minimum");
    reveal_strlit("maximum");
    assert("minimum"@ != "enum"@) by { assert("minimum"@.len() != "enum"@.len()); }
    assert("maximum"@ != "enum"@) by { assert("maximum"@.len() != "enum"@.len()); }
    assert("maximum"@ != "minimum"@) by { assert("maximum"@[1] != "minimum"@[1]); }
    lemma_value_keyword_read(entries, limits, depth, key, i, entries.len() as int);
}

/// A schema document with an `enum` accepts only values equal to one of the
/// listed values.
pub proof fn enum_admits_only_listed_values(
    doc: Json,
    limits: JsonLimits,
    depth: int,
    i: int,
    values: Seq<Json>,
    value: Json,
)
    requires
        doc matches Json::Object(entries) && 0 <= i < entries.len() && entries[i] == (
            "enum"@,
            Json::Array(values),
        ) && forall|j: int| i < j < entries.len() ==> (#[trigger] entries[j]).0 != "enum"@,
        compile_doc(doc, limits, depth) is Ok,
        valid(compile_doc(doc, limits, depth)->Ok_0, value),
    ensures
        exists|k: int| 0 <= k < values.len() && crate::json::same_value(#[trigger] values[k], value),
{
    let entries = doc->Object_0;
    assert(entries.take(entries.len() as int) =~= entries);
    lemma_value_keyword_read(entries, limits, depth, "enum"@, i, entries.len() as int);
}

/// Once an `items` entry is read and no later entry uses that key, the draft
/// holds the schema it compiles to one level deeper.
proof fn lemma_items_read(
    entries: Seq<(Seq<char>, Json)>,
    limits: JsonLimits,
    depth: int,
    i: int,
    m: int,
)
    requires
        0 <= i < m <= entries.len(),
        entries[i].0 == "items"@,
        forall|j: int| i < j < entries.len() ==> (#[trigger] entries[j]).0 != "items"@,
        read_entries(entries.take(m), limits, depth) is Ok,
    ensures
        compile_doc(entries[i].1, limits, depth + 1) is Ok,
        read_entries(entries.take(m), limits, depth)->Ok_0.schema.items == Some(
            Box::new(compile_doc(entries[i].1, limits, depth + 1)->Ok_0),
        ),
    decreases m,
{
    let prefix = entries.take(m);
    assert(prefix.drop_last() =~= entries.take(m - 1));
    assert(prefix.last() == entries[m - 1]);
    assert(read_entries(entries.take(m - 1), limits, depth) is Ok);
    let d0 = read_entries(entries.take(m - 1), limits, depth)->Ok_0;
    assert(read_entries(prefix, limits, depth) == step(d0, entries[m - 1].0, entries[m - 1].1, limits, depth));
    if m - 1 == i {
        reveal_strlit("type");
        reveal_strlit("enum");
        reveal_strlit("minimum");
        reveal_strlit("maximum");
        reveal_strlit("items");
        reveal_strlit("minLength");
        reveal_strlit("maxLength");
        assert("items"@ != "type"@) by { assert("items"@.len() != "type"@.len()); }
        assert("items"@ != "enum"@) by { assert("items"@.len() != "enum"@.len()); }
        assert("items"@ != "minimum"@) by { assert("items"@.len() != "minimum"@.len()); }
        assert("items"@ != "maximum"@) by { assert("items"@.len() != "maximum"@.len()); }
        assert("items"@ != "minLength"@) by { assert("items"@.len() != "minLength"@.len()); }
        assert("items"@ != "maxLength"@) by { assert("items"@.len() != "maxLength"@.len()); }
        assert(step(d0, "items"@, entries[i].1, limits, depth) is Ok);
    } else {
        lemma_items_read(entries, limits, depth, i, m - 1);
        assert(entries[m - 1].0 != "items"@);
    }
}

/// Every item of an array that a schema document accepts is accepted by the
/// schema under its `items` keyword.
pub proof fn items_schema_holds_for_each_item(
    doc: Json,
    limits: JsonLimits,
    depth: int,
    i: int,
    item_doc: Json,
    items: Seq<Json>,
    k: int,
)
    requires
        doc matches Json::Object(entries) && 0 <= i < entries.len() && entries[i] == (
            "items"@,
            item_doc,
        ) && forall|j: int| i < j < entries.len() ==> (#[trigger] entries[j]).0 != "items"@,
        compile_doc(doc, limits, depth) is Ok,
        valid(compile_doc(doc, limits, depth)->Ok_0, Json::Array(items)),
        0 <= k < items.len(),
    ensures
        compile_doc(item_doc, limits, depth + 1) is Ok,
        valid(compile_doc(item_doc, limits, depth + 1)->Ok_0, items[k]),
{
    let entries = doc->Object_0;
    assert(entries.take(entries.len() as int) =~= entries);
    lemma_items_read(entries, limits, depth, i, entries.len() as int);
}

proof fn lemma_put_property(
    properties: Seq<(Seq<char>, SchemaModel)>,
    name: Seq<char>,
    schema: SchemaModel,
    x: Seq<char>,
)
    ensures
        super::property(put(properties, name, schema), x) == if x == name {
            Some(schema)
        } else {
            super::property(properties, x)
        },
    decreases properties.len(),
{
    let out = put(properties, name, schema);
    if properties.len() == 0 {
        assert(out[0] == (name, schema));
        assert(out.drop_first() =~= Seq::<(Seq<char>, SchemaModel)>::empty());
        assert(super::property(out.drop_first(), x) is None);
        assert(super::property(properties, x) is None);
    } else if properties[0].0 != name {
        let rest = put(properties.drop_first(), name, schema);
        assert(out == seq![properties[0]] + rest);
        assert(out[0] == properties[0]);
        assert(out.drop_first() =~= rest);
        lemma_put_property(properties.drop_first(), name, schema, x);
    } else {
        assert(out == properties.update(0, (name, schema)));
        assert(out[0] == (name, schema));
        assert(out.drop_first() =~= properties.drop_first());
        if x != name {
            assert(super::property(out, x) == super::property(out.drop_first(), x));
            assert(super::property(properties, x) == super::property(properties.drop_first(), x));
        }
    }
}

/// The schema that compiling a `properties` object gives for a name that its
/// last entry `i` carries: the one that entry's value compiles to.
proof fn lemma_read_props_found(
    entries: Seq<(Seq<char>, Json)>,
    limits: JsonLimits,
    depth: int,
    i: int,
)
    requires
        read_props(entries, limits, depth) is Ok,
        0 <= i < entries.len(),
        forall|j: int| i < j < entries.len() ==> (#[trigger] entries[j]).0 != entries[i].0,
    ensures
        compile_doc(entries[i].1, limits, depth + 1) is Ok,
        super::property(read_props(entries, limits, depth)->Ok_0, entries[i].0) == Some(
            compile_doc(entries[i].1, limits, depth + 1)->Ok_0,
        ),
    decreases entries.len(),
{
    let init = entries.drop_last();
    let last = entries.last();
    assert(read_props(init, limits, depth) is Ok);
    let props = read_props(init, limits, depth)->Ok_0;
    assert(compile_doc(last.1, limits, depth + 1) is Ok);
    lemma_put_property(props, last.0, compile_doc(last.1, limits, depth + 1)->Ok_0, entries[i].0);
    if i < entries.len() - 1 {
        assert(init[i] == entries[i]);
        assert forall|j: int| i < j < init.len() implies (#[trigger] init[j]).0 != init[i].0 by {
            assert(init[j] == entries[j]);
        }
        lemma_read_props_found(init, limits, depth, i);
    }
}

/// Compiling a `properties` object gives no schema for a name none of its
/// entries carries.
proof fn lemma_read_props_missing(
    entries: Seq<(Seq<char>, Json)>,
    limits: JsonLimits,
    depth: int,
    x: Seq<char>,
)
    requires
        read_props(entries, limits, depth) is Ok,
        forall|j: int| 0 <= j < entries.len() ==> (#[trigger] entries[j]).0 != x,
    ensures
        super::property(read_props(entries, limits, depth)->Ok_0, x) is None,
    decreases entries.len(),
{
    if entries.len() > 0 {
        let init = entries.drop_last();
        let last = entries.last();
        assert(read_props(init, limits, depth) is Ok);
        let props = read_props(init, limits, depth)->Ok_0;
        assert(compile_doc(last.1, limits, depth + 1) is Ok);
        assert(last.0 != x);
        lemma_put_property(props, last.0, compile_doc(last.1, limits, depth + 1)->Ok_0, x);
        assert forall|j: int| 0 <= j < init.len() implies (#[trigger] init[j]).0 != x by {
            assert(init[j] == entries[j]);
        }
        lemma_read_props_missing(init, limits, depth, x);
    }
}

/// Once a `properties` entry is read and no later entry uses that key, the
/// draft holds the schemas it compiles to.
proof fn lemma_properties_read(
    entries: Seq<(Seq<char>, Json)>,
    limits: JsonLimits,
    depth: int,
    i: int,
    props: Seq<(Seq<char>, Json)>,
    m: int,
)
    requires
        0 <= i < m <= entries.len(),
        entries[i] == ("properties"@, Json::Object(props)),
        forall|j: int| i < j < entries.len() ==> (#[trigger] entries[j]).0 != "properties"@,
        read_entries(entries.take(m), limits, depth) is Ok,
    ensures
        read_props(props, limits, depth) is Ok,
        read_entries(entries.take(m), limits, depth)->Ok_0.schema.properties == read_props(
            props,
            limits,
            depth,
        )->Ok_0,
    decreases m,
{
    let prefix = entries.take(m);
    assert(prefix.drop_last() =~= entries.take(m - 1));
    assert(prefix.last() == entries[m - 1]);
    assert(read_entries(entries.take(m - 1), limits, depth) is Ok);
    let d0 = read_entries(entries.take(m - 1), limits, depth)->Ok_0;
    assert(read_entries(prefix, limits, depth) == step(d0, entries[m - 1].0, entries[m - 1].1, limits, depth));
    if m - 1 == i {
        lemma_length_keys_distinct();
        reveal_strlit("type");
        reveal_strlit("enum");
        reveal_strlit("minimum");
        reveal_strlit("maximum");
        reveal_strlit("minLength");
        reveal_strlit("maxLength");
        reveal_strlit("items");
        reveal_strlit("minItems");
        reveal_strlit("maxItems");
        reveal_strlit("properties");
        let p = "properties"@;
        assert(p != "type"@) by { assert(p.len() != "type"@.len()); }
        assert(p != "enum"@) by { assert(p.len() != "enum"@.len()); }
        assert(p != "minimum"@) by { assert(p.len() != "minimum"@.len()); }
        assert(p != "maximum"@) by { assert(p.len() != "maximum"@.len()); }
        assert(p != "minLength"@) by { assert(p.len() != "minLength"@.len()); }
        assert(p != "maxLength"@) by { assert(p.len() != "maxLength"@.len()); }
        assert(p != "items"@) by { assert(p.len() != "items"@.len()); }
        assert(p != "minItems"@) by { assert(p.len() != "minItems"@.len()); }
        assert(p != "maxItems"@) by { assert(p.len() != "maxItems"@.len()); }
        assert(step(d0, p, Json::Object(props), limits, depth) is Ok);
    } else {
        lemma_properties_read(entries, limits, depth, i, props, m - 1);
        assert(entries[m - 1].0 != "properties"@);
    }
}

/// In an object that a schema document accepts, each field named under the
/// document's `properties` is accepted by the schema given there for it.
pub proof fn property_schemas_hold_for_their_fields(
    doc: Json,
    limits: JsonLimits,
    depth: int,
    i: int,
    props: Seq<(Seq<char>, Json)>,
    p: int,
    fields: Seq<(Seq<char>, Json)>,
    f: int,
)
    requires
        doc matches Json::Object(entries) && 0 <= i < entries.len() && entries[i] == (
            "properties"@,
            Json::Object(props),
        ) && forall|j: int| i < j < entries.len() ==> (#[trigger] entries[j]).0 != "properties"@,
        0 <= p < props.len(),
        forall|j: int| p < j < props.len() ==> (#[trigger] props[j]).0 != props[p].0,
        compile_doc(doc, limits, depth) is Ok,
        valid(compile_doc(doc, limits, depth)->Ok_0, Json::Object(fields)),
        0 <= f < fields.len(),
        fields[f].0 == props[p].0,
    ensures
        compile_doc(props[p].1, limits, depth + 1) is Ok,
        valid(compile_doc(props[p].1, limits, depth + 1)->Ok_0, fields[f].1),
{
    let entries = doc->Object_0;
    assert(entries.take(entries.len() as int) =~= entries);
    lemma_properties_read(entries, limits, depth, i, props, entries.len() as int);
    lemma_read_props_found(props, limits, depth, p);
    let s = compile_doc(doc, limits, depth)->Ok_0;
    assert(s.properties == read_props(props, limits, depth)->Ok_0);
    assert(fields[f] == (fields[f].0, fields[f].1));
}

/// Once an `additionalProperties` entry is read and no later entry uses that
/// key, the draft holds its flag.
proof fn lemma_additional_read(
    entries: Seq<(Seq<char>, Json)>,
    limits: JsonLimits,
    depth: int,
    i: int,
    open: bool,
    m: int,
)
    requires
        0 <= i < m <= entries.len(),
        entries[i] == ("additionalProperties"@, Json::Bool(open)),
        forall|j: int| i < j < entries.len() ==> (#[trigger] entries[j]).0 != "additionalProperties"@,
        read_entries(entries.take(m), limits, depth) is Ok,
    ensures
        read_entries(entries.take(m), limits, depth)->Ok_0.schema.additional_properties == open,
    decreases m,
{
    let prefix = entries.take(m);
    assert(prefix.drop_last() =~= entries.take(m - 1));
    assert(prefix.last() == entries[m - 1]);
    assert(read_entries(entries.take(m - 1), limits, depth) is Ok);
    let d0 = read_entries(entries.take(m - 1), limits, depth)->Ok_0;
    assert(read_entries(prefix, limits, depth) == step(d0, entries[m - 1].0, entries[m - 1].1, limits, depth));
    if m - 1 == i {
        reveal_strlit("type");
        reveal_strlit("enum");
        reveal_strlit("minimum");
        reveal_strlit("maximum");
        reveal_strlit("minLength");
        reveal_strlit("maxLength");
        reveal_strlit("items");
        reveal_strlit("minItems");
        reveal_strlit("maxItems");
        reveal_strlit("properties");
        reveal_strlit("required");
        reveal_strlit("additionalProperties");
        let a = "additionalProperties"@;
        assert(a != "type"@) by { assert(a.len() != "type"@.len()); }
        assert(a != "enum"@) by { assert(a.len() != "enum"@.len()); }
        assert(a != "minimum"@) by { assert(a.len() != "minimum"@.len()); }
        assert(a != "maximum"@) by { assert(a.len() != "maximum"@.len()); }
        assert(a != "minLength"@) by { assert(a.len() != "minLength"@.len()); }
        assert(a != "maxLength"@) by { assert(a.len() != "maxLength"@.len()); }
        assert(a != "items"@) by { assert(a.len() != "items"@.len()); }
        assert(a != "minItems"@) by { assert(a.len() != "minItems"@.len()); }
        assert(a != "maxItems"@) by { assert(a.len() != "maxItems"@.len()); }
        assert(a != "properties"@) by { assert(a.len() != "properties"@.len()); }
        assert(a != "required"@) by { assert(a.len() != "required"@.len()); }
    } else {
        lemma_additional_read(entries, limits, depth, i, open, m - 1);
        assert(entries[m - 1].0 != "additionalProperties"@);
    }
}

/// A schema document with `additionalProperties` false accepts only objects
/// whose every field is named under its `properties`.
pub proof fn closed_schemas_admit_only_declared_fields(
    doc: Json,
    limits: JsonLimits,
    depth: int,
    i: int,
    props: Seq<(Seq<char>, Json)>,
    a: int,
    fields: Seq<(Seq<char>, Json)>,
    f: int,
)
    requires
        doc matches Json::Object(entries) && 0 <= i < entries.len() && entries[i] == (
            "properties"@,
            Json::Object(props),
        ) && forall|j: int| i < j < entries.len() ==> (#[trigger] entries[j]).0 != "properties"@,
        doc matches Json::Object(entries) && 0 <= a < entries.len() && entries[a] == (
            "additionalProperties"@,
            Json::Bool(false),
        ) && forall|j: int| a < j < entries.len() ==> (#[trigger] entries[j]).0
            != "additionalProperties"@,
        compile_doc(doc, limits, depth) is Ok,
        valid(compile_doc(doc, limits, depth)->Ok_0, Json::Object(fields)),
        0 <= f < fields.len(),
    ensures
        exists|p: int| 0 <= p < props.len() && (#[trigger] props[p]).0 == fields[f].0,
{
    let entries = doc->Object_0;
    assert(entries.take(entries.len() as int) =~= entries);
    lemma_properties_read(entries, limits, depth, i, props, entries.len() as int);
    lemma_additional_read(entries, limits, depth, a, false, entries.len() as int);
    if forall|p: int| 0 <= p < props.len() ==> (#[trigger] props[p]).0 != fields[f].0 {
        lemma_read_props_missing(props, limits, depth, fields[f].0);
        let s = compile_doc(doc, limits, depth)->Ok_0;
        assert(super::property(s.properties, fields[f].0) is None);
        assert(!s.additional_properties);
        assert(fields[f] == (fields[f].0, fields[f].1));
        assert(false);
    }
}

} // verus!
