//! Validate JSON values against a compiled schema.
use super::{property, SchemaModel, TypeSet, JsonSchema};
use crate::error::{ErrorCode, KoruError};
use crate::json::number::{decimal_of, number_value, value_lt};
use crate::json::parse::{byte_len, char_width, char_width_exec};
use crate::json::{entry_models, models, same_value, Json, JsonValue};
use vstd::prelude::*;

verus! {

broadcast use vstd::string::group_string_axioms;

/// Whether a value's type is among `types`; an integer is also a number.
pub open spec fn type_allowed(types: Option<TypeSet>, v: Json) -> bool {
    match types {
        None => true,
        Some(t) => match v {
            Json::Null => t.null,
            Json::Bool(_) => t.boolean,
            Json::Integer(_) => t.integer || t.number,
            Json::Number(_) => t.number,
            Json::Str(_) => t.string,
            Json::Array(_) => t.array,
            Json::Object(_) => t.object,
        },
    }
}

/// `a` is not below `b`, both numbers with an exact value.
pub open spec fn at_least(a: Json, b: Json) -> bool {
    match (number_value(a), number_value(b)) {
        (Some(x), Some(y)) => !value_lt(x, y),
        _ => false,
    }
}

/// A number lies within the optional inclusive bounds.
pub open spec fn bound_ok(v: Json, minimum: Option<Json>, maximum: Option<Json>) -> bool {
    &&& (minimum matches Some(low) ==> at_least(v, low))
    &&& (maximum matches Some(high) ==> at_least(high, v))
}

/// A length lies within the optional inclusive bounds.
pub open spec fn length_ok(n: int, minimum: Option<u64>, maximum: Option<u64>) -> bool {
    &&& (minimum matches Some(low) ==> n >= low)
    &&& (maximum matches Some(high) ==> n <= high)
}

/// The value is one of the allowed values, when they are restricted.
pub open spec fn enum_ok(values: Option<Seq<Json>>, v: Json) -> bool {
    match values {
        Some(vs) => exists|k: int| 0 <= k < vs.len() && same_value(#[trigger] vs[k], v),
        None => true,
    }
}

/// Whether the schema accepts the value.
pub open spec fn valid(s: SchemaModel, v: Json) -> bool
    decreases v,
{
    &&& type_allowed(s.types, v)
    &&& enum_ok(s.enum_values, v)
    &&& match v {
        Json::Integer(_) => bound_ok(v, s.minimum, s.maximum),
        Json::Number(_) => bound_ok(v, s.minimum, s.maximum),
        Json::Str(t) => length_ok(byte_len(t), s.min_length, s.max_length),
        Json::Array(items) => {
            &&& length_ok(items.len() as int, s.min_items, s.max_items)
            &&& (s.items matches Some(inner) ==> forall|k: int|
                0 <= k < items.len() ==> valid(*inner, #[trigger] items[k]))
        },
        Json::Object(entries) => {
            &&& keys_cover(entries, s.required)
            &&& forall|k: int|
                0 <= k < entries.len() ==> match property(s.properties, (#[trigger] entries[k]).0) {
                    Some(inner) => valid(inner, entries[k].1),
                    None => s.additional_properties,
                }
        },
        _ => true,
    }
}

proof fn lemma_property_found(props: Seq<(Seq<char>, SchemaModel)>, name: Seq<char>, i: int)
    requires
        0 <= i < props.len(),
        props[i].0 == name,
        forall|j: int| 0 <= j < i ==> (#[trigger] props[j]).0 != name,
    ensures
        property(props, name) == Some(props[i].1),
    decreases i,
{
    if i > 0 {
        assert(props[0].0 != name);
        lemma_property_found(props.drop_first(), name, i - 1);
        assert(props.drop_first()[i - 1] == props[i]);
        assert forall|j: int| 0 <= j < i - 1 implies (#[trigger] props.drop_first()[j]).0 != name by {
            assert(props.drop_first()[j] == props[j + 1]);
        }
    }
}

proof fn lemma_property_missing(props: Seq<(Seq<char>, SchemaModel)>, name: Seq<char>)
    requires
        forall|j: int| 0 <= j < props.len() ==> (#[trigger] props[j]).0 != name,
    ensures
        property(props, name) is None,
    decreases props.len(),
{
    if props.len() > 0 {
        assert(props[0].0 != name);
        assert forall|j: int| 0 <= j < props.len() - 1 implies (#[trigger] props.drop_first()[j]).0 != name by {
            assert(props.drop_first()[j] == props[j + 1]);
        }
        lemma_property_missing(props.drop_first(), name);
    }
}

/// The UTF-8 length of a string in bytes.
fn text_bytes(text: &str) -> (n: u128)
    ensures
        n == byte_len(text@),
{
    let chars = crate::text::chars_of(text);
    let mut n: u128 = 0;
    let mut i: usize = 0;
    while i < chars.len()
        invariant
            i <= chars@.len(),
            chars@ == text@,
            n == byte_len(chars@.take(i as int)),
            n <= 4 * i,
        decreases chars@.len() - i,
    {
        assert(chars@.take(i + 1).drop_last() =~= chars@.take(i as int));
        n = n + char_width_exec(chars[i]) as u128;
        i = i + 1;
    }
    assert(chars@.take(chars@.len() as int) =~= chars@);
    n
}

/// Whether `value` is at least `low`.
pub(super) fn at_least_exec(value: &JsonValue, low: &JsonValue) -> (ok: bool)
    ensures
        ok == at_least(value.model(), low.model()),
{
    match (decimal_of(value), decimal_of(low)) {
        (Some(x), Some(y)) => !x.lt(&y),
        _ => false,
    }
}

/// Check a number against optional bounds.
fn check_range(
    value: &JsonValue,
    minimum: &Option<JsonValue>,
    maximum: &Option<JsonValue>,
    path: &str,
) -> (result: Result<(), KoruError>)
    ensures
        result is Ok == bound_ok(
            value.model(),
            match minimum {
                Some(m) => Some(m.model()),
                None => None,
            },
            match maximum {
                Some(m) => Some(m.model()),
                None => None,
            },
        ),
        result matches Err(e) ==> e.spec_code() == ErrorCode::Validation,
{
    if let Some(low) = minimum {
        if !at_least_exec(value, low) {
            return Err(super::schema_error(path, "value is below the minimum"));
        }
    }
    if let Some(high) = maximum {
        if !at_least_exec(high, value) {
            return Err(super::schema_error(path, "value is above the maximum"));
        }
    }
    Ok(())
}

/// Check a length against optional bounds.
fn check_length(n: u128, minimum: Option<u64>, maximum: Option<u64>, path: &str) -> (result: Result<(), KoruError>)
    ensures
        result is Ok == length_ok(n as int, minimum, maximum),
        result matches Err(e) ==> e.spec_code() == ErrorCode::Validation,
{
    if let Some(low) = minimum {
        if n < low as u128 {
            return Err(super::schema_error(path, "length is below the minimum"));
        }
    }
    if let Some(high) = maximum {
        if n > high as u128 {
            return Err(super::schema_error(path, "length is above the maximum"));
        }
    }
    Ok(())
}

/// Whether the value's type is allowed.
pub(super) fn type_allowed_exec(types: Option<TypeSet>, value: &JsonValue) -> (ok: bool)
    ensures
        ok == type_allowed(types, value.model()),
{
    match types {
        None => true,
        Some(t) => match value {
            JsonValue::Null => t.null,
            JsonValue::Bool(_) => t.boolean,
            JsonValue::Integer(_) => t.integer || t.number,
            JsonValue::Number(_) => t.number,
            JsonValue::String(_) => t.string,
            JsonValue::Array(_) => t.array,
            JsonValue::Object(_) => t.object,
        },
    }
}

/// Whether `value` is one of the allowed values.
fn enum_allows(values: &Vec<JsonValue>, value: &JsonValue) -> (ok: bool)
    ensures
        ok == enum_ok(Some(models(values@)), value.model()),
{
    let ghost ms = models(values@);
    let ghost v = value.model();
    let mut i: usize = 0;
    while i < values.len()
        invariant
            i <= values@.len(),
            ms == models(values@),
            v == value.model(),
            forall|k: int| 0 <= k < i ==> !same_value(#[trigger] ms[k], v),
        decreases values@.len() - i,
    {
        if values[i].same_as(value) {
            let ghost o = Some(models(values@));
            assert(o->0[i as int] == ms[i as int]);
            assert(same_value(o->0[i as int], v));
            assert(enum_ok(o, v));
            return true;
        }
        i = i + 1;
    }
    false
}

/// The names listed in `required` as strings.
pub open spec fn names_of(required: Seq<String>) -> Seq<Seq<char>> {
    Seq::new(required.len(), |k: int| required[k]@)
}

/// `name` is a key of the entries.
pub open spec fn has_key(entries: Seq<(Seq<char>, Json)>, name: Seq<char>) -> bool {
    exists|k: int| 0 <= k < entries.len() && (#[trigger] entries[k]).0 == name
}

/// Every required name is a key of the entries.
pub open spec fn keys_cover(entries: Seq<(Seq<char>, Json)>, required: Seq<Seq<char>>) -> bool {
    forall|r: int| 0 <= r < required.len() ==> has_key(entries, #[trigger] required[r])
}

/// Whether every required name is a key of the entries.
fn has_required(entries: &Vec<(String, JsonValue)>, required: &Vec<String>) -> (ok: bool)
    ensures
        ok == keys_cover(entry_models(entries@), names_of(required@)),
{
    let ghost es = entry_models(entries@);
    let ghost names = names_of(required@);
    let mut r: usize = 0;
    while r < required.len()
        invariant
            r <= required@.len(),
            es == entry_models(entries@),
            names == names_of(required@),
            forall|j: int| 0 <= j < r ==> has_key(es, #[trigger] names[j]),
        decreases required@.len() - r,
    {
        let name = &required[r];
        let mut k: usize = 0;
        let mut present = false;
        while k < entries.len() && !present
            invariant
                k <= entries@.len(),
                r < required@.len(),
                es == entry_models(entries@),
                names == names_of(required@),
                *name == required@[r as int],
                present ==> k < es.len() && es[k as int].0 == names[r as int],
                !present ==> forall|j: int| 0 <= j < k ==> (#[trigger] es[j]).0 != names[r as int],
            decreases entries@.len() - k + (if present { 0int } else { 1int }),
        {
            if crate::text::str_eq(entries[k].0.as_str(), name.as_str()) {
                present = true;
            } else {
                k = k + 1;
            }
        }
        if !present {
            proof {
                assert(es.len() == entries@.len());
                if keys_cover(es, names) {
                    let x = names[r as int];
                    assert(has_key(es, x));
                    let j = choose|j: int| 0 <= j < es.len() && (#[trigger] es[j]).0 == x;
                    assert(es[j].0 != x);
                }
            }
            return false;
        }
        assert(es[k as int].0 == names[r as int]);
        assert(has_key(es, names[r as int]));
        r = r + 1;
    }
    assert(names.len() == required@.len());
    true
}

impl JsonSchema {
    #[verifier::loop_isolation(false)]
    pub(super) fn validate_at(&self, value: &JsonValue, path: &str) -> (result: Result<(), KoruError>)
        ensures
            result is Ok == valid(self.model(), value.model()),
            result matches Err(e) ==> e.spec_code() == ErrorCode::Validation,
        decreases value,
    {
        let ghost s = self.model();
        let ghost v = value.model();
        if !type_allowed_exec(self.types, value) {
            return Err(super::schema_error(path, "value has an unexpected type"));
        }
        assert(s.enum_values == match &self.enum_values {
            Some(vs) => Some(models(vs@)),
            None => None,
        });
        let allowed = match &self.enum_values {
            Some(values) => {
                let found = enum_allows(values, value);
                assert(s.enum_values == Some(models(values@)));
                found
            },
            None => {
                assert(s.enum_values is None);
                true
            },
        };
        assert(allowed == enum_ok(s.enum_values, v));
        if !allowed {
            return Err(super::schema_error(path, "value is not one of the allowed enum values"));
        }
        match value {
            JsonValue::Integer(_) | JsonValue::Number(_) => {
                let result = check_range(value, &self.minimum, &self.maximum, path);
                assert(s.minimum == match &self.minimum {
                    Some(m) => Some(m.model()),
                    None => None,
                });
                assert(s.maximum == match &self.maximum {
                    Some(m) => Some(m.model()),
                    None => None,
                });
                assert(result is Ok == bound_ok(v, s.minimum, s.maximum));
                assert(type_allowed(s.types, v));
                assert(enum_ok(s.enum_values, v));
                assert(v is Integer ==> (valid(s, v) == bound_ok(v, s.minimum, s.maximum)));
                assert(v is Number ==> (valid(s, v) == bound_ok(v, s.minimum, s.maximum)));
                result
            },
            JsonValue::String(text) => {
                let n = text_bytes(text.as_str());
                let result = check_length(n, self.min_length, self.max_length, path);
                assert(result is Ok == valid(s, v));
                result
            },
            JsonValue::Array(items) => {
                proof {
                    crate::json::parse::lemma_array_model(*items);
                }
                let ghost ms = models(items@);
                match check_length(items.len() as u128, self.min_items, self.max_items, path) {
                    Ok(()) => {},
                    Err(e) => {
                        return Err(e);
                    },
                }
                if let Some(inner) = &self.items {
                    let mut i: usize = 0;
                    while i < items.len()
                        invariant
                            i <= items@.len(),
                            ms == models(items@),
                            value is Array,
                            *items == value->Array_0,
                            s.items == Some(Box::new(inner.model())),
                            forall|k: int| 0 <= k < i ==> valid(inner.model(), #[trigger] ms[k]),
                        decreases items@.len() - i,
                    {
                        proof {
                            assert(decreases_to!(*value => value->Array_0));
                            assert(decreases_to!(value->Array_0 => items@));
                            assert(decreases_to!(items@ => items@[i as int]));
                        }
                        let segment = i.to_string();
                        let here = super::child(path, segment.as_str());
                        match inner.validate_at(&items[i], here.as_str()) {
                            Ok(()) => {},
                            Err(e) => {
                                assert(ms[i as int] == items@[i as int].model());
                                assert(!valid(inner.model(), ms[i as int]));
                                assert(v == Json::Array(ms));
                                return Err(e);
                            },
                        }
                        i = i + 1;
                    }
                }
                assert(valid(s, v));
                Ok(())
            },
            JsonValue::Object(entries) => {
                proof {
                    crate::json::parse::lemma_object_model(*entries);
                }
                let ghost es = entry_models(entries@);
                if !has_required(entries, &self.required) {
                    return Err(super::schema_error(path, "missing required property"));
                }
                let mut i: usize = 0;
                while i < entries.len()
                    invariant
                        i <= entries@.len(),
                        es == entry_models(entries@),
                        value is Object,
                        *entries == value->Object_0,
                        s == self.model(),
                        forall|k: int|
                            0 <= k < i ==> (match property(s.properties, (#[trigger] es[k]).0) {
                                Some(inner) => valid(inner, es[k].1),
                                None => s.additional_properties,
                            }),
                    decreases entries@.len() - i,
                {
                    proof {
                        assert(decreases_to!(*value => value->Object_0));
                        assert(decreases_to!(value->Object_0 => entries@));
                        assert(decreases_to!(entries@ => entries@[i as int]));
                        assert(decreases_to!(entries@[i as int] => entries@[i as int].1));
                    }
                    let name = &entries[i].0;
                    let here = super::child(path, name.as_str());
                    let mut j: usize = 0;
                    let mut found = false;
                    while j < self.properties.len() && !found
                        invariant
                            j <= self.properties@.len(),
                            s == self.model(),
                            found ==> j < self.properties@.len() && s.properties[j as int].0 == name@,
                            forall|m: int| 0 <= m < j ==> (#[trigger] s.properties[m]).0 != name@,
                        decreases self.properties@.len() - j + (if found { 0int } else { 1int }),
                    {
                        if crate::text::str_eq(self.properties[j].0.as_str(), name.as_str()) {
                            found = true;
                        } else {
                            j = j + 1;
                        }
                    }
                    if found {
                        proof {
                            lemma_property_found(s.properties, name@, j as int);
                        }
                        match self.properties[j].1.validate_at(&entries[i].1, here.as_str()) {
                            Ok(()) => {},
                            Err(e) => {
                                return Err(e);
                            },
                        }
                    } else {
                        proof {
                            lemma_property_missing(s.properties, name@);
                        }
                        if !self.additional_properties {
                            assert(es[i as int].0 == name@);
                            assert(v == Json::Object(es));
                            assert(property(s.properties, es[i as int].0) is None);
                            return Err(super::schema_error(
                                here.as_str(),
                                "additional properties are not allowed",
                            ));
                        }
                    }
                    i = i + 1;
                }
                assert(v == Json::Object(es));
                assert(s.required == names_of(self.required@));
                assert(forall|k: int|
                    0 <= k < es.len() ==> (match property(s.properties, (#[trigger] es[k]).0) {
                        Some(inner) => valid(inner, es[k].1),
                        None => s.additional_properties,
                    }));
                assert(type_allowed(s.types, v));
                assert(enum_ok(s.enum_values, v));
                assert(valid(s, v));
                Ok(())
            },
            _ => {
                    assert(valid(s, v));
                    Ok(())
                },
        }
    }
}

} // verus!
