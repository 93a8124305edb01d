//! Read and bound individual schema keywords during compilation.
use super::{named_type, no_types, JsonType, TypeSet};
use crate::error::{ErrorCode, KoruError};
use crate::json::number::lexeme_value;
use crate::json::{models, same_value, Json, JsonValue};
use vstd::prelude::*;

verus! {

broadcast use vstd::string::group_string_axioms;

/// The type names of a `type` value: one string, or an array of strings.
pub open spec fn type_names(v: Json) -> Option<Seq<Seq<char>>> {
    match v {
        Json::Str(name) => Some(seq![name]),
        Json::Array(items) => if forall|k: int| 0 <= k < items.len() ==> #[trigger] items[k] is Str {
            Some(Seq::new(items.len(), |k: int| items[k]->Str_0))
        } else {
            None
        },
        _ => None,
    }
}

/// The set of the named types, each one known and named once.
pub open spec fn types_of(names: Seq<Seq<char>>) -> Option<TypeSet>
    decreases names.len(),
{
    if names.len() == 0 {
        Some(no_types())
    } else {
        match types_of(names.drop_last()) {
            None => None,
            Some(set) => match named_type(names.last()) {
                None => None,
                Some(kind) => if set.has(kind) {
                    None
                } else {
                    Some(set.with(kind))
                },
            },
        }
    }
}

proof fn lemma_types_of_prefix(names: Seq<Seq<char>>, j: int)
    requires
        0 <= j <= names.len(),
        types_of(names.take(j)) is None,
    ensures
        types_of(names) is None,
    decreases names.len() - j,
{
    if j < names.len() {
        assert(names.take(j + 1).drop_last() =~= names.take(j));
        lemma_types_of_prefix(names, j + 1);
    } else {
        assert(names.take(j) =~= names);
    }
}

/// The value of a `type` keyword: at least one known type, none twice.
pub open spec fn read_types(v: Json) -> Option<TypeSet> {
    match type_names(v) {
        None => None,
        Some(names) => if names.len() == 0 {
            None
        } else {
            types_of(names)
        },
    }
}

/// The values of an `enum` keyword: an array of pairwise different values.
pub open spec fn enum_values(v: Json) -> Option<Seq<Json>> {
    match v {
        Json::Array(items) => if forall|i: int, j: int|
            0 <= i < j < items.len() ==> !same_value(#[trigger] items[i], #[trigger] items[j]) {
            Some(items)
        } else {
            None
        },
        _ => None,
    }
}

/// The names of a `required` keyword: an array of pairwise different strings.
pub open spec fn required_names(v: Json) -> Option<Seq<Seq<char>>> {
    match v {
        Json::Array(items) => if (forall|k: int| 0 <= k < items.len() ==> #[trigger] items[k] is Str)
            && (forall|i: int, j: int|
            0 <= i < j < items.len() ==> #[trigger] items[i] != #[trigger] items[j]) {
            Some(Seq::new(items.len(), |k: int| items[k]->Str_0))
        } else {
            None
        },
        _ => None,
    }
}

/// The value of a numeric bound: an integer, or a number with an exact value.
pub open spec fn number_bound(v: Json) -> Option<Json> {
    match v {
        Json::Integer(_) => Some(v),
        Json::Number(t) => if lexeme_value(t) is Some {
            Some(v)
        } else {
            None
        },
        _ => None,
    }
}

/// The types of the given values.
pub open spec fn enum_types(values: Seq<Json>) -> TypeSet {
    TypeSet {
        object: exists|k: int| 0 <= k < values.len() && #[trigger] values[k] is Object,
        array: exists|k: int| 0 <= k < values.len() && #[trigger] values[k] is Array,
        string: exists|k: int| 0 <= k < values.len() && #[trigger] values[k] is Str,
        boolean: exists|k: int| 0 <= k < values.len() && #[trigger] values[k] is Bool,
        integer: exists|k: int| 0 <= k < values.len() && #[trigger] values[k] is Integer,
        number: exists|k: int| 0 <= k < values.len() && #[trigger] values[k] is Number,
        null: exists|k: int| 0 <= k < values.len() && #[trigger] values[k] is Null,
    }
}

/// A schema error, which is always a validation failure.
pub open spec fn refused<T>(result: Result<T, KoruError>) -> bool {
    result matches Err(e) && e.spec_code() == ErrorCode::Validation
}

pub(super) fn read_types_of(value: &JsonValue, path: &str) -> (result: Result<TypeSet, KoruError>)
    ensures
        match read_types(value.model()) {
            Some(set) => result == Ok::<TypeSet, KoruError>(set),
            None => refused(result),
        },
{
    match value {
        JsonValue::String(name) => {
            let ghost names = seq![name@];
            assert(names.drop_last() =~= Seq::<Seq<char>>::empty());
            assert(types_of(Seq::<Seq<char>>::empty()) == Some(no_types()));
            assert(names.last() == name@);
            match JsonType::from_name(name.as_str()) {
                Some(kind) => {
                    let mut set = TypeSet::empty();
                    set.insert(kind);
                    Ok(set)
                },
                None => Err(super::schema_error(path, "unknown JSON type")),
            }
        },
        JsonValue::Array(items) => {
            proof {
                crate::json::parse::lemma_array_model(*items);
            }
            let ghost ms = models(items@);
            let mut i: usize = 0;
            while i < items.len()
                invariant
                    i <= items@.len(),
                    ms == models(items@),
                    value.model() == Json::Array(ms),
                    forall|k: int| 0 <= k < i ==> #[trigger] ms[k] is Str,
                decreases items@.len() - i,
            {
                match &items[i] {
                    JsonValue::String(_) => {},
                    _ => {
                        assert(!(ms[i as int] is Str));
                        return Err(super::schema_error(path, "`type` entries must be strings"));
                    },
                }
                i = i + 1;
            }
            let ghost names = Seq::new(ms.len(), |k: int| ms[k]->Str_0);
            assert(type_names(value.model()) == Some(names));
            if items.len() == 0 {
                return Err(super::schema_error(path, "`type` must name at least one type"));
            }
            let mut set = TypeSet::empty();
            let mut j: usize = 0;
            assert(names.take(0) =~= Seq::<Seq<char>>::empty());
            while j < items.len()
                invariant
                    j <= items@.len(),
                    ms == models(items@),
                    value.model() == Json::Array(ms),
                    type_names(value.model()) == Some(names),
                    names.len() == items@.len(),
                    forall|k: int| 0 <= k < items@.len() ==> #[trigger] ms[k] is Str,
                    names == Seq::new(ms.len(), |k: int| ms[k]->Str_0),
                    types_of(names.take(j as int)) == Some(set),
                decreases items@.len() - j,
            {
                let name = match &items[j] {
                    JsonValue::String(name) => name,
                    _ => {
                        assert(ms[j as int] is Str);
                        return Err(super::schema_error(path, "`type` entries must be strings"));
                    },
                };
                assert(name@ == names[j as int]);
                assert(names.take(j + 1).drop_last() =~= names.take(j as int));
                assert(names.take(j + 1).last() == names[j as int]);
                match JsonType::from_name(name.as_str()) {
                    Some(kind) => {
                        if set.contains(kind) {
                            proof {
                                lemma_types_of_prefix(names, j + 1);
                            }
                            return Err(super::schema_error(path, "duplicate JSON type"));
                        }
                        set.insert(kind);
                    },
                    None => {
                        proof {
                            lemma_types_of_prefix(names, j + 1);
                        }
                        return Err(super::schema_error(path, "unknown JSON type"));
                    },
                }
                j = j + 1;
            }
            assert(names.take(items@.len() as int) =~= names);
            Ok(set)
        },
        _ => Err(super::schema_error(path, "`type` must be a string or array of strings")),
    }
}

pub(super) fn read_enum(value: &JsonValue, path: &str) -> (result: Result<Vec<JsonValue>, KoruError>)
    ensures
        match enum_values(value.model()) {
            Some(values) => result matches Ok(v) && models(v@) == values,
            None => refused(result),
        },
{
    let items = match value {
        JsonValue::Array(items) => items,
        _ => {
            return Err(super::schema_error(path, "`enum` must be an array"));
        },
    };
    proof {
        crate::json::parse::lemma_array_model(*items);
    }
    let ghost ms = models(items@);
    let mut out: Vec<JsonValue> = Vec::new();
    let mut j: usize = 0;
    while j < items.len()
        invariant
            j <= items@.len(),
            ms == models(items@),
            value.model() == Json::Array(ms),
            forall|a: int, b: int| 0 <= a < b < j ==> !same_value(#[trigger] ms[a], #[trigger] ms[b]),
            models(out@) == ms.take(j as int),
        decreases items@.len() - j,
    {
        let mut i: usize = 0;
        while i < j
            invariant
                i <= j < items@.len(),
                ms == models(items@),
                value.model() == Json::Array(ms),
                forall|a: int| 0 <= a < i ==> !same_value(#[trigger] ms[a], ms[j as int]),
            decreases j - i,
        {
            if items[i].same_as(&items[j]) {
                assert(same_value(ms[i as int], ms[j as int]));
                assert(!(forall|a: int, b: int|
                    0 <= a < b < ms.len() ==> !same_value(#[trigger] ms[a], #[trigger] ms[b])));
                return Err(super::schema_error(path, "`enum` values must be unique"));
            }
            i = i + 1;
        }
        let copy = items[j].clone_value();
        let ghost before = out@;
        out.push(copy);
        assert(models(out@) =~= models(before).push(copy.model()));
        assert(ms.take(j + 1) =~= ms.take(j as int).push(ms[j as int]));
        j = j + 1;
    }
    assert(ms.take(items@.len() as int) =~= ms);
    Ok(out)
}

pub(super) fn read_required(value: &JsonValue, path: &str) -> (result: Result<Vec<String>, KoruError>)
    ensures
        match required_names(value.model()) {
            Some(names) => result matches Ok(v) && Seq::new(v@.len(), |k: int| v@[k]@) == names,
            None => refused(result),
        },
{
    let items = match value {
        JsonValue::Array(items) => items,
        _ => {
            return Err(super::schema_error(path, "`required` must be an array"));
        },
    };
    proof {
        crate::json::parse::lemma_array_model(*items);
    }
    let ghost ms = models(items@);
    let mut names: Vec<String> = Vec::new();
    let mut j: usize = 0;
    while j < items.len()
        invariant
            j <= items@.len(),
            ms == models(items@),
            value.model() == Json::Array(ms),
            forall|k: int| 0 <= k < j ==> #[trigger] ms[k] is Str,
            forall|a: int, b: int| 0 <= a < b < j ==> #[trigger] ms[a] != #[trigger] ms[b],
            names@.len() == j,
            forall|k: int| 0 <= k < j ==> Json::Str(#[trigger] names@[k]@) == ms[k],
        decreases items@.len() - j,
    {
        let name = match &items[j] {
            JsonValue::String(name) => name,
            _ => {
                assert(!(ms[j as int] is Str));
                return Err(super::schema_error(path, "`required` entries must be strings"));
            },
        };
        let mut i: usize = 0;
        while i < j
            invariant
                i <= j < items@.len(),
                names@.len() == j,
                ms == models(items@),
                value.model() == Json::Array(ms),
                ms[j as int] == Json::Str(name@),
                forall|k: int| 0 <= k < j ==> Json::Str(#[trigger] names@[k]@) == ms[k],
                forall|a: int| 0 <= a < i ==> #[trigger] ms[a] != ms[j as int],
            decreases j - i,
        {
            if crate::text::str_eq(names[i].as_str(), name.as_str()) {
                assert(ms[i as int] == ms[j as int]);
                return Err(super::schema_error(path, "`required` entries must be unique"));
            }
            i = i + 1;
        }
        names.push(name.clone());
        j = j + 1;
    }
    assert(Seq::new(names@.len(), |k: int| names@[k]@) =~= Seq::new(
        ms.len(),
        |k: int| ms[k]->Str_0,
    ));
    Ok(names)
}

pub(super) fn read_bool(value: &JsonValue, path: &str) -> (result: Result<bool, KoruError>)
    ensures
        match value.model() {
            Json::Bool(b) => result == Ok::<bool, KoruError>(b),
            _ => refused(result),
        },
{
    match value {
        JsonValue::Bool(flag) => Ok(*flag),
        _ => Err(super::schema_error(path, "a boolean keyword must be a boolean")),
    }
}

pub(super) fn read_u64(value: &JsonValue, path: &str) -> (result: Result<u64, KoruError>)
    ensures
        match value.model() {
            Json::Integer(n) => if n >= 0 {
                result matches Ok(m) && m == n
            } else {
                refused(result)
            },
            _ => refused(result),
        },
{
    match value {
        JsonValue::Integer(number) => {
            if *number >= 0 {
                Ok(*number as u64)
            } else {
                Err(super::schema_error(path, "a length keyword must be a nonnegative integer"))
            }
        },
        _ => Err(super::schema_error(path, "a length keyword must be a nonnegative integer")),
    }
}

pub(super) fn read_number(value: &JsonValue, path: &str) -> (result: Result<JsonValue, KoruError>)
    ensures
        match number_bound(value.model()) {
            Some(v) => result matches Ok(x) && x.model() == v,
            None => refused(result),
        },
{
    match value {
        JsonValue::Integer(n) => Ok(JsonValue::Integer(*n)),
        JsonValue::Number(text) => {
            match crate::json::number::Decimal::from_text(text.as_str()) {
                Some(_) => Ok(JsonValue::Number(text.clone())),
                None => Err(super::schema_error(path, "a numeric bound must be finite")),
            }
        },
        _ => Err(super::schema_error(path, "a numeric bound must be a number")),
    }
}

pub(super) fn types_of_values(values: &Vec<JsonValue>) -> (set: TypeSet)
    ensures
        set == enum_types(models(values@)),
{
    let ghost ms = models(values@);
    let mut set = TypeSet::empty();
    let mut i: usize = 0;
    while i < values.len()
        invariant
            i <= values@.len(),
            ms == models(values@),
            set == enum_types(ms.take(i as int)),
        decreases values@.len() - i,
    {
        let ghost before = ms.take(i as int);
        let ghost after = ms.take(i + 1);
        assert(after =~= before.push(ms[i as int]));
        let kind = match &values[i] {
            JsonValue::Null => JsonType::Null,
            JsonValue::Bool(_) => JsonType::Boolean,
            JsonValue::Integer(_) => JsonType::Integer,
            JsonValue::Number(_) => JsonType::Number,
            JsonValue::String(_) => JsonType::String,
            JsonValue::Array(_) => JsonType::Array,
            JsonValue::Object(_) => JsonType::Object,
        };
        set.insert(kind);
        proof {
            let last = after[i as int];
            assert(last == ms[i as int]);
            assert forall|k: int| 0 <= k < i implies #[trigger] after[k] == before[k] by {}
            assert(set == enum_types(after)) by {
                if before.len() == 0 {
                } else {
                }
            }
        }
        i = i + 1;
    }
    assert(ms.take(values@.len() as int) =~= ms);
    set
}

} // verus!
