//! Library-owned JSON value model with explicit, bounded conversion rules.
//!
//! Numbers that are not exact integers in the portable range are carried as
//! their decimal text; binary floating point belongs to the adapters.
pub mod emit;
pub mod number;
pub mod parse;
pub mod round_trip;

use crate::error::{ErrorCode, KoruError};
use crate::json::number::{lexeme_value, value_lt, Decimal};
use crate::json::parse::{byte_len, key_lt};
use vstd::prelude::*;


pub use emit::emit;
pub use parse::parse;

verus! {

/// Largest integer that is exact in the JSON/JavaScript number range.
pub const MAX_SAFE_INTEGER: i64 = 9_007_199_254_740_991;

/// Hard ceilings applied while converting one JSON value.
#[derive(Debug, Clone, Copy, PartialEq, Eq, Structural)]
pub struct JsonLimits {
    /// Maximum nesting depth, with a scalar at depth zero.
    pub max_depth: usize,
    /// Maximum total number of array elements and object entries.
    pub max_elements: usize,
    /// Maximum total string and key bytes.
    pub max_bytes: usize,
    /// Maximum bytes in one string value.
    pub max_string_bytes: usize,
    /// Maximum bytes in one object key.
    pub max_key_bytes: usize,
}

/// The default ceilings.
pub open spec fn default_limits() -> JsonLimits {
    JsonLimits {
        max_depth: 32,
        max_elements: 100_000,
        max_bytes: 8_388_608,
        max_string_bytes: 1_048_576,
        max_key_bytes: 1024,
    }
}

impl Default for JsonLimits {
    fn default() -> (limits: Self)
        ensures
            limits == default_limits(),
    {
        JsonLimits {
            max_depth: 32,
            max_elements: 100_000,
            max_bytes: 8_388_608,
            max_string_bytes: 1_048_576,
            max_key_bytes: 1024,
        }
    }
}

/// A result that fails with `BudgetExhausted` exactly when `over` holds.
pub open spec fn limit_result(result: Result<(), KoruError>, over: bool, what: Seq<char>) -> bool {
    if over {
        result matches Err(e) && e.spec_code() == ErrorCode::BudgetExhausted && e.spec_message()
            == what + " limit exceeded"@
    } else {
        result is Ok
    }
}

impl JsonLimits {
    /// Reject values nested deeper than the limit.
    pub fn check_depth(&self, depth: usize) -> (result: Result<(), KoruError>)
        ensures
            limit_result(result, depth > self.max_depth, "JSON nesting depth"@),
    {
        if depth > self.max_depth {
            proof {
                reveal_strlit("JSON nesting depth limit exceeded");
                reveal_strlit("JSON nesting depth");
                reveal_strlit(" limit exceeded");
                assert("JSON nesting depth limit exceeded"@ =~= "JSON nesting depth"@ + " limit exceeded"@);
            }
            return Err(KoruError::new(ErrorCode::BudgetExhausted, "JSON nesting depth limit exceeded"));
        }
        Ok(())
    }

    /// Reject values with more than the allowed elements.
    pub fn check_elements(&self, count: usize) -> (result: Result<(), KoruError>)
        ensures
            limit_result(result, count > self.max_elements, "JSON element count"@),
    {
        if count > self.max_elements {
            proof {
                reveal_strlit("JSON element count limit exceeded");
                reveal_strlit("JSON element count");
                reveal_strlit(" limit exceeded");
                assert("JSON element count limit exceeded"@ =~= "JSON element count"@ + " limit exceeded"@);
            }
            return Err(KoruError::new(ErrorCode::BudgetExhausted, "JSON element count limit exceeded"));
        }
        Ok(())
    }

    /// Reject values with more than the allowed total bytes.
    pub fn check_bytes(&self, total: usize) -> (result: Result<(), KoruError>)
        ensures
            limit_result(result, total > self.max_bytes, "JSON byte size"@),
    {
        if total > self.max_bytes {
            proof {
                reveal_strlit("JSON byte size limit exceeded");
                reveal_strlit("JSON byte size");
                reveal_strlit(" limit exceeded");
                assert("JSON byte size limit exceeded"@ =~= "JSON byte size"@ + " limit exceeded"@);
            }
            return Err(KoruError::new(ErrorCode::BudgetExhausted, "JSON byte size limit exceeded"));
        }
        Ok(())
    }

    /// Reject one string longer than the allowed size.
    pub fn check_string_bytes(&self, bytes: usize) -> (result: Result<(), KoruError>)
        ensures
            limit_result(result, bytes > self.max_string_bytes, "JSON string length"@),
    {
        if bytes > self.max_string_bytes {
            proof {
                reveal_strlit("JSON string length limit exceeded");
                reveal_strlit("JSON string length");
                reveal_strlit(" limit exceeded");
                assert("JSON string length limit exceeded"@ =~= "JSON string length"@ + " limit exceeded"@);
            }
            return Err(KoruError::new(ErrorCode::BudgetExhausted, "JSON string length limit exceeded"));
        }
        Ok(())
    }

    /// Reject one object key longer than the allowed size.
    pub fn check_key_bytes(&self, bytes: usize) -> (result: Result<(), KoruError>)
        ensures
            limit_result(result, bytes > self.max_key_bytes, "JSON key length"@),
    {
        if bytes > self.max_key_bytes {
            proof {
                reveal_strlit("JSON key length limit exceeded");
                reveal_strlit("JSON key length");
                reveal_strlit(" limit exceeded");
                assert("JSON key length limit exceeded"@ =~= "JSON key length"@ + " limit exceeded"@);
            }
            return Err(KoruError::new(ErrorCode::BudgetExhausted, "JSON key length limit exceeded"));
        }
        Ok(())
    }
}

/// A JSON value with an unambiguous representation of null and empty containers.
#[derive(Debug, PartialEq)]
pub enum JsonValue {
    /// JSON null, distinct from an absent value.
    Null,
    /// A boolean.
    Bool(bool),
    /// An exact integer within [`MAX_SAFE_INTEGER`].
    Integer(i64),
    /// A finite number that is not a portable integer, as its JSON decimal text.
    Number(String),
    /// A UTF-8 string.
    String(String),
    /// A contiguous array.
    Array(Vec<JsonValue>),
    /// A string-keyed object, ordered by key.
    Object(Vec<(String, JsonValue)>),
}

/// The mathematical content of a JSON value.
pub enum Json {
    /// JSON null.
    Null,
    /// A boolean.
    Bool(bool),
    /// An integer.
    Integer(int),
    /// A number, as its decimal text.
    Number(Seq<char>),
    /// A string.
    Str(Seq<char>),
    /// An array.
    Array(Seq<Json>),
    /// An object, as its entries in order.
    Object(Seq<(Seq<char>, Json)>),
}

/// The models of a list of values.
pub open spec fn models(items: Seq<JsonValue>) -> Seq<Json>
    decreases items,
{
    Seq::new(
        items.len(),
        |k: int|
            if 0 <= k < items.len() {
                items[k].model()
            } else {
                Json::Null
            },
    )
}

/// The models of a list of entries.
pub open spec fn entry_models(entries: Seq<(String, JsonValue)>) -> Seq<(Seq<char>, Json)>
    decreases entries,
{
    Seq::new(
        entries.len(),
        |k: int|
            if 0 <= k < entries.len() {
                (entries[k].0@, entries[k].1.model())
            } else {
                (Seq::empty(), Json::Null)
            },
    )
}

impl JsonValue {
    /// The content of this value.
    pub open spec fn model(&self) -> Json
        decreases self,
    {
        match self {
            JsonValue::Null => Json::Null,
            JsonValue::Bool(b) => Json::Bool(*b),
            JsonValue::Integer(n) => Json::Integer(*n as int),
            JsonValue::Number(t) => Json::Number(t@),
            JsonValue::String(t) => Json::Str(t@),
            JsonValue::Array(items) => Json::Array(
                Seq::new(
                    items@.len(),
                    |k: int|
                        if 0 <= k < items@.len() {
                            items@[k].model()
                        } else {
                            Json::Null
                        },
                ),
            ),
            JsonValue::Object(entries) => Json::Object(
                Seq::new(
                    entries@.len(),
                    |k: int|
                        if 0 <= k < entries@.len() {
                            (entries@[k].0@, entries@[k].1.model())
                        } else {
                            (Seq::empty(), Json::Null)
                        },
                ),
            ),
        }
    }

    /// A short name for diagnostics.
    pub fn kind(&self) -> (name: &'static str)
        ensures
            name@ == kind_name(self.model()),
    {
        match self {
            JsonValue::Null => "null",
            JsonValue::Bool(_) => "boolean",
            JsonValue::Integer(_) => "integer",
            JsonValue::Number(_) => "number",
            JsonValue::String(_) => "string",
            JsonValue::Array(_) => "array",
            JsonValue::Object(_) => "object",
        }
    }
}

/// The diagnostic name of a value's kind.
pub open spec fn kind_name(value: Json) -> Seq<char> {
    match value {
        Json::Null => "null"@,
        Json::Bool(_) => "boolean"@,
        Json::Integer(_) => "integer"@,
        Json::Number(_) => "number"@,
        Json::Str(_) => "string"@,
        Json::Array(_) => "array"@,
        Json::Object(_) => "object"@,
    }
}

/// Object keys ascend strictly at every level, as the model keeps them.
pub open spec fn canonical(v: Json) -> bool
    decreases v,
{
    match v {
        Json::Array(items) => forall|k: int| 0 <= k < items.len() ==> canonical(#[trigger] items[k]),
        Json::Object(entries) => {
            &&& forall|i: int, j: int|
                0 <= i < j < entries.len() ==> key_lt(#[trigger] entries[i].0, #[trigger] entries[j].0)
            &&& forall|k: int| 0 <= k < entries.len() ==> canonical(#[trigger] entries[k].1)
        },
        _ => true,
    }
}

/// The value converts at `depth` within the depth, integer, string and key
/// limits.
pub open spec fn within(v: Json, depth: int, limits: JsonLimits) -> bool
    decreases v,
{
    &&& depth <= limits.max_depth
    &&& match v {
        Json::Integer(n) => -MAX_SAFE_INTEGER <= n <= MAX_SAFE_INTEGER,
        Json::Str(s) => byte_len(s) <= limits.max_string_bytes,
        Json::Array(items) => forall|k: int|
            0 <= k < items.len() ==> within(#[trigger] items[k], depth + 1, limits),
        Json::Object(entries) => forall|k: int|
            0 <= k < entries.len() ==> entry_within(#[trigger] entries[k], depth + 1, limits),
        _ => true,
    }
}

/// An object entry whose key and value are within the limits at `depth`.
pub open spec fn entry_within(entry: (Seq<char>, Json), depth: int, limits: JsonLimits) -> bool
    decreases entry,
{
    byte_len(entry.0) <= limits.max_key_bytes && within(entry.1, depth, limits)
}

/// Two costs added.
pub open spec fn add_cost(a: (int, int), b: (int, int)) -> (int, int) {
    (a.0 + b.0, a.1 + b.1)
}

/// The first entry value under `name`.
pub open spec fn lookup(entries: Seq<(Seq<char>, Json)>, name: Seq<char>) -> Option<Json>
    decreases entries.len(),
{
    if entries.len() == 0 {
        None
    } else if entries[0].0 == name {
        Some(entries[0].1)
    } else {
        lookup(entries.drop_first(), name)
    }
}

/// The field `name` of an object.
pub open spec fn field(value: Json, name: Seq<char>) -> Option<Json> {
    match value {
        Json::Object(entries) => lookup(entries, name),
        _ => None,
    }
}

/// The field `name` of an object value.
pub fn field_of<'a>(value: &'a JsonValue, name: &str) -> (found: Option<&'a JsonValue>)
    ensures
        match field(value.model(), name@) {
            Some(v) => found matches Some(x) && x.model() == v,
            None => found is None,
        },
{
    match value {
        JsonValue::Object(entries) => {
            let ghost ms = entry_models(entries@);
            proof {
                parse::lemma_object_model(*entries);
            }
            assert(ms.subrange(0, ms.len() as int) =~= ms);
            let mut i: usize = 0;
            while i < entries.len()
                invariant
                    i <= entries@.len(),
                    ms == entry_models(entries@),
                    value.model() == Json::Object(ms),
                    lookup(ms, name@) == lookup(ms.subrange(i as int, ms.len() as int), name@),
                decreases entries@.len() - i,
            {
                let ghost rest = ms.subrange(i as int, ms.len() as int);
                assert(rest[0] == ms[i as int]);
                assert(rest.drop_first() =~= ms.subrange(i + 1, ms.len() as int));
                assert(ms[i as int] == (entries@[i as int].0@, entries@[i as int].1.model()));
                if crate::text::str_eq(entries[i].0.as_str(), name) {
                    return Some(&entries[i].1);
                }
                i = i + 1;
            }
            None
        },
        _ => None,
    }
}


impl JsonValue {
    /// A deep copy of this value.
    pub fn clone_value(&self) -> (copy: JsonValue)
        ensures
            copy.model() == self.model(),
        decreases self,
    {
        match self {
            JsonValue::Null => JsonValue::Null,
            JsonValue::Bool(b) => JsonValue::Bool(*b),
            JsonValue::Integer(n) => JsonValue::Integer(*n),
            JsonValue::Number(t) => JsonValue::Number(t.clone()),
            JsonValue::String(t) => JsonValue::String(t.clone()),
            JsonValue::Array(items) => {
                let mut out: Vec<JsonValue> = Vec::new();
                let mut i: usize = 0;
                while i < items.len()
                    invariant
                        i <= items@.len(),
                        self is Array,
                        *items == self->Array_0,
                        models(out@) == models(items@).subrange(0, i as int),
                    decreases items@.len() - i,
                {
                    proof {
                        assert(decreases_to!(*self => self->Array_0));
                        assert(decreases_to!(self->Array_0 => items@));
                        assert(decreases_to!(items@ => items@[i as int]));
                    }
                    let item = items[i].clone_value();
                    let ghost before = out@;
                    out.push(item);
                    proof {
                        assert(models(out@) =~= models(before).push(item.model()));
                        assert(models(items@).subrange(0, i + 1) =~= models(items@).subrange(
                            0,
                            i as int,
                        ).push(items@[i as int].model()));
                    }
                    i = i + 1;
                }
                proof {
                    assert(models(items@).subrange(0, items@.len() as int) =~= models(items@));
                    parse::lemma_array_model(out);
                    parse::lemma_array_model(*items);
                }
                JsonValue::Array(out)
            },
            JsonValue::Object(entries) => {
                let mut out: Vec<(String, JsonValue)> = Vec::new();
                let mut i: usize = 0;
                while i < entries.len()
                    invariant
                        i <= entries@.len(),
                        self is Object,
                        *entries == self->Object_0,
                        entry_models(out@) == entry_models(entries@).subrange(0, i as int),
                    decreases entries@.len() - i,
                {
                    proof {
                        assert(decreases_to!(*self => self->Object_0));
                        assert(decreases_to!(self->Object_0 => entries@));
                        assert(decreases_to!(entries@ => entries@[i as int]));
                        assert(decreases_to!(entries@[i as int] => entries@[i as int].1));
                    }
                    let key = entries[i].0.clone();
                    let item = entries[i].1.clone_value();
                    let ghost before = out@;
                    out.push((key, item));
                    proof {
                        assert(entry_models(out@) =~= entry_models(before).push(
                            (key@, item.model()),
                        ));
                        assert(entry_models(entries@).subrange(0, i + 1) =~= entry_models(
                            entries@,
                        ).subrange(0, i as int).push(
                            (entries@[i as int].0@, entries@[i as int].1.model()),
                        ));
                    }
                    i = i + 1;
                }
                proof {
                    assert(entry_models(entries@).subrange(0, entries@.len() as int) =~= entry_models(
                        entries@,
                    ));
                    parse::lemma_object_model(out);
                    parse::lemma_object_model(*entries);
                }
                JsonValue::Object(out)
            },
        }
    }
}


/// Two number texts denote the same value.
pub open spec fn same_number(x: Seq<char>, y: Seq<char>) -> bool {
    x == y || match (lexeme_value(x), lexeme_value(y)) {
        (Some(a), Some(b)) => !value_lt(a, b) && !value_lt(b, a),
        _ => false,
    }
}

/// Two JSON values are equal; numbers are equal when they denote the same value.
pub open spec fn same_value(a: Json, b: Json) -> bool
    decreases a,
{
    match a {
        Json::Null => b is Null,
        Json::Bool(x) => b == Json::Bool(x),
        Json::Integer(x) => b == Json::Integer(x),
        Json::Number(x) => b matches Json::Number(y) && same_number(x, y),
        Json::Str(x) => b == Json::Str(x),
        Json::Array(xs) => b matches Json::Array(ys) && xs.len() == ys.len() && forall|k: int|
            0 <= k < xs.len() ==> same_value(#[trigger] xs[k], ys[k]),
        Json::Object(xs) => b matches Json::Object(ys) && xs.len() == ys.len() && forall|k: int|
            0 <= k < xs.len() ==> (#[trigger] xs[k]).0 == ys[k].0 && same_value(xs[k].1, ys[k].1),
    }
}

impl JsonValue {
    /// Whether two values are equal, numbers compared by the value they denote.
    pub fn same_as(&self, other: &JsonValue) -> (same: bool)
        ensures
            same == same_value(self.model(), other.model()),
        decreases self,
    {
        match self {
            JsonValue::Null => matches!(other, JsonValue::Null),
            JsonValue::Bool(x) => match other {
                JsonValue::Bool(y) => *x == *y,
                _ => false,
            },
            JsonValue::Integer(x) => match other {
                JsonValue::Integer(y) => *x == *y,
                _ => false,
            },
            JsonValue::Number(x) => match other {
                JsonValue::Number(y) => {
                    if crate::text::str_eq(x.as_str(), y.as_str()) {
                        true
                    } else {
                        match (Decimal::from_text(x.as_str()), Decimal::from_text(y.as_str())) {
                            (Some(a), Some(b)) => !a.lt(&b) && !b.lt(&a),
                            _ => false,
                        }
                    }
                },
                _ => false,
            },
            JsonValue::String(x) => match other {
                JsonValue::String(y) => crate::text::str_eq(x.as_str(), y.as_str()),
                _ => false,
            },
            JsonValue::Array(xs) => match other {
                JsonValue::Array(ys) => {
                    proof {
                        parse::lemma_array_model(*xs);
                        parse::lemma_array_model(*ys);
                    }
                    if xs.len() != ys.len() {
                        return false;
                    }
                    let mut i: usize = 0;
                    while i < xs.len()
                        invariant
                            i <= xs@.len(),
                            xs@.len() == ys@.len(),
                            self is Array,
                            *xs == self->Array_0,
                            self.model() == Json::Array(models(xs@)),
                            other.model() == Json::Array(models(ys@)),
                            forall|k: int|
                                0 <= k < i ==> same_value(
                                    #[trigger] models(xs@)[k],
                                    models(ys@)[k],
                                ),
                        decreases xs@.len() - i,
                    {
                        proof {
                            assert(decreases_to!(*self => self->Array_0));
                            assert(decreases_to!(self->Array_0 => xs@));
                            assert(decreases_to!(xs@ => xs@[i as int]));
                        }
                        if !xs[i].same_as(&ys[i]) {
                            assert(!same_value(models(xs@)[i as int], models(ys@)[i as int]));
                            return false;
                        }
                        i = i + 1;
                    }
                    true
                },
                _ => false,
            },
            JsonValue::Object(xs) => match other {
                JsonValue::Object(ys) => {
                    proof {
                        parse::lemma_object_model(*xs);
                        parse::lemma_object_model(*ys);
                    }
                    if xs.len() != ys.len() {
                        return false;
                    }
                    let mut i: usize = 0;
                    while i < xs.len()
                        invariant
                            i <= xs@.len(),
                            xs@.len() == ys@.len(),
                            self is Object,
                            *xs == self->Object_0,
                            self.model() == Json::Object(entry_models(xs@)),
                            other.model() == Json::Object(entry_models(ys@)),
                            forall|k: int|
                                0 <= k < i ==> (#[trigger] entry_models(xs@)[k]).0 == entry_models(
                                    ys@,
                                )[k].0 && same_value(
                                    entry_models(xs@)[k].1,
                                    entry_models(ys@)[k].1,
                                ),
                        decreases xs@.len() - i,
                    {
                        proof {
                            assert(decreases_to!(*self => self->Object_0));
                            assert(decreases_to!(self->Object_0 => xs@));
                            assert(decreases_to!(xs@ => xs@[i as int]));
                            assert(decreases_to!(xs@[i as int] => xs@[i as int].1));
                        }
                        if !crate::text::str_eq(xs[i].0.as_str(), ys[i].0.as_str()) {
                            assert(entry_models(xs@)[i as int].0 != entry_models(ys@)[i as int].0);
                            return false;
                        }
                        if !xs[i].1.same_as(&ys[i].1) {
                            assert(!same_value(
                                entry_models(xs@)[i as int].1,
                                entry_models(ys@)[i as int].1,
                            ));
                            return false;
                        }
                        i = i + 1;
                    }
                    true
                },
                _ => false,
            },
        }
    }
}

} // verus!
