//! Convert Lua values into the JSON model.
//!
//! Null and empty containers need an explicit representation: `koru.json.null`
//! is a unique marker, and `koru.json.array`/`koru.json.object` tag a table so an
//! empty array is never confused with an empty object. Untagged tables are
//! inferred structurally; ambiguous or mixed-key tables are rejected.
//!
//! The Lua state is read by the application into a [`LuaHeap`] snapshot: the
//! tables a value reaches, with their tags, border lengths and key/value pairs
//! in iteration order. The conversion decides everything from that snapshot.
use crate::error::{ErrorCode, KoruError};
use crate::json::parse::{charge, key_lt, obj_insert, utf8_text, St};
use crate::json::{entry_models, models, Json, JsonLimits, JsonValue, MAX_SAFE_INTEGER};
use vstd::prelude::*;

pub mod emit;

verus! {

broadcast use vstd::string::group_string_axioms;

/// The explicit container tag of a table.
#[derive(Debug, Clone, Copy, PartialEq, Eq, Structural)]
pub enum Tag {
    /// Tagged by `koru.json.array`.
    Array,
    /// Tagged by `koru.json.object`.
    Object,
}

/// A Lua value as the conversion sees it.
#[derive(Debug, Clone)]
pub enum LuaValue {
    /// `nil`.
    Nil,
    /// A boolean.
    Boolean(bool),
    /// An integer.
    Integer(i64),
    /// A float: whether it is finite, and its decimal text.
    Number { finite: bool, text: String },
    /// A string's bytes.
    String(Vec<u8>),
    /// A table, by its index in the heap.
    Table(usize),
    /// The `koru.json.null` marker.
    Null,
    /// A function, userdata, thread, or other light userdata.
    Other,
}

/// One Lua table.
#[derive(Debug, Clone)]
pub struct LuaTable {
    /// The explicit container tag, when the table was tagged.
    pub tag: Option<Tag>,
    /// The border `raw_len` reports.
    pub length: usize,
    /// Key/value pairs in `pairs` iteration order.
    pub pairs: Vec<(LuaValue, LuaValue)>,
}

/// The tables a converted value can reach.
#[derive(Debug, Clone)]
pub struct LuaHeap {
    /// Tables, indexed by [`LuaValue::Table`].
    pub tables: Vec<LuaTable>,
}

/// The inferred shape of an untagged table.
pub enum Shape {
    /// A contiguous array.
    Array,
    /// A string-keyed object.
    Object,
}

/// Every integer key of the pairs is at least one and every other key is a string.
pub open spec fn keys_ok(pairs: Seq<(LuaValue, LuaValue)>) -> bool {
    forall|k: int|
        0 <= k < pairs.len() ==> match #[trigger] pairs[k].0 {
            LuaValue::Integer(i) => i >= 1,
            LuaValue::String(_) => true,
            _ => false,
        }
}

/// Whether some key is a string.
pub open spec fn has_string_key(pairs: Seq<(LuaValue, LuaValue)>) -> bool {
    exists|k: int| 0 <= k < pairs.len() && #[trigger] pairs[k].0 is String
}

/// Whether some key is an integer.
pub open spec fn has_integer_key(pairs: Seq<(LuaValue, LuaValue)>) -> bool {
    exists|k: int| 0 <= k < pairs.len() && #[trigger] pairs[k].0 is Integer
}

/// Whether `i` is an integer key.
pub open spec fn has_index(pairs: Seq<(LuaValue, LuaValue)>, i: int) -> bool {
    exists|k: int| 0 <= k < pairs.len() && is_key(#[trigger] pairs[k].0, i)
}

/// Whether `key` is the integer `i`.
pub open spec fn is_key(key: LuaValue, i: int) -> bool {
    key matches LuaValue::Integer(n) && n as int == i
}

/// The integer keys are exactly `1..=length`.
pub open spec fn contiguous(pairs: Seq<(LuaValue, LuaValue)>, length: int) -> bool {
    &&& forall|k: int|
        0 <= k < pairs.len() ==> (#[trigger] pairs[k].0 matches LuaValue::Integer(i) ==> 1 <= i
            <= length)
    &&& forall|i: int| 1 <= i <= length ==> #[trigger] has_index(pairs, i)
}

/// The shape of an untagged table, or the error code.
pub open spec fn classify(table: LuaTable) -> Result<Shape, ErrorCode> {
    let pairs = table.pairs@;
    if !keys_ok(pairs) {
        Err(ErrorCode::Validation)
    } else if !has_string_key(pairs) && !has_integer_key(pairs) {
        Ok(Shape::Object)
    } else if !has_string_key(pairs) {
        if contiguous(pairs, table.length as int) {
            Ok(Shape::Array)
        } else {
            Err(ErrorCode::Validation)
        }
    } else if !has_integer_key(pairs) {
        Ok(Shape::Object)
    } else {
        Err(ErrorCode::Validation)
    }
}

/// The value stored at integer key `i`, or `nil`.
pub open spec fn raw_get(pairs: Seq<(LuaValue, LuaValue)>, i: int) -> LuaValue
    decreases pairs.len(),
{
    if pairs.len() == 0 {
        LuaValue::Nil
    } else if is_key(pairs[0].0, i) {
        pairs[0].1
    } else {
        raw_get(pairs.drop_first(), i)
    }
}

/// Conversion state: elements and bytes charged so far.
pub open spec fn no_pos(st: St) -> St {
    St { pos: 0, ..st }
}

/// Convert one value at `depth`.
pub open spec fn convert(
    heap: LuaHeap,
    v: LuaValue,
    depth: int,
    visited: Seq<int>,
    st: St,
    limits: JsonLimits,
) -> Result<(Json, St), ErrorCode>
    decreases limits.max_depth + 1 - depth, 3int, 0int,
{
    if depth > limits.max_depth {
        Err(ErrorCode::BudgetExhausted)
    } else {
        match v {
            LuaValue::Nil => Err(ErrorCode::Validation),
            LuaValue::Boolean(b) => Ok((Json::Bool(b), st)),
            LuaValue::Integer(n) => if n < -MAX_SAFE_INTEGER || n > MAX_SAFE_INTEGER {
                Err(ErrorCode::Validation)
            } else {
                match charge(limits, st, 8) {
                    Ok(next) => Ok((Json::Integer(n as int), next)),
                    Err(code) => Err(code),
                }
            },
            LuaValue::Number { finite, text } => if !finite {
                Err(ErrorCode::Validation)
            } else {
                match charge(limits, st, 8) {
                    Ok(next) => Ok((Json::Number(text@), next)),
                    Err(code) => Err(code),
                }
            },
            LuaValue::String(bytes) => if !vstd::utf8::valid_utf8(bytes@) {
                Err(ErrorCode::Validation)
            } else if bytes@.len() > limits.max_string_bytes {
                Err(ErrorCode::BudgetExhausted)
            } else {
                match charge(limits, st, bytes@.len() as int) {
                    Ok(next) => Ok((Json::Str(vstd::utf8::decode_utf8(bytes@)), next)),
                    Err(code) => Err(code),
                }
            },
            LuaValue::Table(id) => if id < heap.tables@.len() {
                convert_table(heap, id as int, depth, visited, st, limits)
            } else {
                Err(ErrorCode::Validation)
            },
            LuaValue::Null => Ok((Json::Null, st)),
            LuaValue::Other => Err(ErrorCode::Validation),
        }
    }
}

/// Convert the table `id` at `depth`.
pub open spec fn convert_table(
    heap: LuaHeap,
    id: int,
    depth: int,
    visited: Seq<int>,
    st: St,
    limits: JsonLimits,
) -> Result<(Json, St), ErrorCode>
    decreases limits.max_depth + 1 - depth, 2int, 0int,
{
    if depth > limits.max_depth || id < 0 || id >= heap.tables@.len() {
        Err(ErrorCode::BudgetExhausted)
    } else if visited.contains(id) {
        Err(ErrorCode::Validation)
    } else {
        let table = heap.tables@[id];
        let inner = visited.push(id);
        let shape = match table.tag {
            Some(Tag::Array) => Ok(Shape::Array),
            Some(Tag::Object) => Ok(Shape::Object),
            None => classify(table),
        };
        match shape {
            Err(code) => Err(code),
            Ok(Shape::Array) => convert_items(heap, id, depth, inner, st, limits, 1, Seq::empty()),
            Ok(Shape::Object) => convert_entries(heap, id, depth, inner, st, limits, 0, Seq::empty()),
        }
    }
}

/// Convert array items `index..=length` of table `id`.
pub open spec fn convert_items(
    heap: LuaHeap,
    id: int,
    depth: int,
    visited: Seq<int>,
    st: St,
    limits: JsonLimits,
    index: int,
    items: Seq<Json>,
) -> Result<(Json, St), ErrorCode>
    decreases limits.max_depth + 1 - depth, 1int, heap.tables@[id].length + 1 - index,
{
    if depth > limits.max_depth || id < 0 || id >= heap.tables@.len() || index < 1 {
        Err(ErrorCode::BudgetExhausted)
    } else {
        let table = heap.tables@[id];
        if index > table.length {
            Ok((Json::Array(items), st))
        } else {
            match convert(heap, raw_get(table.pairs@, index), depth + 1, visited, st, limits) {
                Err(code) => Err(code),
                Ok((item, next)) => convert_items(
                    heap,
                    id,
                    depth,
                    visited,
                    next,
                    limits,
                    index + 1,
                    items.push(item),
                ),
            }
        }
    }
}

/// Convert object entries `k..` of table `id`.
pub open spec fn convert_entries(
    heap: LuaHeap,
    id: int,
    depth: int,
    visited: Seq<int>,
    st: St,
    limits: JsonLimits,
    k: int,
    entries: Seq<(Seq<char>, Json)>,
) -> Result<(Json, St), ErrorCode>
    decreases limits.max_depth + 1 - depth, 1int, heap.tables@[id].pairs@.len() - k,
{
    if depth > limits.max_depth || id < 0 || id >= heap.tables@.len() || k < 0 {
        Err(ErrorCode::BudgetExhausted)
    } else {
        let pairs = heap.tables@[id].pairs@;
        if k >= pairs.len() {
            Ok((Json::Object(entries), st))
        } else {
            match pairs[k].0 {
                LuaValue::String(bytes) => if !vstd::utf8::valid_utf8(bytes@) {
                    Err(ErrorCode::Validation)
                } else if bytes@.len() > limits.max_key_bytes {
                    Err(ErrorCode::BudgetExhausted)
                } else {
                    match charge(limits, st, bytes@.len() as int) {
                        Err(code) => Err(code),
                        Ok(charged) => match convert(
                            heap,
                            pairs[k].1,
                            depth + 1,
                            visited,
                            charged,
                            limits,
                        ) {
                            Err(code) => Err(code),
                            Ok((item, next)) => match obj_insert(
                                entries,
                                vstd::utf8::decode_utf8(bytes@),
                                item,
                            ) {
                                None => Err(ErrorCode::Validation),
                                Some(grown) => convert_entries(
                                    heap,
                                    id,
                                    depth,
                                    visited,
                                    next,
                                    limits,
                                    k + 1,
                                    grown,
                                ),
                            },
                        },
                    }
                },
                _ => Err(ErrorCode::Validation),
            }
        }
    }
}

/// The JSON value a Lua value converts to under `limits`, or the error code.
pub open spec fn lua_to_json(heap: LuaHeap, v: LuaValue, limits: JsonLimits) -> Result<Json, ErrorCode> {
    match convert(heap, v, 0, Seq::empty(), St { pos: 0, elements: 0, bytes: 0 }, limits) {
        Ok((json, _)) => Ok(json),
        Err(code) => Err(code),
    }
}


fn invalid(detail: &str) -> (error: KoruError)
    ensures
        error.spec_code() == ErrorCode::Validation,
{
    KoruError::new(ErrorCode::Validation, detail)
}

fn budget(detail: &str) -> (error: KoruError)
    ensures
        error.spec_code() == ErrorCode::BudgetExhausted,
{
    KoruError::new(ErrorCode::BudgetExhausted, detail)
}

/// The outcome of one conversion step: the value's model and the state after it.
pub open spec fn step_matches(
    result: Result<JsonValue, KoruError>,
    spec: Result<(Json, St), ErrorCode>,
    after: St,
) -> bool {
    match spec {
        Ok((v, next)) => result matches Ok(x) && x.model() == v && after == next,
        Err(code) => result matches Err(e) && e.spec_code() == code,
    }
}

fn key_is(key: &LuaValue, i: u128) -> (r: bool)
    ensures
        r == is_key(*key, i as int),
{
    match key {
        LuaValue::Integer(n) => *n >= 0 && (*n as u128) == i,
        _ => false,
    }
}

fn raw_get_exec<'a>(pairs: &'a Vec<(LuaValue, LuaValue)>, i: u128) -> (found: Option<&'a LuaValue>)
    ensures
        match found {
            Some(v) => *v == raw_get(pairs@, i as int),
            None => raw_get(pairs@, i as int) == LuaValue::Nil,
        },
{
    let mut k: usize = 0;
    assert(pairs@.subrange(0, pairs@.len() as int) =~= pairs@);
    while k < pairs.len()
        invariant
            k <= pairs@.len(),
            raw_get(pairs@, i as int) == raw_get(pairs@.subrange(k as int, pairs@.len() as int), i as int),
        decreases pairs@.len() - k,
    {
        let ghost rest = pairs@.subrange(k as int, pairs@.len() as int);
        assert(rest[0] == pairs@[k as int]);
        assert(rest.drop_first() =~= pairs@.subrange(k + 1, pairs@.len() as int));
        if key_is(&pairs[k].0, i) {
            return Some(&pairs[k].1);
        }
        k = k + 1;
    }
    None
}

fn classify_exec(table: &LuaTable) -> (result: Result<Shape, KoruError>)
    ensures
        match classify(*table) {
            Ok(Shape::Array) => result matches Ok(Shape::Array),
            Ok(Shape::Object) => result matches Ok(Shape::Object),
            Err(code) => result matches Err(e) && e.spec_code() == code,
        },
{
    let pairs = &table.pairs;
    let mut strings = false;
    let mut integers = false;
    let mut k: usize = 0;
    while k < pairs.len()
        invariant
            k <= pairs@.len(),
            *pairs == table.pairs,
            forall|j: int|
                0 <= j < k ==> match #[trigger] pairs@[j].0 {
                    LuaValue::Integer(i) => i >= 1,
                    LuaValue::String(_) => true,
                    _ => false,
                },
            strings == exists|j: int| 0 <= j < k && #[trigger] pairs@[j].0 is String,
            integers == exists|j: int| 0 <= j < k && #[trigger] pairs@[j].0 is Integer,
        decreases pairs@.len() - k,
    {
        match &pairs[k].0 {
            LuaValue::Integer(i) => {
                if *i < 1 {
                    assert(!keys_ok(table.pairs@));
                    return Err(invalid("JSON array indices must start at 1"));
                }
                integers = true;
            },
            LuaValue::String(_) => {
                strings = true;
            },
            _ => {
                assert(!keys_ok(table.pairs@));
                return Err(invalid("JSON object keys must be strings"));
            },
        }
        k = k + 1;
    }
    if !strings && !integers {
        return Ok(Shape::Object);
    }
    if strings && integers {
        return Err(invalid("JSON table mixes array and object keys"));
    }
    if strings {
        return Ok(Shape::Object);
    }
    let length = table.length;
    assert(keys_ok(table.pairs@));
    assert(!has_string_key(table.pairs@));
    assert(has_integer_key(table.pairs@));
    let mut j: usize = 0;
    while j < pairs.len()
        invariant
            j <= pairs@.len(),
            *pairs == table.pairs,
            length == table.length,
            forall|m: int|
                0 <= m < j ==> (#[trigger] pairs@[m].0 matches LuaValue::Integer(i) ==> 1 <= i
                    <= length),
        decreases pairs@.len() - j,
    {
        if let LuaValue::Integer(i) = &pairs[j].0 {
            if *i < 1 || (*i as u128) > (length as u128) {
                assert(!contiguous(table.pairs@, length as int));
                return Err(invalid("JSON array is sparse or not contiguous"));
            }
        }
        j = j + 1;
    }
    let mut index: u128 = 1;
    while index <= length as u128
        invariant
            1 <= index <= length as u128 + 1,
            *pairs == table.pairs,
            length == table.length,
            keys_ok(table.pairs@),
            !has_string_key(table.pairs@),
            has_integer_key(table.pairs@),
            forall|m: int|
                0 <= m < pairs@.len() ==> (#[trigger] pairs@[m].0 matches LuaValue::Integer(i) ==> 1 <= i
                    <= length),
            forall|i: int| 1 <= i < index ==> #[trigger] has_index(pairs@, i),
        decreases length as u128 + 1 - index,
    {
        let mut m: usize = 0;
        let mut present = false;
        while m < pairs.len()
            invariant
                m <= pairs@.len(),
                *pairs == table.pairs,
                present ==> has_index(pairs@, index as int),
                !present ==> forall|q: int| 0 <= q < m ==> !is_key(#[trigger] pairs@[q].0, index as int),
            decreases pairs@.len() - m,
        {
            if key_is(&pairs[m].0, index) {
                present = true;
            }
            m = m + 1;
        }
        if !present {
            assert(!has_index(pairs@, index as int));
            assert(!contiguous(table.pairs@, length as int));
            return Err(invalid("JSON array is sparse or not contiguous"));
        }
        index = index + 1;
    }
    Ok(Shape::Array)
}

struct Convert<'a> {
    heap: &'a LuaHeap,
    limits: JsonLimits,
    visited: Vec<usize>,
    elements: usize,
    bytes: usize,
}

impl<'a> Convert<'a> {
    spec fn st(&self) -> St {
        St { pos: 0, elements: self.elements as int, bytes: self.bytes as int }
    }

    spec fn seen(&self) -> Seq<int> {
        Seq::new(self.visited@.len(), |k: int| self.visited@[k] as int)
    }

    fn charge(&mut self, n: usize) -> (result: Result<(), KoruError>)
        ensures
            final(self).heap == old(self).heap,
            final(self).limits == old(self).limits,
            final(self).visited@ == old(self).visited@,
            match charge(old(self).limits, old(self).st(), n as int) {
                Ok(next) => result is Ok && final(self).st() == next,
                Err(code) => result matches Err(e) && e.spec_code() == code,
            },
    {
        self.elements = if self.elements == usize::MAX {
            usize::MAX
        } else {
            self.elements + 1
        };
        if let Err(error) = self.limits.check_elements(self.elements) {
            return Err(error);
        }
        self.bytes = if n > usize::MAX - self.bytes {
            usize::MAX
        } else {
            self.bytes + n
        };
        self.limits.check_bytes(self.bytes)
    }

    fn value(&mut self, v: &LuaValue, depth: usize) -> (result: Result<JsonValue, KoruError>)
        ensures
            final(self).heap == old(self).heap,
            final(self).limits == old(self).limits,
            final(self).visited@ == old(self).visited@,
            step_matches(
                result,
                convert(*old(self).heap, *v, depth as int, old(self).seen(), old(self).st(), old(self).limits),
                final(self).st(),
            ),
        decreases old(self).limits.max_depth + 1 - depth, 3int, 0int,
    {
        if let Err(error) = self.limits.check_depth(depth) {
            return Err(error);
        }
        match v {
            LuaValue::Nil => Err(invalid("Lua nil is not JSON null; use koru.json.null")),
            LuaValue::Boolean(flag) => Ok(JsonValue::Bool(*flag)),
            LuaValue::Integer(number) => {
                if *number < -9_007_199_254_740_991i64 || *number > 9_007_199_254_740_991i64 {
                    return Err(invalid("JSON integer is outside the safe range"));
                }
                match self.charge(8) {
                    Ok(()) => Ok(JsonValue::Integer(*number)),
                    Err(error) => Err(error),
                }
            },
            LuaValue::Number { finite, text } => {
                if !*finite {
                    return Err(invalid("JSON numbers must be finite"));
                }
                match self.charge(8) {
                    Ok(()) => Ok(JsonValue::Number(text.clone())),
                    Err(error) => Err(error),
                }
            },
            LuaValue::String(bytes) => {
                let text = match utf8_text(bytes.as_slice()) {
                    Some(text) => text,
                    None => {
                        return Err(invalid("JSON strings must be valid UTF-8"));
                    },
                };
                if let Err(error) = self.limits.check_string_bytes(bytes.len()) {
                    return Err(error);
                }
                match self.charge(bytes.len()) {
                    Ok(()) => Ok(JsonValue::String(text.to_owned())),
                    Err(error) => Err(error),
                }
            },
            LuaValue::Table(id) => {
                if *id >= self.heap.tables.len() {
                    return Err(invalid("unsupported Lua value for JSON conversion"));
                }
                self.table(*id, depth)
            },
            LuaValue::Null => Ok(JsonValue::Null),
            LuaValue::Other => Err(invalid("unsupported Lua value for JSON conversion")),
        }
    }

    fn table(&mut self, id: usize, depth: usize) -> (result: Result<JsonValue, KoruError>)
        requires
            id < old(self).heap.tables@.len(),
            depth <= old(self).limits.max_depth,
        ensures
            final(self).heap == old(self).heap,
            final(self).limits == old(self).limits,
            final(self).visited@ == old(self).visited@,
            step_matches(
                result,
                convert_table(*old(self).heap, id as int, depth as int, old(self).seen(), old(self).st(), old(self).limits),
                final(self).st(),
            ),
        decreases old(self).limits.max_depth + 1 - depth, 2int, 0int,
    {
        let mut k: usize = 0;
        while k < self.visited.len()
            invariant
                k <= self.visited@.len(),
                *self == *old(self),
                id < old(self).heap.tables@.len(),
                depth <= old(self).limits.max_depth,
                forall|j: int| 0 <= j < k ==> self.visited@[j] != id,
            decreases self.visited@.len() - k,
        {
            if self.visited[k] == id {
                assert(self.seen()[k as int] == id as int);
                assert(old(self).seen().contains(id as int));
                assert(convert_table(*old(self).heap, id as int, depth as int, old(self).seen(), old(self).st(), old(self).limits) == Err::<(Json, St), ErrorCode>(ErrorCode::Validation));
                return Err(invalid("JSON value contains a cycle"));
            }
            k = k + 1;
        }
        assert(!self.seen().contains(id as int));
        let heap = self.heap;
        let table = &heap.tables[id];
        let shape = match table.tag {
            Some(Tag::Array) => Shape::Array,
            Some(Tag::Object) => Shape::Object,
            None => match classify_exec(table) {
                Ok(shape) => shape,
                Err(error) => {
                    return Err(error);
                },
            },
        };
        let ghost before = self.visited@;
        self.visited.push(id);
        assert(self.seen() =~= old(self).seen().push(id as int));
        let result = match shape {
            Shape::Array => self.array(id, depth),
            Shape::Object => self.object(id, depth),
        };
        self.visited.pop();
        assert(self.visited@ =~= before);
        result
    }

    fn array(&mut self, id: usize, depth: usize) -> (result: Result<JsonValue, KoruError>)
        requires
            id < old(self).heap.tables@.len(),
            depth <= old(self).limits.max_depth,
        ensures
            final(self).heap == old(self).heap,
            final(self).limits == old(self).limits,
            final(self).visited@ == old(self).visited@,
            step_matches(
                result,
                convert_items(*old(self).heap, id as int, depth as int, old(self).seen(), old(self).st(), old(self).limits, 1, Seq::empty()),
                final(self).st(),
            ),
        decreases old(self).limits.max_depth + 1 - depth, 1int, 0int,
    {
        let heap = self.heap;
        let table = &heap.tables[id];
        let length = table.length;
        let mut items: Vec<JsonValue> = Vec::new();
        let mut index: u128 = 1;
        let ghost target = convert_items(*old(self).heap, id as int, depth as int, old(self).seen(), old(self).st(), old(self).limits, 1, Seq::empty());
        assert(models(items@) =~= Seq::<Json>::empty());
        while index <= length as u128
            invariant
                1 <= index <= length as u128 + 1,
                self.heap == old(self).heap,
                self.limits == old(self).limits,
                self.visited@ == old(self).visited@,
                heap == self.heap,
                *table == heap.tables@[id as int],
                id < heap.tables@.len(),
                length == table.length,
                depth <= self.limits.max_depth,
                target == convert_items(*heap, id as int, depth as int, self.seen(), self.st(), self.limits, index as int, models(items@)),
                target == convert_items(*old(self).heap, id as int, depth as int, old(self).seen(), old(self).st(), old(self).limits, 1, Seq::empty()),
            decreases length as u128 + 1 - index,
        {
            let nil = LuaValue::Nil;
            let item_ref = match raw_get_exec(&table.pairs, index) {
                Some(v) => v,
                None => &nil,
            };
            if depth == usize::MAX {
                proof {
                    assert(depth + 1 > self.limits.max_depth);
                    assert(convert(*heap, raw_get(table.pairs@, index as int), depth + 1, self.seen(), self.st(), self.limits) == Err::<(Json, St), ErrorCode>(ErrorCode::BudgetExhausted));
                    assert(target == Err::<(Json, St), ErrorCode>(ErrorCode::BudgetExhausted));
                }
                return Err(budget("JSON nesting depth limit exceeded"));
            }
            let ghost st_before = self.st();
            assert(*item_ref == raw_get(table.pairs@, index as int));
            let item = match self.value(item_ref, depth + 1) {
                Ok(item) => item,
                Err(error) => {
                    assert(convert(*heap, *item_ref, depth + 1, self.seen(), st_before, self.limits) is Err);
                    assert(target is Err);
                    return Err(error);
                },
            };
            let ghost before = items@;
            items.push(item);
            assert(models(items@) =~= models(before).push(item.model()));
            index = index + 1;
        }
        proof {
            crate::json::parse::lemma_array_model(items);
        }
        Ok(JsonValue::Array(items))
    }

    fn object(&mut self, id: usize, depth: usize) -> (result: Result<JsonValue, KoruError>)
        requires
            id < old(self).heap.tables@.len(),
            depth <= old(self).limits.max_depth,
        ensures
            final(self).heap == old(self).heap,
            final(self).limits == old(self).limits,
            final(self).visited@ == old(self).visited@,
            step_matches(
                result,
                convert_entries(*old(self).heap, id as int, depth as int, old(self).seen(), old(self).st(), old(self).limits, 0, Seq::empty()),
                final(self).st(),
            ),
        decreases old(self).limits.max_depth + 1 - depth, 1int, 0int,
    {
        let heap = self.heap;
        let table = &heap.tables[id];
        let mut entries: Vec<(String, JsonValue)> = Vec::new();
        let ghost target = convert_entries(*old(self).heap, id as int, depth as int, old(self).seen(), old(self).st(), old(self).limits, 0, Seq::empty());
        assert(entry_models(entries@) =~= Seq::<(Seq<char>, Json)>::empty());
        let mut k: usize = 0;
        while k < table.pairs.len()
            invariant
                k <= table.pairs@.len(),
                self.heap == old(self).heap,
                self.limits == old(self).limits,
                self.visited@ == old(self).visited@,
                heap == self.heap,
                *table == heap.tables@[id as int],
                id < heap.tables@.len(),
                depth <= self.limits.max_depth,
                target == convert_entries(*heap, id as int, depth as int, self.seen(), self.st(), self.limits, k as int, entry_models(entries@)),
                target == convert_entries(*old(self).heap, id as int, depth as int, old(self).seen(), old(self).st(), old(self).limits, 0, Seq::empty()),
            decreases table.pairs@.len() - k,
        {
            let bytes = match &table.pairs[k].0 {
                LuaValue::String(bytes) => bytes,
                _ => {
                    return Err(invalid("JSON object keys must be strings"));
                },
            };
            let key = match utf8_text(bytes.as_slice()) {
                Some(text) => text.to_owned(),
                None => {
                    return Err(invalid("JSON object keys must be valid UTF-8"));
                },
            };
            if let Err(error) = self.limits.check_key_bytes(bytes.len()) {
                return Err(error);
            }
            if let Err(error) = self.charge(bytes.len()) {
                return Err(error);
            }
            if depth == usize::MAX {
                return Err(budget("JSON nesting depth limit exceeded"));
            }
            let item = match self.value(&table.pairs[k].1, depth + 1) {
                Ok(item) => item,
                Err(error) => {
                    return Err(error);
                },
            };
            if !crate::json::parse::insert_entry(&mut entries, key, item) {
                return Err(invalid("JSON object contains a duplicate key"));
            }
            k = k + 1;
        }
        proof {
            crate::json::parse::lemma_object_model(entries);
        }
        Ok(JsonValue::Object(entries))
    }
}

/// Convert one Lua value into JSON under the supplied limits.
pub fn to_json(heap: &LuaHeap, value: &LuaValue, limits: &JsonLimits) -> (result: Result<
    JsonValue,
    KoruError,
>)
    ensures
        match lua_to_json(*heap, *value, *limits) {
            Ok(v) => result matches Ok(x) && x.model() == v,
            Err(code) => result matches Err(e) && e.spec_code() == code,
        },
{
    let mut state = Convert { heap, limits: *limits, visited: Vec::new(), elements: 0, bytes: 0 };
    assert(state.seen() =~= Seq::<int>::empty());
    state.value(value, 0)
}

} // verus!
