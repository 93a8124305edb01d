//! Emit the Lua form of a JSON value.
//!
//! Arrays and objects become tables tagged with their container kind, so that
//! converting them back never confuses an empty array with an empty object.
//! The tables are appended to a [`LuaHeap`]; the application materialises
//! them in its Lua state.
use super::{convert, convert_entries, convert_items, is_key, lua_to_json, raw_get};
use super::{LuaHeap, LuaTable, LuaValue, Tag};
use crate::error::ErrorCode;
use crate::json::parse::{byte_len, charge, key_lt, St};
use crate::json::parse::{lemma_array_model, lemma_byte_len_nonneg, lemma_encode_len};
use crate::json::parse::lemma_object_model;
use crate::json::parse::lemma_obj_insert_last;
use crate::json::{add_cost, canonical, entry_models, entry_within, models, within, Json, JsonLimits, JsonValue};
use vstd::prelude::*;
use vstd::utf8::encode_utf8;

verus! {

broadcast use vstd::string::group_string_axioms;

/// Every array is short enough for its positions to be Lua integers.
pub open spec fn indexable(v: Json) -> bool
    decreases v, 0nat,
{
    match v {
        Json::Array(items) => items.len() < i64::MAX && all_indexable(items),
        Json::Object(entries) => entries_indexable(entries),
        _ => true,
    }
}

/// Every item is [`indexable`].
pub open spec fn all_indexable(items: Seq<Json>) -> bool
    decreases items, 1nat,
{
    items.len() == 0 || (all_indexable(items.drop_last()) && indexable(items.last()))
}

/// Every entry value is [`indexable`].
pub open spec fn entries_indexable(entries: Seq<(Seq<char>, Json)>) -> bool
    decreases entries, 1nat,
{
    entries.len() == 0 || (entries_indexable(entries.drop_last()) && indexable(entries.last().1))
}

/// `val` is the Lua form of `v` in `tables`, built from tables below `bound`.
pub open spec fn represents(tables: Seq<LuaTable>, val: LuaValue, v: Json, bound: int) -> bool
    decreases v, 0nat,
{
    match v {
        Json::Null => val is Null,
        Json::Bool(b) => val == LuaValue::Boolean(b),
        Json::Integer(n) => match val {
            LuaValue::Integer(m) => m as int == n,
            _ => false,
        },
        Json::Number(t) => match val {
            LuaValue::Number { finite, text } => finite && text@ == t,
            _ => false,
        },
        Json::Str(s) => match val {
            LuaValue::String(bytes) => bytes@ == encode_utf8(s),
            _ => false,
        },
        Json::Array(items) => match val {
            LuaValue::Table(id) => {
                &&& id < bound <= tables.len()
                &&& tables[id as int].tag == Some(Tag::Array)
                &&& tables[id as int].length == items.len()
                &&& items_represented(tables, tables[id as int].pairs@, items, id as int)
            },
            _ => false,
        },
        Json::Object(entries) => match val {
            LuaValue::Table(id) => {
                &&& id < bound <= tables.len()
                &&& tables[id as int].tag == Some(Tag::Object)
                &&& entries_represented(tables, tables[id as int].pairs@, entries, id as int)
            },
            _ => false,
        },
    }
}

/// The pairs hold the items at positions `1..=items.len()`, in order.
pub open spec fn items_represented(
    tables: Seq<LuaTable>,
    pairs: Seq<(LuaValue, LuaValue)>,
    items: Seq<Json>,
    bound: int,
) -> bool
    decreases items, 1nat,
{
    &&& pairs.len() == items.len()
    &&& items.len() > 0 ==> {
        &&& items_represented(tables, pairs.drop_last(), items.drop_last(), bound)
        &&& match pairs.last().0 {
            LuaValue::Integer(i) => i as int == items.len(),
            _ => false,
        }
        &&& represents(tables, pairs.last().1, items.last(), bound)
    }
}

/// The pairs hold the entries under their UTF-8 keys, in order.
pub open spec fn entries_represented(
    tables: Seq<LuaTable>,
    pairs: Seq<(LuaValue, LuaValue)>,
    entries: Seq<(Seq<char>, Json)>,
    bound: int,
) -> bool
    decreases entries, 1nat,
{
    &&& pairs.len() == entries.len()
    &&& entries.len() > 0 ==> {
        &&& entries_represented(tables, pairs.drop_last(), entries.drop_last(), bound)
        &&& match pairs.last().0 {
            LuaValue::String(bytes) => bytes@ == encode_utf8(entries.last().0),
            _ => false,
        }
        &&& represents(tables, pairs.last().1, entries.last().1, bound)
    }
}

/// A representation survives when the tables below its bound are kept and
/// the bound is raised.
pub proof fn lemma_represents_grow(
    t: Seq<LuaTable>,
    u: Seq<LuaTable>,
    val: LuaValue,
    v: Json,
    b1: int,
    b2: int,
)
    requires
        represents(t, val, v, b1),
        b1 <= b2 <= u.len(),
        forall|i: int| 0 <= i < b1 ==> u[i] == t[i],
    ensures
        represents(u, val, v, b2),
    decreases v, 0nat,
{
    match v {
        Json::Array(items) => {
            let id = val->Table_0 as int;
            lemma_items_grow(t, u, t[id].pairs@, items, id);
        },
        Json::Object(entries) => {
            let id = val->Table_0 as int;
            lemma_entries_grow(t, u, t[id].pairs@, entries, id);
        },
        _ => {},
    }
}

proof fn lemma_items_grow(
    t: Seq<LuaTable>,
    u: Seq<LuaTable>,
    pairs: Seq<(LuaValue, LuaValue)>,
    items: Seq<Json>,
    bound: int,
)
    requires
        items_represented(t, pairs, items, bound),
        bound <= u.len(),
        forall|i: int| 0 <= i < bound ==> u[i] == t[i],
    ensures
        items_represented(u, pairs, items, bound),
    decreases items, 1nat,
{
    if items.len() > 0 {
        lemma_items_grow(t, u, pairs.drop_last(), items.drop_last(), bound);
        lemma_represents_grow(t, u, pairs.last().1, items.last(), bound, bound);
    }
}

proof fn lemma_entries_grow(
    t: Seq<LuaTable>,
    u: Seq<LuaTable>,
    pairs: Seq<(LuaValue, LuaValue)>,
    entries: Seq<(Seq<char>, Json)>,
    bound: int,
)
    requires
        entries_represented(t, pairs, entries, bound),
        bound <= u.len(),
        forall|i: int| 0 <= i < bound ==> u[i] == t[i],
    ensures
        entries_represented(u, pairs, entries, bound),
    decreases entries, 1nat,
{
    if entries.len() > 0 {
        lemma_entries_grow(t, u, pairs.drop_last(), entries.drop_last(), bound);
        lemma_represents_grow(t, u, pairs.last().1, entries.last().1, bound, bound);
    }
}

proof fn lemma_all_indexable_at(items: Seq<Json>, k: int)
    requires
        all_indexable(items),
        0 <= k < items.len(),
    ensures
        indexable(items[k]),
    decreases items.len(),
{
    if k < items.len() - 1 {
        lemma_all_indexable_at(items.drop_last(), k);
    }
}

proof fn lemma_entries_indexable_at(entries: Seq<(Seq<char>, Json)>, k: int)
    requires
        entries_indexable(entries),
        0 <= k < entries.len(),
    ensures
        indexable(entries[k].1),
    decreases entries.len(),
{
    if k < entries.len() - 1 {
        lemma_entries_indexable_at(entries.drop_last(), k);
    }
}

/// Append the Lua form of `value` to the heap and return it.
///
/// Containers become tables tagged with their kind; a table is appended
/// after the tables of its items, and the tables already in the heap stay
/// as they were.
pub fn from_json(heap: &mut LuaHeap, value: &JsonValue) -> (root: LuaValue)
    requires
        indexable(value.model()),
    ensures
        old(heap).tables@.len() <= final(heap).tables@.len(),
        forall|i: int|
            0 <= i < old(heap).tables@.len() ==> final(heap).tables@[i] == old(heap).tables@[i],
        represents(final(heap).tables@, root, value.model(), final(heap).tables@.len() as int),
    decreases value,
{
    let ghost start = heap.tables@;
    match value {
        JsonValue::Null => LuaValue::Null,
        JsonValue::Bool(b) => LuaValue::Boolean(*b),
        JsonValue::Integer(n) => LuaValue::Integer(*n),
        JsonValue::Number(t) => LuaValue::Number { finite: true, text: t.clone() },
        JsonValue::String(t) => LuaValue::String(vstd::slice::slice_to_vec(t.as_str().as_bytes())),
        JsonValue::Array(items) => {
            proof {
                lemma_array_model(*items);
            }
            let ghost ms = models(items@);
            let mut pairs: Vec<(LuaValue, LuaValue)> = Vec::new();
            let mut k: usize = 0;
            while k < items.len()
                invariant
                    k <= items@.len(),
                    value is Array,
                    *items == value->Array_0,
                    ms == models(items@),
                    items@.len() < i64::MAX,
                    all_indexable(ms),
                    start.len() <= heap.tables@.len(),
                    forall|i: int| 0 <= i < start.len() ==> heap.tables@[i] == start[i],
                    items_represented(
                        heap.tables@,
                        pairs@,
                        ms.subrange(0, k as int),
                        heap.tables@.len() as int,
                    ),
                decreases items@.len() - k,
            {
                proof {
                    assert(decreases_to!(*value => value->Array_0));
                    assert(decreases_to!(value->Array_0 => items@));
                    assert(decreases_to!(items@ => items@[k as int]));
                    lemma_all_indexable_at(ms, k as int);
                }
                let ghost before = heap.tables@;
                let child = from_json(heap, &items[k]);
                proof {
                    lemma_items_grow(
                        before,
                        heap.tables@,
                        pairs@,
                        ms.subrange(0, k as int),
                        before.len() as int,
                    );
                }
                let ghost old_pairs = pairs@;
                pairs.push((LuaValue::Integer((k + 1) as i64), child));
                proof {
                    let done = ms.subrange(0, k + 1);
                    assert(done.drop_last() =~= ms.subrange(0, k as int));
                    assert(pairs@.drop_last() =~= old_pairs);
                    assert(done.last() == items@[k as int].model());
                    lemma_items_raise(
                        heap.tables@,
                        old_pairs,
                        ms.subrange(0, k as int),
                        before.len() as int,
                        heap.tables@.len() as int,
                    );
                }
                k = k + 1;
            }
            let id = heap.tables.len();
            let ghost built = heap.tables@;
            heap.tables.push(LuaTable { tag: Some(Tag::Array), length: items.len(), pairs });
            proof {
                assert(ms.subrange(0, ms.len() as int) =~= ms);
                lemma_items_grow(built, heap.tables@, heap.tables@[id as int].pairs@, ms, id as int);
            }
            LuaValue::Table(id)
        },
        JsonValue::Object(entries) => {
            proof {
                lemma_object_model(*entries);
            }
            let ghost ms = entry_models(entries@);
            let mut pairs: Vec<(LuaValue, LuaValue)> = Vec::new();
            let mut k: usize = 0;
            while k < entries.len()
                invariant
                    k <= entries@.len(),
                    value is Object,
                    *entries == value->Object_0,
                    ms == entry_models(entries@),
                    entries_indexable(ms),
                    start.len() <= heap.tables@.len(),
                    forall|i: int| 0 <= i < start.len() ==> heap.tables@[i] == start[i],
                    entries_represented(
                        heap.tables@,
                        pairs@,
                        ms.subrange(0, k as int),
                        heap.tables@.len() as int,
                    ),
                decreases entries@.len() - k,
            {
                proof {
                    assert(decreases_to!(*value => value->Object_0));
                    assert(decreases_to!(value->Object_0 => entries@));
                    assert(decreases_to!(entries@ => entries@[k as int]));
                    assert(decreases_to!(entries@[k as int] => entries@[k as int].1));
                    lemma_entries_indexable_at(ms, k as int);
                }
                let ghost before = heap.tables@;
                let child = from_json(heap, &entries[k].1);
                proof {
                    lemma_entries_grow(
                        before,
                        heap.tables@,
                        pairs@,
                        ms.subrange(0, k as int),
                        before.len() as int,
                    );
                }
                let key = vstd::slice::slice_to_vec(entries[k].0.as_str().as_bytes());
                let ghost old_pairs = pairs@;
                pairs.push((LuaValue::String(key), child));
                proof {
                    let done = ms.subrange(0, k + 1);
                    assert(done.drop_last() =~= ms.subrange(0, k as int));
                    assert(pairs@.drop_last() =~= old_pairs);
                    assert(done.last() == (entries@[k as int].0@, entries@[k as int].1.model()));
                    lemma_entries_raise(
                        heap.tables@,
                        old_pairs,
                        ms.subrange(0, k as int),
                        before.len() as int,
                        heap.tables@.len() as int,
                    );
                }
                k = k + 1;
            }
            let id = heap.tables.len();
            let ghost built = heap.tables@;
            heap.tables.push(LuaTable { tag: Some(Tag::Object), length: 0, pairs });
            proof {
                assert(ms.subrange(0, ms.len() as int) =~= ms);
                lemma_entries_grow(built, heap.tables@, heap.tables@[id as int].pairs@, ms, id as int);
            }
            LuaValue::Table(id)
        },
    }
}

proof fn lemma_items_raise(
    t: Seq<LuaTable>,
    pairs: Seq<(LuaValue, LuaValue)>,
    items: Seq<Json>,
    b1: int,
    b2: int,
)
    requires
        items_represented(t, pairs, items, b1),
        b1 <= b2 <= t.len(),
    ensures
        items_represented(t, pairs, items, b2),
    decreases items.len(),
{
    if items.len() > 0 {
        lemma_items_raise(t, pairs.drop_last(), items.drop_last(), b1, b2);
        lemma_represents_grow(t, t, pairs.last().1, items.last(), b1, b2);
    }
}

proof fn lemma_entries_raise(
    t: Seq<LuaTable>,
    pairs: Seq<(LuaValue, LuaValue)>,
    entries: Seq<(Seq<char>, Json)>,
    b1: int,
    b2: int,
)
    requires
        entries_represented(t, pairs, entries, b1),
        b1 <= b2 <= t.len(),
    ensures
        entries_represented(t, pairs, entries, b2),
    decreases entries.len(),
{
    if entries.len() > 0 {
        lemma_entries_raise(t, pairs.drop_last(), entries.drop_last(), b1, b2);
        lemma_represents_grow(t, t, pairs.last().1, entries.last().1, b1, b2);
    }
}

/// The elements and bytes the conversion charges for a value.
pub open spec fn lua_cost(v: Json) -> (int, int)
    decreases v, 0nat,
{
    match v {
        Json::Integer(_) => (1, 8),
        Json::Number(_) => (1, 8),
        Json::Str(s) => (1, byte_len(s)),
        Json::Array(items) => items_cost(items),
        Json::Object(entries) => entries_cost(entries),
        _ => (0, 0),
    }
}

/// The cost of array items.
pub open spec fn items_cost(items: Seq<Json>) -> (int, int)
    decreases items, 1nat,
{
    if items.len() == 0 {
        (0, 0)
    } else {
        add_cost(items_cost(items.drop_last()), lua_cost(items.last()))
    }
}

/// The cost of object entries: each key is charged as an element with its bytes.
pub open spec fn entries_cost(entries: Seq<(Seq<char>, Json)>) -> (int, int)
    decreases entries, 1nat,
{
    if entries.len() == 0 {
        (0, 0)
    } else {
        add_cost(
            entries_cost(entries.drop_last()),
            add_cost((1, byte_len(entries.last().0)), lua_cost(entries.last().1)),
        )
    }
}

/// A conversion state after a cost is charged.
pub open spec fn spend(st: St, c: (int, int)) -> St {
    St { pos: st.pos, elements: st.elements + c.0, bytes: st.bytes + c.1 }
}

proof fn lemma_cost_nonneg(v: Json)
    ensures
        lua_cost(v).0 >= 0,
        lua_cost(v).1 >= 0,
    decreases v, 0nat,
{
    match v {
        Json::Str(s) => lemma_byte_len_nonneg(s),
        Json::Array(items) => lemma_items_cost_nonneg(items),
        Json::Object(entries) => lemma_entries_cost_nonneg(entries),
        _ => {},
    }
}

proof fn lemma_items_cost_nonneg(items: Seq<Json>)
    ensures
        items_cost(items).0 >= 0,
        items_cost(items).1 >= 0,
    decreases items, 1nat,
{
    if items.len() > 0 {
        lemma_items_cost_nonneg(items.drop_last());
        lemma_cost_nonneg(items.last());
    }
}

proof fn lemma_entries_cost_nonneg(entries: Seq<(Seq<char>, Json)>)
    ensures
        entries_cost(entries).0 >= 0,
        entries_cost(entries).1 >= 0,
    decreases entries, 1nat,
{
    if entries.len() > 0 {
        lemma_entries_cost_nonneg(entries.drop_last());
        lemma_cost_nonneg(entries.last().1);
        lemma_byte_len_nonneg(entries.last().0);
    }
}

proof fn lemma_items_cost_prefix(items: Seq<Json>, j: int)
    requires
        0 <= j <= items.len(),
    ensures
        items_cost(items.take(j)).0 <= items_cost(items).0,
        items_cost(items.take(j)).1 <= items_cost(items).1,
    decreases items.len(),
{
    if j < items.len() {
        lemma_items_cost_prefix(items.drop_last(), j);
        assert(items.drop_last().take(j) =~= items.take(j));
        lemma_cost_nonneg(items.last());
    } else {
        assert(items.take(j) =~= items);
    }
}

proof fn lemma_entries_cost_prefix(entries: Seq<(Seq<char>, Json)>, j: int)
    requires
        0 <= j <= entries.len(),
    ensures
        entries_cost(entries.take(j)).0 <= entries_cost(entries).0,
        entries_cost(entries.take(j)).1 <= entries_cost(entries).1,
    decreases entries.len(),
{
    if j < entries.len() {
        lemma_entries_cost_prefix(entries.drop_last(), j);
        assert(entries.drop_last().take(j) =~= entries.take(j));
        lemma_cost_nonneg(entries.last().1);
        lemma_byte_len_nonneg(entries.last().0);
    } else {
        assert(entries.take(j) =~= entries);
    }
}

proof fn lemma_items_at(
    t: Seq<LuaTable>,
    pairs: Seq<(LuaValue, LuaValue)>,
    items: Seq<Json>,
    bound: int,
    k: int,
)
    requires
        items_represented(t, pairs, items, bound),
        0 <= k < items.len(),
    ensures
        pairs.len() == items.len(),
        is_key(pairs[k].0, k + 1),
        represents(t, pairs[k].1, items[k], bound),
    decreases items.len(),
{
    if k < items.len() - 1 {
        lemma_items_at(t, pairs.drop_last(), items.drop_last(), bound, k);
    }
}

proof fn lemma_entries_at(
    t: Seq<LuaTable>,
    pairs: Seq<(LuaValue, LuaValue)>,
    entries: Seq<(Seq<char>, Json)>,
    bound: int,
    k: int,
)
    requires
        entries_represented(t, pairs, entries, bound),
        0 <= k < entries.len(),
    ensures
        pairs.len() == entries.len(),
        pairs[k].0 matches LuaValue::String(bytes) && bytes@ == encode_utf8(entries[k].0),
        represents(t, pairs[k].1, entries[k].1, bound),
    decreases entries.len(),
{
    if k < entries.len() - 1 {
        lemma_entries_at(t, pairs.drop_last(), entries.drop_last(), bound, k);
    }
}

proof fn lemma_raw_get_at(pairs: Seq<(LuaValue, LuaValue)>, base: int, i: int)
    requires
        forall|k: int| 0 <= k < pairs.len() ==> is_key(#[trigger] pairs[k].0, k + base),
        0 <= i - base < pairs.len(),
    ensures
        raw_get(pairs, i) == pairs[i - base].1,
    decreases pairs.len(),
{
    if i - base > 0 {
        assert(is_key(pairs[0].0, base));
        let rest = pairs.drop_first();
        assert forall|k: int| 0 <= k < rest.len() implies is_key(#[trigger] rest[k].0, k + base + 1) by {
            assert(rest[k] == pairs[k + 1]);
        }
        lemma_raw_get_at(rest, base + 1, i);
    }
}


proof fn lemma_convert_back(
    heap: LuaHeap,
    val: LuaValue,
    v: Json,
    bound: int,
    depth: int,
    visited: Seq<int>,
    st: St,
    limits: JsonLimits,
)
    requires
        represents(heap.tables@, val, v, bound),
        forall|k: int| 0 <= k < visited.len() ==> visited[k] >= bound,
        canonical(v),
        within(v, depth, limits),
        0 <= depth,
        0 <= st.elements,
        0 <= st.bytes,
        st.elements + lua_cost(v).0 <= limits.max_elements,
        st.bytes + lua_cost(v).1 <= limits.max_bytes,
    ensures
        convert(heap, val, depth, visited, st, limits) == Ok::<(Json, St), ErrorCode>((v, spend(st, lua_cost(v)))),
    decreases v, 0int, 0int,
{
    match v {
        Json::Str(s) => {
            lemma_encode_len(s);
            vstd::utf8::encode_utf8_valid_utf8(s);
            vstd::utf8::encode_utf8_decode_utf8(s);
        },
        Json::Array(items) => {
            let id = val->Table_0 as int;
            assert(!visited.contains(id)) by {
                if visited.contains(id) {
                    let k = visited.index_of(id);
                    assert(visited[k] >= bound);
                }
            }
            let inner = visited.push(id);
            assert(items.take(0) =~= Seq::<Json>::empty());
            lemma_items_back(heap, id, items, depth, inner, st, limits, 0);
        },
        Json::Object(entries) => {
            let id = val->Table_0 as int;
            assert(!visited.contains(id)) by {
                if visited.contains(id) {
                    let k = visited.index_of(id);
                    assert(visited[k] >= bound);
                }
            }
            let inner = visited.push(id);
            assert(entries.take(0) =~= Seq::<(Seq<char>, Json)>::empty());
            lemma_entries_back(heap, id, entries, depth, inner, st, limits, 0);
        },
        _ => {},
    }
}

proof fn lemma_items_back(
    heap: LuaHeap,
    id: int,
    items: Seq<Json>,
    depth: int,
    visited: Seq<int>,
    st0: St,
    limits: JsonLimits,
    j: int,
)
    requires
        0 <= id < heap.tables@.len(),
        heap.tables@[id].length == items.len(),
        items_represented(heap.tables@, heap.tables@[id].pairs@, items, id),
        forall|k: int| 0 <= k < visited.len() ==> visited[k] >= id,
        forall|k: int| 0 <= k < items.len() ==> canonical(#[trigger] items[k]),
        forall|k: int| 0 <= k < items.len() ==> within(#[trigger] items[k], depth + 1, limits),
        0 <= depth <= limits.max_depth,
        0 <= j <= items.len(),
        0 <= st0.elements,
        0 <= st0.bytes,
        st0.elements + items_cost(items).0 <= limits.max_elements,
        st0.bytes + items_cost(items).1 <= limits.max_bytes,
    ensures
        convert_items(
            heap,
            id,
            depth,
            visited,
            spend(st0, items_cost(items.take(j))),
            limits,
            j + 1,
            items.take(j),
        ) == Ok::<(Json, St), ErrorCode>((Json::Array(items), spend(st0, items_cost(items)))),
    decreases items, 1int, items.len() - j,
{
    let pairs = heap.tables@[id].pairs@;
    if j == items.len() {
        assert(items.take(j) =~= items);
    } else {
        assert forall|k: int| 0 <= k < pairs.len() implies is_key(#[trigger] pairs[k].0, k + 1) by {
            lemma_items_at(heap.tables@, pairs, items, id, k);
        }
        lemma_items_at(heap.tables@, pairs, items, id, j);
        lemma_raw_get_at(pairs, 1, j + 1);
        let before = items.take(j);
        let after = items.take(j + 1);
        assert(after.drop_last() =~= before);
        assert(after.last() == items[j]);
        lemma_items_cost_prefix(items, j + 1);
        lemma_items_cost_nonneg(before);
        lemma_cost_nonneg(items[j]);
        let st = spend(st0, items_cost(before));
        lemma_convert_back(heap, pairs[j].1, items[j], id, depth + 1, visited, st, limits);
        assert(spend(st, lua_cost(items[j])) == spend(st0, items_cost(after)));
        assert(before.push(items[j]) =~= after);
        lemma_items_back(heap, id, items, depth, visited, st0, limits, j + 1);
    }
}

proof fn lemma_entries_back(
    heap: LuaHeap,
    id: int,
    entries: Seq<(Seq<char>, Json)>,
    depth: int,
    visited: Seq<int>,
    st0: St,
    limits: JsonLimits,
    j: int,
)
    requires
        0 <= id < heap.tables@.len(),
        entries_represented(heap.tables@, heap.tables@[id].pairs@, entries, id),
        forall|k: int| 0 <= k < visited.len() ==> visited[k] >= id,
        forall|a: int, b: int|
            0 <= a < b < entries.len() ==> key_lt(#[trigger] entries[a].0, #[trigger] entries[b].0),
        forall|k: int| 0 <= k < entries.len() ==> canonical(#[trigger] entries[k].1),
        forall|k: int| 0 <= k < entries.len() ==> entry_within(#[trigger] entries[k], depth + 1, limits),
        0 <= depth <= limits.max_depth,
        0 <= j <= entries.len(),
        0 <= st0.elements,
        0 <= st0.bytes,
        st0.elements + entries_cost(entries).0 <= limits.max_elements,
        st0.bytes + entries_cost(entries).1 <= limits.max_bytes,
    ensures
        convert_entries(
            heap,
            id,
            depth,
            visited,
            spend(st0, entries_cost(entries.take(j))),
            limits,
            j,
            entries.take(j),
        ) == Ok::<(Json, St), ErrorCode>(
            (Json::Object(entries), spend(st0, entries_cost(entries))),
        ),
    decreases entries, 1int, entries.len() - j,
{
    let pairs = heap.tables@[id].pairs@;
    if j == entries.len() {
        assert(entries.take(j) =~= entries);
    } else {
        lemma_entries_at(heap.tables@, pairs, entries, id, j);
        let key = entries[j].0;
        let item = entries[j].1;
        let before = entries.take(j);
        let after = entries.take(j + 1);
        assert(after.drop_last() =~= before);
        assert(after.last() == entries[j]);
        lemma_entries_cost_prefix(entries, j + 1);
        lemma_entries_cost_nonneg(before);
        lemma_cost_nonneg(item);
        lemma_byte_len_nonneg(key);
        lemma_encode_len(key);
        vstd::utf8::encode_utf8_valid_utf8(key);
        vstd::utf8::encode_utf8_decode_utf8(key);
        let st = spend(st0, entries_cost(before));
        let charged = St { pos: st.pos, elements: st.elements + 1, bytes: st.bytes + byte_len(key) };
        assert(charge(limits, st, byte_len(key)) == Ok::<St, ErrorCode>(charged));
        lemma_convert_back(heap, pairs[j].1, item, id, depth + 1, visited, charged, limits);
        assert forall|k: int| 0 <= k < before.len() implies key_lt(#[trigger] before[k].0, key) by {
            assert(before[k] == entries[k]);
        }
        lemma_obj_insert_last(before, key, item);
        assert(before.push((key, item)) =~= after);
        assert(spend(charged, lua_cost(item)) == spend(st0, entries_cost(after)));
        lemma_entries_back(heap, id, entries, depth, visited, st0, limits, j + 1);
    }
}

/// Converting the Lua form of a JSON value back to JSON gives the value
/// again, when its object keys ascend and it is within the limits.
pub proof fn lua_round_trip(heap: LuaHeap, root: LuaValue, v: Json, limits: JsonLimits)
    requires
        represents(heap.tables@, root, v, heap.tables@.len() as int),
        canonical(v),
        within(v, 0, limits),
        lua_cost(v).0 <= limits.max_elements,
        lua_cost(v).1 <= limits.max_bytes,
    ensures
        lua_to_json(heap, root, limits) == Ok::<Json, ErrorCode>(v),
{
    lemma_convert_back(
        heap,
        root,
        v,
        heap.tables@.len() as int,
        0,
        Seq::empty(),
        St { pos: 0, elements: 0, bytes: 0 },
        limits,
    );
}

} // verus!
