//! Validate an AI grouping against the owner-held staged change IDs.
use crate::config::{find, is_control, is_space};
use crate::error::{ErrorCode, KoruError};
use crate::hash::{hex_text, push_hex, sha256, sha256_of};
use crate::json::emit::emit_json;
use crate::json::parse::{byte_len, obj_insert};
use vstd::utf8::encode_utf8;
use crate::json::{entry_models, field, field_of, lookup, models, Json, JsonValue};
use crate::text::{chars_of, str_eq};
use vstd::prelude::*;

verus! {

broadcast use vstd::string::group_string_axioms;

/// Every key of the entries is allowed.
pub open spec fn keys_allowed(entries: Seq<(Seq<char>, Json)>, allowed: Seq<Seq<char>>) -> bool {
    forall|k: int| 0 <= k < entries.len() ==> allowed.contains(#[trigger] entries[k].0)
}

/// A value that is not an object, or an object whose keys are all allowed.
pub open spec fn only_fields(value: Json, allowed: Seq<Seq<char>>) -> bool {
    match value {
        Json::Object(entries) => keys_allowed(entries, allowed),
        _ => true,
    }
}

/// The text of a string value.
pub open spec fn text_of(value: Json) -> Option<Seq<char>> {
    match value {
        Json::Str(t) => Some(t),
        _ => None,
    }
}

/// An ASCII lowercase letter.
pub open spec fn is_lower(c: char) -> bool {
    'a' <= c && c <= 'z'
}

/// An ASCII letter or digit.
pub open spec fn is_alnum(c: char) -> bool {
    is_lower(c) || ('A' <= c && c <= 'Z') || ('0' <= c && c <= '9')
}

/// A Conventional Commit type: lowercase letters and `-`, starting with a letter.
pub open spec fn kind_ok(kind: Seq<char>) -> bool {
    &&& kind.len() > 0
    &&& is_lower(kind[0])
    &&& forall|k: int| 0 <= k < kind.len() ==> (is_lower(#[trigger] kind[k]) || kind[k] == '-')
}

/// A commit scope: letters, digits, and `-_./`.
pub open spec fn scope_ok(scope: Seq<char>) -> bool {
    &&& scope.len() > 0
    &&& forall|k: int|
        0 <= k < scope.len() ==> (is_alnum(#[trigger] scope[k]) || scope[k] == '-' || scope[k]
            == '_' || scope[k] == '.' || scope[k] == '/')
}

/// The first position of `": "` in `t`, or the length.
pub open spec fn separator(t: Seq<char>, i: int) -> int
    decreases t.len() - i,
{
    if i < 0 || i + 1 >= t.len() {
        t.len() as int
    } else if t[i] == ':' && t[i + 1] == ' ' {
        i
    } else {
        separator(t, i + 1)
    }
}

/// The type and optional scope before the `": "` of a subject line.
pub open spec fn prefix_ok(prefix: Seq<char>) -> bool {
    let p = if prefix.len() > 0 && prefix.last() == '!' {
        prefix.drop_last()
    } else {
        prefix
    };
    let open = find(p, '(', 0);
    if open < p.len() {
        let scope = p.subrange(open + 1, p.len() as int);
        &&& scope.len() > 0
        &&& scope.last() == ')'
        &&& scope_ok(scope.drop_last())
        &&& kind_ok(p.subrange(0, open))
    } else {
        kind_ok(p)
    }
}

/// A printable Conventional Commit subject of 1 to 72 bytes.
pub open spec fn message_ok(message: Seq<char>) -> bool {
    let sep = separator(message, 0);
    &&& message.len() > 0
    &&& byte_len(message) <= 72
    &&& forall|k: int| 0 <= k < message.len() ==> !is_control(#[trigger] message[k])
    &&& sep < message.len()
    &&& exists|k: int| sep + 2 <= k < message.len() && !is_space(#[trigger] message[k])
    &&& prefix_ok(message.subrange(0, sep))
}

/// The rationale of a group: empty when absent.
pub open spec fn rationale_of(group: Json) -> Option<Seq<char>> {
    match field(group, "rationale"@) {
        None => Some(Seq::empty()),
        Some(Json::Str(r)) => Some(r),
        Some(_) => None,
    }
}

/// The change values a group lists.
pub open spec fn group_ids(group: Json) -> Seq<Json> {
    match field(group, "changes"@) {
        Some(Json::Array(ids)) => ids,
        _ => Seq::empty(),
    }
}

/// A group with only known fields, string IDs, a valid message and a short rationale.
pub open spec fn group_ok(group: Json) -> bool {
    &&& only_fields(group, seq!["changes"@, "message"@, "rationale"@])
    &&& field(group, "changes"@) matches Some(Json::Array(ids))
    &&& group_ids(group).len() > 0
    &&& forall|k: int| 0 <= k < group_ids(group).len() ==> #[trigger] group_ids(group)[k] is Str
    &&& field(group, "message"@) matches Some(Json::Str(m)) && message_ok(m)
    &&& rationale_of(group) matches Some(r) && byte_len(r) <= 512 && (forall|k: int|
        0 <= k < r.len() ==> !is_control(#[trigger] r[k]))
}

/// The texts of string values.
pub open spec fn texts(ids: Seq<Json>) -> Seq<Seq<char>> {
    Seq::new(ids.len(), |k: int| text_of(ids[k])->0)
}

/// Every change ID of the groups, in order.
pub open spec fn all_ids(groups: Seq<Json>) -> Seq<Seq<char>>
    decreases groups.len(),
{
    if groups.len() == 0 {
        Seq::empty()
    } else {
        all_ids(groups.drop_last()) + texts(group_ids(groups.last()))
    }
}

/// The normalized form of an accepted group.
pub open spec fn accepted_group(group: Json) -> Json {
    Json::Object(
        seq![
            ("changes"@, Json::Array(group_ids(group))),
            ("message"@, field(group, "message"@)->0),
            ("rationale"@, Json::Str(rationale_of(group)->0)),
        ],
    )
}

/// The groups of a proposal.
pub open spec fn plan_groups(proposal: Json) -> Seq<Json> {
    match field(proposal, "groups"@) {
        Some(Json::Array(groups)) => groups,
        _ => Seq::empty(),
    }
}

/// A proposal that covers every known change exactly once with valid groups.
pub open spec fn plan_ok(known: Set<Seq<char>>, count: int, proposal: Json) -> bool {
    let groups = plan_groups(proposal);
    &&& only_fields(proposal, seq!["groups"@])
    &&& field(proposal, "groups"@) matches Some(Json::Array(g))
    &&& 0 < groups.len() <= count
    &&& forall|k: int| 0 <= k < groups.len() ==> group_ok(#[trigger] groups[k])
    &&& all_ids(groups).no_duplicates()
    &&& all_ids(groups).to_set() == known
}

/// The accepted plan, or `None` when the proposal is rejected.
pub open spec fn plan_result(known: Set<Seq<char>>, count: int, proposal: Json) -> Option<Json> {
    if plan_ok(known, count, proposal) {
        let groups = plan_groups(proposal);
        Some(
            Json::Object(
                seq![
                    ("change_count"@, Json::Integer(count)),
                    ("groups"@, Json::Array(groups.map_values(|g: Json| accepted_group(g)))),
                    ("status"@, Json::Str("plan_only"@)),
                ],
            ),
        )
    } else {
        None
    }
}

/// The texts of a list of strings.
pub open spec fn string_texts(items: Seq<String>) -> Seq<Seq<char>> {
    Seq::new(items.len(), |k: int| items[k]@)
}

fn invalid(detail: &str) -> (error: KoruError)
    ensures
        error.spec_code() == ErrorCode::Validation,
{
    KoruError::new(ErrorCode::Validation, detail)
}

/// The texts of a list of names.
pub open spec fn names_of(allowed: Seq<&str>) -> Seq<Seq<char>> {
    Seq::new(allowed.len(), |k: int| allowed[k]@)
}

fn only_fields_exec(value: &JsonValue, allowed: &[&str]) -> (ok: bool)
    ensures
        ok == only_fields(value.model(), names_of(allowed@)),
{
    let ghost names = names_of(allowed@);
    match value {
        JsonValue::Object(entries) => {
            let ghost ms = entry_models(entries@);
            proof {
                crate::json::parse::lemma_object_model(*entries);
            }
            let mut i: usize = 0;
            while i < entries.len()
                invariant
                    i <= entries@.len(),
                    ms == entry_models(entries@),
                    value.model() == Json::Object(ms),
                    names == names_of(allowed@),
                    forall|k: int| 0 <= k < i ==> names.contains(#[trigger] ms[k].0),
                decreases entries@.len() - i,
            {
                let mut j: usize = 0;
                let mut found = false;
                while j < allowed.len()
                    invariant
                        j <= allowed@.len(),
                        i < entries@.len(),
                        ms == entry_models(entries@),
                        names == names_of(allowed@),
                        found ==> names.contains(ms[i as int].0),
                        !found ==> forall|k: int| 0 <= k < j ==> names[k] != ms[i as int].0,
                    decreases allowed@.len() - j,
                {
                    if str_eq(entries[i].0.as_str(), allowed[j]) {
                        assert(names[j as int] == ms[i as int].0);
                        found = true;
                    }
                    j = j + 1;
                }
                if !found {
                    assert(!names.contains(ms[i as int].0));
                    assert(value.model() == Json::Object(ms));
                    assert(i < ms.len());
                    assert(!keys_allowed(ms, names));
                    assert(names == names_of(allowed@));
                    return false;
                }
                i = i + 1;
            }
            true
        },
        _ => true,
    }
}

fn is_lower_exec(c: char) -> (r: bool)
    ensures
        r == is_lower(c),
{
    'a' <= c && c <= 'z'
}

fn is_alnum_exec(c: char) -> (r: bool)
    ensures
        r == is_alnum(c),
{
    ('a' <= c && c <= 'z') || ('A' <= c && c <= 'Z') || ('0' <= c && c <= '9')
}

fn kind_ok_exec(kind: &Vec<char>) -> (ok: bool)
    ensures
        ok == kind_ok(kind@),
{
    if kind.len() == 0 || !is_lower_exec(kind[0]) {
        return false;
    }
    let mut i: usize = 0;
    while i < kind.len()
        invariant
            i <= kind@.len(),
            forall|k: int| 0 <= k < i ==> (is_lower(#[trigger] kind@[k]) || kind@[k] == '-'),
        decreases kind@.len() - i,
    {
        if !(is_lower_exec(kind[i]) || kind[i] == '-') {
            return false;
        }
        i = i + 1;
    }
    true
}

fn scope_ok_exec(scope: &Vec<char>) -> (ok: bool)
    ensures
        ok == scope_ok(scope@),
{
    if scope.len() == 0 {
        return false;
    }
    let mut i: usize = 0;
    while i < scope.len()
        invariant
            i <= scope@.len(),
            forall|k: int|
                0 <= k < i ==> (is_alnum(#[trigger] scope@[k]) || scope@[k] == '-' || scope@[k]
                    == '_' || scope@[k] == '.' || scope@[k] == '/'),
        decreases scope@.len() - i,
    {
        let c = scope[i];
        if !(is_alnum_exec(c) || c == '-' || c == '_' || c == '.' || c == '/') {
            return false;
        }
        i = i + 1;
    }
    true
}

fn take_range(t: &Vec<char>, a: usize, b: usize) -> (out: Vec<char>)
    requires
        a <= b <= t@.len(),
    ensures
        out@ == t@.subrange(a as int, b as int),
{
    let mut out: Vec<char> = Vec::new();
    let mut i = a;
    while i < b
        invariant
            a <= i <= b <= t@.len(),
            out@ == t@.subrange(a as int, i as int),
        decreases b - i,
    {
        out.push(t[i]);
        i = i + 1;
        assert(out@ == t@.subrange(a as int, i as int));
    }
    out
}

fn prefix_ok_exec(prefix: &Vec<char>) -> (ok: bool)
    ensures
        ok == prefix_ok(prefix@),
{
    let end = if prefix.len() > 0 && prefix[prefix.len() - 1] == '!' {
        prefix.len() - 1
    } else {
        prefix.len()
    };
    let p = take_range(prefix, 0, end);
    assert(p@ =~= (if prefix@.len() > 0 && prefix@.last() == '!' {
        prefix@.drop_last()
    } else {
        prefix@
    }));
    let mut open: usize = 0;
    while open < p.len() && p[open] != '('
        invariant
            open <= p@.len(),
            find(p@, '(', open as int) == find(p@, '(', 0),
        decreases p@.len() - open,
    {
        open = open + 1;
    }
    if open < p.len() {
        let scope = take_range(&p, open + 1, p.len());
        if !(scope.len() > 0 && scope[scope.len() - 1] == ')') {
            return false;
        }
        let inner = take_range(&scope, 0, scope.len() - 1);
        assert(inner@ =~= scope@.drop_last());
        let kind = take_range(&p, 0, open);
        scope_ok_exec(&inner) && kind_ok_exec(&kind)
    } else {
        kind_ok_exec(&p)
    }
}

/// Check that a commit message is a printable Conventional Commit subject.
pub fn validate_message(message: &str) -> (result: Result<(), KoruError>)
    ensures
        result is Ok <==> message_ok(message@),
        result matches Err(e) ==> e.spec_code() == ErrorCode::Validation,
{
    let m = chars_of(message);
    let ghost t = m@;
    if m.len() == 0 {
        return Err(invalid("commit message must be 1 to 72 printable bytes"));
    }
    let mut width: usize = 0;
    let mut i: usize = 0;
    while i < m.len()
        invariant
            i <= t.len(),
            t == m@,
            t == message@,
            width == byte_len(t.subrange(0, i as int)),
            width <= 72,
            forall|k: int| 0 <= k < i ==> !is_control(#[trigger] t[k]),
        decreases t.len() - i,
    {
        let c = m[i];
        proof {
            assert(t.subrange(0, i + 1).drop_last() =~= t.subrange(0, i as int));
        }
        width = width + crate::json::parse::char_width_exec(c);
        if width > 72 {
            proof {
                assert(byte_len(t.subrange(0, i + 1)) == width);
                crate::config::lemma_byte_len_prefix(t, i + 1);
            }
            return Err(invalid("commit message must be 1 to 72 printable bytes"));
        }
        if crate::config::is_control_exec(c) {
            assert(is_control(t[i as int]));
            return Err(invalid("commit message must be 1 to 72 printable bytes"));
        }
        i = i + 1;
    }
    assert(t.subrange(0, i as int) =~= t);
    let mut sep: usize = 0;
    while sep < m.len() - 1 && !(m[sep] == ':' && m[sep + 1] == ' ')
        invariant
            sep <= t.len(),
            t.len() > 0,
            t == m@,
            separator(t, sep as int) == separator(t, 0),
        decreases t.len() - sep,
    {
        sep = sep + 1;
    }
    if sep >= m.len() - 1 {
        return Err(invalid("commit message must use Conventional Commit syntax"));
    }
    let mut k: usize = sep + 2;
    while k < m.len() && crate::config::is_space_exec(m[k])
        invariant
            sep + 2 <= k <= t.len(),
            t == m@,
            sep == separator(t, 0),
            forall|j: int| sep + 2 <= j < k ==> is_space(#[trigger] t[j]),
        decreases t.len() - k,
    {
        k = k + 1;
    }
    if k >= m.len() {
        return Err(invalid("commit subject must not be empty"));
    }
    let prefix = take_range(&m, 0, sep);
    if !prefix_ok_exec(&prefix) {
        return Err(invalid("commit type must be lowercase Conventional Commit syntax"));
    }
    Ok(())
}


/// A group that passes its own checks and adds only new, known change IDs.
pub open spec fn group_accepts(known: Set<Seq<char>>, seen: Seq<Seq<char>>, group: Json) -> bool {
    &&& group_ok(group)
    &&& (seen + texts(group_ids(group))).no_duplicates()
    &&& forall|k: int|
        0 <= k < group_ids(group).len() ==> known.contains(#[trigger] texts(group_ids(group))[k])
}

fn contains_text(items: &Vec<String>, text: &str) -> (found: bool)
    ensures
        found == string_texts(items@).contains(text@),
{
    let mut i: usize = 0;
    while i < items.len()
        invariant
            i <= items@.len(),
            forall|k: int| 0 <= k < i ==> string_texts(items@)[k] != text@,
        decreases items@.len() - i,
    {
        if str_eq(items[i].as_str(), text) {
            assert(string_texts(items@)[i as int] == text@);
            return true;
        }
        i = i + 1;
    }
    false
}

fn printable_within(text: &str, limit: usize) -> (ok: bool)
    requires
        limit <= 4096,
    ensures
        ok == (byte_len(text@) <= limit && forall|k: int|
            0 <= k < text@.len() ==> !is_control(#[trigger] text@[k])),
{
    let t = chars_of(text);
    let mut width: usize = 0;
    let mut i: usize = 0;
    while i < t.len()
        invariant
            i <= t@.len(),
            t@ == text@,
            width == byte_len(t@.subrange(0, i as int)),
            width <= limit,
            limit <= 4096,
            forall|k: int| 0 <= k < i ==> !is_control(#[trigger] t@[k]),
        decreases t@.len() - i,
    {
        let c = t[i];
        proof {
            assert(t@.subrange(0, i + 1).drop_last() =~= t@.subrange(0, i as int));
        }
        width = width + crate::json::parse::char_width_exec(c);
        if width > limit {
            proof {
                assert(byte_len(t@.subrange(0, i + 1)) == width);
                crate::config::lemma_byte_len_prefix(t@, i + 1);
            }
            return false;
        }
        if crate::config::is_control_exec(c) {
            assert(is_control(t@[i as int]));
            return false;
        }
        i = i + 1;
    }
    assert(t@.subrange(0, i as int) =~= t@);
    true
}

fn accept_group(known: &Vec<String>, group: &JsonValue, seen: &mut Vec<String>) -> (result: Result<
    JsonValue,
    KoruError,
>)
    requires
        string_texts(old(seen)@).no_duplicates(),
    ensures
        if group_accepts(string_texts(known@).to_set(), string_texts(old(seen)@), group.model()) {
            &&& result matches Ok(x) && x.model() == accepted_group(group.model())
            &&& string_texts(final(seen)@) == string_texts(old(seen)@) + texts(
                group_ids(group.model()),
            )
        } else {
            result matches Err(e) && e.spec_code() == ErrorCode::Validation
        },
{
    let ghost g = group.model();
    let ghost ks = string_texts(known@).to_set();
    let ghost seen0 = string_texts(seen@);
    proof {
        reveal_strlit("changes");
        reveal_strlit("message");
        reveal_strlit("rationale");
    }
    let names: [&str; 3] = ["changes", "message", "rationale"];
    assert(names_of(names@) =~= seq!["changes"@, "message"@, "rationale"@]);
    if !only_fields_exec(group, &names) {
        return Err(invalid("plan contains an unsupported field"));
    }
    let ids = match field_of(group, "changes") {
        Some(JsonValue::Array(ids)) => ids,
        _ => {
            return Err(invalid("group changes must be an array"));
        },
    };
    let ghost ids_model = models(ids@);
    proof {
        crate::json::parse::lemma_array_model(*ids);
        assert(group_ids(g) == ids_model);
    }
    if ids.len() == 0 {
        return Err(invalid("a commit group cannot be empty"));
    }
    let mut accepted_ids: Vec<JsonValue> = Vec::new();
    let mut j: usize = 0;
    while j < ids.len()
        invariant
            j <= ids@.len(),
            ids_model == models(ids@),
            ids_model == group_ids(g),
            g == group.model(),
            ks == string_texts(known@).to_set(),
            forall|k: int| 0 <= k < j ==> #[trigger] ids_model[k] is Str,
            forall|k: int| 0 <= k < j ==> ks.contains(#[trigger] texts(ids_model)[k]),
            string_texts(seen@) == seen0 + texts(ids_model).subrange(0, j as int),
            string_texts(seen@).no_duplicates(),
            seen0 == string_texts(old(seen)@),
            accepted_ids@.len() == j,
            models(accepted_ids@) == ids_model.subrange(0, j as int),
        decreases ids@.len() - j,
    {
        assert(ids_model[j as int] == ids@[j as int].model());
        let id = match &ids[j] {
            JsonValue::String(id) => id,
            _ => {
                return Err(invalid("change id must be a string"));
            },
        };
        assert(texts(ids_model)[j as int] == id@);
        if !contains_text(known, id.as_str()) {
            return Err(invalid("plan contains an unknown staged change ID"));
        }
        if contains_text(seen, id.as_str()) {
            proof {
                let st = string_texts(seen@);
                let idx = choose|i: int| 0 <= i < st.len() && st[i] == id@;
                let full = seen0 + texts(group_ids(g));
                assert(full[idx] == st[idx]);
                assert(full[seen0.len() + j] == texts(ids_model)[j as int]);
                assert(!full.no_duplicates());
            }
            return Err(invalid("plan repeats a staged change ID"));
        }
        let ghost before_seen = seen@;
        let ghost before_ids = accepted_ids@;
        seen.push(id.clone());
        accepted_ids.push(JsonValue::String(id.clone()));
        proof {
            assert(seen@ == before_seen.push(*id));
            assert(string_texts(seen@) =~= string_texts(before_seen).push(id@));
            assert(texts(ids_model).subrange(0, j + 1) =~= texts(ids_model).subrange(0, j as int).push(id@));
            assert(accepted_ids@[j as int].model() == Json::Str(id@));
            assert(models(accepted_ids@) =~= models(before_ids).push(Json::Str(id@)));
            assert(ids_model.subrange(0, j + 1) =~= ids_model.subrange(0, j as int).push(ids_model[j as int]));
            assert(string_texts(seen@).no_duplicates()) by {
                assert(!string_texts(before_seen).contains(id@));
            }
        }
        proof {
            assert(string_texts(seen@) =~= seen0 + texts(ids_model).subrange(0, j + 1));
            assert(models(accepted_ids@) =~= ids_model.subrange(0, j + 1));
        }
        j = j + 1;
    }
    let message = match field_of(group, "message") {
        Some(JsonValue::String(m)) => m,
        _ => {
            return Err(invalid("message must be a string"));
        },
    };
    if let Err(error) = validate_message(message.as_str()) {
        return Err(error);
    }
    let rationale: String = match field_of(group, "rationale") {
        None => String::new(),
        Some(JsonValue::String(r)) => r.clone(),
        Some(_) => {
            return Err(invalid("rationale must be a string"));
        },
    };
    if !printable_within(rationale.as_str(), 512) {
        return Err(invalid("group rationale must be at most 512 printable bytes"));
    }
    proof {
        assert(texts(ids_model).subrange(0, ids_model.len() as int) =~= texts(ids_model));
        assert(ids_model.subrange(0, ids_model.len() as int) =~= ids_model);
        assert(group_ok(g));
    }
    let entries: Vec<(String, JsonValue)> = vec![
        ("changes".to_owned(), JsonValue::Array(accepted_ids)),
        ("message".to_owned(), JsonValue::String(message.clone())),
        ("rationale".to_owned(), JsonValue::String(rationale)),
    ];
    let out = JsonValue::Object(entries);
    proof {
        crate::json::parse::lemma_object_model(entries);
        crate::json::parse::lemma_array_model(accepted_ids);
        assert(entry_models(entries@) =~= accepted_group(g)->Object_0);
    }
    Ok(out)
}


proof fn lemma_all_ids_prefix(gs: Seq<Json>, j: int)
    requires
        0 <= j <= gs.len(),
    ensures
        all_ids(gs.subrange(0, j)).len() <= all_ids(gs).len(),
        all_ids(gs.subrange(0, j)) == all_ids(gs).subrange(0, all_ids(gs.subrange(0, j)).len() as int),
    decreases gs.len(),
{
    if j == gs.len() {
        assert(gs.subrange(0, j) =~= gs);
        assert(all_ids(gs).subrange(0, all_ids(gs).len() as int) =~= all_ids(gs));
    } else {
        let d = gs.drop_last();
        lemma_all_ids_prefix(d, j);
        assert(d.subrange(0, j) =~= gs.subrange(0, j));
        let p = all_ids(gs.subrange(0, j));
        assert(all_ids(gs) == all_ids(d) + texts(group_ids(gs.last())));
        assert(all_ids(gs).subrange(0, p.len() as int) =~= all_ids(d).subrange(0, p.len() as int));
    }
}

proof fn lemma_all_ids_step(gs: Seq<Json>, i: int)
    requires
        0 <= i < gs.len(),
    ensures
        all_ids(gs.subrange(0, i + 1)) == all_ids(gs.subrange(0, i)) + texts(group_ids(gs[i])),
{
    let s = gs.subrange(0, i + 1);
    assert(s.drop_last() =~= gs.subrange(0, i));
    assert(s.last() == gs[i]);
}

/// Validate complete ID coverage and Conventional Commit subjects.
///
/// `known` holds the staged change IDs; the result normalizes each group and
/// records the number of known changes.
pub fn validate_plan(known: &Vec<String>, proposal: &JsonValue) -> (result: Result<
    JsonValue,
    KoruError,
>)
    requires
        known@.len() <= i64::MAX,
        string_texts(known@).no_duplicates(),
    ensures
        match plan_result(string_texts(known@).to_set(), known@.len() as int, proposal.model()) {
            Some(v) => result matches Ok(x) && x.model() == v,
            None => result matches Err(e) && e.spec_code() == ErrorCode::Validation,
        },
{
    let ghost ks = string_texts(known@).to_set();
    let ghost p = proposal.model();
    proof {
        reveal_strlit("groups");
        reveal_strlit("change_count");
        reveal_strlit("status");
        reveal_strlit("plan_only");
    }
    let names: [&str; 1] = ["groups"];
    assert(names_of(names@) =~= seq!["groups"@]);
    if !only_fields_exec(proposal, &names) {
        return Err(invalid("plan contains an unsupported field"));
    }
    let groups = match field_of(proposal, "groups") {
        Some(JsonValue::Array(groups)) => groups,
        _ => {
            return Err(invalid("groups must be an array"));
        },
    };
    let ghost gm = models(groups@);
    proof {
        crate::json::parse::lemma_array_model(*groups);
        assert(plan_groups(p) == gm);
    }
    if groups.len() == 0 || groups.len() > known.len() {
        return Err(invalid("plan must contain between one and one group per staged change"));
    }
    let mut seen: Vec<String> = Vec::new();
    let mut accepted: Vec<JsonValue> = Vec::new();
    assert(all_ids(gm.subrange(0, 0)) =~= Seq::<Seq<char>>::empty());
    assert(string_texts(seen@) =~= Seq::<Seq<char>>::empty());
    assert(models(accepted@) =~= Seq::<Json>::empty());
    let mut i: usize = 0;
    while i < groups.len()
        invariant
            i <= groups@.len(),
            gm == models(groups@),
            gm == plan_groups(p),
            p == proposal.model(),
            ks == string_texts(known@).to_set(),
            string_texts(seen@) == all_ids(gm.subrange(0, i as int)),
            string_texts(seen@).no_duplicates(),
            forall|k: int| 0 <= k < string_texts(seen@).len() ==> ks.contains(#[trigger] string_texts(seen@)[k]),
            forall|k: int| 0 <= k < i ==> group_ok(#[trigger] gm[k]),
            accepted@.len() == i,
            models(accepted@) == gm.subrange(0, i as int).map_values(|g: Json| accepted_group(g)),
        decreases groups@.len() - i,
    {
        let ghost seen_before = string_texts(seen@);
        assert(gm[i as int] == groups@[i as int].model());
        proof {
            lemma_all_ids_step(gm, i as int);
        }
        let ghost before_acc = accepted@;
        match accept_group(known, &groups[i], &mut seen) {
            Ok(group) => {
                let ghost gmodel = group.model();
                accepted.push(group);
                proof {
                    assert(accepted@ == before_acc.push(group));
                    assert(models(accepted@) =~= models(before_acc).push(gmodel));
                }
            },
            Err(error) => {
                proof {
                    lemma_all_ids_prefix(gm, i + 1);
                    let whole = all_ids(gm);
                    let pre = all_ids(gm.subrange(0, i + 1));
                    if !group_ok(gm[i as int]) {
                    } else if !pre.no_duplicates() {
                        let (a, b) = choose|a: int, b: int|
                            0 <= a < pre.len() && 0 <= b < pre.len() && a != b && pre[a] == pre[b];
                        assert(whole[a] == pre[a] && whole[b] == pre[b]);
                        assert(!whole.no_duplicates());
                    } else {
                        let ids = texts(group_ids(gm[i as int]));
                        let k = choose|k: int|
                            0 <= k < group_ids(gm[i as int]).len() && !ks.contains(
                                #[trigger] texts(group_ids(gm[i as int]))[k],
                            );
                        assert(pre[seen_before.len() + k] == ids[k]);
                        assert(whole[seen_before.len() + k] == ids[k]);
                        assert(whole.to_set().contains(ids[k]));
                        assert(whole.to_set() != ks);
                    }
                }
                return Err(error);
            },
        }
        proof {
            let pre = all_ids(gm.subrange(0, i + 1));
            assert(string_texts(seen@) == pre);
            assert forall|k: int| 0 <= k < pre.len() implies ks.contains(#[trigger] pre[k]) by {
                if k >= seen_before.len() {
                    let j = k - seen_before.len();
                    assert(pre[k] == texts(group_ids(gm[i as int]))[j]);
                }
            }
            assert(models(accepted@) =~= gm.subrange(0, i + 1).map_values(
                |g: Json| accepted_group(g),
            ));
        }
        i = i + 1;
    }
    assert(gm.subrange(0, gm.len() as int) =~= gm);
    let ghost all = all_ids(gm);
    let mut k: usize = 0;
    while k < known.len()
        invariant
            k <= known@.len(),
            ks == string_texts(known@).to_set(),
            string_texts(seen@) == all,
            all == all_ids(plan_groups(proposal.model())),
            forall|j: int| 0 <= j < k ==> all.contains(#[trigger] string_texts(known@)[j]),
        decreases known@.len() - k,
    {
        if !contains_text(&seen, known[k].as_str()) {
            proof {
                let x = string_texts(known@)[k as int];
                assert(ks.contains(x));
                assert(!all.to_set().contains(x));
            }
            return Err(invalid("plan must cover every staged change exactly once"));
        }
        k = k + 1;
    }
    proof {
        assert forall|x: Seq<char>| ks.contains(x) implies all.to_set().contains(x) by {
            let j = choose|j: int| 0 <= j < string_texts(known@).len() && string_texts(known@)[j] == x;
            assert(all.contains(string_texts(known@)[j]));
        }
        assert forall|x: Seq<char>| all.to_set().contains(x) implies ks.contains(x) by {
            let j = choose|j: int| 0 <= j < all.len() && all[j] == x;
            assert(ks.contains(all[j]));
        }
        assert(all.to_set() =~= ks);
        assert(plan_ok(ks, known@.len() as int, p));
    }
    let count = known.len() as i64;
    let entries: Vec<(String, JsonValue)> = vec![
        ("change_count".to_owned(), JsonValue::Integer(count)),
        ("groups".to_owned(), JsonValue::Array(accepted)),
        ("status".to_owned(), JsonValue::String("plan_only".to_owned())),
    ];
    let out = JsonValue::Object(entries);
    proof {
        crate::json::parse::lemma_object_model(entries);
        crate::json::parse::lemma_array_model(accepted);
        assert(entry_models(entries@) =~= plan_result(ks, known@.len() as int, p)->0->Object_0);
    }
    Ok(out)
}


/// An object with `key` bound to `value` in key order, unless it already
/// binds `key`; any other value unchanged.
pub open spec fn with_field(v: Json, key: Seq<char>, value: Json) -> Json {
    match v {
        Json::Object(entries) => match obj_insert(entries, key, value) {
            Some(grown) => Json::Object(grown),
            None => v,
        },
        _ => v,
    }
}

/// An accepted plan bound to the snapshot it was validated against.
pub open spec fn with_snapshot(plan: Json, snapshot_id: Seq<char>) -> Json {
    with_field(plan, "snapshot_id"@, Json::Str(snapshot_id))
}

/// The plan identity: the hexadecimal SHA-256 of the snapshot identity
/// followed by the canonical JSON text of the snapshot-bound plan.
pub open spec fn plan_identity(plan: Json, snapshot_id: Seq<char>) -> Seq<char> {
    hex_text(
        sha256_of(
            encode_utf8(snapshot_id) + encode_utf8(emit_json(with_snapshot(plan, snapshot_id))),
        ),
    )
}

/// The finished plan: the accepted plan with its `snapshot_id` and `plan_id`.
pub open spec fn signed_plan(plan: Json, snapshot_id: Seq<char>) -> Json {
    with_field(
        with_snapshot(plan, snapshot_id),
        "plan_id"@,
        Json::Str(plan_identity(plan, snapshot_id)),
    )
}

/// Bind `key` to `value` in an object value, keeping key order.
fn put_field(fields: &mut Vec<(String, JsonValue)>, key: &str, value: JsonValue)
    ensures
        with_field(Json::Object(entry_models(old(fields)@)), key@, value.model()) == Json::Object(
            entry_models(final(fields)@),
        ),
{
    let ghost before = entry_models(fields@);
    let inserted = crate::json::parse::insert_entry(fields, key.to_string(), value);
    proof {
        if !inserted {
            assert(entry_models(fields@) =~= before);
        }
    }
}

/// Validate a proposal against the latest snapshot and bind the accepted plan
/// to it: the plan gains the snapshot identity and a `plan_id` digest of the
/// snapshot identity and the plan's canonical JSON.
pub fn finish_plan(known: &Vec<String>, snapshot_id: &str, proposal: &JsonValue) -> (result: Result<
    JsonValue,
    KoruError,
>)
    requires
        known@.len() <= i64::MAX,
        string_texts(known@).no_duplicates(),
    ensures
        match plan_result(string_texts(known@).to_set(), known@.len() as int, proposal.model()) {
            Some(v) => result matches Ok(x) && x.model() == signed_plan(v, snapshot_id@),
            None => result matches Err(e) && e.spec_code() == ErrorCode::Validation,
        },
{
    let plan = match validate_plan(known, proposal) {
        Ok(plan) => plan,
        Err(e) => {
            return Err(e);
        },
    };
    let ghost v = plan.model();
    let mut fields = match plan {
        JsonValue::Object(fields) => fields,
        _ => {
            return Err(invalid("validated plan is not an object"));
        },
    };
    proof {
        crate::json::parse::lemma_object_model(fields);
    }
    assert(v == Json::Object(entry_models(fields@)));
    let sid = JsonValue::String(snapshot_id.to_string());
    assert(sid.model() == Json::Str(snapshot_id@));
    put_field(&mut fields, "snapshot_id", sid);
    let bound = JsonValue::Object(fields);
    proof {
        crate::json::parse::lemma_object_model(bound->Object_0);
    }
    assert(bound.model() == with_snapshot(v, snapshot_id@));
    let canonical = crate::json::emit(&bound);
    let mut fields = match bound {
        JsonValue::Object(fields) => fields,
        _ => {
            return Err(invalid("validated plan is not an object"));
        },
    };
    let mut data = vstd::slice::slice_to_vec(snapshot_id.as_bytes());
    let tail = canonical.as_str().as_bytes();
    let mut i: usize = 0;
    while i < tail.len()
        invariant
            i <= tail@.len(),
            data@ == encode_utf8(snapshot_id@) + tail@.subrange(0, i as int),
        decreases tail@.len() - i,
    {
        data.push(tail[i]);
        assert(tail@.subrange(0, i + 1) =~= tail@.subrange(0, i as int).push(tail@[i as int]));
        i = i + 1;
    }
    assert(tail@.subrange(0, tail@.len() as int) =~= tail@);
    let digest = sha256(data.as_slice());
    let mut id = String::new();
    push_hex(&mut id, &digest);
    put_field(&mut fields, "plan_id", JsonValue::String(id));
    let signed = JsonValue::Object(fields);
    proof {
        crate::json::parse::lemma_object_model(signed->Object_0);
    }
    Ok(signed)
}


/// An accepted plan reports the number of known changes and the status
/// `plan_only`, and keeps every proposed group, in order, with its changes and
/// message as proposed and its rationale as given, or the empty text where the
/// proposal gives none.
pub proof fn accepted_groups_keep_their_content(
    known: Set<Seq<char>>,
    count: int,
    proposal: Json,
    groups: Seq<Json>,
    k: int,
)
    requires
        plan_result(known, count, proposal) is Some,
        field(proposal, "groups"@) == Some(Json::Array(groups)),
        0 <= k < groups.len(),
    ensures
        ({
            let plan = plan_result(known, count, proposal)->0;
            &&& field(plan, "change_count"@) == Some(Json::Integer(count))
            &&& field(plan, "status"@) == Some(Json::Str("plan_only"@))
            &&& field(plan, "groups"@) matches Some(Json::Array(accepted)) && accepted.len()
                == groups.len() && ({
                let group = accepted[k];
                &&& field(group, "changes"@) == field(groups[k], "changes"@)
                &&& field(group, "message"@) == field(groups[k], "message"@)
                &&& (field(groups[k], "rationale"@) matches Some(Json::Str(r)) ==> field(
                    group,
                    "rationale"@,
                ) == Some(Json::Str(r)))
                &&& (field(groups[k], "rationale"@) is None ==> field(group, "rationale"@) == Some(
                    Json::Str(Seq::empty()),
                ))
            })
        }),
{
    reveal_strlit("changes");
    reveal_strlit("message");
    reveal_strlit("rationale");
    reveal_strlit("groups");
    reveal_strlit("change_count");
    reveal_strlit("status");
    reveal_with_fuel(lookup, 4);
    let g = groups[k];
    assert(plan_groups(proposal) == groups);
    assert(group_ok(g));
    let accepted = groups.map_values(|x: Json| accepted_group(x));
    assert(accepted[k] == accepted_group(g));
    let out = accepted_group(g);
    let entries = out->Object_0;
    assert(entries[0].0 == "changes"@);
    assert(entries[1].0 == "message"@);
    assert(entries[2].0 == "rationale"@);
    assert("message"@ != "changes"@);
    assert("rationale"@ != "changes"@);
    assert("rationale"@ != "message"@);
    assert(entries.drop_first()[0] == entries[1]);
    assert(entries.drop_first().drop_first()[0] == entries[2]);
    assert(field(g, "changes"@) matches Some(Json::Array(ids)));
    let plan = plan_result(known, count, proposal)->0;
    let pe = plan->Object_0;
    assert(pe[0].0 == "change_count"@);
    assert(pe[1].0 == "groups"@);
    assert("groups"@ != "change_count"@);
    assert(pe.drop_first()[0] == pe[1]);
    reveal_strlit("plan_only");
    assert(pe[2].0 == "status"@);
    assert("status"@ != "change_count"@);
    assert("status"@ != "groups"@) by { assert("status"@[0] != "groups"@[0]); }
    assert(pe.drop_first().drop_first()[0] == pe[2]);
}

proof fn lemma_all_ids_have(groups: Seq<Json>, k: int, j: int)
    requires
        0 <= k < groups.len(),
        0 <= j < group_ids(groups[k]).len(),
    ensures
        all_ids(groups).contains(texts(group_ids(groups[k]))[j]),
    decreases groups.len(),
{
    let head = all_ids(groups.drop_last());
    let tail = texts(group_ids(groups.last()));
    assert(all_ids(groups) == head + tail);
    if k == groups.len() - 1 {
        assert((head + tail)[head.len() + j] == tail[j]);
    } else {
        assert(groups.drop_last()[k] == groups[k]);
        lemma_all_ids_have(groups.drop_last(), k, j);
        let p = choose|p: int| 0 <= p < head.len() && head[p] == texts(group_ids(groups[k]))[j];
        assert((head + tail)[p] == head[p]);
    }
}

proof fn lemma_all_ids_from(groups: Seq<Json>, x: Seq<char>)
    requires
        all_ids(groups).contains(x),
    ensures
        exists|k: int, j: int|
            0 <= k < groups.len() && 0 <= j < group_ids(groups[k]).len() && #[trigger] texts(
                group_ids(groups[k]),
            )[j] == x,
    decreases groups.len(),
{
    let head = all_ids(groups.drop_last());
    let tail = texts(group_ids(groups.last()));
    assert(all_ids(groups) == head + tail);
    let p = choose|p: int| 0 <= p < all_ids(groups).len() && all_ids(groups)[p] == x;
    if p < head.len() {
        assert((head + tail)[p] == head[p]);
        lemma_all_ids_from(groups.drop_last(), x);
        let (k, j) = choose|k: int, j: int|
            0 <= k < groups.drop_last().len() && 0 <= j < group_ids(groups.drop_last()[k]).len()
                && #[trigger] texts(group_ids(groups.drop_last()[k]))[j] == x;
        assert(groups.drop_last()[k] == groups[k]);
        assert(texts(group_ids(groups[k]))[j] == x);
    } else {
        let j = p - head.len();
        assert((head + tail)[p] == tail[j]);
        assert(texts(group_ids(groups[groups.len() - 1]))[j] == x);
    }
}

/// Every change that a group of an accepted plan lists is a string naming a
/// known change.
pub proof fn accepted_groups_list_known_changes(
    known: Set<Seq<char>>,
    count: int,
    proposal: Json,
    groups: Seq<Json>,
    k: int,
    ids: Seq<Json>,
    j: int,
)
    requires
        plan_result(known, count, proposal) is Some,
        field(proposal, "groups"@) == Some(Json::Array(groups)),
        0 <= k < groups.len(),
        field(groups[k], "changes"@) == Some(Json::Array(ids)),
        0 <= j < ids.len(),
    ensures
        ids[j] is Str,
        known.contains(ids[j]->Str_0),
{
    assert(plan_groups(proposal) == groups);
    assert(group_ok(groups[k]));
    assert(group_ids(groups[k]) == ids);
    assert(ids[j] is Str);
    lemma_all_ids_have(groups, k, j);
    assert(texts(ids)[j] == ids[j]->Str_0);
    assert(all_ids(groups).to_set().contains(ids[j]->Str_0));
}

/// Every known change is listed by some group of an accepted plan.
pub proof fn accepted_plans_cover_every_change(
    known: Set<Seq<char>>,
    count: int,
    proposal: Json,
    groups: Seq<Json>,
    change: Seq<char>,
)
    requires
        plan_result(known, count, proposal) is Some,
        field(proposal, "groups"@) == Some(Json::Array(groups)),
        known.contains(change),
    ensures
        exists|k: int, j: int|
            0 <= k < groups.len() && 0 <= j && field(#[trigger] groups[k], "changes"@) == Some(
                Json::Array(group_ids(groups[k])),
            ) && j < group_ids(groups[k]).len() && #[trigger] group_ids(groups[k])[j] == Json::Str(
                change,
            ),
{
    assert(plan_groups(proposal) == groups);
    assert(all_ids(groups).to_set().contains(change));
    assert(all_ids(groups).contains(change));
    lemma_all_ids_from(groups, change);
    let (k, j) = choose|k: int, j: int|
        0 <= k < groups.len() && 0 <= j < group_ids(groups[k]).len() && #[trigger] texts(
            group_ids(groups[k]),
        )[j] == change;
    assert(group_ok(groups[k]));
    let ids = group_ids(groups[k]);
    assert(ids[j] is Str);
    assert(ids[j] == Json::Str(change));
}

proof fn lemma_all_ids_at(groups: Seq<Json>, k: int, j: int)
    requires
        0 <= k < groups.len(),
        0 <= j < group_ids(groups[k]).len(),
    ensures
        all_ids(groups.take(k)).len() + group_ids(groups[k]).len() == all_ids(groups.take(k + 1)).len(),
        all_ids(groups.take(k + 1)).len() <= all_ids(groups).len(),
        all_ids(groups)[all_ids(groups.take(k)).len() + j] == texts(group_ids(groups[k]))[j],
{
    let next = groups.take(k + 1);
    assert(next.drop_last() =~= groups.take(k));
    assert(next.last() == groups[k]);
    assert(all_ids(next) == all_ids(groups.take(k)) + texts(group_ids(groups[k])));
    lemma_all_ids_prefix(groups, k + 1);
    let at = all_ids(groups.take(k)).len() + j;
    assert(all_ids(next)[at] == texts(group_ids(groups[k]))[j]);
    assert(all_ids(groups)[at] == all_ids(next)[at]);
}

/// No change is listed twice in an accepted plan, neither in one group nor in
/// two.
pub proof fn accepted_plans_list_each_change_once(
    known: Set<Seq<char>>,
    count: int,
    proposal: Json,
    groups: Seq<Json>,
    k1: int,
    j1: int,
    k2: int,
    j2: int,
)
    requires
        plan_result(known, count, proposal) is Some,
        field(proposal, "groups"@) == Some(Json::Array(groups)),
        0 <= k1 < groups.len() && 0 <= j1 < group_ids(groups[k1]).len(),
        0 <= k2 < groups.len() && 0 <= j2 < group_ids(groups[k2]).len(),
        k1 != k2 || j1 != j2,
    ensures
        group_ids(groups[k1])[j1] != group_ids(groups[k2])[j2],
{
    assert(plan_groups(proposal) == groups);
    assert(group_ok(groups[k1]) && group_ok(groups[k2]));
    let all = all_ids(groups);
    lemma_all_ids_at(groups, k1, j1);
    lemma_all_ids_at(groups, k2, j2);
    let a = all_ids(groups.take(k1)).len() + j1;
    let b = all_ids(groups.take(k2)).len() + j2;
    if k1 < k2 {
        lemma_all_ids_prefix(groups.take(k2), k1 + 1);
        assert(groups.take(k2).take(k1 + 1) =~= groups.take(k1 + 1));
    } else if k2 < k1 {
        lemma_all_ids_prefix(groups.take(k1), k2 + 1);
        assert(groups.take(k1).take(k2 + 1) =~= groups.take(k2 + 1));
    }
    assert(a != b);
    assert(all[a] != all[b]);
    assert(texts(group_ids(groups[k1]))[j1] == group_ids(groups[k1])[j1]->Str_0);
    assert(texts(group_ids(groups[k2]))[j2] == group_ids(groups[k2])[j2]->Str_0);
}

} // verus!
