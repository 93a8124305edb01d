//! Bounded model catalogs per provider service.
//!
//! Catalogs are advisory metadata, never a grant: a missing capability field is
//! unknown and MUST NOT be treated as supported. Parsing is strict about known
//! field types and bounds and ignores unrecognized provider fields so catalogs can
//! evolve without breaking selection. Refreshing one service replaces only that
//! service's entries and leaves previous entries intact on failure.
use crate::credentials::{DEEPSEEK_API_KEY, OPENCODE_API_KEY};
use crate::error::{ErrorCode, KoruError};
use crate::json::parse::byte_len;
use crate::json::{field_of, lookup, Json, JsonValue, entry_models, models};
use crate::text::{fits_bytes, str_eq};
use vstd::prelude::*;

verus! {

broadcast use vstd::string::group_string_axioms;

/// Maximum models retained for one service.
pub const MAX_CATALOG_ENTRIES: usize = 1000;

/// Maximum bytes in a model id, display name, or variant.
pub const MAX_LABEL_BYTES: usize = 256;

/// Maximum declared variants for one model.
pub const MAX_VARIANTS: usize = 16;

/// A provider service with its own identity, credentials, and catalog.
#[derive(Debug, Clone, Copy, PartialEq, Eq, Structural)]
pub enum ServiceId {
    /// DeepSeek's OpenAI-compatible API.
    DeepSeek,
    /// OpenCode Zen.
    OpenCode,
    /// OpenCode Go.
    OpenCodeGo,
}

/// The stable name of a service.
pub open spec fn service_name(service: ServiceId) -> Seq<char> {
    match service {
        ServiceId::DeepSeek => "deepseek"@,
        ServiceId::OpenCode => "opencode"@,
        ServiceId::OpenCodeGo => "opencode-go"@,
    }
}

impl ServiceId {
    /// Stable identity used in configuration and model names.
    pub fn name(self) -> (name: &'static str)
        ensures
            name@ == service_name(self),
    {
        match self {
            ServiceId::DeepSeek => "deepseek",
            ServiceId::OpenCode => "opencode",
            ServiceId::OpenCodeGo => "opencode-go",
        }
    }

    /// Every implemented service, in display order.
    pub fn all() -> (services: [ServiceId; 3])
        ensures
            services@ == seq![ServiceId::DeepSeek, ServiceId::OpenCode, ServiceId::OpenCodeGo],
    {
        [ServiceId::DeepSeek, ServiceId::OpenCode, ServiceId::OpenCodeGo]
    }

    /// Parse a service identity; unknown names are rejected.
    pub fn parse(name: &str) -> (service: Option<ServiceId>)
        ensures
            match service {
                Some(s) => service_name(s) == name@,
                None => forall|s: ServiceId| service_name(s) != name@,
            },
    {
        proof {
            reveal_strlit("deepseek");
            reveal_strlit("opencode");
            reveal_strlit("opencode-go");
        }
        let all = ServiceId::all();
        let mut i: usize = 0;
        while i < 3
            invariant
                i <= 3,
                all@ == seq![ServiceId::DeepSeek, ServiceId::OpenCode, ServiceId::OpenCodeGo],
                forall|k: int| 0 <= k < i ==> service_name(#[trigger] all@[k]) != name@,
            decreases 3 - i,
        {
            if str_eq(all[i].name(), name) {
                return Some(all[i]);
            }
            i = i + 1;
        }
        proof {
            assert forall|s: ServiceId| service_name(s) != name@ by {
                match s {
                    ServiceId::DeepSeek => assert(service_name(all@[0]) != name@),
                    ServiceId::OpenCode => assert(service_name(all@[1]) != name@),
                    ServiceId::OpenCodeGo => assert(service_name(all@[2]) != name@),
                }
            }
        }
        None
    }

    /// Environment variable holding this service's key.
    pub fn credential_variable(self) -> (name: &'static str)
        ensures
            name@ == (match self {
                ServiceId::DeepSeek => "DEEPSEEK_API_KEY"@,
                _ => "OPENCODE_API_KEY"@,
            }),
    {
        match self {
            ServiceId::DeepSeek => DEEPSEEK_API_KEY,
            ServiceId::OpenCode | ServiceId::OpenCodeGo => OPENCODE_API_KEY,
        }
    }

    /// Documented catalog endpoint, used once a transport exists.
    pub fn catalog_endpoint(self) -> (url: &'static str)
        ensures
            url@ == (match self {
                ServiceId::DeepSeek => "https://api.deepseek.com/models"@,
                ServiceId::OpenCode => "https://opencode.ai/zen/v1/models"@,
                ServiceId::OpenCodeGo => "https://opencode.ai/zen/go/v1/models"@,
            }),
    {
        match self {
            ServiceId::DeepSeek => "https://api.deepseek.com/models",
            ServiceId::OpenCode => "https://opencode.ai/zen/v1/models",
            ServiceId::OpenCodeGo => "https://opencode.ai/zen/go/v1/models",
        }
    }
}

/// Variants a service advertises before adapters and catalogs provide their own.
///
/// Provisional until real adapters report capabilities; catalog metadata will
/// replace this once a transport exists.
pub fn declared_variants(service: ServiceId) -> (variants: Vec<&'static str>)
    ensures
        variants@.len() == (if service == ServiceId::OpenCodeGo {
            1int
        } else {
            0
        }),
        service == ServiceId::OpenCodeGo ==> variants@[0]@ == "high"@,
{
    match service {
        ServiceId::OpenCodeGo => vec!["high"],
        ServiceId::DeepSeek | ServiceId::OpenCode => Vec::new(),
    }
}

/// One catalog model and its advertised metadata.
#[derive(Debug, Clone)]
pub struct CatalogEntry {
    /// Model identity within the service.
    pub id: String,
    /// Owning service.
    pub service: ServiceId,
    /// Human-readable name; defaults to the id.
    pub display_name: String,
    /// Advertised context window, when present.
    pub context_length: Option<u64>,
    /// Advertised tool support; absent means unknown.
    pub supports_tools: Option<bool>,
    /// Advertised structured-output support; absent means unknown.
    pub supports_structured_output: Option<bool>,
    /// Advertised effort variants.
    pub variants: Vec<String>,
    /// Where the entry was read from.
    pub source: String,
    /// Unix seconds when the entry was fetched.
    pub fetched_at: u64,
}

/// The content of a catalog entry.
pub struct EntryModel {
    /// Model identity.
    pub id: Seq<char>,
    /// Owning service.
    pub service: ServiceId,
    /// Display name.
    pub display_name: Seq<char>,
    /// Context window.
    pub context_length: Option<int>,
    /// Tool support.
    pub supports_tools: Option<bool>,
    /// Structured-output support.
    pub supports_structured_output: Option<bool>,
    /// Effort variants.
    pub variants: Seq<Seq<char>>,
    /// Where the entry was read from.
    pub source: Seq<char>,
    /// Fetch time.
    pub fetched_at: int,
}

/// The texts of a list of strings.
pub open spec fn string_texts(items: Seq<String>) -> Seq<Seq<char>> {
    Seq::new(items.len(), |k: int| items[k]@)
}

impl View for CatalogEntry {
    type V = EntryModel;

    open spec fn view(&self) -> EntryModel {
        EntryModel {
            id: self.id@,
            service: self.service,
            display_name: self.display_name@,
            context_length: match self.context_length {
                Some(n) => Some(n as int),
                None => None,
            },
            supports_tools: self.supports_tools,
            supports_structured_output: self.supports_structured_output,
            variants: string_texts(self.variants@),
            source: self.source@,
            fetched_at: self.fetched_at as int,
        }
    }
}

/// The views of a list of entries.
pub open spec fn entry_views(entries: Seq<CatalogEntry>) -> Seq<EntryModel> {
    Seq::new(entries.len(), |k: int| entries[k]@)
}

/// A non-empty string of at most [`MAX_LABEL_BYTES`] bytes.
pub open spec fn label(value: Option<Json>) -> Option<Seq<char>> {
    match value {
        Some(Json::Str(t)) => if t.len() > 0 && byte_len(t) <= MAX_LABEL_BYTES {
            Some(t)
        } else {
            None
        },
        _ => None,
    }
}

/// The first of two fields that is present.
pub open spec fn either(fields: Seq<(Seq<char>, Json)>, a: Seq<char>, b: Seq<char>) -> Option<Json> {
    match lookup(fields, a) {
        Some(v) => Some(v),
        None => lookup(fields, b),
    }
}

/// An optional boolean field; `None` when it has another type.
pub open spec fn optional_bool(value: Option<Json>) -> Option<Option<bool>> {
    match value {
        Some(Json::Bool(b)) => Some(Some(b)),
        Some(_) => None,
        None => Some(None),
    }
}

/// The advertised context window; `None` when it is not a nonnegative integer.
pub open spec fn context_of(fields: Seq<(Seq<char>, Json)>) -> Option<Option<int>> {
    match either(fields, "context_length"@, "context_window"@) {
        Some(Json::Integer(n)) => if n >= 0 {
            Some(Some(n))
        } else {
            None
        },
        Some(_) => None,
        None => Some(None),
    }
}

/// The advertised capabilities; `None` when they are malformed.
pub open spec fn capabilities_of(fields: Seq<(Seq<char>, Json)>) -> Option<(Option<bool>, Option<bool>)> {
    match lookup(fields, "capabilities"@) {
        Some(Json::Object(caps)) => match (
            optional_bool(lookup(caps, "tools"@)),
            optional_bool(lookup(caps, "structured_output"@)),
        ) {
            (Some(t), Some(s)) => Some((t, s)),
            _ => None,
        },
        Some(_) => None,
        None => Some((None, None)),
    }
}

/// The labels of a list of values.
pub open spec fn labels(values: Seq<Json>) -> Seq<Seq<char>> {
    Seq::new(values.len(), |k: int| label(Some(values[k]))->0)
}

/// The advertised variants; `None` when they are malformed, too many, or repeated.
pub open spec fn variants_of(fields: Seq<(Seq<char>, Json)>) -> Option<Seq<Seq<char>>> {
    variants_result(lookup(fields, "variants"@))
}

/// The entry one catalog item describes, or `None` when it is malformed.
pub open spec fn entry_of(service: ServiceId, item: Json, fetched_at: int, source: Seq<char>) -> Option<
    EntryModel,
> {
    match item {
        Json::Object(fields) => {
            let id = label(lookup(fields, "id"@));
            let name = match either(fields, "name"@, "display_name"@) {
                Some(v) => label(Some(v)),
                None => id,
            };
            match (id, name, context_of(fields), capabilities_of(fields), variants_of(fields)) {
                (Some(id), Some(name), Some(context), Some(caps), Some(variants)) => Some(
                    EntryModel {
                        id,
                        service,
                        display_name: name,
                        context_length: context,
                        supports_tools: caps.0,
                        supports_structured_output: caps.1,
                        variants,
                        source,
                        fetched_at,
                    },
                ),
                _ => None,
            }
        },
        _ => None,
    }
}

/// The items of a catalog document's `data` array.
pub open spec fn catalog_items(document: Json) -> Option<Seq<Json>> {
    match document {
        Json::Object(root) => match lookup(root, "data"@) {
            Some(Json::Array(items)) => Some(items),
            _ => None,
        },
        _ => None,
    }
}

/// The entries of a catalog document, or `None` when it is rejected.
pub open spec fn catalog_of(
    service: ServiceId,
    document: Json,
    fetched_at: int,
    source: Seq<char>,
) -> Option<Seq<EntryModel>> {
    match catalog_items(document) {
        Some(items) => {
            let entries = Seq::new(
                items.len(),
                |k: int| entry_of(service, items[k], fetched_at, source)->0,
            );
            if items.len() <= MAX_CATALOG_ENTRIES && (forall|k: int|
                0 <= k < items.len() ==> #[trigger] entry_of(service, items[k], fetched_at, source)
                    is Some) && Seq::new(entries.len(), |k: int| entries[k].id).no_duplicates() {
                Some(entries)
            } else {
                None
            }
        },
        None => None,
    }
}

fn catalog_error(detail: &str) -> (error: KoruError)
    ensures
        error.spec_code() == ErrorCode::Validation,
{
    let mut message = String::new();
    crate::text::push_str(&mut message, "invalid catalog: ");
    crate::text::push_str(&mut message, detail);
    KoruError::new(ErrorCode::Validation, message.as_str())
}

fn label_exec(value: Option<&JsonValue>) -> (result: Result<String, KoruError>)
    ensures
        match label(
            match value {
                Some(v) => Some(v.model()),
                None => None,
            },
        ) {
            Some(t) => result matches Ok(s) && s@ == t,
            None => result matches Err(e) && e.spec_code() == ErrorCode::Validation,
        },
{
    match value {
        Some(JsonValue::String(text)) => {
            if text.as_str().is_empty() || !fits_bytes(text.as_str(), MAX_LABEL_BYTES) {
                return Err(catalog_error("a label must be 1..=256 bytes"));
            }
            Ok(text.clone())
        },
        Some(_) => Err(catalog_error("a label must be a string")),
        None => Err(catalog_error("a catalog model is missing a label")),
    }
}

fn optional_bool_exec(value: Option<&JsonValue>) -> (result: Result<Option<bool>, KoruError>)
    ensures
        match optional_bool(
            match value {
                Some(v) => Some(v.model()),
                None => None,
            },
        ) {
            Some(b) => result == Ok::<Option<bool>, KoruError>(b),
            None => result matches Err(e) && e.spec_code() == ErrorCode::Validation,
        },
{
    match value {
        Some(JsonValue::Bool(flag)) => Ok(Some(*flag)),
        Some(_) => Err(catalog_error("a capability must be a boolean")),
        None => Ok(None),
    }
}

/// The model of an optional borrowed value.
pub open spec fn opt_model(value: Option<&JsonValue>) -> Option<Json> {
    match value {
        Some(v) => Some(v.model()),
        None => None,
    }
}

fn either_exec<'a>(value: &'a JsonValue, a: &str, b: &str) -> (found: Option<&'a JsonValue>)
    requires
        value is Object,
    ensures
        opt_model(found) == either(value.model()->Object_0, a@, b@),
{
    proof {
        crate::json::parse::lemma_object_model(value->Object_0);
    }
    match field_of(value, a) {
        Some(v) => Some(v),
        None => field_of(value, b),
    }
}

fn parse_entry(service: ServiceId, item: &JsonValue, fetched_at: u64, source: &str) -> (result:
    Result<CatalogEntry, KoruError>)
    ensures
        match entry_of(service, item.model(), fetched_at as int, source@) {
            Some(e) => result matches Ok(x) && x@ == e,
            None => result matches Err(err) && err.spec_code() == ErrorCode::Validation,
        },
{
    proof {
        reveal_strlit("id");
        reveal_strlit("name");
        reveal_strlit("display_name");
        reveal_strlit("context_length");
        reveal_strlit("context_window");
        reveal_strlit("capabilities");
        reveal_strlit("tools");
        reveal_strlit("structured_output");
        reveal_strlit("variants");
    }
    if !matches!(item, JsonValue::Object(_)) {
        return Err(catalog_error("each catalog model must be an object"));
    }
    let ghost fields = item.model()->Object_0;
    proof {
        crate::json::parse::lemma_object_model(item->Object_0);
    }
    let id = match label_exec(field_of(item, "id")) {
        Ok(id) => id,
        Err(error) => {
            return Err(error);
        },
    };
    let display_name = match either_exec(item, "name", "display_name") {
        Some(value) => match label_exec(Some(value)) {
            Ok(name) => name,
            Err(error) => {
                return Err(error);
            },
        },
        None => id.clone(),
    };
    let context_length = match either_exec(item, "context_length", "context_window") {
        Some(JsonValue::Integer(value)) => {
            if *value >= 0 {
                Some(*value as u64)
            } else {
                return Err(catalog_error("`context_length` must be a nonnegative integer"));
            }
        },
        Some(_) => {
            return Err(catalog_error("`context_length` must be a nonnegative integer"));
        },
        None => None,
    };
    let (supports_tools, supports_structured_output) = match field_of(item, "capabilities") {
        Some(capabilities) => {
            if !matches!(capabilities, JsonValue::Object(_)) {
                return Err(catalog_error("`capabilities` must be an object"));
            }
            proof {
                crate::json::parse::lemma_object_model(capabilities->Object_0);
            }
            let tools = match optional_bool_exec(field_of(capabilities, "tools")) {
                Ok(flag) => flag,
                Err(error) => {
                    return Err(error);
                },
            };
            let structured = match optional_bool_exec(field_of(capabilities, "structured_output")) {
                Ok(flag) => flag,
                Err(error) => {
                    return Err(error);
                },
            };
            (tools, structured)
        },
        None => (None, None),
    };
    let variants = match parse_variants(field_of(item, "variants")) {
        Ok(variants) => variants,
        Err(error) => {
            return Err(error);
        },
    };
    Ok(
        CatalogEntry {
            id,
            service,
            display_name,
            context_length,
            supports_tools,
            supports_structured_output,
            variants,
            source: source.to_owned(),
            fetched_at,
        },
    )
}

fn parse_variants(value: Option<&JsonValue>) -> (result: Result<Vec<String>, KoruError>)
    ensures
        match variants_result(opt_model(value)) {
            Some(v) => result matches Ok(x) && string_texts(x@) == v,
            None => result matches Err(e) && e.spec_code() == ErrorCode::Validation,
        },
{
    match value {
        None => {
            let out: Vec<String> = Vec::new();
            assert(string_texts(out@) =~= Seq::<Seq<char>>::empty());
            Ok(out)
        },
        Some(JsonValue::Array(values)) => {
            let ghost vm = models(values@);
            proof {
                crate::json::parse::lemma_array_model(*values);
            }
            if values.len() > MAX_VARIANTS {
                return Err(catalog_error("a model may declare at most 16 variants"));
            }
            let mut out: Vec<String> = Vec::new();
            let mut i: usize = 0;
            while i < values.len()
                invariant
                    i <= values@.len(),
                    vm == models(values@),
                    opt_model(value) == Some(Json::Array(vm)),
                    out@.len() == i,
                    values@.len() <= MAX_VARIANTS,
                    forall|k: int| 0 <= k < i ==> #[trigger] label(Some(vm[k])) is Some,
                    string_texts(out@) == labels(vm).subrange(0, i as int),
                    string_texts(out@).no_duplicates(),
                decreases values@.len() - i,
            {
                assert(vm[i as int] == values@[i as int].model());
                let name = match label_exec(Some(&values[i])) {
                    Ok(name) => name,
                    Err(error) => {
                        assert(!(label(Some(vm[i as int])) is Some));
                        return Err(error);
                    },
                };
                let mut j: usize = 0;
                while j < out.len()
                    invariant
                        j <= out@.len(),
                        i < vm.len(),
                        vm == models(values@),
                        opt_model(value) == Some(Json::Array(vm)),
                        out@.len() == i,
                        values@.len() <= MAX_VARIANTS,
                        string_texts(out@) == labels(vm).subrange(0, i as int),
                        name@ == labels(vm)[i as int],
                        forall|k: int| 0 <= k < j ==> string_texts(out@)[k] != name@,
                    decreases out@.len() - j,
                {
                    if str_eq(out[j].as_str(), name.as_str()) {
                        proof {
                            let l = labels(vm);
                            assert(out@.len() == i);
                            assert(labels(vm).subrange(0, i as int)[j as int] == l[j as int]);
                            assert(l[j as int] == string_texts(out@)[j as int]);
                            assert(l[i as int] == name@);
                            assert(!l.no_duplicates());
                        }
                        return Err(catalog_error("duplicate variant"));
                    }
                    j = j + 1;
                }
                let ghost before = out@;
                out.push(name);
                proof {
                    assert(string_texts(out@) =~= string_texts(before).push(labels(vm)[i as int]));
                    assert(labels(vm).subrange(0, i + 1) =~= labels(vm).subrange(0, i as int).push(
                        labels(vm)[i as int],
                    ));
                }
                i = i + 1;
            }
            assert(labels(vm).subrange(0, vm.len() as int) =~= labels(vm));
            Ok(out)
        },
        Some(_) => Err(catalog_error("`variants` must be an array")),
    }
}

/// The variants of an optional `variants` field.
pub open spec fn variants_result(value: Option<Json>) -> Option<Seq<Seq<char>>> {
    match value {
        Some(Json::Array(values)) => if values.len() <= MAX_VARIANTS && (forall|k: int|
            0 <= k < values.len() ==> #[trigger] label(Some(values[k])) is Some) && labels(
            values,
        ).no_duplicates() {
            Some(labels(values))
        } else {
            None
        },
        Some(_) => None,
        None => Some(Seq::empty()),
    }
}


/// Parse one service document into bounded entries.
pub fn parse_service_catalog(
    service: ServiceId,
    document: &JsonValue,
    fetched_at: u64,
    source: &str,
) -> (result: Result<Vec<CatalogEntry>, KoruError>)
    ensures
        match catalog_of(service, document.model(), fetched_at as int, source@) {
            Some(entries) => result matches Ok(x) && entry_views(x@) == entries,
            None => result matches Err(e) && e.spec_code() == ErrorCode::Validation,
        },
{
    proof {
        reveal_strlit("data");
    }
    if !matches!(document, JsonValue::Object(_)) {
        return Err(catalog_error("a catalog must be a JSON object"));
    }
    proof {
        crate::json::parse::lemma_object_model(document->Object_0);
    }
    let items = match field_of(document, "data") {
        Some(JsonValue::Array(items)) => items,
        Some(_) => {
            return Err(catalog_error("`data` must be an array"));
        },
        None => {
            return Err(catalog_error("a catalog needs a `data` array"));
        },
    };
    let ghost im = models(items@);
    let ghost spec_entries = Seq::new(
        im.len(),
        |k: int| entry_of(service, im[k], fetched_at as int, source@)->0,
    );
    proof {
        crate::json::parse::lemma_array_model(*items);
        assert(catalog_items(document.model()) == Some(im));
    }
    if items.len() > MAX_CATALOG_ENTRIES {
        return Err(catalog_error("a catalog may hold at most 1000 models"));
    }
    let mut entries: Vec<CatalogEntry> = Vec::new();
    let mut i: usize = 0;
    while i < items.len()
        invariant
            i <= items@.len(),
            im == models(items@),
            catalog_items(document.model()) == Some(im),
            items@.len() <= MAX_CATALOG_ENTRIES,
            spec_entries == Seq::new(
                im.len(),
                |k: int| entry_of(service, im[k], fetched_at as int, source@)->0,
            ),
            forall|k: int|
                0 <= k < i ==> #[trigger] entry_of(service, im[k], fetched_at as int, source@) is Some,
            entries@.len() == i,
            entry_views(entries@) == spec_entries.subrange(0, i as int),
            Seq::new(i as nat, |k: int| spec_entries[k].id).no_duplicates(),
        decreases items@.len() - i,
    {
        assert(im[i as int] == items@[i as int].model());
        let entry = match parse_entry(service, &items[i], fetched_at, source) {
            Ok(entry) => entry,
            Err(error) => {
                return Err(error);
            },
        };
        let mut j: usize = 0;
        while j < entries.len()
            invariant
                j <= entries@.len(),
                entries@.len() == i,
                i < im.len(),
                spec_entries.len() == im.len(),
                catalog_items(document.model()) == Some(im),
                spec_entries == Seq::new(
                    im.len(),
                    |k: int| entry_of(service, im[k], fetched_at as int, source@)->0,
                ),
                entry_views(entries@) == spec_entries.subrange(0, i as int),
                entry@ == spec_entries[i as int],
                forall|k: int| 0 <= k < j ==> spec_entries[k].id != entry.id@,
            decreases entries@.len() - j,
        {
            assert(entry_views(entries@)[j as int] == entries@[j as int]@);
            if str_eq(entries[j].id.as_str(), entry.id.as_str()) {
                proof {
                    let ids = Seq::new(spec_entries.len(), |k: int| spec_entries[k].id);
                    assert(spec_entries.subrange(0, i as int)[j as int] == spec_entries[j as int]);
                    assert(ids[j as int] == ids[i as int]);
                    assert(!ids.no_duplicates());
                }
                return Err(catalog_error("duplicate model id"));
            }
            j = j + 1;
        }
        let ghost before = entries@;
        entries.push(entry);
        proof {
            assert(entry_views(entries@) =~= spec_entries.subrange(0, i + 1));
            let ids = Seq::new((i + 1) as nat, |k: int| spec_entries[k].id);
            let prev = Seq::new(i as nat, |k: int| spec_entries[k].id);
            assert forall|a: int, b: int| 0 <= a < ids.len() && 0 <= b < ids.len() && a != b implies ids[a] != ids[b] by {
                if a < i && b < i {
                    assert(prev[a] == ids[a] && prev[b] == ids[b]);
                }
            }
        }
        i = i + 1;
    }
    proof {
        assert(spec_entries.subrange(0, i as int) =~= spec_entries);
        assert(Seq::new(i as nat, |k: int| spec_entries[k].id) =~= Seq::new(
            spec_entries.len(),
            |k: int| spec_entries[k].id,
        ));
    }
    Ok(entries)
}

/// A source of bounded catalog documents.
pub trait CatalogSource {
    /// Fetch the raw document for one service.
    fn fetch(&self, service: ServiceId) -> Result<JsonValue, KoruError>;
}

/// The production source used until a real transport is implemented.
#[derive(Debug, Default, Clone, Copy)]
pub struct UnavailableCatalogSource;

impl UnavailableCatalogSource {
    /// The refusal every fetch returns.
    pub fn refusal(&self, service: ServiceId) -> (result: Result<JsonValue, KoruError>)
        ensures
            result matches Err(e) && e.spec_code() == ErrorCode::UnsupportedCapability,
    {
        let mut message = String::new();
        crate::text::push_str(&mut message, "no transport is implemented for ");
        crate::text::push_str(&mut message, service.name());
        crate::text::push_str(&mut message, "; metadata endpoint ");
        crate::text::push_str(&mut message, service.catalog_endpoint());
        crate::text::push_str(&mut message, " is not queried");
        Err(KoruError::new(ErrorCode::UnsupportedCapability, message.as_str()))
    }
}

impl CatalogSource for UnavailableCatalogSource {
    fn fetch(&self, service: ServiceId) -> (result: Result<JsonValue, KoruError>)
        ensures
            result matches Err(e) && e.spec_code() == ErrorCode::UnsupportedCapability,
    {
        self.refusal(service)
    }
}

/// Parsed catalogs for the implemented services.
#[derive(Debug, Clone)]
pub struct Catalog {
    deepseek: Vec<CatalogEntry>,
    opencode: Vec<CatalogEntry>,
    opencode_go: Vec<CatalogEntry>,
}

impl Default for Catalog {
    fn default() -> (catalog: Self)
        ensures
            forall|s: ServiceId| (#[trigger] catalog.spec_entries(s)).len() == 0,
    {
        Catalog { deepseek: Vec::new(), opencode: Vec::new(), opencode_go: Vec::new() }
    }
}

impl Catalog {
    /// The entries held for one service.
    pub closed spec fn spec_entries(&self, service: ServiceId) -> Seq<EntryModel> {
        match service {
            ServiceId::DeepSeek => entry_views(self.deepseek@),
            ServiceId::OpenCode => entry_views(self.opencode@),
            ServiceId::OpenCodeGo => entry_views(self.opencode_go@),
        }
    }

    /// Entries for one service, or an empty slice.
    pub fn entries(&self, service: ServiceId) -> (entries: &[CatalogEntry])
        ensures
            entry_views(entries@) == self.spec_entries(service),
    {
        match service {
            ServiceId::DeepSeek => self.deepseek.as_slice(),
            ServiceId::OpenCode => self.opencode.as_slice(),
            ServiceId::OpenCodeGo => self.opencode_go.as_slice(),
        }
    }

    /// Look up one model by id: the first entry of the service with that id.
    pub fn model(&self, service: ServiceId, id: &str) -> (found: Option<&CatalogEntry>)
        ensures
            match found {
                Some(e) => exists|k: int|
                    0 <= k < self.spec_entries(service).len() && self.spec_entries(service)[k]
                        == e@ && e@.id == id@ && (forall|j: int|
                        0 <= j < k ==> (#[trigger] self.spec_entries(service)[j]).id != id@),
                None => forall|k: int|
                    0 <= k < self.spec_entries(service).len() ==> (
                    #[trigger] self.spec_entries(service)[k]).id != id@,
            },
    {
        let entries = self.entries(service);
        let mut i: usize = 0;
        while i < entries.len()
            invariant
                i <= entries@.len(),
                entry_views(entries@) == self.spec_entries(service),
                forall|j: int| 0 <= j < i ==> (#[trigger] self.spec_entries(service)[j]).id != id@,
            decreases entries@.len() - i,
        {
            assert(self.spec_entries(service)[i as int] == entries@[i as int]@);
            if str_eq(entries[i].id.as_str(), id) {
                return Some(&entries[i]);
            }
            i = i + 1;
        }
        None
    }

    /// Replace only one service's entries.
    pub fn replace_service(&mut self, service: ServiceId, entries: Vec<CatalogEntry>)
        ensures
            final(self).spec_entries(service) == entry_views(entries@),
            forall|other: ServiceId|
                other != service ==> final(self).spec_entries(other) == old(self).spec_entries(
                    other,
                ),
    {
        match service {
            ServiceId::DeepSeek => {
                self.deepseek = entries;
            },
            ServiceId::OpenCode => {
                self.opencode = entries;
            },
            ServiceId::OpenCodeGo => {
                self.opencode_go = entries;
            },
        }
    }

    /// Apply a fetched document: parse it and replace one service; failure leaves
    /// every entry intact.
    pub fn apply_fetch(
        &mut self,
        service: ServiceId,
        fetched: Result<JsonValue, KoruError>,
        fetched_at: u64,
    ) -> (result: Result<(), KoruError>)
        ensures
            match fetched {
                Err(e) => result == Err::<(), KoruError>(e) && *final(self) == *old(self),
                Ok(document) => match catalog_of(
                    service,
                    document.model(),
                    fetched_at as int,
                    endpoint_text(service),
                ) {
                    Some(entries) => result is Ok && final(self).spec_entries(service) == entries
                        && forall|other: ServiceId|
                        other != service ==> final(self).spec_entries(other) == old(
                            self,
                        ).spec_entries(other),
                    None => result matches Err(e) && e.spec_code() == ErrorCode::Validation
                        && *final(self) == *old(self),
                },
            },
    {
        let document = match fetched {
            Ok(document) => document,
            Err(error) => {
                return Err(error);
            },
        };
        let entries = match parse_service_catalog(
            service,
            &document,
            fetched_at,
            service.catalog_endpoint(),
        ) {
            Ok(entries) => entries,
            Err(error) => {
                return Err(error);
            },
        };
        self.replace_service(service, entries);
        Ok(())
    }

    /// Fetch, parse, and replace one service; failure leaves prior entries intact.
    pub fn refresh(&mut self, service: ServiceId, source: &dyn CatalogSource, fetched_at: u64) -> (result:
        Result<(), KoruError>)
        ensures
            result is Err ==> *final(self) == *old(self),
            result is Ok ==> exists|document: Json|
                catalog_of(service, document, fetched_at as int, endpoint_text(service)) == Some(
                    final(self).spec_entries(service),
                ),
            forall|other: ServiceId|
                other != service ==> final(self).spec_entries(other) == old(self).spec_entries(
                    other,
                ),
    {
        let fetched = source.fetch(service);
        let ghost document = match &fetched {
            Ok(d) => d.model(),
            Err(_) => Json::Null,
        };
        let result = self.apply_fetch(service, fetched, fetched_at);
        proof {
            if result is Ok {
                assert(catalog_of(service, document, fetched_at as int, endpoint_text(service))
                    == Some(self.spec_entries(service)));
            }
        }
        result
    }
}

/// The documented endpoint of a service.
pub open spec fn endpoint_text(service: ServiceId) -> Seq<char> {
    match service {
        ServiceId::DeepSeek => "https://api.deepseek.com/models"@,
        ServiceId::OpenCode => "https://opencode.ai/zen/v1/models"@,
        ServiceId::OpenCodeGo => "https://opencode.ai/zen/go/v1/models"@,
    }
}


} // verus!

verus! {

/// Each entry of an accepted catalog is read from the item at its place in
/// the document's `data` array: its id is the item's `id`; its display name
/// is `name`, else `display_name`, else the id; its context window is
/// `context_length`, else `context_window`, else unknown; its capabilities
/// are the booleans under `capabilities`, unknown where absent; its variants
/// are the strings of `variants`, in order, none where absent; no other entry
/// has its id; and it carries the service, fetch time and source it was
/// parsed with.
pub proof fn catalog_entries_read_their_items(
    service: ServiceId,
    document: Json,
    fetched_at: int,
    source: Seq<char>,
    k: int,
)
    requires
        catalog_of(service, document, fetched_at, source) is Some,
        catalog_items(document) matches Some(items) && 0 <= k < items.len(),
    ensures
        ({
            let items = catalog_items(document)->0;
            let entries = catalog_of(service, document, fetched_at, source)->0;
            let e = entries[k];
            let fields = items[k]->Object_0;
            &&& entries.len() == items.len()
            &&& items[k] is Object
            &&& e.service == service && e.fetched_at == fetched_at && e.source == source
            &&& lookup(fields, "id"@) == Some(Json::Str(e.id))
            &&& forall|j: int| 0 <= j < entries.len() && j != k ==> (#[trigger] entries[j]).id != e.id
            &&& (lookup(fields, "variants"@) is None ==> e.variants.len() == 0)
            &&& (lookup(fields, "variants"@) matches Some(Json::Array(values)) ==> {
                &&& values.len() == e.variants.len()
                &&& forall|j: int| 0 <= j < values.len() ==> #[trigger] values[j] == Json::Str(
                    e.variants[j],
                )
            })
            &&& (lookup(fields, "name"@) is Some ==> lookup(fields, "name"@) == Some(
                Json::Str(e.display_name),
            ))
            &&& (lookup(fields, "name"@) is None && lookup(fields, "display_name"@) is Some
                ==> lookup(fields, "display_name"@) == Some(Json::Str(e.display_name)))
            &&& (lookup(fields, "name"@) is None && lookup(fields, "display_name"@) is None
                ==> e.display_name == e.id)
            &&& (lookup(fields, "context_length"@) is Some ==> e.context_length is Some
                && e.context_length->0 >= 0 && lookup(fields, "context_length"@) == Some(
                Json::Integer(e.context_length->0),
            ))
            &&& (lookup(fields, "context_length"@) is None && lookup(fields, "context_window"@)
                is Some ==> e.context_length is Some && e.context_length->0 >= 0 && lookup(
                fields,
                "context_window"@,
            ) == Some(Json::Integer(e.context_length->0)))
            &&& (lookup(fields, "context_length"@) is None && lookup(fields, "context_window"@)
                is None ==> e.context_length is None)
            &&& (lookup(fields, "capabilities"@) is None ==> e.supports_tools is None
                && e.supports_structured_output is None)
            &&& (lookup(fields, "capabilities"@) matches Some(Json::Object(caps)) ==> {
                &&& (lookup(caps, "tools"@) is None ==> e.supports_tools is None)
                &&& (lookup(caps, "tools"@) is Some ==> e.supports_tools is Some && lookup(
                    caps,
                    "tools"@,
                ) == Some(Json::Bool(e.supports_tools->0)))
                &&& (lookup(caps, "structured_output"@) is None
                    ==> e.supports_structured_output is None)
                &&& (lookup(caps, "structured_output"@) is Some
                    ==> e.supports_structured_output is Some && lookup(
                    caps,
                    "structured_output"@,
                ) == Some(Json::Bool(e.supports_structured_output->0)))
            })
        }),
{
    let items = catalog_items(document)->0;
    let entries = catalog_of(service, document, fetched_at, source)->0;
    assert(entry_of(service, items[k], fetched_at, source) is Some);
    let ids = Seq::new(entries.len(), |j: int| entries[j].id);
    assert(ids.no_duplicates());
    assert forall|j: int| 0 <= j < entries.len() && j != k implies (#[trigger] entries[j]).id
        != entries[k].id by {
        assert(ids[j] == entries[j].id && ids[k] == entries[k].id);
    }
    let fields = items[k]->Object_0;
    if let Some(Json::Array(values)) = lookup(fields, "variants"@) {
        assert(variants_of(fields) == Some(labels(values)));
        assert forall|j: int| 0 <= j < values.len() implies #[trigger] values[j] == Json::Str(
            entries[k].variants[j],
        ) by {
            assert(label(Some(values[j])) is Some);
        }
    }
}

} // verus!
