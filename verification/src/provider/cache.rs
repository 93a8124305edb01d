//! Versioned, per-service catalog cache under the XDG cache directory.
//!
//! The cache is disposable: an unreadable, malformed, or unsupported cache file
//! is ignored and refetched, never fatal. Reading and atomically writing the file
//! belong to the application; the documents and their checks live here.
use super::catalog::{
    catalog_of, entry_views, parse_service_catalog, service_name, CatalogEntry, EntryModel,
    ServiceId,
};
use crate::error::{ErrorCode, KoruError};
use crate::json::{field_of, lookup, parse::spec_parse, Json, JsonLimits, JsonValue, default_limits};
use crate::paths::{ascii_bytes, join, join_name};
use crate::text::str_eq;
use vstd::prelude::*;

verus! {

broadcast use vstd::string::group_string_axioms;

/// Cache document schema version.
pub const CACHE_SCHEMA_VERSION: u32 = 1;

/// A loaded cache document.
#[derive(Debug, Clone)]
pub struct CachedCatalog {
    /// Parsed entries.
    pub entries: Vec<CatalogEntry>,
    /// Unix seconds when the entries were fetched.
    pub fetched_at: u64,
}

/// The per-service catalog cache.
#[derive(Debug, Clone)]
pub struct CatalogCache {
    dir: Vec<u8>,
}

/// The cached entries and fetch time a cache document holds, or `None` when it
/// is rejected.
pub open spec fn decode_of(service: ServiceId, document: Json) -> Option<(Seq<EntryModel>, int)> {
    match document {
        Json::Object(root) => {
            let version_ok = lookup(root, "schema_version"@) == Some(Json::Integer(1));
            match (lookup(root, "fetched_at"@), lookup(root, "document"@)) {
                (Some(Json::Integer(at)), Some(payload)) => if version_ok && at >= 0 {
                    match catalog_of(service, payload, at, "cache"@) {
                        Some(entries) => Some((entries, at)),
                        None => None,
                    }
                } else {
                    None
                },
                _ => None,
            }
        },
        _ => None,
    }
}

/// The file name of a service's cache.
pub open spec fn cache_file_name(service: ServiceId) -> Seq<char> {
    service_name(service) + ".json"@
}

fn cache_error(detail: &str) -> (error: KoruError)
    ensures
        error.spec_code() == ErrorCode::Validation,
{
    let mut message = String::new();
    crate::text::push_str(&mut message, "invalid catalog cache: ");
    crate::text::push_str(&mut message, detail);
    KoruError::new(ErrorCode::Validation, message.as_str())
}

impl CatalogCache {
    /// The cache directory.
    pub closed spec fn spec_dir(&self) -> Seq<u8> {
        self.dir@
    }

    /// Root the cache under the given cache directory.
    pub fn new(cache_root: &Vec<u8>) -> (cache: Self)
        ensures
            cache.spec_dir() == join(cache_root@, "catalog"@),
    {
        proof {
            reveal_strlit("catalog");
        }
        CatalogCache { dir: join_name(cache_root, "catalog") }
    }

    /// The cache file for one service.
    pub fn path(&self, service: ServiceId) -> (path: Vec<u8>)
        ensures
            path@ == join(self.spec_dir(), cache_file_name(service)),
    {
        let name = match service {
            ServiceId::DeepSeek => "deepseek.json",
            ServiceId::OpenCode => "opencode.json",
            ServiceId::OpenCodeGo => "opencode-go.json",
        };
        proof {
            reveal_strlit("deepseek.json");
            reveal_strlit("opencode.json");
            reveal_strlit("opencode-go.json");
            reveal_strlit("deepseek");
            reveal_strlit("opencode");
            reveal_strlit("opencode-go");
            reveal_strlit(".json");
            assert(name@ =~= cache_file_name(service));
        }
        join_name(&self.dir, name)
    }

    /// Decode a cache document.
    pub fn decode(service: ServiceId, document: &JsonValue) -> (result: Result<
        CachedCatalog,
        KoruError,
    >)
        ensures
            match decode_of(service, document.model()) {
                Some((entries, at)) => result matches Ok(c) && entry_views(c.entries@) == entries
                    && c.fetched_at == at,
                None => result matches Err(e) && e.spec_code() == ErrorCode::Validation,
            },
    {
        proof {
            reveal_strlit("schema_version");
            reveal_strlit("fetched_at");
            reveal_strlit("document");
            reveal_strlit("cache");
        }
        if !matches!(document, JsonValue::Object(_)) {
            return Err(cache_error("cache must be a JSON object"));
        }
        proof {
            crate::json::parse::lemma_object_model(document->Object_0);
        }
        match field_of(document, "schema_version") {
            Some(JsonValue::Integer(version)) => {
                if *version != 1 {
                    return Err(cache_error("unsupported cache schema version"));
                }
            },
            Some(_) => {
                return Err(cache_error("cache `schema_version` must be an integer"));
            },
            None => {
                return Err(cache_error("unsupported cache schema version"));
            },
        }
        let fetched_at = match field_of(document, "fetched_at") {
            Some(JsonValue::Integer(value)) => {
                if *value < 0 {
                    return Err(cache_error("cache `fetched_at` must be a nonnegative integer"));
                }
                *value as u64
            },
            _ => {
                return Err(cache_error("cache `fetched_at` must be a nonnegative integer"));
            },
        };
        let payload = match field_of(document, "document") {
            Some(payload) => payload,
            None => {
                return Err(cache_error("cache is missing its `document`"));
            },
        };
        match parse_service_catalog(service, payload, fetched_at, "cache") {
            Ok(entries) => Ok(CachedCatalog { entries, fetched_at }),
            Err(error) => Err(error),
        }
    }

    /// Load one service's cache from the file's bytes; corrupt or unsupported
    /// data yields `None`.
    pub fn load_bytes(service: ServiceId, bytes: &[u8]) -> (cached: Option<CachedCatalog>)
        ensures
            match spec_parse(bytes@, default_limits()) {
                Ok(document) => match decode_of(service, document) {
                    Some((entries, at)) => cached matches Some(c) && entry_views(c.entries@)
                        == entries && c.fetched_at == at,
                    None => cached is None,
                },
                Err(_) => cached is None,
            },
    {
        let limits = JsonLimits::default();
        let document = match crate::json::parse::parse(bytes, &limits) {
            Ok(document) => document,
            Err(_) => {
                return None;
            },
        };
        match CatalogCache::decode(service, &document) {
            Ok(cached) => Some(cached),
            Err(_) => None,
        }
    }

    /// Whether a model is present in the cache file's bytes; `None` when nothing
    /// usable is cached.
    pub fn cached_model(service: ServiceId, bytes: Option<&[u8]>, model: &str) -> (found: Option<
        bool,
    >)
        ensures
            match bytes {
                None => found is None,
                Some(b) => match spec_parse(b@, default_limits()) {
                    Ok(document) => match decode_of(service, document) {
                        Some((entries, _)) => found == Some(
                            exists|k: int| 0 <= k < entries.len() && (#[trigger] entries[k]).id == model@,
                        ),
                        None => found is None,
                    },
                    Err(_) => found is None,
                },
            },
    {
        let cached = match bytes {
            Some(b) => match CatalogCache::load_bytes(service, b) {
                Some(cached) => cached,
                None => {
                    return None;
                },
            },
            None => {
                return None;
            },
        };
        Some(has_model(&cached.entries, model))
    }

    /// The cache document stored for a fetched catalog.
    pub fn payload(document: &JsonValue, fetched_at: u64) -> (payload: JsonValue)
        requires
            fetched_at <= i64::MAX,
        ensures
            payload.model() == Json::Object(
                seq![
                    ("document"@, document.model()),
                    ("fetched_at"@, Json::Integer(fetched_at as int)),
                    ("schema_version"@, Json::Integer(1)),
                ],
            ),
    {
        let entries: Vec<(String, JsonValue)> = vec![
            ("document".to_owned(), document.clone_value()),
            ("fetched_at".to_owned(), JsonValue::Integer(fetched_at as i64)),
            ("schema_version".to_owned(), JsonValue::Integer(1)),
        ];
        proof {
            crate::json::parse::lemma_object_model(entries);
        }
        assert(crate::json::entry_models(entries@) =~= seq![
            ("document"@, document.model()),
            ("fetched_at"@, Json::Integer(fetched_at as int)),
            ("schema_version"@, Json::Integer(1)),
        ]);
        JsonValue::Object(entries)
    }
}

fn has_model(entries: &Vec<CatalogEntry>, model: &str) -> (found: bool)
    ensures
        found == exists|k: int|
            0 <= k < entry_views(entries@).len() && (#[trigger] entry_views(entries@)[k]).id == model@,
{
    let ghost views = entry_views(entries@);
    let mut i: usize = 0;
    while i < entries.len()
        invariant
            i <= entries@.len(),
            views == entry_views(entries@),
            forall|k: int| 0 <= k < i ==> (#[trigger] views[k]).id != model@,
        decreases entries@.len() - i,
    {
        assert(views[i as int] == entries@[i as int]@);
        if str_eq(entries[i].id.as_str(), model) {
            return true;
        }
        i = i + 1;
    }
    false
}

} // verus!
