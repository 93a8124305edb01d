use koru::error::ErrorCode;
use koru::json::{emit, parse, JsonLimits, JsonValue};
use koru::provider::cache::CatalogCache;
use koru::provider::catalog::{
    declared_variants, parse_service_catalog, Catalog, ServiceId, UnavailableCatalogSource,
};
use koru::provider::opencode::OpenCodeSurface;

fn document(text: &str) -> JsonValue {
    parse(text.as_bytes(), &JsonLimits::default()).unwrap()
}

const CATALOG: &str = r#"{"data":[
  {"id":"deepseek-chat","name":"DeepSeek Chat","context_length":65536,
   "capabilities":{"tools":true,"structured_output":false},"variants":["high","low"]},
  {"id":"deepseek-reasoner"}
]}"#;

#[test]
fn catalog_documents_become_entries() {
    let entries = parse_service_catalog(ServiceId::DeepSeek, &document(CATALOG), 1700, "network").unwrap();
    assert_eq!(entries.len(), 2);
    assert_eq!(entries[0].id, "deepseek-chat");
    assert_eq!(entries[0].display_name, "DeepSeek Chat");
    assert_eq!(entries[0].context_length, Some(65536));
    assert_eq!(entries[0].supports_tools, Some(true));
    assert_eq!(entries[0].supports_structured_output, Some(false));
    assert_eq!(entries[0].variants, vec!["high".to_owned(), "low".to_owned()]);
    assert_eq!(entries[0].source, "network");
    assert_eq!(entries[0].fetched_at, 1700);
    assert_eq!(entries[1].display_name, "deepseek-reasoner");
    assert_eq!(entries[1].context_length, None);
    assert_eq!(entries[1].supports_tools, None);
    assert!(entries[1].variants.is_empty());
}

#[test]
fn malformed_catalogs_are_rejected() {
    for text in [
        r#"{"models":[]}"#,
        r#"{"data":{}}"#,
        r#"{"data":[{"name":"no id"}]}"#,
        r#"{"data":[{"id":"a"},{"id":"a"}]}"#,
        r#"{"data":[{"id":"a","context_length":-1}]}"#,
        r#"{"data":[{"id":"a","variants":["x","x"]}]}"#,
        r#"{"data":[{"id":"a","capabilities":{"tools":"yes"}}]}"#,
    ] {
        assert_eq!(
            parse_service_catalog(ServiceId::OpenCode, &document(text), 0, "network").unwrap_err().code(),
            ErrorCode::Validation,
            "{text}"
        );
    }
}

#[test]
fn services_have_stable_names_and_endpoints() {
    for service in ServiceId::all() {
        assert_eq!(ServiceId::parse(service.name()), Some(service));
    }
    assert_eq!(ServiceId::parse("openai"), None);
    assert_eq!(ServiceId::OpenCodeGo.name(), "opencode-go");
    assert_eq!(ServiceId::DeepSeek.credential_variable(), "DEEPSEEK_API_KEY");
    assert_eq!(ServiceId::OpenCodeGo.credential_variable(), "OPENCODE_API_KEY");
    assert_eq!(ServiceId::OpenCode.catalog_endpoint(), "https://opencode.ai/zen/v1/models");
    assert_eq!(declared_variants(ServiceId::OpenCodeGo), vec!["high"]);
    assert!(declared_variants(ServiceId::DeepSeek).is_empty());
}

#[test]
fn opencode_surfaces_map_to_services() {
    assert_eq!(OpenCodeSurface::Zen.service(), ServiceId::OpenCode);
    assert_eq!(OpenCodeSurface::Go.service(), ServiceId::OpenCodeGo);
    assert_eq!(OpenCodeSurface::Go.base(), "https://opencode.ai/zen/go/v1");
    assert!(OpenCodeSurface::Go.uses_sessions());
    assert!(!OpenCodeSurface::Zen.uses_sessions());
}

#[test]
fn fetch_failures_leave_the_catalog_intact() {
    let mut catalog = Catalog::default();
    catalog.apply_fetch(ServiceId::DeepSeek, Ok(document(CATALOG)), 5).unwrap();
    assert_eq!(catalog.entries(ServiceId::DeepSeek).len(), 2);
    assert!(catalog.model(ServiceId::DeepSeek, "deepseek-reasoner").is_some());
    assert!(catalog.model(ServiceId::OpenCode, "deepseek-reasoner").is_none());
    let error = catalog.refresh(ServiceId::DeepSeek, &UnavailableCatalogSource, 6).unwrap_err();
    assert_eq!(error.code(), ErrorCode::UnsupportedCapability);
    assert_eq!(catalog.entries(ServiceId::DeepSeek).len(), 2);
    let bad = catalog.apply_fetch(ServiceId::DeepSeek, Ok(document(r#"{"data":3}"#)), 7);
    assert_eq!(bad.unwrap_err().code(), ErrorCode::Validation);
    assert_eq!(catalog.entries(ServiceId::DeepSeek)[0].fetched_at, 5);
}

#[test]
fn cached_catalogs_round_trip_through_their_payload() {
    let payload = CatalogCache::payload(&document(CATALOG), 42);
    let bytes = emit(&payload).into_bytes();
    let cached = CatalogCache::load_bytes(ServiceId::DeepSeek, &bytes).unwrap();
    assert_eq!(cached.fetched_at, 42);
    assert_eq!(cached.entries.len(), 2);
    assert_eq!(cached.entries[0].source, "cache");
    assert_eq!(CatalogCache::cached_model(ServiceId::DeepSeek, Some(&bytes), "deepseek-chat"), Some(true));
    assert_eq!(CatalogCache::cached_model(ServiceId::DeepSeek, Some(&bytes), "other"), Some(false));
    assert_eq!(CatalogCache::cached_model(ServiceId::DeepSeek, None, "deepseek-chat"), None);
    assert_eq!(CatalogCache::cached_model(ServiceId::DeepSeek, Some(b"not json"), "x"), None);
    let wrong = emit(&document(r#"{"schema_version":2,"fetched_at":1,"document":{"data":[]}}"#));
    assert!(CatalogCache::load_bytes(ServiceId::DeepSeek, wrong.as_bytes()).is_none());
}

#[test]
fn cache_files_are_named_by_service() {
    let cache = CatalogCache::new(&b"/tmp/koru".to_vec());
    assert_eq!(cache.path(ServiceId::OpenCodeGo), b"/tmp/koru/catalog/opencode-go.json".to_vec());
    assert_eq!(cache.path(ServiceId::DeepSeek), b"/tmp/koru/catalog/deepseek.json".to_vec());
}
