use koru::config::Config;
use koru::error::ErrorCode;
use koru::paths::UserPaths;

fn selection(provider: Option<&str>, model: Option<&str>, variant: Option<&str>) -> Config {
    Config {
        provider: provider.map(str::to_owned),
        model: model.map(str::to_owned),
        variant: variant.map(str::to_owned),
    }
}

#[test]
fn reads_a_commented_configuration() {
    let text = "# selection\nschema_version = 1\n\n  provider = \"deepseek\"  \r\nmodel = \"deepseek-chat\"\n";
    let config = Config::parse(text).unwrap();
    assert_eq!(config.provider.as_deref(), Some("deepseek"));
    assert_eq!(config.model.as_deref(), Some("deepseek-chat"));
    assert_eq!(config.variant, None);
}

#[test]
fn resolves_escapes_in_values() {
    let config = Config::parse("schema_version = 1\nprovider = \"a\\\"b\\\\c\"\n").unwrap();
    assert_eq!(config.provider.as_deref(), Some("a\"b\\c"));
}

#[test]
fn rejects_malformed_and_inconsistent_files() {
    for text in [
        "provider = \"x\"\n",
        "schema_version = 2\n",
        "schema_version = 1\nschema_version = 1\n",
        "schema_version = 1\ncolor = \"red\"\n",
        "schema_version = 1\nprovider = x\n",
        "schema_version = 1\nprovider\n",
        "schema_version = 1\nprovider = \"a\"\nprovider = \"b\"\n",
        "schema_version = 1\nvariant = \"high\"\n",
        "schema_version = 1\nprovider = \"\"\n",
        "schema_version = 1\nprovider = \"bad\\q\"\n",
    ] {
        assert_eq!(Config::parse(text).unwrap_err().code(), ErrorCode::Validation, "{text:?}");
    }
}

#[test]
fn renders_the_canonical_file() {
    let config = selection(Some("opencode"), Some("m \"1\""), Some("high"));
    assert_eq!(
        config.render().unwrap(),
        "schema_version = 1\nprovider = \"opencode\"\nmodel = \"m \\\"1\\\"\"\nvariant = \"high\"\n"
    );
    assert_eq!(Config::default().render().unwrap(), "schema_version = 1\n");
}

#[test]
fn rendered_configurations_parse_back() {
    let config = selection(Some("deepseek"), Some("chat \"v\\2\" \u{e9}"), Some("low"));
    let back = Config::parse(&config.render().unwrap()).unwrap();
    assert_eq!(back.provider, config.provider);
    assert_eq!(back.model, config.model);
    assert_eq!(back.variant, config.variant);
}

#[test]
fn changes_are_validated() {
    assert!(selection(Some("a"), Some("b"), Some("c")).validate_change().is_ok());
    assert_eq!(
        selection(None, None, Some("c")).validate_change().unwrap_err().code(),
        ErrorCode::Validation
    );
    assert_eq!(
        selection(Some("a\u{7}"), None, None).validate_change().unwrap_err().code(),
        ErrorCode::Validation
    );
    assert_eq!(
        selection(Some("a\u{7}"), None, None).render().unwrap_err().code(),
        ErrorCode::Validation
    );
}

#[test]
fn the_configuration_lives_in_the_config_directory() {
    let paths = UserPaths {
        config: b"/home/u/.config/koru".to_vec(),
        cache: b"/home/u/.cache/koru".to_vec(),
        state: b"/home/u/.local/state/koru".to_vec(),
    };
    assert_eq!(Config::path(&paths), b"/home/u/.config/koru/config.toml".to_vec());
}

#[test]
fn values_with_line_breaks_render_but_do_not_load() {
    let config = selection(Some("deepseek"), Some("two\nlines"), None);
    let text = config.render().unwrap();
    assert_eq!(text, "schema_version = 1\nprovider = \"deepseek\"\nmodel = \"two\\nlines\"\n");
    assert_eq!(Config::parse(&text).unwrap_err().code(), ErrorCode::Validation);
}
