use ruvnc_viewer::i18n::{choose_locale, create_bundle, detect_locale, lookup, normalize_locale, t, t_args, FluentArgValue};

#[test]
fn test_simple_lookup() {
    let result = t("app-title");
    assert_eq!(result, "RuVNC Viewer");
}

#[test]
fn test_missing_key_returns_key() {
    let result = t("nonexistent-key");
    assert_eq!(result, "nonexistent-key");
}

#[test]
fn test_args_lookup() {
    let version = FluentArgValue::Text("0.1.0".to_string());
    let result = t_args("app-version", &[("version", version)]);
    assert!(result.contains("0.1.0"));
}

#[test]
fn test_pluralization() {
    let one = FluentArgValue::Number(1);
    let result = t_args("status-servers", &[("count", one)]);
    assert!(result.contains("server"), "Expected 'server' in '{}'", result);
    assert!(!result.contains("servers"), "Should be singular for 1, got '{}'", result);

    let many = FluentArgValue::Number(5);
    let result = t_args("status-servers", &[("count", many)]);
    assert!(result.contains("servers"), "Expected 'servers' in '{}'", result);
}

#[test]
fn test_detect_locale_returns_valid() {
    let locale = detect_locale();
    assert!(!locale.to_string().is_empty());
}

#[test]
fn missing_key_with_arguments_returns_key() {
    let result = t_args("no-such-message", &[("count", FluentArgValue::Number(2))]);
    assert_eq!(result, "no-such-message");
}

#[test]
fn locale_names_use_hyphens() {
    assert_eq!(normalize_locale("en_US"), "en-US");
    assert_eq!(normalize_locale("pt_BR_x"), "pt-BR-x");
    assert_eq!(normalize_locale("de"), "de");
}

#[test]
fn system_locale_is_normalized_or_falls_back() {
    assert_eq!(choose_locale(Some("de_DE".to_string())).to_string(), "de-DE");
    assert_eq!(choose_locale(None).to_string(), "en-US");
    assert_eq!(choose_locale(Some("not a locale!".to_string())).to_string(), "en-US");
}

#[test]
fn bundle_is_made_for_the_given_locale() {
    let bundle = create_bundle(choose_locale(Some("fr_FR".to_string()))).unwrap();
    assert_eq!(bundle.locales.len(), 1);
    assert_eq!(bundle.locales[0].to_string(), "fr-FR");
    assert_eq!(lookup(&bundle, "app-title"), "RuVNC Viewer");
    assert_eq!(lookup(&bundle, "missing"), "missing");
}
