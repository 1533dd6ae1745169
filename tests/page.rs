use impressum::generator::{
    generate, missing_placeholders, placeholder_tokens, replacement_values, validate_field, Config,
    GenerateError, DEFAULT_OUTPUT_PATH, EMAIL_DOMAIN_REV, EMAIL_FILE_VAR, EMAIL_NOSCRIPT,
    EMAIL_USER_REV, NAME_FILE_VAR, NAME_NOSCRIPT, NAME_REV, OUTPUT_MODE, PHONE_FILE_VAR,
    PHONE_NOSCRIPT, PHONE_REV, TEMPLATE_FILE_VAR,
};

fn config() -> Config {
    Config::resolve(
        Some("/etc/email".to_string()),
        Some("/etc/phone".to_string()),
        Some("/etc/name".to_string()),
        Some("/etc/template.html".to_string()),
        None,
    )
    .unwrap()
}

fn full_template() -> String {
    format!(
        "<p>{}|{}|{}|{}|{}|{}|{}</p>",
        EMAIL_USER_REV, EMAIL_DOMAIN_REV, EMAIL_NOSCRIPT, PHONE_REV, PHONE_NOSCRIPT, NAME_REV,
        NAME_NOSCRIPT
    )
}

#[test]
fn example_page_with_all_tokens() {
    let out = generate(&config(), "jane.doe@example.com\n", "+1 555 123 4567\n", "Jane Doe\n", &full_template())
        .unwrap();
    assert_eq!(
        out,
        "<p>eod.enaj|moc.elpmaxe|jane.doe@example.com|7654 321 555 1+|+1 555 123 4567|eoD enaJ|Jane Doe</p>"
    );
}

#[test]
fn example_template_without_phone_plain_token() {
    let template = format!("<p>{} {} {}</p><p>{}</p>", EMAIL_USER_REV, EMAIL_DOMAIN_REV, PHONE_REV, NAME_NOSCRIPT);
    let out = generate(&config(), "jane.doe@example.com", "+1 555 123 4567", "Jane Doe", &template).unwrap();
    assert_eq!(out, "<p>eod.enaj moc.elpmaxe 7654 321 555 1+</p><p>Jane Doe</p>");
    let missing = missing_placeholders(&template);
    assert!(missing.contains(&PHONE_NOSCRIPT.to_string()));
    assert_eq!(
        missing,
        vec![EMAIL_NOSCRIPT.to_string(), PHONE_NOSCRIPT.to_string(), NAME_REV.to_string()]
    );
}

#[test]
fn complete_template_misses_nothing() {
    assert!(missing_placeholders(&full_template()).is_empty());
}

#[test]
fn empty_template_misses_all_tokens() {
    assert_eq!(missing_placeholders(""), placeholder_tokens());
}

#[test]
fn no_placeholder_left_after_run() {
    let template = format!("{} {} x{}y {}", full_template(), NAME_REV, PHONE_REV, full_template());
    let out = generate(&config(), "a.b@c.de", "0123 45", "Max Muster", &template).unwrap();
    for token in placeholder_tokens() {
        assert!(!out.contains(&token), "{} left in {}", token, out);
    }
}

#[test]
fn same_inputs_give_same_page() {
    let a = generate(&config(), "jane.doe@example.com", "+1 555", "Jane", &full_template()).unwrap();
    let b = generate(&config(), "jane.doe@example.com", "+1 555", "Jane", &full_template()).unwrap();
    assert_eq!(a, b);
}

#[test]
fn whitespace_only_email_fails_naming_file() {
    let r = generate(&config(), " \n\t", "+1 555", "Jane", &full_template());
    assert!(matches!(r, Err(GenerateError::EmptyField(ref p)) if p == "/etc/email"));
}

#[test]
fn empty_phone_fails_naming_file() {
    let r = generate(&config(), "a@b", "", "Jane", &full_template());
    assert!(matches!(r, Err(GenerateError::EmptyField(ref p)) if p == "/etc/phone"));
}

#[test]
fn empty_name_fails_naming_file() {
    let r = generate(&config(), "a@b", "1", "\u{3000}\n", &full_template());
    assert!(matches!(r, Err(GenerateError::EmptyField(ref p)) if p == "/etc/name"));
}

#[test]
fn email_without_at_fails() {
    let r = generate(&config(), "jane.doe.example.com", "+1 555", "Jane", &full_template());
    assert!(matches!(r, Err(GenerateError::MalformedEmail)));
}

#[test]
fn empty_field_is_reported_before_malformed_email() {
    let r = generate(&config(), "no-at-sign", "   ", "Jane", &full_template());
    assert!(matches!(r, Err(GenerateError::EmptyField(ref p)) if p == "/etc/phone"));
}

#[test]
fn validate_field_trims() {
    assert_eq!(validate_field("  Jane Doe \n", "f").unwrap(), "Jane Doe");
    assert!(matches!(validate_field(" \r\n ", "f"), Err(GenerateError::EmptyField(ref p)) if p == "f"));
}

#[test]
fn email_splits_on_first_at() {
    let v = replacement_values("a@b@c", "1", "N").unwrap();
    assert_eq!(v, vec!["a", "c@b", "a@b@c", "1", "1", "N", "N"]);
}

#[test]
fn email_with_empty_parts() {
    let v = replacement_values("@", "12", "Ab").unwrap();
    assert_eq!(v, vec!["", "", "@", "21", "12", "bA", "Ab"]);
}

#[test]
fn replacement_values_reject_missing_at() {
    assert!(matches!(replacement_values("abc", "1", "N"), Err(GenerateError::MalformedEmail)));
}

#[test]
fn resolve_uses_default_output_path() {
    let c = config();
    assert_eq!(c.output_file, DEFAULT_OUTPUT_PATH);
    assert_eq!(c.output_file, "/run/impressum/impressum.html");
    assert_eq!(c.email_file, "/etc/email");
    assert_eq!(c.template_file, "/etc/template.html");
}

#[test]
fn resolve_takes_given_output_path() {
    let c = Config::resolve(
        Some("e".to_string()),
        Some("p".to_string()),
        Some("n".to_string()),
        Some("t".to_string()),
        Some("/tmp/out.html".to_string()),
    )
    .unwrap();
    assert_eq!(c.output_file, "/tmp/out.html");
    assert_eq!(c.phone_file, "p");
    assert_eq!(c.name_file, "n");
}

fn missing_key(r: Result<Config, GenerateError>) -> String {
    match r {
        Err(GenerateError::MissingConfig(k)) => k,
        _ => panic!("expected a missing configuration value"),
    }
}

#[test]
fn resolve_names_first_missing_key() {
    let s = |v: &str| Some(v.to_string());
    assert_eq!(missing_key(Config::resolve(None, None, None, None, None)), EMAIL_FILE_VAR);
    assert_eq!(missing_key(Config::resolve(s("e"), None, s("n"), s("t"), None)), PHONE_FILE_VAR);
    assert_eq!(missing_key(Config::resolve(s("e"), s("p"), None, s("t"), None)), NAME_FILE_VAR);
    assert_eq!(missing_key(Config::resolve(s("e"), s("p"), s("n"), None, None)), TEMPLATE_FILE_VAR);
    assert_eq!(TEMPLATE_FILE_VAR, "IMPRESSUM_TEMPLATE_FILE");
}

#[test]
fn output_mode_is_owner_write_all_read() {
    assert_eq!(OUTPUT_MODE, 0o644);
}
