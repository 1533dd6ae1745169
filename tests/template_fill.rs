use impressum::template::{contains_token, missing_tokens, substitute};

fn strings(v: &[&str]) -> Vec<String> {
    v.iter().map(|s| s.to_string()).collect()
}

#[test]
fn substitute_replaces_every_occurrence() {
    let tokens = strings(&["__A__", "__B__"]);
    let values = strings(&["x", "yy"]);
    assert_eq!(substitute("<__A__|__B__|__A__>", &tokens, &values), "<x|yy|x>");
}

#[test]
fn substitute_does_not_rescan_replaced_text() {
    let tokens = strings(&["__A__", "__B__"]);
    let values = strings(&["__B__", "z"]);
    assert_eq!(substitute("1__A__2", &tokens, &values), "1__B__2");
}

#[test]
fn substitute_keeps_text_without_tokens() {
    let tokens = strings(&["__A__"]);
    let values = strings(&["x"]);
    assert_eq!(substitute("no tokens _A_ here", &tokens, &values), "no tokens _A_ here");
    assert_eq!(substitute("", &tokens, &values), "");
}

#[test]
fn substitute_handles_multibyte_text() {
    let tokens = strings(&["__N__"]);
    let values = strings(&["Zoë"]);
    assert_eq!(substitute("«__N__» ✓", &tokens, &values), "«Zoë» ✓");
}

#[test]
fn substitute_prefers_the_earlier_token() {
    let tokens = strings(&["__AB", "__A"]);
    let values = strings(&["1", "2"]);
    assert_eq!(substitute("__AB __A", &tokens, &values), "1 2");
}

#[test]
fn contains_token_reports_presence() {
    assert!(contains_token("a __X__ b", "__X__"));
    assert!(contains_token("__X__", "__X__"));
    assert!(!contains_token("a __X_ b", "__X__"));
    assert!(!contains_token("", "__X__"));
}

#[test]
fn missing_tokens_in_order() {
    let tokens = strings(&["__A__", "__B__", "__C__"]);
    assert_eq!(missing_tokens("__B__", &tokens), strings(&["__A__", "__C__"]));
    assert_eq!(missing_tokens("__A____B____C__", &tokens), Vec::<String>::new());
}
