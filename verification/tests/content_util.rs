use tg_export::content::{Text, TextElement, TextEntity};
use tg_export::util::{parse_u64, tokenize, u64_to_string};

#[test]
fn flatten_plain_is_identity() {
    let t = Text::Plain(String::from("hello\nworld"));
    assert_eq!(t.flatten(), "hello\nworld");
}

#[test]
fn flatten_structured_concatenates_in_order() {
    let t = Text::Structured(vec![
        TextElement::String(String::from("see ")),
        TextElement::Entity(TextEntity {
            entity_type: String::from("link"),
            text: String::from("https://example.org"),
        }),
        TextElement::String(String::from(" now")),
    ]);
    assert_eq!(t.flatten(), "see https://example.org now");
}

#[test]
fn flatten_structured_empty_is_empty() {
    let t = Text::Structured(vec![]);
    assert_eq!(t.flatten(), "");
}

#[test]
fn parse_u64_accepts_digits_and_plus() {
    assert_eq!(parse_u64("0"), Some(0));
    assert_eq!(parse_u64("1634567890"), Some(1634567890));
    assert_eq!(parse_u64("+42"), Some(42));
    assert_eq!(parse_u64("18446744073709551615"), Some(u64::MAX));
}

#[test]
fn parse_u64_rejects_bad_input() {
    assert_eq!(parse_u64(""), None);
    assert_eq!(parse_u64("+"), None);
    assert_eq!(parse_u64("-5"), None);
    assert_eq!(parse_u64("12a"), None);
    assert_eq!(parse_u64(" 12"), None);
    assert_eq!(parse_u64("18446744073709551616"), None);
}

#[test]
fn u64_to_string_renders_decimal() {
    assert_eq!(u64_to_string(0), "0");
    assert_eq!(u64_to_string(7), "7");
    assert_eq!(u64_to_string(1203), "1203");
    assert_eq!(u64_to_string(u64::MAX), "18446744073709551615");
}

#[test]
fn tokenize_splits_on_whitespace_runs() {
    let toks = tokenize("  hello \t world\n\nagain ");
    assert_eq!(toks, vec!["hello", "world", "again"]);
}

#[test]
fn tokenize_empty_yields_no_tokens() {
    let toks = tokenize("");
    assert!(toks.is_empty());
    let toks2 = tokenize(" \t\n");
    assert!(toks2.is_empty());
}
