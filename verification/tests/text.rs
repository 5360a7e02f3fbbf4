use twml::substitute::replace_template_attributes;
use twml::text::{
    chars_of, escape_quotes, parse_decimal, push_blanks, push_decimal, push_joined, replace_char,
    same_text,
};

fn bound(pairs: &[(&str, &str)]) -> Vec<(String, String)> {
    pairs.iter().map(|(key, value)| (key.to_string(), value.to_string())).collect()
}

fn decimal(n: u64) -> String {
    let mut text = String::new();
    push_decimal(&mut text, n);
    text
}

#[test]
fn chars_of_keeps_every_character() {
    assert_eq!(chars_of("aé😀"), vec!['a', 'é', '😀']);
}

#[test]
fn same_text_compares_by_characters() {
    assert!(same_text("page", "page"));
    assert!(!same_text("page", "pages"));
    assert!(!same_text("page", "pagf"));
    assert!(same_text("", ""));
}

#[test]
fn decimal_of_numbers() {
    assert_eq!(decimal(0), "0");
    assert_eq!(decimal(7), "7");
    assert_eq!(decimal(210), "210");
    assert_eq!(decimal(1005), "1005");
    assert_eq!(decimal(u64::MAX), "18446744073709551615");
}

#[test]
fn push_decimal_appends() {
    let mut text = String::from("w=");
    push_decimal(&mut text, 42);
    assert_eq!(text, "w=42");
}

#[test]
fn parse_decimal_reads_unsigned_numerals() {
    assert_eq!(parse_decimal("0"), Some(0));
    assert_eq!(parse_decimal("100"), Some(100));
    assert_eq!(parse_decimal("007"), Some(7));
    assert_eq!(parse_decimal("+5"), Some(5));
    assert_eq!(parse_decimal("18446744073709551615"), Some(u64::MAX));
}

#[test]
fn parse_decimal_refuses_everything_else() {
    assert_eq!(parse_decimal(""), None);
    assert_eq!(parse_decimal("+"), None);
    assert_eq!(parse_decimal("-5"), None);
    assert_eq!(parse_decimal("5 "), None);
    assert_eq!(parse_decimal(" 5"), None);
    assert_eq!(parse_decimal("1e3"), None);
    assert_eq!(parse_decimal("12mm"), None);
    assert_eq!(parse_decimal("++5"), None);
    assert_eq!(parse_decimal("18446744073709551616"), None);
    assert_eq!(parse_decimal("99999999999999999999999"), None);
}

#[test]
fn parse_decimal_agrees_with_the_standard_parser() {
    for text in ["3", "+3", "0003", "", "x", "4294967296", "18446744073709551615", "1٣"] {
        assert_eq!(parse_decimal(text), text.parse::<u64>().ok());
    }
}

#[test]
fn blanks_are_spaces() {
    let mut text = String::from("|");
    push_blanks(&mut text, 3);
    assert_eq!(text, "|   ");
    push_blanks(&mut text, 0);
    assert_eq!(text, "|   ");
}

#[test]
fn joined_puts_the_separator_between_items() {
    let mut text = String::new();
    push_joined(&mut text, &vec!["a".to_string(), "b".to_string(), "c".to_string()], ", ");
    assert_eq!(text, "a, b, c");
    let mut one = String::new();
    push_joined(&mut one, &vec!["a".to_string()], ", ");
    assert_eq!(one, "a");
    let mut none = String::from("x");
    push_joined(&mut none, &Vec::new(), ", ");
    assert_eq!(none, "x");
}

#[test]
fn joined_keeps_an_empty_first_item() {
    let mut text = String::new();
    push_joined(&mut text, &vec!["".to_string(), "b".to_string()], "-");
    assert_eq!(text, "-b");
}

#[test]
fn replace_char_replaces_every_occurrence() {
    assert_eq!(replace_char("a-b-c", '-', '/'), "a/b/c");
    assert_eq!(replace_char("abc", '-', '/'), "abc");
    assert_eq!(replace_char("", '-', '/'), "");
}

#[test]
fn escape_quotes_turns_backslash_quote_into_a_reference() {
    assert_eq!(escape_quotes("say \\\"hi\\\""), "say &quot;hi&quot;");
    assert_eq!(escape_quotes("plain \"quote\""), "plain \"quote\"");
    assert_eq!(escape_quotes("back\\slash"), "back\\slash");
    assert_eq!(escape_quotes("\\\\\""), "\\&quot;");
    assert_eq!(escape_quotes("end\\"), "end\\");
}

#[test]
fn escape_quotes_agrees_with_replace() {
    for text in ["", "\\\"", "a\\\"b\\\"c", "\\\\\\\"", "\"\\", "é\\\"é"] {
        assert_eq!(escape_quotes(text), text.replace("\\\"", "&quot;"));
    }
}

#[test]
fn bound_placeholder_is_replaced() {
    let attrs = bound(&[("name", "Ada")]);
    assert_eq!(replace_template_attributes("Hello {name}!", &attrs), "Hello Ada!");
}

#[test]
fn every_occurrence_is_replaced() {
    let attrs = bound(&[("x", "1"), ("y", "2")]);
    assert_eq!(replace_template_attributes("{x}+{y}={x}{y}", &attrs), "1+2=12");
}

#[test]
fn unbound_placeholder_is_kept() {
    let attrs = bound(&[("name", "Ada")]);
    assert_eq!(replace_template_attributes("Hello {other}!", &attrs), "Hello {other}!");
    assert_eq!(replace_template_attributes("Hello {name}!", &Vec::new()), "Hello {name}!");
}

#[test]
fn escaped_placeholder_is_written_with_single_braces() {
    let attrs = bound(&[("name", "Ada")]);
    assert_eq!(replace_template_attributes("{{name}}", &attrs), "{name}");
    assert_eq!(replace_template_attributes("a {{name}} b {name}", &attrs), "a {name} b Ada");
    assert_eq!(replace_template_attributes("{{other}}", &Vec::new()), "{other}");
}

#[test]
fn replaced_text_is_not_read_again() {
    let attrs = bound(&[("a", "{b}"), ("b", "x")]);
    assert_eq!(replace_template_attributes("{a}", &attrs), "{b}");
    let escaped = bound(&[("a", "{{b}}")]);
    assert_eq!(replace_template_attributes("{a}", &escaped), "{{b}}");
}

#[test]
fn braces_that_form_no_placeholder_are_kept() {
    let attrs = bound(&[("x", "1")]);
    assert_eq!(replace_template_attributes("{}", &attrs), "{}");
    assert_eq!(replace_template_attributes("{{}}", &attrs), "{{}}");
    assert_eq!(replace_template_attributes("{x", &attrs), "{x");
    assert_eq!(replace_template_attributes("x}", &attrs), "x}");
    assert_eq!(replace_template_attributes("{x}}", &attrs), "{x}}");
    assert_eq!(replace_template_attributes("{{x}", &attrs), "{1");
    assert_eq!(replace_template_attributes("a { b } c", &attrs), "a { b } c");
}

#[test]
fn first_binding_of_a_key_counts() {
    let attrs = bound(&[("x", "first"), ("x", "second")]);
    assert_eq!(replace_template_attributes("{x}", &attrs), "first");
}

#[test]
fn placeholders_take_any_characters_but_braces() {
    let attrs = bound(&[("data-id", "7"), ("é", "e")]);
    assert_eq!(replace_template_attributes("{data-id}{é}", &attrs), "7e");
}

#[test]
fn dollar_signs_in_values_are_plain_text() {
    let attrs = bound(&[("price", "$1 and $0")]);
    assert_eq!(replace_template_attributes("cost: {price}", &attrs), "cost: $1 and $0");
}
