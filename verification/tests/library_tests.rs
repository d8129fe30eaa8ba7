use message_format::errors::PatternError;
use message_format::literals::placeholder;
use message_format::locale::Locale;
use message_format::param::ParamValue;
use message_format::tokenize::{ElementType, ElementTypeAndVal};
use message_format::MessageFormat;

fn params(list: Vec<(&str, ParamValue)>) -> Vec<(String, ParamValue)> {
    list.into_iter().map(|(k, v)| (k.to_string(), v)).collect()
}

#[test]
fn test_unmatched_close_brace_is_an_error() {
    let locale = Locale::new("en");
    let mut fmt = MessageFormat::new("''{}}", &locale);
    assert_eq!(fmt.format(), Err(PatternError::NoMatchingBrace));
}

#[test]
fn test_unclosed_open_brace_is_an_error() {
    let locale = Locale::new("en");
    let mut fmt = MessageFormat::new("{} {", &locale);
    assert_eq!(fmt.format(), Err(PatternError::MismatchedBraces));
}

#[test]
fn test_unknown_block_type_is_an_error() {
    let locale = Locale::new("en");
    let mut fmt = MessageFormat::new("{%}", &locale);
    assert_eq!(fmt.format(), Err(PatternError::UnknownBlockType));
}

#[test]
fn test_missing_other_branch_is_an_error() {
    let locale = Locale::new("en");
    let mut fmt = MessageFormat::new("{GENDER, select, male {His}}", &locale);
    assert_eq!(fmt.format(), Err(PatternError::MissingOther));
}

#[test]
fn test_key_without_branch_is_an_error() {
    let locale = Locale::new("en");
    let mut fmt = MessageFormat::new("{GENDER, select, other}", &locale);
    assert_eq!(fmt.format(), Err(PatternError::MissingValueElement));
}

#[test]
fn test_branch_in_key_position_is_an_error() {
    let locale = Locale::new("en");
    let mut fmt = MessageFormat::new("{X, select, other {b}{c} x}", &locale);
    assert_eq!(fmt.format(), Err(PatternError::InvalidValueElement));
}

#[test]
fn test_oversized_offset_is_an_error() {
    let locale = Locale::new("en");
    let mut fmt = MessageFormat::new(
        "{N, plural, offset:99999999999999999999 other {x}}",
        &locale,
    );
    assert_eq!(fmt.format(), Err(PatternError::InvalidOffset));
}

#[test]
fn test_stray_pound_is_an_error() {
    let locale = Locale::new("en");
    let mut fmt = MessageFormat::new("a # b", &locale);
    assert_eq!(fmt.format(), Err(PatternError::UnresolvedPound));
}

#[test]
fn test_stray_pound_passes_when_ignoring_pound() {
    let locale = Locale::new("en");
    let mut fmt = MessageFormat::new("a # b", &locale);
    assert_eq!(fmt.format_ignoring_pound(&params(vec![])).unwrap(), "a # b");
}

#[test]
fn test_plain_text_renders_to_itself() {
    let locale = Locale::new("en");
    let mut fmt = MessageFormat::new("New York in the Summer is nice.", &locale);
    assert_eq!(fmt.format().unwrap(), "New York in the Summer is nice.");
}

#[test]
fn test_quoted_placeholder_renders_as_literal() {
    let locale = Locale::new("en");
    let mut fmt = MessageFormat::new("'{0}'", &locale);
    assert_eq!(fmt.format().unwrap(), "{0}");
}

#[test]
fn test_doubled_quote_renders_as_one_quote() {
    let locale = Locale::new("en");
    let mut fmt = MessageFormat::new("''", &locale);
    assert_eq!(fmt.format().unwrap(), "'");
}

#[test]
fn test_brace_text_parameter_is_emitted_verbatim() {
    let locale = Locale::new("en");
    let mut fmt = MessageFormat::new("{V}", &locale);
    assert_eq!(
        fmt.format_with_params(&params(vec![("V", ParamValue::from_text("} {"))]))
            .unwrap(),
        "} {"
    );
}

#[test]
fn test_parse_number_reads_integers_then_decimals() {
    assert_eq!(
        ParamValue::parse_number("42").unwrap(),
        ParamValue::from_int(42)
    );
    assert_eq!(
        ParamValue::parse_number("-7").unwrap(),
        ParamValue::from_int(-7)
    );
    assert_eq!(
        ParamValue::parse_number("10.00").unwrap(),
        ParamValue::from_int(10)
    );
    assert!(ParamValue::parse_number("1.5").is_some());
    assert!(ParamValue::parse_number("male").is_none());
    assert!(ParamValue::parse_number("").is_none());
    assert!(ParamValue::parse_number("1.2.3").is_none());
}

#[test]
fn test_format_with_locale_groups_integers() {
    let locale = Locale::new("en");
    assert_eq!(
        ParamValue::from_int(1234).format_with_locale(&locale),
        "1,234"
    );
    assert_eq!(
        ParamValue::from_text("as is").format_with_locale(&locale),
        "as is"
    );
    let sr = Locale::new("sr");
    assert_eq!(ParamValue::from_int(1235).format_with_locale(&sr), "1.235");
}

#[test]
fn test_placeholder_token_shape() {
    assert_eq!(placeholder(0), "_\u{FDDF}_0_");
    assert_eq!(placeholder(35), "_\u{FDDF}_35_");
}

#[test]
fn test_element_type_and_val_keeps_its_parts() {
    let part = ElementTypeAndVal::new(ElementType::Block, vec!['a', 'b']);
    assert!(matches!(part.typ, ElementType::Block));
    assert_eq!(part.value, vec!['a', 'b']);
}

#[test]
fn test_exact_match_beats_category() {
    let locale = Locale::new("en");
    let mut fmt = MessageFormat::new(
        "{N, plural, offset:1 =1 {exactly one} one {category one} other {rest}}",
        &locale,
    );
    // raw value 1 matches =1 even though category(|1-1|) would be another branch
    assert_eq!(
        fmt.format_with_params(&params(vec![("N", ParamValue::from_int(1))]))
            .unwrap(),
        "exactly one"
    );
    // raw value 2 has no exact key: category(|2-1|) = one
    assert_eq!(
        fmt.format_with_params(&params(vec![("N", ParamValue::from_int(2))]))
            .unwrap(),
        "category one"
    );
}

#[test]
fn test_select_falls_back_to_other() {
    let locale = Locale::new("en");
    let mut fmt = MessageFormat::new(
        "{K, select, alpha {first} other {fallback}}",
        &locale,
    );
    assert_eq!(
        fmt.format_with_params(&params(vec![("K", ParamValue::from_text("alpha"))]))
            .unwrap(),
        "first"
    );
    assert_eq!(
        fmt.format_with_params(&params(vec![("K", ParamValue::from_text("beta"))]))
            .unwrap(),
        "fallback"
    );
}
