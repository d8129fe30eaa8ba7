use message_format::locale::Locale;
use message_format::param::ParamValue;
use message_format::MessageFormat;

fn params(list: Vec<(&str, ParamValue)>) -> Vec<(String, ParamValue)> {
    list.into_iter().map(|(k, v)| (k.to_string(), v)).collect()
}

fn num(n: i64) -> ParamValue {
    ParamValue::from_int(n)
}

fn text(s: &str) -> ParamValue {
    ParamValue::from_text(s)
}

#[test]
fn test_empty_pattern() {
    let locale = Locale::new("en");
    let mut fmt = MessageFormat::new("", &locale);
    assert_eq!(fmt.format().unwrap(), "");
}

#[test]
fn test_simple_replacement() {
    let locale = Locale::new("en");
    let mut fmt = MessageFormat::new("New York in {SEASON} is nice.", &locale);
    assert_eq!(
        fmt.format_with_params(&params(vec![("SEASON", text("the Summer"))]))
            .unwrap(),
        "New York in the Summer is nice."
    );
}

#[test]
fn test_simple_select() {
    let locale = Locale::new("en");
    let mut fmt = MessageFormat::new(
        "{GENDER, select,\
        male {His}\
        female {Her}\
        other {Their}} \
        bicycle is {GENDER, select, male {blue} female {red} other {green}}.",
        &locale,
    );
    assert_eq!(
        fmt.format_with_params(&params(vec![("GENDER", text("male"))]))
            .unwrap(),
        "His bicycle is blue."
    );
    assert_eq!(
        fmt.format_with_params(&params(vec![("GENDER", text("female"))]))
            .unwrap(),
        "Her bicycle is red."
    );
    assert_eq!(
        fmt.format_with_params(&params(vec![("GENDER", text("other"))]))
            .unwrap(),
        "Their bicycle is green."
    );
    assert_eq!(
        fmt.format_with_params(&params(vec![("GENDER", text("any"))]))
            .unwrap(),
        "Their bicycle is green."
    );
}

#[test]
fn test_simple_plural() {
    let locale = Locale::new("en");
    let mut fmt = MessageFormat::new(
        "I see {NUM_PEOPLE, plural, offset:1 \
        =0 {no one at all in {PLACE}.} \
        =1 {{PERSON} in {PLACE}.} \
        one {{PERSON} and one other person in {PLACE}.} \
        other {{PERSON} and # other people in {PLACE}.}}",
        &locale,
    );
    assert_eq!(
        fmt.format_with_params(&params(vec![
            ("NUM_PEOPLE", num(0)),
            ("PLACE", text("Belgrade"))
        ]))
        .unwrap(),
        "I see no one at all in Belgrade."
    );
    assert_eq!(
        fmt.format_with_params(&params(vec![
            ("NUM_PEOPLE", num(1)),
            ("PERSON", text("Markus")),
            ("PLACE", text("Berlin"))
        ]))
        .unwrap(),
        "I see Markus in Berlin."
    );
    assert_eq!(
        fmt.format_with_params(&params(vec![
            ("NUM_PEOPLE", num(2)),
            ("PERSON", text("Mark")),
            ("PLACE", text("Athens"))
        ]))
        .unwrap(),
        "I see Mark and one other person in Athens."
    );
    assert_eq!(
        fmt.format_with_params(&params(vec![
            ("NUM_PEOPLE", num(100)),
            ("PERSON", text("Cibu")),
            ("PLACE", text("the cubes"))
        ]))
        .unwrap(),
        "I see Cibu and 99 other people in the cubes."
    );
}

#[test]
fn test_select_nested_in_plural() {
    let locale = Locale::new("en");
    let mut fmt = MessageFormat::new(
        "{CIRCLES, plural, \
    one {{GENDER, select, \
      female {{WHO} added you to her circle} \
      other  {{WHO} added you to his circle}}} \
    other {{GENDER, select,
      female {{WHO} added you to her # circles} \
      other  {{WHO} added you to his # circles}}}}",
        &locale,
    );
    assert_eq!(
        fmt.format_with_params(&params(vec![
            ("GENDER", text("female")),
            ("WHO", text("Jelena")),
            ("CIRCLES", num(1))
        ]))
        .unwrap(),
        "Jelena added you to her circle",
    );
    assert_eq!(
        fmt.format_with_params(&params(vec![
            ("GENDER", text("male")),
            ("WHO", text("Milan")),
            ("CIRCLES", num(1234))
        ]))
        .unwrap(),
        "Milan added you to his 1,234 circles",
    );
}

#[test]
fn test_plural_nested_in_select() {
    let locale = Locale::new("en");
    let mut fmt = MessageFormat::new(
        "{GENDER, select, \
    female {{NUM_GROUPS, plural, \
      one {{WHO} added you to her group} \
      other {{WHO} added you to her # groups}}} \
    other {{NUM_GROUPS, plural, offset,1\
      one {{WHO} added you to his group} \
      other {{WHO} added you to his # groups}}}}",
        &locale,
    );

    assert_eq!(
        fmt.format_with_params(&params(vec![
            ("GENDER", text("female")),
            ("WHO", text("Jelena")),
            ("NUM_GROUPS", num(1))
        ]))
        .unwrap(),
        "Jelena added you to her group",
    );
    assert_eq!(
        fmt.format_with_params(&params(vec![
            ("GENDER", text("male")),
            ("WHO", text("Milan")),
            ("NUM_GROUPS", num(1234))
        ]))
        .unwrap(),
        "Milan added you to his 1,234 groups",
    );
}

#[test]
fn test_literal_open_curly_brace() {
    let locale = Locale::new("en");
    let mut fmt = MessageFormat::new(
        "Anna's house has '{0} and # in the roof' and {NUM_COWS} cows.",
        &locale,
    );
    assert_eq!(
        fmt.format_with_params(&params(vec![("NUM_COWS", num(5))]))
            .unwrap(),
        "Anna's house has {0} and # in the roof and 5 cows."
    );
}

#[test]
fn test_literal_closed_curly_brace() {
    let locale = Locale::new("en");
    let mut fmt = MessageFormat::new(
        "Anna's house has '{'0'} and # in the roof' and {NUM_COWS} cows.",
        &locale,
    );
    assert_eq!(
        fmt.format_with_params(&params(vec![("NUM_COWS", num(5))]))
            .unwrap(),
        "Anna's house has {0} and # in the roof and 5 cows."
    );
    assert_eq!(
        fmt.format_with_params(&params(vec![("NUM_COWS", num(8))]))
            .unwrap(),
        "Anna's house has {0} and # in the roof and 8 cows."
    );
}

#[test]
fn test_literal_pound_sign() {
    let locale = Locale::new("en");
    let mut fmt = MessageFormat::new(
        "Anna's house has '{0}' and '# in the roof' and {NUM_COWS} cows.",
        &locale,
    );
    assert_eq!(
        fmt.format_with_params(&params(vec![("NUM_COWS", num(5))]))
            .unwrap(),
        "Anna's house has {0} and # in the roof and 5 cows."
    );
    assert_eq!(
        fmt.format_with_params(&params(vec![("NUM_COWS", num(10))]))
            .unwrap(),
        "Anna's house has {0} and # in the roof and 10 cows."
    );
}

#[test]
fn test_no_literals_for_single_quotes() {
    let locale = Locale::new("en");
    let mut fmt = MessageFormat::new("Anna's house 'has {NUM_COWS} cows'.", &locale);
    assert_eq!(
        fmt.format_with_params(&params(vec![("NUM_COWS", num(5))]))
            .unwrap(),
        "Anna's house 'has 5 cows'."
    );
}

#[test]
fn test_consecutive_single_quotes_are_replaced_with_one_single_quote() {
    let locale = Locale::new("en");
    let mut fmt = MessageFormat::new("Anna''s house a'{''''b'", &locale);
    assert_eq!(fmt.format().unwrap(), "Anna's house a{''b");
}

#[test]
fn test_test_consecutive_single_quotes_before_special_char_dont_create_literal() {
    let locale = Locale::new("en");
    let mut fmt = MessageFormat::new("a''{NUM_COWS}'b", &locale);
    assert_eq!(
        fmt.format_with_params(&params(vec![("NUM_COWS", num(5))]))
            .unwrap(),
        "a'5'b"
    );
}

#[test]
fn test_serbian_simple_select() {
    let locale = Locale::new("en");
    let mut fmt = MessageFormat::new(
        "{GENDER, select, female {Njen} other {Njegov}} bicikl je \
         {GENDER, select, female {crven} other {plav}}.",
        &locale,
    );

    assert_eq!(
        fmt.format_with_params(&params(vec![("GENDER", text("male"))]))
            .unwrap(),
        "Njegov bicikl je plav."
    );
    assert_eq!(
        fmt.format_with_params(&params(vec![("GENDER", text("female"))]))
            .unwrap(),
        "Njen bicikl je crven."
    );
}

#[test]
fn test_serbian_simple_plural() {
    let locale = Locale::new("sr");
    let mut fmt = MessageFormat::new(
        "Ja {NUM_PEOPLE, plural, offset:1 \
        =0 {ne vidim nikoga} \
        =1 {vidim {PERSON}} \
        one {vidim {PERSON} i jos # osobu} \
        few {vidim {PERSON} i jos # osobe} \
        many {vidim {PERSON} i jos # osoba} \
        other {vidim {PERSON} i jos # osoba}} \
      u {PLACE}.",
        &locale,
    );

    assert_eq!(
        fmt.format_with_params(&params(vec![
            ("NUM_PEOPLE", num(0)),
            ("PLACE", text("Beogradu"))
        ]))
        .unwrap(),
        "Ja ne vidim nikoga u Beogradu."
    );
    assert_eq!(
        fmt.format_with_params(&params(vec![
            ("NUM_PEOPLE", num(1)),
            ("PERSON", text("Markusa")),
            ("PLACE", text("Berlinu"))
        ]))
        .unwrap(),
        "Ja vidim Markusa u Berlinu."
    );
    assert_eq!(
        fmt.format_with_params(&params(vec![
            ("NUM_PEOPLE", num(2)),
            ("PERSON", text("Marka")),
            ("PLACE", text("Atini"))
        ]))
        .unwrap(),
        "Ja vidim Marka i jos 1 osobu u Atini."
    );
    assert_eq!(
        fmt.format_with_params(&params(vec![
            ("NUM_PEOPLE", num(4)),
            ("PERSON", text("Petra")),
            ("PLACE", text("muzeju"))
        ]))
        .unwrap(),
        "Ja vidim Petra i jos 3 osobe u muzeju."
    );
    assert_eq!(
        fmt.format_with_params(&params(vec![
            ("NUM_PEOPLE", num(100)),
            ("PERSON", text("Cibua")),
            ("PLACE", text("bazenu"))
        ]))
        .unwrap(),
        "Ja vidim Cibua i jos 99 osoba u bazenu."
    );
}

#[test]
fn test_test_serbian_simple_plural_no_offset() {
    let locale = Locale::new("sr");
    let mut fmt = MessageFormat::new(
        "Ja {NUM_PEOPLE, plural, \
        =0 {ne vidim nikoga} \
        =1 {vidim {PERSON}} \
        one {vidim {PERSON} i jos # osobu} \
        few {vidim {PERSON} i jos # osobe} \
        many {vidim {PERSON} i jos # osoba} \
        other {vidim {PERSON} i jos # osoba}} \
      u {PLACE}.",
        &locale,
    );

    assert_eq!(
        fmt.format_with_params(&params(vec![
            ("NUM_PEOPLE", num(0)),
            ("PLACE", text("Beogradu"))
        ]))
        .unwrap(),
        "Ja ne vidim nikoga u Beogradu."
    );
    assert_eq!(
        fmt.format_with_params(&params(vec![
            ("NUM_PEOPLE", num(1)),
            ("PERSON", text("Markusa")),
            ("PLACE", text("Berlinu"))
        ]))
        .unwrap(),
        "Ja vidim Markusa u Berlinu."
    );
    assert_eq!(
        fmt.format_with_params(&params(vec![
            ("NUM_PEOPLE", num(21)),
            ("PERSON", text("Marka")),
            ("PLACE", text("Atini"))
        ]))
        .unwrap(),
        "Ja vidim Marka i jos 21 osobu u Atini."
    );
    assert_eq!(
        fmt.format_with_params(&params(vec![
            ("NUM_PEOPLE", num(3)),
            ("PERSON", text("Petra")),
            ("PLACE", text("muzeju"))
        ]))
        .unwrap(),
        "Ja vidim Petra i jos 3 osobe u muzeju."
    );
    assert_eq!(
        fmt.format_with_params(&params(vec![
            ("NUM_PEOPLE", num(100)),
            ("PERSON", text("Cibua")),
            ("PLACE", text("bazenu"))
        ]))
        .unwrap(),
        "Ja vidim Cibua i jos 100 osoba u bazenu."
    );
}

#[test]
fn test_test_serbian_select_nested_in_plural() {
    let locale = Locale::new("sr");
    let mut fmt = MessageFormat::new(
        "{CIRCLES, plural, \
        one {{GENDER, select, \
          female {{WHO} vas je dodala u njen # kruzok} \
          other  {{WHO} vas je dodao u njegov # kruzok}}} \
        few {{GENDER, select, \
          female {{WHO} vas je dodala u njena # kruzoka} \
          other  {{WHO} vas je dodao u njegova # kruzoka}}} \
        many {{GENDER, select, \
          female {{WHO} vas je dodala u njenih # kruzoka} \
          other  {{WHO} vas je dodao u njegovih # kruzoka}}} \
        other {{GENDER, select, \
          female {{WHO} vas je dodala u njenih # kruzoka} \
          other  {{WHO} vas je dodao u njegovih # kruzoka}}}}",
        &locale,
    );

    assert_eq!(
        fmt.format_with_params(&params(vec![
            ("GENDER", text("female")),
            ("WHO", text("Jelena")),
            ("CIRCLES", num(21))
        ]))
        .unwrap(),
        "Jelena vas je dodala u njen 21 kruzok"
    );
    assert_eq!(
        fmt.format_with_params(&params(vec![
            ("GENDER", text("female")),
            ("WHO", text("Jelena")),
            ("CIRCLES", num(3))
        ]))
        .unwrap(),
        "Jelena vas je dodala u njena 3 kruzoka"
    );
    assert_eq!(
        fmt.format_with_params(&params(vec![
            ("GENDER", text("female")),
            ("WHO", text("Jelena")),
            ("CIRCLES", num(5))
        ]))
        .unwrap(),
        "Jelena vas je dodala u njenih 5 kruzoka"
    );
    assert_eq!(
        fmt.format_with_params(&params(vec![
            ("GENDER", text("male")),
            ("WHO", text("Milan")),
            ("CIRCLES", num(1235))
        ]))
        .unwrap(),
        "Milan vas je dodao u njegovih 1.235 kruzoka"
    );
}

#[test]
fn test_test_fallback_to_other_option_in_plurals() {
    let locale = Locale::new("ar-DZ");
    let mut fmt = MessageFormat::new("{NUM_MINUTES, plural, other {# minutes}}", &locale);

    assert_eq!(
        fmt.format_with_params(&params(vec![("NUM_MINUTES", num(0))]))
            .unwrap(),
        "0 minutes"
    );
    assert_eq!(
        fmt.format_with_params(&params(vec![("NUM_MINUTES", num(1))]))
            .unwrap(),
        "1 minutes"
    );
    assert_eq!(
        fmt.format_with_params(&params(vec![("NUM_MINUTES", num(2))]))
            .unwrap(),
        "2 minutes"
    );
    assert_eq!(
        fmt.format_with_params(&params(vec![("NUM_MINUTES", num(3))]))
            .unwrap(),
        "3 minutes"
    );
    assert_eq!(
        fmt.format_with_params(&params(vec![("NUM_MINUTES", num(11))]))
            .unwrap(),
        "11 minutes"
    );
    assert_eq!(
        fmt.format_with_params(&params(vec![(
            "NUM_MINUTES",
            ParamValue::parse_number("1.5").unwrap()
        )]))
        .unwrap(),
        "1,5 minutes"
    );
}

#[test]
fn test_test_pound_shows_number_minus_offset_in_all_cases() {
    let locale = Locale::new("en");
    let mut fmt = MessageFormat::new(
        "{SOME_NUM, plural, offset:1 =0 {#} =1 {#} =2 {#} one {#} other {#}}",
        &locale,
    );

    assert_eq!(
        fmt.format_with_params(&params(vec![("SOME_NUM", num(0))]))
            .unwrap(),
        "-1"
    );
    assert_eq!(
        fmt.format_with_params(&params(vec![("SOME_NUM", num(1))]))
            .unwrap(),
        "0"
    );
    assert_eq!(
        fmt.format_with_params(&params(vec![("SOME_NUM", num(2))]))
            .unwrap(),
        "1"
    );
    assert_eq!(
        fmt.format_with_params(&params(vec![("SOME_NUM", num(21))]))
            .unwrap(),
        "20"
    );
}

#[test]
fn test_test_special_characters_in_paramater_dont_change_format() {
    let locale = Locale::new("en");
    let mut fmt = MessageFormat::new("{SOME_NUM, plural, other {# {GROUP}}}", &locale);

    assert_eq!(
        fmt.format_with_params(&params(vec![
            ("SOME_NUM", num(10)),
            ("GROUP", text("group#1"))
        ]))
        .unwrap(),
        "10 group#1"
    );
    assert_eq!(
        fmt.format_with_params(&params(vec![("SOME_NUM", num(10)), ("GROUP", text("} {"))]))
            .unwrap(),
        "10 } {"
    );
}

#[test]
fn test_test_missing_or_invalid_plural_parameter() {
    let locale = Locale::new("en");
    let mut fmt = MessageFormat::new("{SOME_NUM, plural, other {result}}", &locale);

    assert_eq!(
        fmt.format_with_params(&params(vec![("A", num(10))])).unwrap(),
        "Undefined parameter - SOME_NUM"
    );

    assert_eq!(
        fmt.format_with_params(&params(vec![("SOME_NUM", text("Value"))]))
            .unwrap(),
        "Invalid parameter - SOME_NUM"
    );
}

#[test]
fn test_test_missing_select_parameter() {
    let locale = Locale::new("en");
    let mut fmt = MessageFormat::new("{GENDER, select, other {result}}", &locale);

    assert_eq!(
        fmt.format_with_params(&params(vec![("A", text("female"))]))
            .unwrap(),
        "Undefined parameter - GENDER"
    );
}

#[test]
fn test_test_missing_simple_placeholder() {
    let locale = Locale::new("en");
    let mut fmt = MessageFormat::new("{result}", &locale);

    assert_eq!(
        fmt.format_with_params(&params(vec![("A", text("none"))]))
            .unwrap(),
        "Undefined parameter - result"
    );
}

#[test]
fn test_test_plural() {
    let locale = Locale::new("ru");
    let mut fmt = MessageFormat::new(
        "{SOME_NUM, plural,\
        =0 {none}\
        =1 {exactly one}\
        one {# one}\
        few {# few}\
        many {# many}\
        other {# other}\
      }",
        &locale,
    );

    assert_eq!(
        fmt.format_with_params(&params(vec![("SOME_NUM", num(0))]))
            .unwrap(),
        "none"
    );
    assert_eq!(
        fmt.format_with_params(&params(vec![("SOME_NUM", num(1))]))
            .unwrap(),
        "exactly one"
    );
    assert_eq!(
        fmt.format_with_params(&params(vec![("SOME_NUM", num(21))]))
            .unwrap(),
        "21 one"
    );
    assert_eq!(
        fmt.format_with_params(&params(vec![("SOME_NUM", num(23))]))
            .unwrap(),
        "23 few"
    );
    assert_eq!(
        fmt.format_with_params(&params(vec![("SOME_NUM", num(17))]))
            .unwrap(),
        "17 many"
    );
    assert_eq!(
        fmt.format_with_params(&params(vec![("SOME_NUM", num(100))]))
            .unwrap(),
        "100 many"
    );
    assert_eq!(
        fmt.format_with_params(&params(vec![(
            "SOME_NUM",
            ParamValue::parse_number("1.4").unwrap()
        )]))
        .unwrap(),
        "1,4 other"
    );
    assert_eq!(
        fmt.format_with_params(&params(vec![("SOME_NUM", text("10.0"))]))
            .unwrap(),
        "10 many"
    );
    assert_eq!(
        fmt.format_with_params(&params(vec![("SOME_NUM", text("100.00"))]))
            .unwrap(),
        "100 many"
    );
}

#[test]
fn test_test_plural_with_ignore_pound() {
    let locale = Locale::new("en");
    let mut fmt = MessageFormat::new("{SOME_NUM, plural, other {# {GROUP}}}", &locale);

    assert_eq!(
        fmt.format_ignoring_pound(&params(vec![
            ("SOME_NUM", num(10)),
            ("GROUP", text("group#1"))
        ]))
        .unwrap(),
        "# group#1"
    );
    assert_eq!(
        fmt.format_ignoring_pound(&params(vec![("SOME_NUM", num(10)), ("GROUP", text("} {"))]))
            .unwrap(),
        "# } {"
    );
}

#[test]
fn test_test_simple_plural_with_ignore_pound() {
    let locale = Locale::new("en");
    let mut fmt = MessageFormat::new(
        "I see {NUM_PEOPLE, plural, offset:1 \
      =0 {no one at all in {PLACE}.} \
      =1 {{PERSON} in {PLACE}.} \
      one {{PERSON} and one other person in {PLACE}.} \
      other {{PERSON} and # other people in {PLACE}.}}",
        &locale,
    );

    assert_eq!(
        fmt.format_ignoring_pound(&params(vec![
            ("NUM_PEOPLE", num(100)),
            ("PERSON", text("Cibu")),
            ("PLACE", text("the cubes"))
        ]))
        .unwrap(),
        "I see Cibu and # other people in the cubes."
    );
}

#[test]
fn test_test_romanian_offset_with_negative_value() {
    let locale = Locale::new("ro");
    let mut fmt = MessageFormat::new(
        "{NUM_FLOOR, plural, offset:2 \
      one {One #}\
      few {Few #}\
      other {Other #}}",
        &locale,
    );

    assert_eq!(
        fmt.format_with_params(&params(vec![("NUM_FLOOR", num(-1))]))
            .unwrap(),
        "Few -3"
    );
    assert_eq!(
        fmt.format_with_params(&params(vec![("NUM_FLOOR", num(1))]))
            .unwrap(),
        "One -1"
    );
    assert_eq!(
        fmt.format_with_params(&params(vec![("NUM_FLOOR", num(-3))]))
            .unwrap(),
        "Few -5"
    );
    assert_eq!(
        fmt.format_with_params(&params(vec![("NUM_FLOOR", num(3))]))
            .unwrap(),
        "One 1"
    );
    assert_eq!(
        fmt.format_with_params(&params(vec![("NUM_FLOOR", num(-25))]))
            .unwrap(),
        "Other -27"
    );
    assert_eq!(
        fmt.format_with_params(&params(vec![("NUM_FLOOR", num(25))]))
            .unwrap(),
        "Other 23"
    );
}

#[test]
fn test_test_simple_ordinal_with_ignore_pound() {
    let locale = Locale::new("en");
    let mut fmt = MessageFormat::new(
        "{NUM_FLOOR, selectordinal, \
      one {Take the elevator to the #st floor.}\
      two {Take the elevator to the #nd floor.}\
      few {Take the elevator to the #rd floor.}\
      other {Take the elevator to the #th floor.}}",
        &locale,
    );

    assert_eq!(
        fmt.format_ignoring_pound(&params(vec![("NUM_FLOOR", num(100))]))
            .unwrap(),
        "Take the elevator to the #th floor."
    );
}

#[test]
fn test_int_float_eq() {
    assert_eq!(ParamValue::parse_number("1.0").unwrap(), ParamValue::from_int(1));
    assert_eq!(ParamValue::from_int(1), ParamValue::parse_number("1.0").unwrap());
    assert_ne!(ParamValue::parse_number("1.1").unwrap(), ParamValue::from_int(1));
    assert_ne!(ParamValue::from_int(1), ParamValue::parse_number("1.1").unwrap());
}
