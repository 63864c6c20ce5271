use vs_mode::text::{
    chars_of, decimal_string, equals_ignoring_ascii_case, is_whitespace, push_dashes, read_number,
    split_identifiers, trim_bounds,
};

fn trimmed(text: &str) -> String {
    let chars = chars_of(text);
    let (start, end) = trim_bounds(&chars, 0, chars.len());
    chars[start..end].iter().collect()
}

fn number(text: &str, max: usize) -> Option<usize> {
    let chars = chars_of(text);
    read_number(&chars, 0, chars.len(), max)
}

#[test]
fn whitespace_is_what_the_standard_library_calls_whitespace() {
    let mut code: u32 = 0;
    while code <= 0x10FFFF {
        if let Some(c) = char::from_u32(code) {
            assert_eq!(is_whitespace(c), c.is_whitespace(), "U+{:04X}", code);
        }
        code += 1;
    }
}

#[test]
fn chars_of_keeps_every_character() {
    assert_eq!(chars_of(""), Vec::<char>::new());
    assert_eq!(chars_of("a,é 越"), vec!['a', ',', 'é', ' ', '越']);
}

#[test]
fn trimming_agrees_with_str_trim() {
    let samples = [
        "",
        " ",
        "\t\n",
        "a",
        " a",
        "a ",
        "  a b  ",
        "\u{A0}x\u{3000}",
        "\r\n 2 \r\n",
        "x\u{200B}",
        " \u{2028}mid dle\u{85} ",
    ];
    for sample in samples {
        assert_eq!(trimmed(sample), sample.trim(), "{:?}", sample);
    }
}

#[test]
fn trimming_a_part_stays_inside_the_part() {
    let chars = chars_of("ab ,  cd  , e");
    assert_eq!(trim_bounds(&chars, 4, 10), (6, 8));
    assert_eq!(trim_bounds(&chars, 4, 6), (6, 6));
    assert_eq!(trim_bounds(&chars, 0, 3), (0, 2));
    assert_eq!(trim_bounds(&chars, 3, 3), (3, 3));
}

#[test]
fn decimal_string_writes_numbers_as_display_does() {
    assert_eq!(decimal_string(0), "0");
    assert_eq!(decimal_string(7), "7");
    assert_eq!(decimal_string(10), "10");
    assert_eq!(decimal_string(109), "109");
    assert_eq!(decimal_string(65535), "65535");
    assert_eq!(decimal_string(usize::MAX), usize::MAX.to_string());
    let mut n: usize = 0;
    while n < 2000 {
        assert_eq!(decimal_string(n), n.to_string());
        n += 1;
    }
}

#[test]
fn read_number_reads_digits_with_an_optional_plus() {
    assert_eq!(number("0", 100), Some(0));
    assert_eq!(number("7", 100), Some(7));
    assert_eq!(number("42", 100), Some(42));
    assert_eq!(number("100", 100), Some(100));
    assert_eq!(number("+5", 100), Some(5));
    assert_eq!(number("007", 100), Some(7));
    assert_eq!(number("+000", 100), Some(0));
}

#[test]
fn read_number_refuses_what_is_no_number() {
    assert_eq!(number("", 100), None);
    assert_eq!(number("+", 100), None);
    assert_eq!(number("-", 100), None);
    assert_eq!(number("-1", 100), None);
    assert_eq!(number("++1", 100), None);
    assert_eq!(number("1+", 100), None);
    assert_eq!(number("1 2", 100), None);
    assert_eq!(number(" 1", 100), None);
    assert_eq!(number("1.0", 100), None);
    assert_eq!(number("0x10", 100), None);
    assert_eq!(number("１", 100), None);
    assert_eq!(number("two", 100), None);
}

#[test]
fn read_number_refuses_what_exceeds_the_bound() {
    assert_eq!(number("101", 100), None);
    assert_eq!(number("1000", 100), None);
    assert_eq!(number("1", 0), None);
    assert_eq!(number("0", 0), Some(0));
    assert_eq!(number("99999999999999999999999999999999999999", usize::MAX), None);
    assert_eq!(number("99999999999999999999999999999999999999x", usize::MAX), None);
    assert_eq!(number(&usize::MAX.to_string(), usize::MAX), Some(usize::MAX));
    assert_eq!(number("18446744073709551616", usize::MAX), None);
}

#[test]
fn read_number_agrees_with_parse() {
    let samples = ["", "+", "+1", "12", "0012", "1a", "-3", "+-3", "4294967296", " 5", "5 "];
    for sample in samples {
        assert_eq!(number(sample, usize::MAX), sample.parse::<usize>().ok(), "{:?}", sample);
    }
}

#[test]
fn read_number_reads_a_part() {
    let chars = chars_of("ab12c+3");
    assert_eq!(read_number(&chars, 2, 4, 50), Some(12));
    assert_eq!(read_number(&chars, 2, 5, 50), None);
    assert_eq!(read_number(&chars, 5, 7, 50), Some(3));
    assert_eq!(read_number(&chars, 5, 6, 50), None);
    assert_eq!(read_number(&chars, 3, 3, 50), None);
}

#[test]
fn keywords_match_in_any_case() {
    let chars = chars_of("xExItx");
    assert!(equals_ignoring_ascii_case(&chars, 1, 5, "exit"));
    assert!(!equals_ignoring_ascii_case(&chars, 0, 5, "exit"));
    assert!(!equals_ignoring_ascii_case(&chars, 1, 4, "exit"));
    assert!(!equals_ignoring_ascii_case(&chars, 1, 5, "quit"));
    let empty = chars_of("");
    assert!(equals_ignoring_ascii_case(&empty, 0, 0, ""));
    assert!(!equals_ignoring_ascii_case(&empty, 0, 0, "exit"));
}

#[test]
fn only_the_case_of_ascii_letters_is_ignored() {
    let kelvin = chars_of("\u{212A}");
    assert!(!equals_ignoring_ascii_case(&kelvin, 0, 1, "k"));
    let accented = chars_of("É");
    assert!(!equals_ignoring_ascii_case(&accented, 0, 1, "é"));
    assert!(equals_ignoring_ascii_case(&accented, 0, 1, "É"));
    let at = chars_of("@");
    assert!(!equals_ignoring_ascii_case(&at, 0, 1, "`"));
    let bracket = chars_of("[");
    assert!(!equals_ignoring_ascii_case(&bracket, 0, 1, "{"));
    for sample in ["exit", "EXIT", "eXiT", "exit ", "exi", "ex1t", "quit", "Quit"] {
        let chars = chars_of(sample);
        assert_eq!(
            equals_ignoring_ascii_case(&chars, 0, chars.len(), "exit"),
            sample.eq_ignore_ascii_case("exit"),
            "{:?}",
            sample
        );
    }
}

#[test]
fn split_identifiers_splits_at_commas_and_trims() {
    assert_eq!(split_identifiers("a,b"), vec!["a", "b"]);
    assert_eq!(split_identifiers(" large-v2 , acme:medium,\tsmall \n"), vec![
        "large-v2",
        "acme:medium",
        "small"
    ]);
    assert_eq!(split_identifiers("one"), vec!["one"]);
    assert_eq!(split_identifiers(""), vec![""]);
    assert_eq!(split_identifiers(","), vec!["", ""]);
    assert_eq!(split_identifiers("a,,b"), vec!["a", "", "b"]);
    assert_eq!(split_identifiers("a, ,b,"), vec!["a", "", "b", ""]);
    assert_eq!(split_identifiers("é , 越"), vec!["é", "越"]);
    assert_eq!(split_identifiers("a b, c  d"), vec!["a b", "c  d"]);
}

#[test]
fn split_identifiers_agrees_with_split_and_trim() {
    let samples = ["", ",", " , ", "a", "a,b,c", " a ,b , c ", ",,", "x,\u{A0}y\u{A0},z"];
    for sample in samples {
        let expected: Vec<String> = sample.split(',').map(|s| s.trim().to_string()).collect();
        assert_eq!(split_identifiers(sample), expected, "{:?}", sample);
    }
}

#[test]
fn push_dashes_draws_the_rule() {
    let mut line = String::from("ab");
    push_dashes(&mut line, 0);
    assert_eq!(line, "ab");
    push_dashes(&mut line, 3);
    assert_eq!(line, "ab---");
    let mut rule = String::new();
    push_dashes(&mut rule, 80);
    assert_eq!(rule, "-".repeat(80));
}
