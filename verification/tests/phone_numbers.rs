use phone_scraper::{find_phone_numbers, Tally, PHONE_PATTERN};

fn scan(text: &str) -> Tally {
    find_phone_numbers(text).expect("the phone number pattern compiles")
}

fn pairs(tally: &Tally) -> Vec<(String, usize)> {
    tally.entries()
}

fn pair(text: &str, count: usize) -> (String, usize) {
    (text.to_string(), count)
}

#[test]
fn pattern_is_the_documented_shape() {
    assert_eq!(PHONE_PATTERN, "\\(?\\d{3}\\)?[ -]\\d{3}[ -]\\d{4}");
}

#[test]
fn pattern_compiles() {
    assert!(regex::Regex::new(PHONE_PATTERN).is_ok());
    assert!(find_phone_numbers("").is_ok());
}

#[test]
fn one_number_in_a_sentence() {
    let tally = scan("Call 555-123-4567 now");
    assert_eq!(pairs(&tally), vec![pair("555-123-4567", 1)]);
    assert_eq!(tally.get("555-123-4567"), Some(1));
    assert_eq!(tally.len(), 1);
    assert!(!tally.is_empty());
}

#[test]
fn different_formatting_gives_different_keys() {
    let tally = scan("(555) 123-4567 or 555-123-4567 again");
    assert_eq!(tally.len(), 2);
    assert_eq!(tally.get("(555) 123-4567"), Some(1));
    assert_eq!(tally.get("555-123-4567"), Some(1));
    assert_eq!(pairs(&tally), vec![pair("(555) 123-4567", 1), pair("555-123-4567", 1)]);
}

#[test]
fn repeated_number_is_counted_twice() {
    let tally = scan("555-123-4567 555-123-4567");
    assert_eq!(pairs(&tally), vec![pair("555-123-4567", 2)]);
    assert_eq!(tally.get("555-123-4567"), Some(2));
    assert_eq!(tally.len(), 1);
}

#[test]
fn text_without_numbers_gives_empty_tally() {
    let tally = scan("no numbers here");
    assert!(tally.is_empty());
    assert_eq!(tally.len(), 0);
    assert_eq!(pairs(&tally), Vec::<(String, usize)>::new());
    assert_eq!(tally.get("no numbers here"), None);
}

#[test]
fn empty_text_gives_empty_tally() {
    let tally = scan("");
    assert!(tally.is_empty());
    assert_eq!(tally.len(), 0);
}

#[test]
fn counts_add_up_to_the_number_of_matches() {
    let text = "a 555-123-4567 b (555) 123-4567 c 555-123-4567, 555 123 4567; 555-123-4567.";
    let tally = scan(text);
    let found: Vec<String> = regex::Regex::new(PHONE_PATTERN)
        .expect("the phone number pattern compiles")
        .find_iter(text)
        .map(|m| m.as_str().to_string())
        .collect();
    assert_eq!(found.len(), 5);
    let mut sum: usize = 0;
    for (_, count) in pairs(&tally) {
        sum += count;
    }
    assert_eq!(sum, 5);
    assert_eq!(
        pairs(&tally),
        vec![pair("555-123-4567", 3), pair("(555) 123-4567", 1), pair("555 123 4567", 1)]
    );
}

#[test]
fn scanning_twice_gives_the_same_tally() {
    let text = "(555) 123-4567 or 555-123-4567 again, 555-123-4567";
    let first = scan(text);
    let second = scan(text);
    assert_eq!(pairs(&first), pairs(&second));
    assert_eq!(first.len(), second.len());
    assert_eq!(pairs(&first), vec![pair("(555) 123-4567", 1), pair("555-123-4567", 2)]);
}

#[test]
fn parentheses_need_not_pair() {
    let opened = scan("x (555-123-4567 y");
    assert_eq!(pairs(&opened), vec![pair("(555-123-4567", 1)]);
    let closed = scan("x 555) 123-4567 y");
    assert_eq!(pairs(&closed), vec![pair("555) 123-4567", 1)]);
}

#[test]
fn separators_may_differ_within_one_number() {
    let tally = scan("555 123-4567 and 555-123 4567");
    assert_eq!(pairs(&tally), vec![pair("555 123-4567", 1), pair("555-123 4567", 1)]);
}

#[test]
fn other_separators_do_not_match() {
    assert!(scan("555.123.4567").is_empty());
    assert!(scan("5551234567").is_empty());
    assert!(scan("555\t123\t4567").is_empty());
    assert!(scan("555--123-4567").is_empty());
    assert!(scan("555-123-456").is_empty());
    assert!(scan("55-123-4567").is_empty());
}

#[test]
fn match_may_sit_inside_a_longer_run_of_digits() {
    let tally = scan("1234-567-89012");
    assert_eq!(pairs(&tally), vec![pair("234-567-8901", 1)]);
}

#[test]
fn second_opening_parenthesis_stays_outside() {
    let tally = scan("((555) 123-4567");
    assert_eq!(pairs(&tally), vec![pair("(555) 123-4567", 1)]);
}

#[test]
fn matches_do_not_overlap() {
    let tally = scan("555-123-4567 123 4567");
    assert_eq!(pairs(&tally), vec![pair("555-123-4567", 1)]);
    let chained = scan("555-123-4567-890-1234");
    assert_eq!(pairs(&chained), vec![pair("555-123-4567", 1)]);
}

#[test]
fn adjacent_numbers_are_both_found() {
    let tally = scan("555-123-4567555-123-4567");
    assert_eq!(pairs(&tally), vec![pair("555-123-4567", 2)]);
}

#[test]
fn digits_of_other_scripts_count_as_digits() {
    let text = "\u{665}\u{665}\u{665}-\u{661}\u{662}\u{663}-\u{664}\u{665}\u{666}\u{667}";
    let tally = scan(text);
    assert_eq!(pairs(&tally), vec![pair(text, 1)]);
}

#[test]
fn numbers_on_several_lines() {
    let tally = scan("555-123-4567\n(555) 123-4567\n555-123-4567\n");
    assert_eq!(pairs(&tally), vec![pair("555-123-4567", 2), pair("(555) 123-4567", 1)]);
}

#[test]
fn number_may_not_span_a_line_break() {
    assert!(scan("555\n123-4567").is_empty());
}

#[test]
fn found_matches_are_tallied() {
    let found = Ok(vec![
        "555-123-4567".to_string(),
        "555 123 4567".to_string(),
        "555-123-4567".to_string(),
    ]);
    let tally = phone_scraper::tally_found(found).expect("matches give a tally");
    assert_eq!(pairs(&tally), vec![pair("555-123-4567", 2), pair("555 123 4567", 1)]);
}

#[test]
fn refused_pattern_gives_the_engines_message() {
    let refusal = regex::Regex::new("(").expect_err("an unclosed group is no pattern");
    let expected = refusal.to_string();
    match phone_scraper::tally_found(Err(refusal)) {
        Ok(_) => panic!("a refusal gives no tally"),
        Err(error) => {
            assert_eq!(error.message, expected);
            assert!(!error.message.is_empty());
        }
    }
}

#[test]
fn oversized_pattern_gives_the_engines_message() {
    let refusal = regex::Regex::new(r"\w{1000}").expect_err("the pattern is too big");
    let expected = refusal.to_string();
    assert!(matches!(refusal, regex::Error::CompiledTooBig(_)));
    match phone_scraper::tally_found(Err(refusal)) {
        Ok(_) => panic!("a refusal gives no tally"),
        Err(error) => assert_eq!(error.message, expected),
    }
}

#[test]
fn search_succeeds_whatever_the_text_holds() {
    let texts = [
        "",
        " ",
        "no numbers here",
        "555-123-4567",
        "((((",
        "))))",
        "(555",
        "\u{e9}555-123-4567\u{e9}",
        "\u{1f4de} 555 123 4567 \u{1f4de}",
        "\u{665}55-123-4567",
        "555-123-4567\0(555) 123-4567",
    ];
    for text in texts {
        assert!(find_phone_numbers(text).is_ok());
    }
}

#[test]
fn multi_byte_neighbours_stay_outside_the_match() {
    let tally = scan("\u{e9}555-123-4567\u{e9} \u{1f4de}(555) 123-4567\u{1f4de}");
    assert_eq!(pairs(&tally), vec![pair("555-123-4567", 1), pair("(555) 123-4567", 1)]);
}

#[test]
fn search_of_a_long_text_succeeds() {
    let mut text = String::new();
    for _ in 0..2000 {
        text.push_str("call 555-123-4567 or (555) 123-4567; ");
    }
    let tally = scan(&text);
    assert_eq!(pairs(&tally), vec![pair("555-123-4567", 2000), pair("(555) 123-4567", 2000)]);
}
