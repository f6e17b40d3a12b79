use rusted_wizard_core::console::{phase_label, prompt, read_count};
use rusted_wizard_core::text::{parse_trimmed, parse_unsigned};
use rusted_wizard_core::{Player, RoundState};

#[test]
fn labels_per_phase() {
    assert_eq!(phase_label(RoundState::Tipping), "Tipping");
    assert_eq!(phase_label(RoundState::Retipping), "Retipping");
    assert_eq!(phase_label(RoundState::Playing), "Matching");
    assert_eq!(phase_label(RoundState::Checking), "");
    assert_eq!(phase_label(RoundState::End), "");
}

#[test]
fn prompt_names_phase_and_player() {
    let ann = Player::new(String::from("Ann"));
    assert_eq!(prompt(&ann, &RoundState::Tipping), "> Tipping of Ann: ");
    assert_eq!(prompt(&ann, &RoundState::Retipping), "> Retipping of Ann: ");
    assert_eq!(prompt(&ann, &RoundState::Playing), "> Matching of Ann: ");
    assert_eq!(prompt(&ann, &RoundState::End), ">  of Ann: ");
}

#[test]
fn read_count_takes_a_number_from_a_line() {
    assert_eq!(read_count("0\n"), 0);
    assert_eq!(read_count("7\n"), 7);
    assert_eq!(read_count("  12  \r\n"), 12);
    assert_eq!(read_count("255"), 255);
    assert_eq!(read_count("+3"), 3);
    assert_eq!(read_count("007"), 7);
    assert_eq!(read_count("\t\u{a0}9\u{3000}"), 9);
}

#[test]
fn read_count_is_zero_for_anything_else() {
    for line in ["", "\n", "   ", "abc", "1 2", "-1", "-0", "256", "1000", "3.5", "+", "++1", "1+", "0x10"] {
        assert_eq!(read_count(line), 0, "{:?}", line);
    }
    assert_eq!(read_count("99999999999999999999999999999999"), 0);
    assert_eq!(read_count("\u{663}"), 0);
}

#[test]
fn read_count_agrees_with_the_standard_parser() {
    let lines = [
        "", " ", "0", "1", "9", "10", "99", "128", "255", "256", "300", "0255", "00000000000000000000000000000000000007",
        "+0", "+255", "+256", "-5", " 5", "5 ", " 5 \n", "\n5\n", "5\n\n", "\u{2003}5\u{205f}", "5a", "a5", "５", "1_0", "1e2",
        "\u{200b}5", "18446744073709551616", "18446744073709551615", "+ 5",
    ];
    for line in lines {
        let expected = line.trim().parse::<u8>().unwrap_or(0);
        assert_eq!(read_count(line), expected, "{:?}", line);
    }
}

#[test]
fn parse_unsigned_reads_whole_texts_only() {
    assert_eq!(parse_unsigned("0"), Some(0));
    assert_eq!(parse_unsigned("42"), Some(42));
    assert_eq!(parse_unsigned("+42"), Some(42));
    assert_eq!(parse_unsigned("0042"), Some(42));
    assert_eq!(parse_unsigned(""), None);
    assert_eq!(parse_unsigned("+"), None);
    assert_eq!(parse_unsigned(" 42"), None);
    assert_eq!(parse_unsigned("42 "), None);
    assert_eq!(parse_unsigned("4 2"), None);
    assert_eq!(parse_unsigned("-42"), None);
    assert_eq!(parse_unsigned("42a"), None);
}

#[test]
fn parse_unsigned_at_the_limit_of_the_word() {
    let max = usize::MAX.to_string();
    assert_eq!(parse_unsigned(&max), Some(usize::MAX));
    let mut above = max.clone();
    above.push('0');
    assert_eq!(parse_unsigned(&above), None);
    let bumped = format!("{}", usize::MAX as u128 + 1);
    assert_eq!(parse_unsigned(&bumped), None);
    assert_eq!(parse_unsigned(&format!("{}x", bumped)), None);
}

#[test]
fn parse_unsigned_agrees_with_the_standard_parser() {
    let texts = ["", "0", "5", "+5", "-5", "05", "5 ", "55", "+", "+-5", "5+", "١", "1,000", "12345678901234567890123"];
    for text in texts {
        assert_eq!(parse_unsigned(text), text.parse::<usize>().ok(), "{:?}", text);
    }
}

#[test]
fn parse_trimmed_ignores_surrounding_white_space() {
    assert_eq!(parse_trimmed("  42\n"), Some(42));
    assert_eq!(parse_trimmed("\u{1680}42\u{2028}\u{2029}"), Some(42));
    assert_eq!(parse_trimmed("4 2"), None);
    assert_eq!(parse_trimmed("   "), None);
    assert_eq!(parse_trimmed(""), None);
    assert_eq!(parse_trimmed("\u{200b}42"), None);
    for c in (0u32..0x3100).filter_map(char::from_u32) {
        let text = format!("{}7{}", c, c);
        assert_eq!(parse_trimmed(&text), text.trim().parse::<usize>().ok(), "{:?}", c);
    }
}
