use jira_session::codec::{canonicalize, decode, encode};
use jira_session::version::{VersionOrder, VersionToken};

fn token(text: &str) -> VersionToken {
    VersionToken::parse(text).unwrap()
}

fn texts(tokens: &Vec<VersionToken>) -> Vec<String> {
    tokens.iter().map(|t| t.to_string()).collect()
}

#[test]
fn parse_reads_segments() {
    assert_eq!(token("7.7.7").to_string(), "7.7.7");
    assert_eq!(token("5").to_string(), "5");
    assert_eq!(token("1.2").to_string(), "1.2");
    assert_eq!(token("0").to_string(), "0");
    assert_eq!(token("10.0.200").to_string(), "10.0.200");
}

#[test]
fn parse_drops_leading_zeros_of_a_segment() {
    assert_eq!(token("007.010").to_string(), "7.10");
}

#[test]
fn parse_takes_the_largest_segment() {
    assert_eq!(token("4294967295").to_string(), "4294967295");
    assert!(VersionToken::parse("4294967296").is_none());
    assert!(VersionToken::parse("1.99999999999999999999").is_none());
}

#[test]
fn parse_refuses_what_is_no_version() {
    assert!(VersionToken::parse("").is_none());
    assert!(VersionToken::parse(".").is_none());
    assert!(VersionToken::parse("1.").is_none());
    assert!(VersionToken::parse(".1").is_none());
    assert!(VersionToken::parse("1..2").is_none());
    assert!(VersionToken::parse("1.x").is_none());
    assert!(VersionToken::parse("v1.2").is_none());
    assert!(VersionToken::parse("-1").is_none());
    assert!(VersionToken::parse("+1").is_none());
    assert!(VersionToken::parse(" 1.2").is_none());
    assert!(VersionToken::parse("1.2 ").is_none());
    assert!(VersionToken::parse("1,2").is_none());
}

#[test]
fn compare_goes_segment_by_segment() {
    assert_eq!(token("1.2").compare(&token("1.10")), VersionOrder::Before);
    assert_eq!(token("1.10").compare(&token("1.2")), VersionOrder::After);
    assert_eq!(token("2").compare(&token("1.9.9")), VersionOrder::After);
    assert_eq!(token("3.4").compare(&token("3.4")), VersionOrder::Same);
}

#[test]
fn compare_counts_missing_segments_as_zero() {
    assert_eq!(token("1").compare(&token("1.0.0")), VersionOrder::Same);
    assert_eq!(token("1.0").compare(&token("1")), VersionOrder::Same);
    assert_eq!(token("1").compare(&token("1.0.1")), VersionOrder::Before);
    assert_eq!(token("1.0.1").compare(&token("1")), VersionOrder::After);
    assert!(token("1").same_as(&token("1.0")));
    assert!(!token("1").same_as(&token("1.1")));
}

#[test]
fn clone_keeps_the_segments() {
    let t = token("3.14.15");
    assert_eq!(t.clone().to_string(), "3.14.15");
}

#[test]
fn decode_is_tolerant() {
    let got = decode("  1.2, 3.4,5,7.7.7  ");
    assert_eq!(texts(&got), vec!["1.2", "3.4", "5", "7.7.7"]);
}

#[test]
fn decode_is_lossy() {
    let got = decode("1.2,  ");
    assert_eq!(texts(&got), vec!["1.2"]);
}

#[test]
fn decode_keeps_the_order_of_the_text() {
    let got = decode("3.4 , 1.2,3.4");
    assert_eq!(texts(&got), vec!["3.4", "1.2", "3.4"]);
}

#[test]
fn decode_drops_what_is_no_version() {
    assert_eq!(texts(&decode("1.2, next, 3")), vec!["1.2", "3"]);
    assert_eq!(texts(&decode("1 2, 3")), vec!["3"]);
    assert!(decode("").is_empty());
    assert!(decode("   ").is_empty());
    assert!(decode(",,,").is_empty());
    assert!(decode("soon").is_empty());
}

#[test]
fn decode_skips_all_kinds_of_white_space() {
    let got = decode("\t1.2\u{a0},\u{2003}3.4\r\n,\u{3000}5\u{85}");
    assert_eq!(texts(&got), vec!["1.2", "3.4", "5"]);
}

#[test]
fn encode_sorts_and_joins() {
    let tokens = vec![token("7.7.7"), token("1.2"), token("5"), token("3.4")];
    assert_eq!(encode(&tokens), "1.2, 3.4, 5, 7.7.7");
}

#[test]
fn encode_keeps_one_of_each_version() {
    let tokens = vec![token("1.2"), token("3"), token("1.2"), token("3"), token("1.2")];
    assert_eq!(encode(&tokens), "1.2, 3");
}

#[test]
fn encode_keeps_the_first_spelling_of_a_version() {
    assert_eq!(encode(&vec![token("1.0"), token("1")]), "1.0");
    assert_eq!(encode(&vec![token("1"), token("1.0"), token("0.9")]), "0.9, 1");
}

#[test]
fn encode_of_nothing_is_empty() {
    assert_eq!(encode(&Vec::new()), "");
    assert_eq!(encode(&vec![token("4")]), "4");
}

#[test]
fn encode_orders_by_number_not_by_text() {
    let tokens = vec![token("10"), token("9"), token("1.10"), token("1.9")];
    assert_eq!(encode(&tokens), "1.9, 1.10, 9, 10");
}

#[test]
fn canonicalize_gives_the_sorted_tokens() {
    let tokens = vec![token("2"), token("1"), token("2.0"), token("1.5")];
    assert_eq!(texts(&canonicalize(&tokens)), vec!["1", "1.5", "2"]);
}

#[test]
fn round_trip_gives_the_sorted_deduplicated_tokens() {
    let tokens = vec![
        token("3.4"),
        token("1.2"),
        token("7.7.7"),
        token("1.2"),
        token("5"),
        token("0.0.1"),
    ];
    let back = decode(encode(&tokens).as_str());
    assert_eq!(texts(&back), vec!["0.0.1", "1.2", "3.4", "5", "7.7.7"]);
    assert_eq!(texts(&back), texts(&canonicalize(&tokens)));
    assert_eq!(encode(&back), encode(&tokens));
}

#[test]
fn round_trip_of_nothing() {
    let none: Vec<VersionToken> = Vec::new();
    assert!(decode(encode(&none).as_str()).is_empty());
}

#[test]
fn decode_agrees_with_a_split_at_commas_and_white_space() {
    let pattern = regex::Regex::new(r"\s*,\s*").unwrap();
    let samples = [
        "  1.2, 3.4,5,7.7.7  ",
        "1.2,  ",
        "",
        " , ",
        "1 , 2 ,\t3",
        "1.0,,2",
        "a, 1.1 ,b",
        "\u{a0}4.5\u{2009},\u{2009}6\u{3000}",
        "1 .2, 3",
        ",1",
    ];
    for text in samples {
        let expected: Vec<String> = pattern
            .split(text.trim())
            .filter_map(|piece| VersionToken::parse(piece))
            .map(|t| t.to_string())
            .collect();
        assert_eq!(texts(&decode(text)), expected, "for {:?}", text);
    }
}

#[test]
fn segments_are_the_numbers_between_the_dots() {
    assert_eq!(token("7.07.700").segments(), vec![7, 7, 700]);
    assert_eq!(token("0").segments(), vec![0]);
}

#[test]
fn insert_sorted_puts_a_token_at_its_place() {
    let mut list = vec![token("1"), token("3")];
    jira_session::codec::insert_sorted(&mut list, token("2"));
    jira_session::codec::insert_sorted(&mut list, token("0.5"));
    jira_session::codec::insert_sorted(&mut list, token("4"));
    jira_session::codec::insert_sorted(&mut list, token("3.0"));
    assert_eq!(texts(&list), vec!["0.5", "1", "2", "3", "4"]);
}

#[test]
fn white_space_is_what_the_standard_library_takes_for_it() {
    let mut c = '\0';
    loop {
        assert_eq!(jira_session::text::is_space_char(c), c.is_whitespace(), "for {:?}", c);
        if c == char::MAX {
            break;
        }
        c = match char::from_u32(c as u32 + 1) {
            Some(next) => next,
            None => '\u{e000}',
        };
    }
}

#[test]
fn chars_of_gives_the_characters() {
    assert_eq!(jira_session::text::chars_of("a,ü 1"), vec!['a', ',', 'ü', ' ', '1']);
    assert!(jira_session::text::chars_of("").is_empty());
}
