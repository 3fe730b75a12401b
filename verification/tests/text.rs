use rate_mirrors::countries::Country;
use rate_mirrors::mirror::Mirror;
use rate_mirrors::target_configs::stdin::StdinTarget;
use rate_mirrors::text::{chars_of, is_at, push_decimal, remove_all, split_lines, string_of};

fn chars(s: &str) -> Vec<char> {
    s.chars().collect()
}

fn without(text: &str, token: &str) -> String {
    remove_all(&chars(text), &chars(token)).into_iter().collect()
}

fn lines(text: &str) -> Vec<String> {
    split_lines(&chars(text)).into_iter().map(|l| l.into_iter().collect()).collect()
}

fn decimal(n: u64) -> String {
    let mut out = Vec::new();
    push_decimal(&mut out, n);
    out.into_iter().collect()
}

#[test]
fn chars_of_gives_the_characters() {
    assert_eq!(chars_of("añ→z"), vec!['a', 'ñ', '→', 'z']);
    assert_eq!(chars_of(""), Vec::<char>::new());
}

#[test]
fn string_of_holds_the_characters() {
    assert_eq!(string_of(&vec!['h', 'é', '→', '!']), "hé→!");
    assert_eq!(string_of(&Vec::new()), "");
    assert_eq!(string_of(&chars_of("Server = x")), "Server = x");
}

#[test]
fn is_at_is_false_beyond_the_end() {
    let text = chars("abc");
    assert!(is_at(&text, 3, &chars("")));
    assert!(!is_at(&text, 4, &chars("")));
    assert!(!is_at(&text, 2, &chars("cd")));
    assert!(!is_at(&text, usize::MAX, &chars("a")));
}

#[test]
fn is_at_finds_a_token_in_place() {
    let text = chars("Server = x");
    assert!(is_at(&text, 0, &chars("Server")));
    assert!(is_at(&text, 7, &chars("= x")));
    assert!(!is_at(&text, 1, &chars("Server")));
    assert!(!is_at(&text, 8, &chars("= x")));
    assert!(is_at(&text, 10, &chars("")));
}

#[test]
fn remove_all_agrees_with_replace_by_nothing() {
    for (text, token) in [
        ("Server = https://a/$arch/$repo", "Server = "),
        ("aaaa", "aa"),
        ("aaa", "aa"),
        ("ababa", "aba"),
        ("abcabc", "bc"),
        ("abc", "abcd"),
        ("abc", ""),
        ("", "x"),
        ("xxabxx", "x"),
    ] {
        assert_eq!(without(text, token), text.replace(token, ""));
    }
    assert_eq!(without("ababa", "aba"), "ba");
    assert_eq!(without("aaa", "aa"), "a");
}

#[test]
fn split_lines_agrees_with_std_lines() {
    for text in [
        "",
        "\n",
        "one",
        "one\n",
        "one\ntwo",
        "one\r\ntwo\r\n",
        "one\r",
        "one\r\r\ntwo",
        "\r\n\r\n",
        "a\n\nb\n\n",
        "\rx\ny\r",
    ] {
        let expected: Vec<String> = text.lines().map(|l| l.to_string()).collect();
        assert_eq!(lines(text), expected);
    }
    assert_eq!(lines("one\r\ntwo\n\nthree"), vec!["one", "two", "", "three"]);
}

#[test]
fn push_decimal_writes_base_ten() {
    assert_eq!(decimal(0), "0");
    assert_eq!(decimal(9), "9");
    assert_eq!(decimal(10), "10");
    assert_eq!(decimal(1234567890), "1234567890");
    assert_eq!(decimal(u64::MAX), "18446744073709551615");
    let mut out = vec!['n', '='];
    push_decimal(&mut out, 42);
    assert_eq!(out, vec!['n', '=', '4', '2']);
}

#[test]
fn country_is_recognized_by_two_capital_letters() {
    assert_eq!(Country::from_str("DE").unwrap().code(), "DE");
    assert_eq!(Country::from_str("ZA").unwrap().code(), "ZA");
    assert_eq!(Country::from_str("DE"), Country::from_str("DE"));
    assert_ne!(Country::from_str("DE"), Country::from_str("ED"));
    assert_eq!(Country::from_str(""), None);
    assert_eq!(Country::from_str("D"), None);
    assert_eq!(Country::from_str("de"), None);
    assert_eq!(Country::from_str("DEU"), None);
    assert_eq!(Country::from_str("D1"), None);
    assert_eq!(Country::from_str("ÄÖ"), None);
}

#[test]
fn resolve_parses_and_joins() {
    let mirror = Mirror::resolve(None, "https://example.org", "core/os/x86_64/core.db").unwrap();
    assert_eq!(mirror.url, "https://example.org/");
    assert_eq!(mirror.url_to_test, "https://example.org/core/os/x86_64/core.db");
    assert_eq!(mirror.country, None);
    let mirror = Mirror::resolve(
        Country::from_str("SE"),
        "https://example.org/a/b/",
        "../c",
    )
    .unwrap();
    assert_eq!(mirror.url, "https://example.org/a/b/");
    assert_eq!(mirror.url_to_test, "https://example.org/a/c");
    assert_eq!(mirror.country, Country::from_str("SE"));
}

#[test]
fn resolve_gives_nothing_where_parse_or_join_fails() {
    assert_eq!(Mirror::resolve(None, "example.org/no-scheme", "x"), None);
    assert_eq!(Mirror::resolve(None, "", ""), None);
    assert_eq!(Mirror::resolve(None, "mailto:a@example.org", "x"), None);
    assert_eq!(Mirror::resolve(None, "https://example.org/", "https://[bad"), None);
}

#[test]
fn new_mirror_holds_what_it_is_given() {
    let mirror = Mirror::new(Country::from_str("NL"), "https://a/".to_string(), "https://a/t".to_string());
    assert_eq!(
        mirror,
        Mirror {
            country: Country::from_str("NL"),
            url: "https://a/".to_string(),
            url_to_test: "https://a/t".to_string(),
        }
    );
}

#[test]
fn stdin_target_defaults() {
    let target = StdinTarget::default();
    assert_eq!(target.path_to_test, "");
    assert_eq!(target.path_to_return, "");
    assert_eq!(target.comment_prefix, "# ");
    assert_eq!(target.output_prefix, "");
    assert_eq!(target.input_separator, "\t");
}
