use registry_deploy::order::{comes_before, sort};
use registry_deploy::text::{chars_of, contains_char, ends_with, equal, trim, trim_end};

#[test]
fn trim_removes_whitespace_at_both_ends() {
    assert_eq!(trim("  deploy.toml \n"), "deploy.toml");
    assert_eq!(trim("\t a b \r\n"), "a b");
    assert_eq!(trim("plain"), "plain");
}

#[test]
fn trim_of_blank_text_is_empty() {
    assert_eq!(trim(""), "");
    assert_eq!(trim(" \n\t "), "");
}

#[test]
fn trim_knows_whitespace_beyond_ascii() {
    assert_eq!(trim("\u{a0}x\u{3000}"), "x");
    assert_eq!(trim("é "), "é");
}

#[test]
fn trim_twice_changes_nothing_more() {
    let once = trim("  a  b  ");
    assert_eq!(trim(once), once);
}

#[test]
fn trim_end_keeps_the_start() {
    assert_eq!(trim_end("  a \n"), "  a");
    assert_eq!(trim_end(""), "");
    assert_eq!(trim_end("   "), "");
}

#[test]
fn chars_of_gives_every_character() {
    assert_eq!(chars_of("aé/"), vec!['a', 'é', '/']);
    assert_eq!(chars_of(""), Vec::<char>::new());
}

#[test]
fn equal_compares_characters() {
    assert!(equal("true", "true"));
    assert!(!equal("true", "True"));
    assert!(!equal("true", "true "));
    assert!(equal("", ""));
}

#[test]
fn ends_with_tests_the_suffix() {
    assert!(ends_with("deploy.toml", ".toml"));
    assert!(ends_with("/a/b/deploy.toml", "deploy.toml"));
    assert!(ends_with("x", ""));
    assert!(!ends_with("toml", ".toml"));
    assert!(!ends_with("deploy.toml.bak", ".toml"));
}

#[test]
fn contains_char_finds_a_slash() {
    assert!(contains_char("a/b", '/'));
    assert!(!contains_char("ab", '/'));
    assert!(!contains_char("", '/'));
}

#[test]
fn comes_before_is_the_order_of_strings() {
    assert!(comes_before("a", "b"));
    assert!(!comes_before("b", "a"));
    assert!(comes_before("a", "a"));
    assert!(comes_before("a", "ab"));
    assert!(!comes_before("ab", "a"));
    assert!(comes_before("", "a"));
    assert!(comes_before("Z", "a"));
    assert!(comes_before("z", "é"));
}

#[test]
fn comes_before_agrees_with_the_standard_order() {
    let samples = ["", "a", "ab", "b", "B", "é", "z", "zz", "/x/y", "/x"];
    for a in samples {
        for b in samples {
            assert_eq!(comes_before(a, b), a <= b);
        }
    }
}

#[test]
fn sort_orders_like_the_standard_sort() {
    let items = vec![
        "/r/b/deploy.toml".to_string(),
        "/r/a/deploy.toml".to_string(),
        "/r/deploy.toml".to_string(),
        "/r/a/deploy.toml".to_string(),
        "/r/B/deploy.toml".to_string(),
    ];
    let mut expected = items.clone();
    expected.sort();
    assert_eq!(sort(items), expected);
}

#[test]
fn sort_of_nothing_is_nothing() {
    assert_eq!(sort(Vec::new()), Vec::<String>::new());
}

fn is_listed_whitespace(c: char) -> bool {
    matches!(
        c,
        '\u{9}'..='\u{d}'
            | ' '
            | '\u{85}'
            | '\u{a0}'
            | '\u{1680}'
            | '\u{2000}'..='\u{200a}'
            | '\u{2028}'
            | '\u{2029}'
            | '\u{202f}'
            | '\u{205f}'
            | '\u{3000}'
    )
}

#[test]
fn trim_removes_exactly_the_listed_whitespace() {
    let mut text = String::new();
    for code in 0..=0x10ffff_u32 {
        if let Some(c) = char::from_u32(code) {
            text.clear();
            text.push(c);
            assert_eq!(trim(&text).is_empty(), is_listed_whitespace(c), "U+{:04X}", code);
        }
    }
}

#[test]
fn trim_keeps_what_only_looks_like_whitespace() {
    assert_eq!(trim("\u{200b}x\u{feff}"), "\u{200b}x\u{feff}");
    assert_eq!(trim("\u{180e}x"), "\u{180e}x");
    assert_eq!(trim("\u{1c}x\u{1f}"), "\u{1c}x\u{1f}");
}
