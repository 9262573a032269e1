use ratpm::text::{
    chars_of, compare, contains, find_char, is_whitespace, join, parse_i32, parse_u32,
    split_on_char, split_once_char, split_words, string_of, trim, trim_end,
};

fn c(s: &str) -> Vec<char> {
    s.chars().collect()
}

fn texts(parts: &[Vec<char>]) -> Vec<String> {
    parts.iter().map(|p| p.iter().collect()).collect()
}

#[test]
fn test_chars_and_back() {
    assert_eq!(chars_of("héllo"), c("héllo"));
    assert_eq!(string_of(&c("héllo")), "héllo");
    assert_eq!(string_of(&Vec::new()), "");
}

#[test]
fn test_split_on_char() {
    assert_eq!(texts(&split_on_char(&c("a.b.c"), '.')), vec!["a", "b", "c"]);
    assert_eq!(texts(&split_on_char(&c(""), '.')), vec![""]);
    assert_eq!(texts(&split_on_char(&c("."), '.')), vec!["", ""]);
    assert_eq!(texts(&split_on_char(&c("a..b."), '.')), vec!["a", "", "b", ""]);
    assert_eq!(texts(&split_on_char(&c("abc"), '.')), vec!["abc"]);
    assert_eq!(find_char(&c("a=b=c"), 0, '='), 1);
    assert_eq!(find_char(&c("a=b=c"), 2, '='), 3);
    assert_eq!(find_char(&c("a=b=c"), 4, '='), 5);
    let (head, tail) = split_once_char(&c("k=v=w"), '=').unwrap();
    assert_eq!((string_of(&head), string_of(&tail)), ("k".to_string(), "v=w".to_string()));
    assert!(split_once_char(&c("kv"), '=').is_none());
}

#[test]
fn test_whitespace() {
    assert_eq!(string_of(&trim(&c("  a b \t\r\n"))), "a b");
    assert_eq!(string_of(&trim(&c("\u{3000}x\u{a0}"))), "x");
    assert_eq!(string_of(&trim(&c(" \n "))), "");
    assert_eq!(string_of(&trim(&c(""))), "");
    assert_eq!(string_of(&trim(&c("x"))), "x");
    assert_eq!(texts(&split_words(&c("  a  bc\td\n"))), vec!["a", "bc", "d"]);
    assert!(split_words(&c(" \t ")).is_empty());
    assert!(split_words(&c("")).is_empty());
    assert_eq!(texts(&split_words(&c("one"))), vec!["one"]);
    assert_eq!(string_of(&trim_end(&c("a/b///"), '/')), "a/b");
    assert_eq!(string_of(&trim_end(&c("///"), '/')), "");
    assert_eq!(string_of(&trim_end(&c("a"), '/')), "a");
}

#[test]
fn test_numbers() {
    assert_eq!(parse_u32(&c("0")), Some(0));
    assert_eq!(parse_u32(&c("+12")), Some(12));
    assert_eq!(parse_u32(&c("4294967295")), Some(u32::MAX));
    assert_eq!(parse_u32(&c("4294967296")), None);
    assert_eq!(parse_u32(&c("99999999999999999999999")), None);
    assert_eq!(parse_u32(&c("-1")), None);
    assert_eq!(parse_u32(&c("")), None);
    assert_eq!(parse_u32(&c("+")), None);
    assert_eq!(parse_u32(&c("++1")), None);
    assert_eq!(parse_u32(&c(" 1")), None);
    assert_eq!(parse_i32(&c("-12")), Some(-12));
    assert_eq!(parse_i32(&c("+-1")), None);
    assert_eq!(parse_i32(&c("-+1")), None);
    for text in ["0", "+0", "-0", "17", "-17", "2147483647", "-2147483648", "2147483648", "x", "1x", ""] {
        assert_eq!(parse_i32(&c(text)), text.parse::<i32>().ok(), "{:?}", text);
        assert_eq!(parse_u32(&c(text)), text.parse::<u32>().ok(), "{:?}", text);
    }
}

#[test]
fn test_contains_join_compare() {
    assert!(contains(&c("neovim"), &c("vim")));
    assert!(contains(&c("neovim"), &c("neo")));
    assert!(contains(&c("neovim"), &c("")));
    assert!(contains(&c(""), &c("")));
    assert!(!contains(&c("neovim"), &c("vin")));
    assert!(!contains(&c("vi"), &c("vim")));
    assert_eq!(join(&vec!["a".to_string(), "b".to_string(), "c".to_string()], ", "), "a, b, c");
    assert_eq!(join(&vec!["a".to_string()], ", "), "a");
    assert_eq!(join(&Vec::new(), ", "), "");
    for (a, b) in [("", ""), ("", "a"), ("a", "b"), ("ab", "a"), ("a", "B"), ("é", "z"), ("abc", "abd"), ("x", "x")] {
        let expected = match a.cmp(b) {
            std::cmp::Ordering::Less => -1,
            std::cmp::Ordering::Equal => 0,
            std::cmp::Ordering::Greater => 1,
        };
        assert_eq!(compare(&c(a), &c(b)), expected, "{:?} and {:?}", a, b);
        assert_eq!(compare(&c(b), &c(a)), -expected);
    }
}

#[test]
fn test_whitespace_is_that_of_the_standard_library() {
    let mut count = 0;
    for code in 0..=0x10ffffu32 {
        if let Some(c) = char::from_u32(code) {
            assert_eq!(is_whitespace(c), c.is_whitespace(), "U+{:04X}", code);
            if is_whitespace(c) {
                count += 1;
            }
        }
    }
    assert_eq!(count, 25);
    for text in ["", " a ", "\u{2003}a\u{85}b\u{feff}", "\u{200b}x", "\t\n\u{b}\u{c}\r x \u{1680}"] {
        let expected: Vec<char> = text.trim().chars().collect();
        assert_eq!(trim(&c(text)), expected);
        let words: Vec<String> = text.split_whitespace().map(|w| w.to_string()).collect();
        assert_eq!(texts(&split_words(&c(text))), words);
    }
}
