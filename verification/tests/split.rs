use kube_vault::split::{is_space, nonempty_document, split_segments};
use kube_vault::text::{
    chars_of, followed_by, contains_char, contains_chars, ends_with_char, glue, same_text,
    split_at_first, starts_with_char,
};

fn cut(text: &str) -> Vec<String> {
    let chars: Vec<char> = text.chars().collect();
    split_segments(&chars)
        .into_iter()
        .map(|(from, to)| chars[from..to].iter().collect())
        .collect()
}

#[test]
fn text_is_cut_at_every_delimiter() {
    assert_eq!(cut(""), vec![""]);
    assert_eq!(cut("abc"), vec!["abc"]);
    assert_eq!(cut("---"), vec!["", ""]);
    assert_eq!(cut("a---b"), vec!["a", "b"]);
    assert_eq!(cut("a---b---"), vec!["a", "b", ""]);
    assert_eq!(cut("----"), vec!["", "-"]);
    assert_eq!(cut("-----"), vec!["", "--"]);
    assert_eq!(cut("------"), vec!["", "", ""]);
    assert_eq!(cut("a--b"), vec!["a--b"]);
    assert_eq!(cut("é---ü"), vec!["é", "ü"]);
}

#[test]
fn cutting_agrees_with_the_standard_library() {
    for text in ["", "-", "--", "x-----y", "---a\n---\nb: c---d\n", "- - ---", "a----b----c"] {
        let expected: Vec<String> = text.split("---").map(|s| s.to_string()).collect();
        assert_eq!(cut(text), expected, "for {:?}", text);
    }
}

#[test]
fn blank_lines_and_comments_are_no_content() {
    assert!(!nonempty_document(""));
    assert!(!nonempty_document("\n\n   \n\t\n"));
    assert!(!nonempty_document("# a comment"));
    assert!(!nonempty_document("   # indented\n#another\n"));
    assert!(!nonempty_document("\r\n  \r\n# x\r\n"));
    assert!(!nonempty_document("\u{a0}\u{2003}# behind wide spaces"));
    assert!(nonempty_document("a"));
    assert!(nonempty_document("# comment\nkey: value\n"));
    assert!(nonempty_document("   - item"));
    assert!(nonempty_document("key: value # trailing"));
    assert!(nonempty_document("-"));
}

#[test]
fn content_agrees_with_the_standard_library() {
    for text in ["", " ", "#", " #x", "x#", "\n#\n \nq", "\u{3000}", "a\rb", "#\rb", "\u{85}#", "\u{200b}"] {
        let expected = text
            .lines()
            .map(str::trim)
            .filter(|l| !l.starts_with('#'))
            .filter(|&l| l != "")
            .count()
            > 0;
        assert_eq!(nonempty_document(text), expected, "for {:?}", text);
    }
}

#[test]
fn white_space_is_what_unicode_says() {
    for code in 0u32..0x3100 {
        if let Some(c) = char::from_u32(code) {
            assert_eq!(is_space(c), c.is_whitespace(), "for U+{:04X}", code);
        }
    }
    assert!(!is_space('\u{feff}'));
    assert!(!is_space('\u{10ffff}'));
}

#[test]
fn texts_are_compared_and_searched() {
    assert_eq!(chars_of("héllo"), vec!['h', 'é', 'l', 'l', 'o']);
    assert!(same_text("abc", "abc"));
    assert!(!same_text("abc", "abd"));
    assert!(!same_text("abc", "ab"));
    assert!(!same_text("ab", "abc"));
    assert!(same_text("", ""));
    let hay: Vec<char> = "/var/secrets/db/password".chars().collect();
    let found = |needle: &str| contains_chars(&hay, &needle.chars().collect());
    assert!(found("/var/secrets/db/"));
    assert!(found("password"));
    assert!(found(""));
    assert!(found("/var/secrets/db/password"));
    assert!(!found("/var/secrets/db/password/"));
    assert!(!found("secretz"));
    assert!(contains_chars(&vec![], &vec![]));
    assert!(!contains_chars(&vec![], &vec!['a']));
}

#[test]
fn texts_are_cut_and_joined() {
    assert_eq!(split_at_first("a=b=c", '='), Some(("a", "b=c")));
    assert_eq!(split_at_first("=", '='), Some(("", "")));
    assert_eq!(split_at_first("abc", '='), None);
    assert_eq!(split_at_first("é:ü", ':'), Some(("é", "ü")));
    assert!(contains_char("a:b", ':'));
    assert!(!contains_char("ab", ':'));
    assert!(ends_with_char("a/", '/'));
    assert!(!ends_with_char("/a", '/'));
    assert!(!ends_with_char("", '/'));
    assert!(starts_with_char("/a", '/'));
    assert!(!starts_with_char("a/", '/'));
    assert!(!starts_with_char("", '/'));
    assert_eq!(followed_by("ab", "cd"), "abcd");
    assert_eq!(glue(vec!["a", "", "bc", "d"]), "abcd");
    assert_eq!(glue(vec![]), "");
}
