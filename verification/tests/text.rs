use rustskill::split::{
    all_lines, contains, first_lines, head_before, head_before_sub, is_one_of, is_text,
    leading_space, leading_word, lowered, position, position_from, replace_char, split_word,
    strip_chars, tail_after, tail_without, trailing_space, trimmed,
};
use rustskill::text::{chars_of, chars_of_all, copy_range, same, starts_with, string_of, strings_of};

fn c(s: &str) -> Vec<char> {
    chars_of(s)
}

fn s(v: Vec<char>) -> String {
    string_of(&v)
}

#[test]
fn strings_and_characters_convert_both_ways() {
    assert_eq!(c("añb"), vec!['a', 'ñ', 'b']);
    assert_eq!(c(""), Vec::<char>::new());
    assert_eq!(string_of(&['o', 'k']), "ok");
    assert_eq!(string_of(&[]), "");
    assert_eq!(s(c("héllo wörld")), "héllo wörld");
    assert_eq!(chars_of_all(&vec!["ab".to_string(), "".to_string()]), vec![vec!['a', 'b'], vec![]]);
    assert_eq!(strings_of(&vec![vec!['a', 'b'], vec![]]), vec!["ab".to_string(), String::new()]);
}

#[test]
fn ranges_are_copied_exactly() {
    assert_eq!(s(copy_range(&c("abcdef"), 1, 4)), "bcd");
    assert_eq!(s(copy_range(&c("abcdef"), 0, 6)), "abcdef");
    assert_eq!(s(copy_range(&c("abcdef"), 3, 3)), "");
}

#[test]
fn comparison_is_by_content() {
    assert!(same(&c("abc"), &c("abc")));
    assert!(same(&c(""), &c("")));
    assert!(!same(&c("abc"), &c("abd")));
    assert!(!same(&c("abc"), &c("ab")));
    assert!(is_text(&c("rs"), "rs"));
    assert!(!is_text(&c("rs"), "RS"));
}

#[test]
fn prefixes_are_recognized() {
    assert!(starts_with(&c("import os"), &c("import ")));
    assert!(starts_with(&c("abc"), &c("")));
    assert!(starts_with(&c("abc"), &c("abc")));
    assert!(!starts_with(&c("ab"), &c("abc")));
    assert!(!starts_with(&c("xbc"), &c("ab")));
}

#[test]
fn whitespace_is_counted_at_both_ends() {
    assert_eq!(leading_space(&c("  \t x ")), 4);
    assert_eq!(leading_space(&c("x")), 0);
    assert_eq!(leading_space(&c("   ")), 3);
    assert_eq!(trailing_space(&c(" x \n\r")), 3);
    assert_eq!(trailing_space(&c("x")), 0);
    assert_eq!(leading_word(&c("word rest")), 4);
    assert_eq!(leading_word(&c(" word")), 0);
    assert_eq!(leading_space(&c("\u{00a0}\u{3000}x")), 2);
}

#[test]
fn trimming_removes_whitespace_at_both_ends_only() {
    assert_eq!(s(trimmed(&c("  a b \t\n"))), "a b");
    assert_eq!(s(trimmed(&c("a"))), "a");
    assert_eq!(s(trimmed(&c(" \t "))), "");
    assert_eq!(s(trimmed(&c(""))), "");
}

#[test]
fn words_are_split_at_whitespace() {
    let (word, rest) = split_word(&c("  use   tokio::time;  "));
    assert_eq!(s(word), "use");
    assert_eq!(s(rest.clone()), "   tokio::time;  ");
    let (second, more) = split_word(&rest);
    assert_eq!(s(second), "tokio::time;");
    assert_eq!(s(more.clone()), "  ");
    let (third, last) = split_word(&more);
    assert_eq!(s(third), "");
    assert_eq!(s(last), "");
}

#[test]
fn positions_of_characters_are_found() {
    assert_eq!(position(&c("a.b.c"), '.'), 1);
    assert_eq!(position(&c("abc"), '.'), 3);
    assert_eq!(position(&c(""), '.'), 0);
    assert_eq!(position_from(&c("a.b.c"), 2, '.'), 3);
    assert_eq!(position_from(&c("a.b.c"), 4, '.'), 5);
    assert_eq!(position_from(&c("a.b.c"), 5, '.'), 5);
    assert_eq!(tail_without(&c("a/b/cd"), '/'), 2);
    assert_eq!(tail_without(&c("abc"), '/'), 3);
    assert_eq!(tail_without(&c("abc/"), '/'), 0);
}

#[test]
fn segments_are_cut_at_separators() {
    assert_eq!(s(head_before(&c("os.path.join"), '.')), "os");
    assert_eq!(s(head_before(&c("os"), '.')), "os");
    assert_eq!(s(head_before(&c(".hidden"), '.')), "");
    assert_eq!(s(tail_after(&c("github.com/a/b"), '/')), "b");
    assert_eq!(s(tail_after(&c("plain"), '/')), "plain");
    assert_eq!(s(tail_after(&c("dir/"), '/')), "");
    assert_eq!(s(head_before_sub(&c("tokio::time::sleep"), &c("::"))), "tokio");
    assert_eq!(s(head_before_sub(&c("a:b::c"), &c("::"))), "a:b");
    assert_eq!(s(head_before_sub(&c("serde;"), &c("::"))), "serde;");
    assert_eq!(s(head_before_sub(&c("::x"), &c("::"))), "");
    assert_eq!(s(head_before_sub(&c("abc"), &c(""))), "");
}

#[test]
fn characters_are_removed_and_replaced() {
    assert!(is_one_of(';', &c(";\"'")));
    assert!(!is_one_of('a', &c(";\"'")));
    assert!(!is_one_of('a', &c("")));
    assert_eq!(s(strip_chars(&c("\"react\";"), &c(";\"'"))), "react");
    assert_eq!(s(strip_chars(&c("abc"), &c(""))), "abc");
    assert_eq!(s(strip_chars(&c(";;;"), &c(";"))), "");
    assert_eq!(s(replace_char(&c("a/b/c"), '/', '-')), "a-b-c");
    assert_eq!(s(replace_char(&c("abc"), '/', '-')), "abc");
}

#[test]
fn substrings_are_found() {
    assert!(contains(&c("trust/me"), &c("rust")));
    assert!(contains(&c("rust"), &c("rust")));
    assert!(contains(&c("abc"), &c("")));
    assert!(contains(&c(""), &c("")));
    assert!(!contains(&c("rus"), &c("rust")));
    assert!(!contains(&c("r-u-s-t"), &c("rust")));
    assert!(contains(&c("django"), &c("go")));
}

#[test]
fn lowercase_follows_unicode() {
    assert_eq!(s(lowered(&c("RuSt"))), "rust");
    assert_eq!(s(lowered(&c("ÀÉÎ"))), "àéî");
    assert_eq!(s(lowered(&c("ΟΔΟΣ"))), "οδος");
    assert_eq!(s(lowered(&c("already"))), "already");
    assert_eq!(s(lowered(&c(""))), "");
}

#[test]
fn lines_end_at_line_feeds() {
    let lines = |t: &str| strings_of(&all_lines(&c(t)));
    assert_eq!(lines("a\nb\n"), vec!["a", "b"]);
    assert_eq!(lines("a\nb"), vec!["a", "b"]);
    assert_eq!(lines("a\r\nb\r\n"), vec!["a", "b"]);
    assert_eq!(lines("a\n\nb"), vec!["a", "", "b"]);
    assert_eq!(lines("\n"), vec![""]);
    assert_eq!(lines(""), Vec::<String>::new());
    assert_eq!(lines("a\r"), vec!["a\r"]);
    assert_eq!(lines("a\rb\n"), vec!["a\rb"]);
    assert_eq!(lines("\r\n"), vec![""]);
}

#[test]
fn first_lines_stop_at_the_limit() {
    let head = |t: &str, n: usize| strings_of(&first_lines(&c(t), n));
    assert_eq!(head("a\nb\nc\n", 2), vec!["a", "b"]);
    assert_eq!(head("a\nb\nc\n", 3), vec!["a", "b", "c"]);
    assert_eq!(head("a\nb\nc\n", 10), vec!["a", "b", "c"]);
    assert_eq!(head("a\nb\nc", 0), Vec::<String>::new());
}
