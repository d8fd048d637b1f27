use neocash::num::i32_to_string;
use neocash::num::parse_u64;
use neocash::num::u64_to_string;
use neocash::text::contains_sub;
use neocash::text::eq_str;
use neocash::text::expand_tilde;
use neocash::text::find_from;
use neocash::text::replace_all;
use neocash::text::replace_first;
use neocash::text::split_ws;
use neocash::text::starts_with;

#[test]
fn split_ws_basic() {
    assert_eq!(split_ws("ls -la  /tmp"), vec!["ls", "-la", "/tmp"]);
    assert_eq!(split_ws(""), Vec::<String>::new());
    assert_eq!(split_ws("   \t "), Vec::<String>::new());
    assert_eq!(split_ws("  one  "), vec!["one"]);
    assert_eq!(split_ws("a\tb\nc"), vec!["a", "b", "c"]);
}

#[test]
fn prefix_and_equality() {
    assert!(starts_with("cargo", "car"));
    assert!(starts_with("car", ""));
    assert!(!starts_with("ca", "car"));
    assert!(!starts_with("cat", "car"));
    assert!(eq_str("same", "same"));
    assert!(!eq_str("same", "sames"));
}

#[test]
fn find_and_contains() {
    assert_eq!(find_from("abcabc", "bc", 0), Some(1));
    assert_eq!(find_from("abcabc", "bc", 2), Some(4));
    assert_eq!(find_from("abcabc", "zz", 0), None);
    assert_eq!(find_from("abc", "", 1), Some(1));
    assert!(contains_sub("No such file or directory (os error 2)", "No such file or directory"));
    assert!(!contains_sub("permission denied", "No such file"));
}

#[test]
fn replace_all_cases() {
    assert_eq!(replace_all("a$x b$x", "$x", "1"), "a1 b1");
    assert_eq!(replace_all("aaa", "aa", "X"), "Xa");
    assert_eq!(replace_all("none", "$y", "1"), "none");
    assert_eq!(replace_all("abc", "", "1"), "abc");
    assert_eq!(replace_all("$user@$host", "$user", "ada"), "ada@$host");
}

#[test]
fn replace_first_cases() {
    assert_eq!(replace_first("/home/u/home/u", "/home/u", "~"), "~/home/u");
    assert_eq!(replace_first("abc", "zz", "y"), "abc");
}

#[test]
fn tilde_expansion() {
    let home = String::from("/home/u");
    assert_eq!(expand_tilde("~", Some(&home)), "/home/u");
    assert_eq!(expand_tilde("~/notes.txt", Some(&home)), "/home/u/notes.txt");
    assert_eq!(expand_tilde("~user/x", Some(&home)), "~user/x");
    assert_eq!(expand_tilde("plain", Some(&home)), "plain");
    assert_eq!(expand_tilde("~/x", None), "~/x");
}

#[test]
fn parse_u64_cases() {
    assert_eq!(parse_u64("0"), Some(0));
    assert_eq!(parse_u64("123"), Some(123));
    assert_eq!(parse_u64("18446744073709551615"), Some(u64::MAX));
    assert_eq!(parse_u64("18446744073709551616"), None);
    assert_eq!(parse_u64(""), None);
    assert_eq!(parse_u64("+5"), None);
    assert_eq!(parse_u64("12a"), None);
}

#[test]
fn format_numbers() {
    assert_eq!(u64_to_string(0), "0");
    assert_eq!(u64_to_string(90210), "90210");
    assert_eq!(i32_to_string(0), "0");
    assert_eq!(i32_to_string(-7), "-7");
    assert_eq!(i32_to_string(i32::MIN), "-2147483648");
    assert_eq!(i32_to_string(i32::MAX), "2147483647");
}
