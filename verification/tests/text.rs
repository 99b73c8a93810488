use agent_heart::text::{chars_contain, chars_less, chars_start_with, join_path, str_chars, trim_chars, push_decimal};

#[test]
fn decimal_rendering() {
    let mut s = String::from("n=");
    push_decimal(&mut s, 0);
    assert_eq!(s, "n=0");
    let mut s = String::new();
    push_decimal(&mut s, 1800);
    assert_eq!(s, "1800");
    let mut s = String::new();
    push_decimal(&mut s, u64::MAX);
    assert_eq!(s, u64::MAX.to_string());
}

#[test]
fn character_helpers() {
    let s = str_chars("héllo");
    assert_eq!(s, vec!['h', 'é', 'l', 'l', 'o']);
    assert_eq!(trim_chars(&str_chars("\t a b \u{2028}")), vec!['a', ' ', 'b']);
    assert!(chars_start_with(&str_chars("rm -rf"), &str_chars("rm ")));
    assert!(!chars_start_with(&str_chars("rm"), &str_chars("rm ")));
    assert!(chars_contain(&str_chars("rm -rf /"), &str_chars(" -rf ")));
    assert!(!chars_contain(&str_chars("rm -rf"), &str_chars(" -rf ")));
    assert!(chars_less(&str_chars("Z"), &str_chars("a")));
    assert!(chars_less(&str_chars("ab"), &str_chars("abc")));
    assert!(!chars_less(&str_chars("abc"), &str_chars("abc")));
    assert_eq!(join_path("/a", "b"), "/a/b");
    assert_eq!(join_path("/a/", "b"), "/a/b");
    assert_eq!(join_path("", "b"), "b");
}
