use messenger_server::text::{
    all_login_chars, chars_of, contains_pattern_of, like_contains, like_match, push_decimal, str_lt, string_of,
    trimmed_string, utf8_len_capped,
};

fn v(s: &str) -> Vec<char> {
    s.chars().collect()
}

#[test]
fn like_matches_wildcards_and_ascii_case() {
    assert!(like_match(&v("a%c"), &v("abbbc")));
    assert!(like_match(&v("a%c"), &v("ac")));
    assert!(!like_match(&v("a%c"), &v("acb")));
    assert!(like_match(&v("a_c"), &v("AbC")));
    assert!(!like_match(&v("a_c"), &v("ac")));
    assert!(like_match(&v("%"), &v("")));
    assert!(!like_match(&v(""), &v("x")));
    // only ASCII letters fold
    assert!(!like_match(&v("ж"), &v("Ж")));
    assert!(like_match(&v("_"), &v("ж")));
}

#[test]
fn contains_pattern_finds_substrings() {
    let p = contains_pattern_of("lo W");
    assert_eq!(p, v("%lo W%"));
    assert!(like_contains(&p, "Hello world"));
    assert!(!like_contains(&p, "Hello"));
}

#[test]
fn binary_order_is_code_point_order() {
    assert!(str_lt("B", "a"));
    assert!(str_lt("a", "ab"));
    assert!(!str_lt("ab", "ab"));
    assert!(!str_lt("b", "ab"));
    assert!(str_lt("z", "ж"));
    assert!(!str_lt("", ""));
    assert!(str_lt("", "a"));
}

#[test]
fn text_helpers() {
    assert_eq!(trimmed_string("\u{3000} x y \n"), "x y");
    assert_eq!(utf8_len_capped("жж", 10), 4);
    assert_eq!(utf8_len_capped("abcdef", 3), 3);
    assert!(all_login_chars("ab_C-9"));
    assert!(!all_login_chars("a b"));
    assert!(!all_login_chars("é"));
    assert_eq!(string_of(&chars_of("при вет")), "при вет");
    let mut s = "deleted_".to_string();
    push_decimal(&mut s, 1203);
    assert_eq!(s, "deleted_1203");
    let mut z = String::new();
    push_decimal(&mut z, 0);
    assert_eq!(z, "0");
}
