use xdp_top::text::{
    chars_of, contains_exec, find_exec, lines_exec, parse_u64, parse_usize, push_decimal,
    remove_all_exec, trim_exec, words_exec,
};

fn s(v: &[char]) -> String {
    v.iter().collect()
}

fn all(v: &[Vec<char>]) -> Vec<String> {
    v.iter().map(|l| s(l)).collect()
}

#[test]
fn lines_split_like_str_lines() {
    let text = chars_of("a\r\nb\n\nc\r");
    assert_eq!(all(&lines_exec(&text)), vec!["a", "b", "", "c\r"]);
    assert_eq!(all(&lines_exec(&chars_of("one\n"))), vec!["one"]);
    assert!(lines_exec(&chars_of("")).is_empty());
    assert_eq!(all(&lines_exec(&chars_of("\n"))), vec![""]);
}

#[test]
fn trim_drops_unicode_whitespace() {
    assert_eq!(s(&trim_exec(&chars_of("\u{a0} \tmlx5_core\u{3000}\n"))), "mlx5_core");
    assert_eq!(s(&trim_exec(&chars_of("   "))), "");
    assert_eq!(s(&trim_exec(&chars_of("a b"))), "a b");
}

#[test]
fn words_split_on_whitespace_runs() {
    let w = words_exec(&chars_of("  link/ether  aa:bb:cc:dd:ee:ff brd\tff "));
    assert_eq!(all(&w), vec!["link/ether", "aa:bb:cc:dd:ee:ff", "brd", "ff"]);
    assert!(words_exec(&chars_of(" \t ")).is_empty());
}

#[test]
fn remove_all_removes_left_to_right() {
    assert_eq!(s(&remove_all_exec(&chars_of("driver: x driver:y"), &chars_of("driver:"))), " x y");
    assert_eq!(s(&remove_all_exec(&chars_of("aaa"), &chars_of("aa"))), "a");
    assert_eq!(s(&remove_all_exec(&chars_of("abc"), &chars_of(""))), "abc");
}

#[test]
fn search_finds_first_occurrence() {
    assert_eq!(find_exec(&chars_of("00:1f.0 Ethernet: Intel: x"), &chars_of(": ")), Some(16));
    assert_eq!(find_exec(&chars_of("none"), &chars_of(": ")), None);
    assert!(contains_exec(&chars_of("prog/xdp id 5"), &chars_of("xdp ")));
    assert!(!contains_exec(&chars_of("xd"), &chars_of("xdp")));
    assert!(contains_exec(&chars_of("anything"), &chars_of("")));
}

#[test]
fn numbers_parse_like_str_parse() {
    assert_eq!(parse_u64(&chars_of("42")), Some(42));
    assert_eq!(parse_u64(&chars_of("+7")), Some(7));
    assert_eq!(parse_u64(&chars_of("-7")), None);
    assert_eq!(parse_u64(&chars_of("+")), None);
    assert_eq!(parse_u64(&chars_of("")), None);
    assert_eq!(parse_u64(&chars_of("12a")), None);
    assert_eq!(parse_u64(&chars_of("18446744073709551615")), Some(u64::MAX));
    assert_eq!(parse_u64(&chars_of("18446744073709551616")), None);
    assert_eq!(parse_u64(&chars_of("\u{664}")), None);
    assert_eq!(parse_usize(&chars_of("0")), Some(0));
    assert_eq!(parse_usize(&chars_of(" 1")), None);
}

#[test]
fn decimal_digits() {
    let mut v = Vec::new();
    push_decimal(&mut v, 0);
    push_decimal(&mut v, 1234567);
    assert_eq!(s(&v), "01234567");
}
