use musicum::text::{
    split_on_commas, trim_text,
    join_with, order_by_keys, replace_all, same_text, sort_texts, sorted_unique, text_less,
    to_decimal,
};

fn strings(v: &[&str]) -> Vec<String> {
    v.iter().map(|s| s.to_string()).collect()
}

#[test]
fn decimal_rendering() {
    assert_eq!(to_decimal(0), "0");
    assert_eq!(to_decimal(7), "7");
    assert_eq!(to_decimal(1234567890), "1234567890");
    assert_eq!(to_decimal(u64::MAX), "18446744073709551615");
}

#[test]
fn join_puts_separator_between_parts_only() {
    assert_eq!(join_with(&strings(&[]), ", "), "");
    assert_eq!(join_with(&strings(&["a"]), ", "), "a");
    assert_eq!(join_with(&strings(&["a", "b", "c"]), ", "), "a, b, c");
}

#[test]
fn text_order_is_by_character_code() {
    assert!(text_less("abc", "abd"));
    assert!(text_less("ab", "abc"));
    assert!(!text_less("abc", "ab"));
    assert!(!text_less("abc", "abc"));
    assert!(text_less("Z", "a"));
    assert!(text_less("", "a"));
    assert!(same_text("héllo", "héllo"));
    assert!(!same_text("héllo", "hello"));
}

#[test]
fn sort_keeps_repeats_and_orders() {
    let v = strings(&["pear", "apple", "fig", "apple", "Banana"]);
    assert_eq!(sort_texts(&v), strings(&["Banana", "apple", "apple", "fig", "pear"]));
}

#[test]
fn sort_twice_is_sort_once() {
    let v = strings(&["c", "a", "b", "a"]);
    let once = sort_texts(&v);
    assert_eq!(sort_texts(&once), once);
}

#[test]
fn sorted_unique_drops_repeats() {
    let v = strings(&["clip-b", "file-a", "clip-b", "clip-a"]);
    assert_eq!(sorted_unique(&v), strings(&["clip-a", "clip-b", "file-a"]));
    assert_eq!(sorted_unique(&strings(&[])), strings(&[]));
}

#[test]
fn order_by_keys_is_stable() {
    let keys = strings(&["trim", "gain", "crop", "gain", "cut"]);
    assert_eq!(order_by_keys(&keys), vec![2, 4, 1, 3, 0]);
    assert_eq!(order_by_keys(&strings(&[])), Vec::<usize>::new());
}

#[test]
fn replace_all_scans_left_to_right() {
    assert_eq!(replace_all("aaa", "aa", "b"), "ba");
    assert_eq!(replace_all("x _f() { y _f() {", "_f() {", "_g() {"), "x _g() { y _g() {");
    assert_eq!(replace_all("nothing here", "zz", "y"), "nothing here");
    assert_eq!(replace_all("abab", "ab", "abab"), "abababab");
    assert_eq!(replace_all("é-é", "é", "e"), "e-e");
}

#[test]
fn sorted_unique_depends_only_on_the_set() {
    let a = strings(&["b", "a", "c", "a"]);
    let b = strings(&["c", "c", "b", "a"]);
    assert_eq!(sorted_unique(&a), sorted_unique(&b));
}

#[test]
fn splitting_at_commas_keeps_empty_pieces() {
    assert_eq!(split_on_commas(""), vec![String::new()]);
    assert_eq!(split_on_commas("a,,b,"), vec!["a".to_string(), "".into(), "b".into(), "".into()]);
}

#[test]
fn trimming_drops_unicode_white_space_at_both_ends() {
    assert_eq!(trim_text("  a b \t\n"), "a b");
    assert_eq!(trim_text("\u{3000}x\u{a0}"), "x");
    assert_eq!(trim_text("   "), "");
}
