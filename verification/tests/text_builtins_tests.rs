use tenda::text_builtins::{
    contains, ends_with, get_at, index_of, remove_at, remove_chars, remove_prefix, remove_suffix,
    remove_whitespace, repeat, replace, reverse, slice_inclusive, slice_list, starts_with,
    substring, to_char_texts, trim, trim_end, trim_start, BoundsError,
};
use tenda::text_builtins::{list_contains, list_index_of, remove_all, remove_value, to_lower, to_upper};

#[test]
fn index_of_counts_bytes() {
    assert_eq!(index_of("olá mundo", "mundo"), Some(5));
    assert_eq!(index_of("abcabc", "c"), Some(2));
    assert_eq!(index_of("abc", ""), Some(0));
    assert_eq!(index_of("abc", "x"), None);
    assert_eq!(index_of("", "a"), None);
}

#[test]
fn contains_starts_and_ends() {
    assert!(contains("tenda", "end"));
    assert!(!contains("tenda", "dne"));
    assert!(contains("tenda", ""));
    assert!(starts_with("tenda", "ten"));
    assert!(!starts_with("tenda", "enda"));
    assert!(!starts_with("te", "tenda"));
    assert!(ends_with("tenda", "da"));
    assert!(!ends_with("tenda", "te"));
    assert!(ends_with("ação", "ção"));
}

#[test]
fn prefix_and_suffix_removal() {
    assert_eq!(remove_prefix("prefixo_texto", "prefixo_"), "texto");
    assert_eq!(remove_prefix("texto", "prefixo"), "texto");
    assert_eq!(remove_suffix("arquivo.td", ".td"), "arquivo");
    assert_eq!(remove_suffix("arquivo", ".td"), "arquivo");
}

#[test]
fn reverse_and_whitespace() {
    assert_eq!(reverse("abç"), "çba");
    assert_eq!(reverse(""), "");
    assert_eq!(remove_whitespace(" a b\tc \n"), "abc");
    assert_eq!(trim_start("  olá  "), "olá  ");
    assert_eq!(trim_end("  olá  "), "  olá");
    assert_eq!(trim("\t olá \n"), "olá");
    assert_eq!(trim("   "), "");
}

#[test]
fn char_texts() {
    assert_eq!(to_char_texts("aé"), vec!["a".to_string(), "é".to_string()]);
    assert!(to_char_texts("").is_empty());
}

#[test]
fn substring_by_bytes() {
    assert_eq!(substring("olá mundo", 5, 5), Ok("mundo".to_string()));
    assert_eq!(substring("abc", 0, 0), Ok(String::new()));
    assert_eq!(substring("abc", 3, 1), Err(BoundsError::IndexOutOfBounds { index: 3, len: 3 }));
}

#[test]
fn inclusive_slices() {
    assert_eq!(slice_inclusive("abcdef", 1, 3), Ok("bcd".to_string()));
    assert_eq!(slice_inclusive("abcdef", 3, 1), Err(BoundsError::InvalidRangeBounds { bound: 1 }));
    assert_eq!(slice_inclusive("abcdef", 1, 6), Err(BoundsError::IndexOutOfBounds { index: 6, len: 6 }));
    assert_eq!(slice_inclusive("olá", 0, 3), Ok("olá".to_string()));
}

#[test]
fn char_removal() {
    assert_eq!(remove_chars("abcdef", 1, 2), Ok("adef".to_string()));
    assert_eq!(remove_chars("abcdef", 4, 10), Ok("abcd".to_string()));
    assert_eq!(remove_chars("abc", 5, 1), Err(BoundsError::IndexOutOfBounds { index: 5, len: 3 }));
    assert_eq!(remove_chars("olá", 3, 1), Ok("olá".to_string()));
}

#[test]
fn replacement() {
    assert_eq!(replace("a-b-c", "-", "+"), "a+b+c");
    assert_eq!(replace("abc", "", "x"), "xaxbxcx");
    assert_eq!(replace("aaa", "aa", "b"), "ba");
    assert_eq!(replace("abc", "z", "y"), "abc");
    assert_eq!(repeat("ab", 3), "ababab");
    assert_eq!(repeat("ab", 0), "");
}

#[test]
fn list_positions() {
    let mut list = vec![10, 20, 30];
    assert_eq!(remove_at(&mut list, 3), Err(BoundsError::IndexOutOfBounds { index: 3, len: 3 }));
    assert_eq!(list, vec![10, 20, 30]);
    assert_eq!(remove_at(&mut list, 1), Ok(20));
    assert_eq!(list, vec![10, 30]);
    assert_eq!(get_at(&list, 1), Ok(&30));
    assert_eq!(get_at(&list, 2), Err(BoundsError::IndexOutOfBounds { index: 2, len: 2 }));
}

#[test]
fn list_slices() {
    let list = vec!["a".to_string(), "b".to_string(), "c".to_string()];
    assert_eq!(slice_list(&list, 0, 1), Ok(vec!["a".to_string(), "b".to_string()]));
    assert_eq!(slice_list(&list, 2, 1), Err(BoundsError::InvalidRangeBounds { bound: 1 }));
    assert_eq!(slice_list(&list, 1, 3), Err(BoundsError::IndexOutOfBounds { index: 3, len: 3 }));
}

#[test]
fn changes_case() {
    assert_eq!(to_upper("olá, Mundo"), "OLÁ, MUNDO");
    assert_eq!(to_lower("OLÁ, Mundo"), "olá, mundo");
    assert_eq!(to_upper("straße"), "STRASSE");
}

#[test]
fn finds_list_elements_by_value() {
    let list = vec![3, 1, 4, 1, 5];
    assert_eq!(list_index_of(&list, &1), Some(1));
    assert_eq!(list_index_of(&list, &9), None);
    assert!(list_contains(&list, &5));
    assert!(!list_contains(&list, &2));
    let empty: Vec<i64> = vec![];
    assert_eq!(list_index_of(&empty, &1), None);
}

#[test]
fn removes_list_elements_by_value() {
    let mut list = vec!["a".to_string(), "b".to_string(), "a".to_string()];
    assert_eq!(remove_value(&mut list, &"a".to_string()), Some("a".to_string()));
    assert_eq!(list, vec!["b".to_string(), "a".to_string()]);
    assert_eq!(remove_value(&mut list, &"z".to_string()), None);
    assert_eq!(list.len(), 2);
    let mut numbers = vec![1, 2, 1, 3, 1];
    remove_all(&mut numbers, &1);
    assert_eq!(numbers, vec![2, 3]);
    remove_all(&mut numbers, &7);
    assert_eq!(numbers, vec![2, 3]);
}
