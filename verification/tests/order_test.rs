use sexy_claude::order::{sort_by_key, str_less, theme_list};

#[test]
fn strings_order_by_code_point() {
    assert!(str_less("abc", "abd"));
    assert!(str_less("ab", "abc"));
    assert!(!str_less("abc", "abc"));
    assert!(str_less("Zebra", "apple"));
    assert!(str_less("", "a"));
    assert!(!str_less("b", "a"));
    assert!(str_less("e", "é"));
}

#[test]
fn sort_is_by_rank_then_name_and_stable() {
    let input = vec![
        (2u8, "b".to_string(), 1),
        (0u8, "z".to_string(), 2),
        (2u8, "a".to_string(), 3),
        (1u8, "m".to_string(), 4),
        (2u8, "a".to_string(), 5),
    ];
    let out = sort_by_key(input);
    let tags: Vec<i32> = out.iter().map(|e| e.2).collect();
    assert_eq!(tags, vec![2, 4, 3, 5, 1]);
}

#[test]
fn sorting_an_empty_list() {
    let out: Vec<(u8, String, ())> = sort_by_key(vec![]);
    assert!(out.is_empty());
}

#[test]
fn theme_list_is_sorted_without_repeats_and_has_the_default() {
    let found = vec!["nord".to_string(), "dracula".to_string(), "nord".to_string()];
    assert_eq!(
        theme_list(&found),
        vec!["catppuccin-mocha".to_string(), "dracula".to_string(), "nord".to_string()]
    );
    assert_eq!(theme_list(&Vec::new()), vec!["catppuccin-mocha".to_string()]);
    let with_default = vec!["catppuccin-mocha".to_string(), "Zen".to_string()];
    assert_eq!(theme_list(&with_default), vec!["Zen".to_string(), "catppuccin-mocha".to_string()]);
}
