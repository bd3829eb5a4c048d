use morpho_rs::order::{compare_text, sort_by_key, Relation};
use morpho_rs::resolve::resolve_call;
use morpho_rs::text::{
    chars_of, contains, ends_with, find_separator, find_text, last_segment_start, matches_at,
    same_text, starts_with,
};

fn chars(s: &str) -> Vec<char> {
    s.chars().collect()
}

#[test]
fn characters_of_a_string() {
    assert_eq!(chars_of("a└b"), vec!['a', '└', 'b']);
    assert_eq!(chars_of(""), Vec::<char>::new());
}

#[test]
fn finding_a_text() {
    assert_eq!(find_text(&chars("abcabc"), &chars("bc")), Some(1));
    assert_eq!(find_text(&chars("abcabc"), &chars("abcabc")), Some(0));
    assert_eq!(find_text(&chars("abc"), &chars("abcd")), None);
    assert_eq!(find_text(&chars("abc"), &chars("")), Some(0));
    assert_eq!(find_text(&chars(""), &chars("")), Some(0));
    assert_eq!(find_text(&chars("abc"), &chars("c")), Some(2));
    assert_eq!(find_text(&chars("abc"), &chars("x")), None);
    assert!(contains(&chars("a/b"), &chars("/")));
    assert!(!contains(&chars("ab"), &chars("/")));
    assert!(matches_at(&chars("abc"), &chars("bc"), 1));
    assert!(!matches_at(&chars("abc"), &chars("bc"), 2));
    assert!(!matches_at(&chars("abc"), &chars("bc"), 7));
}

#[test]
fn prefixes_and_suffixes() {
    assert!(starts_with(&chars("main/src"), &chars("main/")));
    assert!(!starts_with(&chars("main"), &chars("main/")));
    assert!(ends_with(&chars("a.rs::T::m"), &chars("::m")));
    assert!(!ends_with(&chars("a.rs::T::m"), &chars("::T")));
    assert!(ends_with(&chars("x"), &chars("")));
    assert!(same_text(&chars("abc"), &chars("abc")));
    assert!(!same_text(&chars("abc"), &chars("abd")));
    assert!(!same_text(&chars("abc"), &chars("ab")));
}

#[test]
fn separators() {
    assert_eq!(find_separator(&chars("a.rs::f")), Some(4));
    assert_eq!(find_separator(&chars("a:b")), None);
    assert_eq!(find_separator(&chars(":")), None);
    assert_eq!(last_segment_start(&chars("a.rs::T::m")), 9);
    assert_eq!(last_segment_start(&chars("plain")), 0);
    assert_eq!(last_segment_start(&chars("a::")), 3);
    assert_eq!(last_segment_start(&chars("a:::b")), 3);
    assert_eq!(last_segment_start(&chars("")), 0);
}

#[test]
fn order_of_texts() {
    assert_eq!(compare_text(&chars("a"), &chars("b")), Relation::Before);
    assert_eq!(compare_text(&chars("b"), &chars("a")), Relation::After);
    assert_eq!(compare_text(&chars("ab"), &chars("ab")), Relation::Same);
    assert_eq!(compare_text(&chars("ab"), &chars("abc")), Relation::Before);
    assert_eq!(compare_text(&chars("abc"), &chars("ab")), Relation::After);
    assert_eq!(compare_text(&chars(""), &chars("")), Relation::Same);
    assert_eq!(compare_text(&chars("Z"), &chars("a")), Relation::Before);
    assert_eq!(compare_text(&chars("z"), &chars("é")), Relation::Before);
}

#[test]
fn sorting_positions_by_their_texts() {
    let keys = vec![chars("pear"), chars("apple"), chars("fig"), chars("app")];
    assert_eq!(sort_by_key(&keys, &vec![0, 1, 2, 3]), vec![3, 1, 2, 0]);
    assert_eq!(sort_by_key(&keys, &vec![2, 0]), vec![2, 0]);
    assert_eq!(sort_by_key(&keys, &vec![]), Vec::<usize>::new());
}

#[test]
fn what_a_called_name_means() {
    let names = vec![chars("b.rs::run"), chars("a.rs::T::run"), chars("run"), chars("a.rs::rerun")];
    let all = vec![true, true, true, true];
    assert_eq!(resolve_call(&names, &all, &chars("run")), Some(2));
    assert_eq!(resolve_call(&names, &vec![true, true, false, true], &chars("run")), Some(1));
    assert_eq!(resolve_call(&names, &vec![true, false, false, true], &chars("run")), Some(0));
    assert_eq!(resolve_call(&names, &vec![false, false, false, true], &chars("run")), None);
    assert_eq!(resolve_call(&names, &all, &chars("T::run")), Some(1));
    assert_eq!(resolve_call(&names, &all, &chars("a.rs::rerun")), Some(3));
    assert_eq!(resolve_call(&names, &all, &chars("erun")), None);
}
