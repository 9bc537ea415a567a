use claude_sync_watch::text::{
    any_hidden_component, chars_of, clone_strings, concat_text, contains, ends_with, find_name_start,
    is_before,
    is_stripped, is_word, join_path, matches_at, path_has_json_extension, path_is_under, quote,
    same_chars, starts_with, strip_bounds, Strip,
};

fn cs(text: &str) -> Vec<char> {
    chars_of(text)
}

#[test]
fn chars_of_gives_every_character() {
    assert_eq!(chars_of("añb"), vec!['a', 'ñ', 'b']);
    assert_eq!(chars_of(""), Vec::<char>::new());
}

#[test]
fn matches_at_checks_position_and_bounds() {
    assert!(matches_at(&cs("hello"), 1, &cs("ell")));
    assert!(!matches_at(&cs("hello"), 0, &cs("ell")));
    assert!(!matches_at(&cs("hello"), 3, &cs("loo")));
    assert!(!matches_at(&cs("hello"), 6, &cs("")));
    assert!(matches_at(&cs("hello"), 5, &cs("")));
}

#[test]
fn prefix_suffix_and_infix() {
    assert!(starts_with(&cs(".hidden"), &cs(".")));
    assert!(!starts_with(&cs("a.b"), &cs(".")));
    assert!(starts_with(&cs("abc"), &cs("")));
    assert!(ends_with(&cs("file.tmp"), &cs(".tmp")));
    assert!(!ends_with(&cs("tmp"), &cs(".tmp")));
    assert!(contains(&cs("a (conflicted copy).md"), &cs("conflicted copy")));
    assert!(!contains(&cs("a conflicted  copy"), &cs("conflicted copy")));
    assert!(contains(&cs(""), &cs("")));
    assert!(!contains(&cs("ab"), &cs("abc")));
}

#[test]
fn name_start_is_behind_the_last_slash() {
    assert_eq!(find_name_start(&cs("/a/b/c.txt")), 5);
    assert_eq!(find_name_start(&cs("c.txt")), 0);
    assert_eq!(find_name_start(&cs("a/")), 2);
    assert_eq!(find_name_start(&cs("")), 0);
}

#[test]
fn hidden_components_are_found_at_any_depth() {
    assert!(any_hidden_component(&cs(".git/config"), 0));
    assert!(any_hidden_component(&cs("a/.b/c"), 0));
    assert!(any_hidden_component(&cs("a/b/.c"), 0));
    assert!(!any_hidden_component(&cs("a/b.c/d.e"), 0));
    assert!(!any_hidden_component(&cs(".skills/foo.md"), 8));
    assert!(!any_hidden_component(&cs("abc"), 3));
}

#[test]
fn join_path_adds_one_separator() {
    assert_eq!(join_path("/home/u", "skills/foo.md"), "/home/u/skills/foo.md");
    assert_eq!(join_path("/home/u/", "x"), "/home/u/x");
    assert_eq!(join_path("", "x"), "x");
    assert_eq!(join_path("/home/u", ""), "/home/u/");
}

#[test]
fn path_is_under_its_root_only() {
    assert!(path_is_under(&cs("/l/settings.json"), &cs("/l")));
    assert!(path_is_under(&cs("/l"), &cs("/l")));
    assert!(path_is_under(&cs("/l/a"), &cs("/l/")));
    assert!(!path_is_under(&cs("/local/a"), &cs("/l")));
    assert!(!path_is_under(&cs("/r/a"), &cs("/l")));
    assert!(!path_is_under(&cs("/"), &cs("/l")));
}

#[test]
fn json_extension_needs_a_stem() {
    assert!(path_has_json_extension(&cs("/l/settings.json")));
    assert!(path_has_json_extension(&cs("a.json")));
    assert!(path_has_json_extension(&cs("..json")));
    assert!(!path_has_json_extension(&cs(".json")));
    assert!(!path_has_json_extension(&cs("/l/dir.json/readme")));
    assert!(!path_has_json_extension(&cs("a.jsonx")));
    assert!(!path_has_json_extension(&cs("a.JSON")));
}

#[test]
fn concat_text_and_quote() {
    assert_eq!(concat_text("ab", "cd"), "abcd");
    assert_eq!(quote("/a b"), "\"/a b\"");
}

#[test]
fn clone_strings_keeps_order() {
    let list = vec!["a".to_string(), "".to_string(), "c".to_string()];
    assert_eq!(clone_strings(&list), list);
}

#[test]
fn strip_bounds_takes_off_both_ends() {
    let text = cs("  \t key \n");
    assert_eq!(strip_bounds(&text, 0, text.len(), Strip::Space), (4, 7));
    let quoted = cs("\"\"a\"b\"");
    assert_eq!(strip_bounds(&quoted, 0, quoted.len(), Strip::Exactly('"')), (2, 5));
    let blank = cs("   ");
    assert_eq!(strip_bounds(&blank, 0, 3, Strip::Space), (3, 3));
    assert_eq!(strip_bounds(&text, 4, 7, Strip::Space), (4, 7));
}

#[test]
fn white_space_is_what_char_says() {
    for n in 0u32..0x3100 {
        if let Some(c) = char::from_u32(n) {
            assert_eq!(is_stripped(Strip::Space, c), c.is_whitespace());
        }
    }
    assert!(is_stripped(Strip::Exactly('x'), 'x'));
    assert!(!is_stripped(Strip::Exactly('x'), 'y'));
}

#[test]
fn same_chars_and_is_word() {
    assert!(same_chars(&cs("abc"), &cs("abc")));
    assert!(!same_chars(&cs("abc"), &cs("abd")));
    assert!(!same_chars(&cs("abc"), &cs("ab")));
    assert!(is_word(&cs("LoCaL"), &cs("local")));
    assert!(is_word(&cs("local"), &cs("local")));
    assert!(!is_word(&cs("locals"), &cs("local")));
    assert!(!is_word(&cs("l0cal"), &cs("local")));
}

#[test]
fn dictionary_order_of_texts() {
    assert!(is_before(&cs("a"), &cs("b")));
    assert!(!is_before(&cs("b"), &cs("a")));
    assert!(!is_before(&cs("a"), &cs("a")));
    assert!(is_before(&cs(""), &cs("a")));
    assert!(!is_before(&cs("a"), &cs("")));
    assert!(!is_before(&cs(""), &cs("")));
    assert!(is_before(&cs("ab"), &cs("abc")));
    assert!(is_before(&cs("abc"), &cs("abd")));
    assert!(is_before(&cs("Z"), &cs("a")));
    assert!(is_before(&cs("skills"), &cs("skills/a")));
    assert!(is_before(&cs("z"), &cs("\u{e9}")));
    for (a, b) in [("a", "b"), ("ab", "a/"), ("x\u{10348}", "x\u{e9}"), ("", "")] {
        assert_eq!(is_before(&cs(a), &cs(b)), a < b);
        assert_eq!(is_before(&cs(b), &cs(a)), b < a);
    }
}
