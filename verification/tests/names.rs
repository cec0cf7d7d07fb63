use cargo_edit_completion::names::{expand, expand_path_domain, is_match, starts_with_any};
use cargo_edit_completion::text::chars_of;

fn strings(items: &[&str]) -> Vec<String> {
    items.iter().map(|s| s.to_string()).collect()
}

fn matches(query: &str, candidate: &str) -> bool {
    is_match(&chars_of(query), &chars_of(candidate))
}

#[test]
fn expand_without_separator_is_identity() {
    assert_eq!(expand_path_domain("abc"), strings(&["abc"]));
}

#[test]
fn expand_empty_fragment_is_one_empty_string() {
    assert_eq!(expand_path_domain(""), strings(&[""]));
}

#[test]
fn expand_one_separator_gives_underscore_then_hyphen() {
    assert_eq!(expand_path_domain("-"), strings(&["_", "-"]));
    assert_eq!(expand_path_domain("_"), strings(&["_", "-"]));
    assert_eq!(expand_path_domain("o-"), strings(&["o_", "o-"]));
}

#[test]
fn expand_two_separators_in_order() {
    assert_eq!(
        expand_path_domain("a-b_c"),
        strings(&["a_b_c", "a_b-c", "a-b_c", "a-b-c"])
    );
}

#[test]
fn expand_has_two_to_the_k_distinct_variants_of_equal_shape() {
    let fragment = "x-y_z-w_";
    let k = fragment.chars().filter(|c| *c == '-' || *c == '_').count();
    let all = expand_path_domain(fragment);
    assert_eq!(all.len(), 1usize << k);
    for (i, v) in all.iter().enumerate() {
        assert_eq!(v.chars().count(), fragment.chars().count());
        for (a, b) in fragment.chars().zip(v.chars()) {
            if a == '-' || a == '_' {
                assert!(b == '-' || b == '_');
            } else {
                assert_eq!(a, b);
            }
        }
        for w in &all[i + 1..] {
            assert_ne!(v, w);
        }
    }
}

#[test]
fn expand_on_characters_agrees_with_expand_on_strings() {
    let all = expand(&chars_of("-_"));
    let texts: Vec<String> = all.iter().map(|v| v.iter().collect()).collect();
    assert_eq!(texts, strings(&["__", "_-", "-_", "--"]));
    assert_eq!(texts, expand_path_domain("-_"));
}

#[test]
fn expand_keeps_other_characters_of_any_script() {
    assert_eq!(expand_path_domain("é-ß"), strings(&["é_ß", "é-ß"]));
}

#[test]
fn match_treats_separators_alike() {
    assert!(matches("foo-bar", "foo-bar"));
    assert!(matches("foo-bar", "foo_bar"));
    assert!(matches("foo_bar", "foo-bar"));
    assert!(matches("foo-", "foo_bar"));
    assert!(matches("foo-", "foo-bar"));
}

#[test]
fn match_is_anchored_and_literal_elsewhere() {
    assert!(!matches("foo-", "foobar"));
    assert!(!matches("foo-", "food"));
    assert!(!matches("oo-", "foo-bar"));
    assert!(!matches("Foo", "foo"));
    assert!(!matches("foo", "fo"));
    assert!(matches("", "anything"));
    assert!(matches("", ""));
}

#[test]
fn match_makes_no_character_optional() {
    assert!(!matches("foo-bar", "fo-bar"));
    assert!(!matches("a-b", "-b"));
    assert!(!matches("a_b", "_b"));
}

#[test]
fn match_takes_pattern_characters_literally() {
    assert!(!matches("a.c", "abc"));
    assert!(matches("a.c", "a.cd"));
    assert!(!matches("a-", "a?"));
    assert!(!matches("a*", "aaa"));
}

#[test]
fn starts_with_any_finds_one_of_the_parts() {
    let parts = expand(&chars_of("-"));
    assert!(starts_with_any(&chars_of("_x"), &parts));
    assert!(starts_with_any(&chars_of("-x"), &parts));
    assert!(!starts_with_any(&chars_of("x-"), &parts));
    assert!(!starts_with_any(&chars_of(""), &parts));
    assert!(!starts_with_any(&chars_of("-x"), &Vec::new()));
}
