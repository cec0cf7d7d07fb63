use cargo_edit_completion::crates::{Crate, CrateMeta, CratesIndex, Entry, Node};
use cargo_edit_completion::error::Error;

fn strings(items: &[&str]) -> Vec<String> {
    items.iter().map(|s| s.to_string()).collect()
}

fn release(name: &str, version: &str) -> Crate {
    Crate { name: name.to_string(), version: version.to_string(), features: Vec::new(), yanked: false }
}

fn file(name: &str) -> Entry {
    Entry { name: name.to_string(), node: Node::File(Some(vec![release(name, "1.0.0")])) }
}

fn dir(name: &str, entries: Vec<Entry>) -> Entry {
    Entry { name: name.to_string(), node: Node::Dir(entries) }
}

fn meta(name: &str, path: &[&str]) -> CrateMeta {
    CrateMeta { name: name.to_string(), path: strings(path) }
}

fn index_of(entries: Vec<Entry>) -> CratesIndex {
    CratesIndex::new(strings(&["index"]), Node::Dir(entries))
}

fn classes() -> CratesIndex {
    index_of(vec![
        dir("x", vec![file("x")]),
        dir("ab", vec![dir("cd", vec![file("abcd")])]),
        dir("a", vec![file("ab"), file("abc")]),
        dir("he", vec![dir("ll", vec![file("hello")])]),
    ])
}

fn foo_tree() -> CratesIndex {
    index_of(vec![dir(
        "fo",
        vec![
            dir("ob", vec![file("foobar")]),
            dir("o-", vec![file("foo-bar")]),
            dir("od", vec![file("food")]),
            dir("o_", vec![file("foo_bar")]),
        ],
    )])
}

fn names(found: &[CrateMeta]) -> Vec<String> {
    found.iter().map(|m| m.name.clone()).collect()
}

#[test]
fn new_keeps_path_and_root() {
    let index = CratesIndex::new(strings(&["a", "b"]), Node::Other);
    assert_eq!(index.path, strings(&["a", "b"]));
    assert_eq!(index.root, Node::Other);
}

#[test]
fn crate_finds_each_length_class() {
    let index = classes();
    assert_eq!(index.crate_("x"), Some(meta("x", &["index", "x", "x"])));
    assert_eq!(index.crate_("ab"), Some(meta("ab", &["index", "a", "ab"])));
    assert_eq!(index.crate_("abcd"), Some(meta("abcd", &["index", "ab", "cd", "abcd"])));
    assert_eq!(index.crate_("abc"), Some(meta("abc", &["index", "a", "abc"])));
    assert_eq!(index.crate_("hello"), Some(meta("hello", &["index", "he", "ll", "hello"])));
}

#[test]
fn crate_absent_is_none() {
    let index = classes();
    assert_eq!(index.crate_("help"), None);
    assert_eq!(index.crate_("hellos"), None);
    assert_eq!(index.crate_("y"), None);
    assert_eq!(index.crate_("abd"), None);
    assert_eq!(index.crate_(""), None);
}

#[test]
fn crate_does_not_trade_separators() {
    let index = foo_tree();
    assert_eq!(index.crate_("foo-bar"), Some(meta("foo-bar", &["index", "fo", "o-", "foo-bar"])));
    assert_eq!(index.crate_("foo_bar"), Some(meta("foo_bar", &["index", "fo", "o_", "foo_bar"])));
    let only = index_of(vec![dir("fo", vec![dir("o-", vec![file("foo-bar")])])]);
    assert_eq!(only.crate_("foo_bar"), None);
}

#[test]
fn crate_prefers_the_short_segment() {
    let index = index_of(vec![
        dir("ab", vec![dir("c", vec![file("abcd")]), dir("cd", vec![file("abcd")])]),
        dir("a", vec![dir("bc", vec![file("abcd")])]),
    ]);
    assert_eq!(index.crate_("abcd"), Some(meta("abcd", &["index", "a", "bc", "abcd"])));
}

#[test]
fn crate_in_something_that_is_no_directory_is_none() {
    assert_eq!(CratesIndex::new(strings(&["index"]), Node::Other).crate_("x"), None);
    assert_eq!(CratesIndex::new(strings(&["index"]), Node::File(None)).crate_("x"), None);
    let index = index_of(vec![file("he")]);
    assert_eq!(index.crate_("hello"), None);
}

#[test]
fn crate_passes_over_a_directory_of_that_name() {
    let index = classes();
    assert_eq!(index.crate_("he"), None);
    assert_eq!(index.crate_("a"), None);
    let found = index.crate_("ab").unwrap();
    assert_eq!(found, meta("ab", &["index", "a", "ab"]));
    assert_eq!(found.detail(&index), Ok(&vec![release("ab", "1.0.0")]));
    let other = index_of(vec![Entry { name: "x".to_string(), node: Node::Other }]);
    assert_eq!(other.crate_("x"), None);
}

#[test]
fn crate_of_one_character_is_found_in_its_directory() {
    let index = index_of(vec![dir("1", vec![file("y")]), dir("x", vec![file("x"), file("y")])]);
    let found = index.crate_("x").unwrap();
    assert_eq!(found, meta("x", &["index", "x", "x"]));
    assert_eq!(found.detail(&index), Ok(&vec![release("x", "1.0.0")]));
    assert_eq!(index.crate_("y"), None);
    let flat = index_of(vec![file("z")]);
    assert_eq!(flat.crate_("z"), Some(meta("z", &["index", "z"])));
}

#[test]
fn crate_found_is_a_file_of_the_index() {
    let index = classes();
    for name in ["x", "ab", "abc", "abcd", "hello"] {
        let found = index.crate_(name).unwrap();
        assert_eq!(found.name, name);
        assert_eq!(found.path.last().map(|s| s.as_str()), Some(name));
        assert_eq!(found.detail(&index), Ok(&vec![release(name, "1.0.0")]));
    }
}

#[test]
fn prefix_search_trades_separators() {
    let found = foo_tree().crates_with_prefix("foo-");
    assert_eq!(
        found,
        vec![
            meta("foo_bar", &["index", "fo", "o_", "foo_bar"]),
            meta("foo-bar", &["index", "fo", "o-", "foo-bar"]),
        ]
    );
    assert_eq!(names(&foo_tree().crates_with_prefix("foo_")), strings(&["foo_bar", "foo-bar"]));
}

#[test]
fn prefix_search_leaves_out_what_was_not_typed() {
    let found = names(&foo_tree().crates_with_prefix("foo-"));
    assert!(!found.contains(&"foobar".to_string()));
    assert!(!found.contains(&"food".to_string()));
}

#[test]
fn prefix_search_twice_gives_the_same() {
    let index = foo_tree();
    let mut first = names(&index.crates_with_prefix("foo"));
    let mut second = names(&index.crates_with_prefix("foo"));
    first.sort();
    second.sort();
    assert_eq!(first, second);
    assert_eq!(first, strings(&["foo-bar", "foo_bar", "foobar", "food"]));
}

#[test]
fn prefix_search_scans_below_a_used_up_prefix() {
    let index = foo_tree();
    assert_eq!(
        names(&index.crates_with_prefix("fo")),
        strings(&["foobar", "foo-bar", "food", "foo_bar"])
    );
    assert_eq!(names(&index.crates_with_prefix("foob")), strings(&["foobar"]));
    assert_eq!(names(&index.crates_with_prefix("fox")), Vec::<String>::new());
}

#[test]
fn prefix_search_with_one_character_left_enters_matching_directories() {
    let index = foo_tree();
    assert_eq!(names(&index.crates_with_prefix("foo")), strings(&["foobar", "foo-bar", "food", "foo_bar"]));
    let index = classes();
    assert_eq!(names(&index.crates_with_prefix("h")), strings(&["hello"]));
    assert_eq!(names(&index.crates_with_prefix("a")), strings(&["abcd", "ab", "abc"]));
    assert_eq!(names(&index.crates_with_prefix("x")), strings(&["x"]));
}

#[test]
fn prefix_search_for_nothing_typed_finds_every_file() {
    assert_eq!(
        names(&classes().crates_with_prefix("")),
        strings(&["x", "abcd", "ab", "abc", "hello"])
    );
}

#[test]
fn prefix_search_filters_files_below_a_used_up_prefix() {
    let index = index_of(vec![dir("ab", vec![file("abc"), file("stray"), dir("cd", vec![file("abcd"), file("other")])])]);
    assert_eq!(names(&index.crates_with_prefix("ab")), strings(&["abc", "abcd"]));
}

#[test]
fn prefix_search_reports_only_files() {
    let index = index_of(vec![
        dir("fo", vec![Entry { name: "fog".to_string(), node: Node::Other }, file("fox")]),
    ]);
    assert_eq!(names(&index.crates_with_prefix("fo")), strings(&["fox"]));
    assert_eq!(names(&index.crates_with_prefix("f")), strings(&["fox"]));
}

#[test]
fn prefix_search_in_something_that_is_no_directory_is_empty() {
    assert_eq!(CratesIndex::new(strings(&["index"]), Node::Other).crates_with_prefix("a"), Vec::new());
    assert_eq!(CratesIndex::new(Vec::new(), Node::File(Some(Vec::new()))).crates_with_prefix(""), Vec::new());
}

#[test]
fn prefix_search_is_case_sensitive() {
    let index = index_of(vec![dir("Fo", vec![dir("ob", vec![file("Foobar")])])]);
    assert_eq!(names(&index.crates_with_prefix("foo")), Vec::<String>::new());
    assert_eq!(names(&index.crates_with_prefix("Foo")), strings(&["Foobar"]));
}

#[test]
fn detail_reads_the_file_at_the_path() {
    let index = classes();
    let found = index.crate_("hello").unwrap();
    assert_eq!(found.detail(&index), Ok(&vec![release("hello", "1.0.0")]));
}

#[test]
fn detail_of_a_file_that_does_not_decode_fails() {
    let index = index_of(vec![Entry { name: "x".to_string(), node: Node::File(None) }]);
    let found = index.crate_("x").unwrap();
    assert_eq!(found.detail(&index), Err(Error::DecodeFailure));
}

#[test]
fn detail_off_the_index_fails_to_read() {
    let index = classes();
    assert_eq!(meta("x", &["elsewhere", "x"]).detail(&index), Err(Error::IoFailure));
    assert_eq!(meta("x", &[]).detail(&index), Err(Error::IoFailure));
    assert_eq!(meta("x", &["index", "x", "x", "x"]).detail(&index), Err(Error::IoFailure));
    assert_eq!(meta("x", &["index", "x"]).detail(&index), Err(Error::IoFailure));
    assert_eq!(meta("y", &["index", "y"]).detail(&index), Err(Error::IoFailure));
    assert_eq!(meta("index", &["index"]).detail(&index), Err(Error::IoFailure));
}

#[test]
fn error_messages_differ() {
    assert_ne!(Error::IoFailure.message(), Error::NotFound.message());
    assert_ne!(Error::NotFound.message(), Error::DecodeFailure.message());
    assert_ne!(Error::IoFailure.message(), Error::DecodeFailure.message());
}
