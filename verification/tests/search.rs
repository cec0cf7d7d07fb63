use cargo_edit_completion::crates::{listing_of, CrateMeta, CratesIndex, Entry, Node};
use cargo_edit_completion::search::{ExactSearch, PrefixSearch, Visit};
use cargo_edit_completion::shard::{
    branches_of, exact_branches_of, find_exact, matching_files, Branch, DirEntry, EntryKind,
};
use cargo_edit_completion::text::chars_of;

fn strings(items: &[&str]) -> Vec<String> {
    items.iter().map(|s| s.to_string()).collect()
}

fn file(name: &str) -> Entry {
    Entry { name: name.to_string(), node: Node::File(Some(Vec::new())) }
}

fn dir(name: &str, entries: Vec<Entry>) -> Entry {
    Entry { name: name.to_string(), node: Node::Dir(entries) }
}

fn entry(name: &str, kind: EntryKind) -> DirEntry {
    DirEntry { name: name.to_string(), kind }
}

fn branch(segment: &str, remaining: &str) -> Branch {
    Branch { segment: segment.to_string(), remaining: chars_of(remaining) }
}

fn visit(path: &[&str], remaining: &str) -> Visit {
    Visit { path: strings(path), remaining: chars_of(remaining) }
}

fn meta(name: &str, path: &[&str]) -> CrateMeta {
    CrateMeta { name: name.to_string(), path: strings(path) }
}

fn tree() -> CratesIndex {
    CratesIndex::new(
        strings(&["index"]),
        Node::Dir(vec![
            file("x"),
            dir("y", vec![file("y")]),
            dir("ab", vec![dir("cd", vec![file("abcd")])]),
            dir("a", vec![file("ab"), file("abc"), file("a-b")]),
            dir(
                "fo",
                vec![
                    dir("ob", vec![file("foobar")]),
                    dir("o-", vec![file("foo-bar"), dir("deep", vec![file("foo-deep")])]),
                    dir("od", vec![file("food")]),
                    dir("o_", vec![file("foo_bar")]),
                ],
            ),
            dir("he", vec![dir("ll", vec![file("hello")])]),
        ]),
    )
}

fn listing_at(index: &CratesIndex, path: &[String]) -> Option<Vec<DirEntry>> {
    if path.len() < index.path.len() || path[..index.path.len()] != index.path[..] {
        return None;
    }
    let mut node = &index.root;
    for segment in &path[index.path.len()..] {
        match node {
            Node::Dir(entries) => match entries.iter().find(|e| &e.name == segment) {
                Some(e) => node = &e.node,
                None => return None,
            },
            _ => return None,
        }
    }
    match node {
        Node::Dir(entries) => Some(listing_of(entries)),
        _ => None,
    }
}

fn run_prefix(index: &CratesIndex, prefix: &str) -> (Vec<CrateMeta>, Vec<Vec<String>>) {
    let mut search = PrefixSearch::new(index.path.clone(), prefix);
    let mut asked = Vec::new();
    loop {
        let path = match search.next_visit() {
            Some(v) => v.path.clone(),
            None => break,
        };
        let listing = listing_at(index, &path);
        asked.push(path);
        search.supply(listing);
    }
    (search.into_found(), asked)
}

fn run_exact(index: &CratesIndex, name: &str) -> Option<CrateMeta> {
    let mut search = ExactSearch::new(index.path.clone(), name);
    loop {
        let path = match search.next_visit() {
            Some(v) => v.path.clone(),
            None => break,
        };
        let listing = listing_at(index, &path);
        search.supply(listing);
    }
    search.into_found()
}

#[test]
fn matching_files_takes_files_that_match() {
    let listing = vec![
        entry("foo-bar", EntryKind::File),
        entry("foo_baz", EntryKind::Dir),
        entry("foobar", EntryKind::File),
        entry("foo_bar", EntryKind::File),
        entry("foo-odd", EntryKind::Other),
    ];
    let found = matching_files(&listing, &strings(&["r", "fo"]), &chars_of("foo_"));
    assert_eq!(
        found,
        vec![meta("foo-bar", &["r", "fo", "foo-bar"]), meta("foo_bar", &["r", "fo", "foo_bar"])]
    );
    assert_eq!(matching_files(&Vec::new(), &Vec::new(), &chars_of("")), Vec::new());
}

#[test]
fn branches_with_nothing_left_are_all_directories() {
    let listing = vec![entry("b", EntryKind::Dir), entry("f", EntryKind::File), entry("a", EntryKind::Dir), entry("o", EntryKind::Other)];
    assert_eq!(branches_of(&listing, &chars_of("")), vec![branch("b", ""), branch("a", "")]);
}

#[test]
fn branches_with_one_character_left_begin_with_it() {
    let listing = vec![
        entry("o-", EntryKind::Dir),
        entry("ob", EntryKind::Dir),
        entry("xo", EntryKind::Dir),
        entry("o", EntryKind::File),
        entry("o_", EntryKind::Dir),
    ];
    assert_eq!(branches_of(&listing, &chars_of("o")), vec![branch("o-", ""), branch("ob", ""), branch("o_", "")]);
    let listing = vec![entry("-a", EntryKind::Dir), entry("a-", EntryKind::Dir), entry("_b", EntryKind::Dir)];
    assert_eq!(branches_of(&listing, &chars_of("_")), vec![branch("-a", ""), branch("_b", "")]);
}

#[test]
fn branches_with_more_left_try_one_and_two_characters() {
    let listing = vec![entry("zz", EntryKind::Dir)];
    assert_eq!(branches_of(&listing, &chars_of("foo")), vec![branch("f", "oo"), branch("fo", "o")]);
    assert_eq!(branches_of(&listing, &chars_of("ab")), vec![branch("a", "b"), branch("ab", "")]);
    assert_eq!(
        branches_of(&Vec::new(), &chars_of("o-x")),
        vec![branch("o", "-x"), branch("o_", "x"), branch("o-", "x")]
    );
    assert_eq!(
        branches_of(&Vec::new(), &chars_of("-_x")),
        vec![
            branch("_", "_x"),
            branch("-", "_x"),
            branch("__", "x"),
            branch("_-", "x"),
            branch("-_", "x"),
            branch("--", "x"),
        ]
    );
}

#[test]
fn find_exact_takes_a_file_of_the_name() {
    let listing = vec![
        entry("ab", EntryKind::Dir),
        entry("abc", EntryKind::File),
        entry("odd", EntryKind::Other),
        entry("two", EntryKind::Dir),
        entry("two", EntryKind::File),
    ];
    assert_eq!(
        find_exact(&listing, &strings(&["r"]), &"abc".to_string()),
        Some(meta("abc", &["r", "abc"]))
    );
    assert_eq!(find_exact(&listing, &strings(&["r"]), &"ab".to_string()), None);
    assert_eq!(find_exact(&listing, &strings(&["r"]), &"odd".to_string()), None);
    assert_eq!(
        find_exact(&listing, &strings(&["r"]), &"two".to_string()),
        Some(meta("two", &["r", "two"]))
    );
    assert_eq!(find_exact(&listing, &strings(&["r"]), &"a".to_string()), None);
    assert_eq!(find_exact(&listing, &strings(&["r"]), &"a_c".to_string()), None);
}

#[test]
fn exact_branches_try_one_and_two_characters() {
    assert_eq!(exact_branches_of(&chars_of("hello")), vec![branch("h", "ello"), branch("he", "llo")]);
    assert_eq!(exact_branches_of(&chars_of("a-")), vec![branch("a", "-"), branch("a-", "")]);
    assert_eq!(exact_branches_of(&chars_of("a")), vec![branch("a", "")]);
    assert_eq!(exact_branches_of(&chars_of("-")), vec![branch("-", "")]);
    assert_eq!(exact_branches_of(&chars_of("")), Vec::new());
}

#[test]
fn prefix_search_starts_at_the_root() {
    let search = PrefixSearch::new(strings(&["index"]), "fo");
    assert_eq!(search.query, chars_of("fo"));
    assert_eq!(search.pending, vec![visit(&["index"], "fo")]);
    assert_eq!(search.found, Vec::new());
    assert_eq!(search.next_visit(), Some(&visit(&["index"], "fo")));
}

#[test]
fn prefix_search_step_puts_the_first_branch_on_top() {
    let mut search = PrefixSearch::new(strings(&["index"]), "foo");
    search.supply(Some(vec![entry("foo", EntryKind::File), entry("bar", EntryKind::File)]));
    assert_eq!(search.found, vec![meta("foo", &["index", "foo"])]);
    assert_eq!(search.pending, vec![visit(&["index", "fo"], "o"), visit(&["index", "f"], "oo")]);
    search.supply(None);
    assert_eq!(search.pending, vec![visit(&["index", "fo"], "o")]);
    search.supply(Some(vec![entry("ob", EntryKind::Dir), entry("x", EntryKind::Dir)]));
    assert_eq!(search.pending, vec![visit(&["index", "fo", "ob"], "")]);
    search.supply(Some(vec![entry("foobar", EntryKind::File), entry("other", EntryKind::File)]));
    assert_eq!(search.next_visit(), None);
    search.supply(Some(vec![entry("foolate", EntryKind::File)]));
    assert_eq!(
        search.into_found(),
        vec![meta("foo", &["index", "foo"]), meta("foobar", &["index", "fo", "ob", "foobar"])]
    );
}

#[test]
fn prefix_search_by_steps_agrees_with_the_walk() {
    let index = tree();
    for prefix in ["", "f", "fo", "foo", "foo-", "foo_b", "foo-d", "a", "a-", "a_b", "ab", "abc", "abcd", "h", "he", "hel", "hello", "hellos", "x", "y", "-", "fo-"] {
        let (found, _) = run_prefix(&index, prefix);
        assert_eq!(found, index.crates_with_prefix(prefix));
    }
}

#[test]
fn prefix_search_by_steps_twice_gives_the_same() {
    let index = tree();
    let (first, first_asked) = run_prefix(&index, "foo-");
    let (second, second_asked) = run_prefix(&index, "foo-");
    assert_eq!(first, second);
    assert_eq!(first_asked, second_asked);
    let names: Vec<&str> = first.iter().map(|m| m.name.as_str()).collect();
    assert_eq!(names, vec!["foo_bar", "foo-bar", "foo-deep"]);
}

#[test]
fn prefix_search_asks_only_where_the_prefix_leads() {
    let index = tree();
    let (_, asked) = run_prefix(&index, "foo-");
    assert_eq!(
        asked,
        vec![
            strings(&["index"]),
            strings(&["index", "f"]),
            strings(&["index", "fo"]),
            strings(&["index", "fo", "o"]),
            strings(&["index", "fo", "o_"]),
            strings(&["index", "fo", "o-"]),
            strings(&["index", "fo", "o-", "deep"]),
        ]
    );
}

#[test]
fn exact_search_starts_at_the_root() {
    let search = ExactSearch::new(strings(&["index"]), "hello");
    assert_eq!(search.name, "hello");
    assert_eq!(search.pending, vec![visit(&["index"], "hello")]);
    assert_eq!(search.found, None);
}

#[test]
fn exact_search_step_by_step() {
    let mut search = ExactSearch::new(strings(&["index"]), "hello");
    search.supply(Some(vec![entry("he", EntryKind::Dir)]));
    assert_eq!(search.pending, vec![visit(&["index", "he"], "llo"), visit(&["index", "h"], "ello")]);
    search.supply(None);
    assert_eq!(search.next_visit(), Some(&visit(&["index", "he"], "llo")));
    search.supply(Some(vec![entry("ll", EntryKind::Dir)]));
    assert_eq!(search.pending, vec![visit(&["index", "he", "ll"], "o"), visit(&["index", "he", "l"], "lo")]);
    search.supply(None);
    search.supply(Some(vec![entry("hello", EntryKind::File)]));
    assert_eq!(search.next_visit(), None);
    assert_eq!(search.found, Some(meta("hello", &["index", "he", "ll", "hello"])));
    search.supply(Some(vec![entry("hello", EntryKind::File)]));
    assert_eq!(search.into_found(), Some(meta("hello", &["index", "he", "ll", "hello"])));
}

#[test]
fn exact_search_stops_at_the_first_find() {
    let mut search = ExactSearch::new(strings(&["r"]), "abcd");
    search.supply(Some(Vec::new()));
    assert_eq!(search.pending.len(), 2);
    search.supply(Some(vec![entry("abcd", EntryKind::File)]));
    assert_eq!(search.pending, Vec::new());
    assert_eq!(search.found, Some(meta("abcd", &["r", "a", "abcd"])));
}

#[test]
fn exact_search_gives_up_when_the_name_is_used_up() {
    let mut search = ExactSearch::new(strings(&["r"]), "a");
    search.supply(Some(vec![entry("b", EntryKind::File), entry("a", EntryKind::Dir)]));
    assert_eq!(search.pending, vec![visit(&["r", "a"], "")]);
    search.supply(Some(vec![entry("b", EntryKind::File), entry("a", EntryKind::Dir)]));
    assert_eq!(search.next_visit(), None);
    assert_eq!(search.into_found(), None);
}

#[test]
fn exact_search_finds_one_character_in_its_directory() {
    let mut search = ExactSearch::new(strings(&["r"]), "a");
    search.supply(Some(vec![entry("a", EntryKind::Dir)]));
    assert_eq!(search.found, None);
    search.supply(Some(vec![entry("a", EntryKind::File)]));
    assert_eq!(search.next_visit(), None);
    assert_eq!(search.into_found(), Some(meta("a", &["r", "a", "a"])));
}

#[test]
fn exact_search_by_steps_agrees_with_the_walk() {
    let index = tree();
    for name in ["", "x", "y", "z", "a", "ab", "abc", "a-b", "a_b", "abcd", "fo", "food", "foo-bar", "foo_bar", "foo-deep", "hello", "hell", "hellos"] {
        assert_eq!(run_exact(&index, name), index.crate_(name));
    }
}
