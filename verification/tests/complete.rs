use cargo_edit_completion::crates::{Crate, CrateMeta, CratesIndex, Entry, Node};
use cargo_edit_completion::error::Error;
use cargo_edit_completion::{
    complete_crate, complete_crate_name, complete_feature, crate_names, extend_command, releases,
    split_command,
};

fn strings(items: &[&str]) -> Vec<String> {
    items.iter().map(|s| s.to_string()).collect()
}

fn release(name: &str, version: &str, yanked: bool, features: &[&str]) -> Crate {
    Crate {
        name: name.to_string(),
        version: version.to_string(),
        features: features.iter().map(|f| (f.to_string(), Vec::new())).collect(),
        yanked,
    }
}

fn file(name: &str, records: Option<Vec<Crate>>) -> Entry {
    Entry { name: name.to_string(), node: Node::File(records) }
}

fn dir(name: &str, entries: Vec<Entry>) -> Entry {
    Entry { name: name.to_string(), node: Node::Dir(entries) }
}

fn index() -> CratesIndex {
    let serde = vec![
        release("serde", "1.0.0", false, &["derive"]),
        release("serde", "1.1.0", false, &["derive", "std"]),
        release("serde", "1.1.1", true, &["derive", "std", "alloc"]),
        release("serde", "2.0.0-beta", false, &["next"]),
    ];
    let odd = vec![release("serve", "1.0.0", false, &[]), release("serve", "one", false, &["odd"])];
    CratesIndex::new(
        strings(&["registry"]),
        Node::Dir(vec![dir(
            "se",
            vec![
                dir("rd", vec![file("serde", Some(serde)), file("serde_json", Some(Vec::new())), file("serde-yaml", None)]),
                dir("rv", vec![file("serve", Some(odd))]),
            ],
        )]),
    )
}

#[test]
fn split_command_at_the_first_at_sign() {
    assert_eq!(split_command("serde@1."), Some(("serde".to_string(), "1.".to_string())));
    assert_eq!(split_command("serde@"), Some(("serde".to_string(), "".to_string())));
    assert_eq!(split_command("@1"), Some(("".to_string(), "1".to_string())));
    assert_eq!(split_command("a@b@c"), Some(("a".to_string(), "b@c".to_string())));
    assert_eq!(split_command("serde"), None);
    assert_eq!(split_command(""), None);
}

#[test]
fn split_command_takes_the_last_requirement() {
    assert_eq!(split_command("serde@>=1.0,<2"), Some(("serde".to_string(), "<2".to_string())));
    assert_eq!(split_command("serde@1,"), Some(("serde".to_string(), "".to_string())));
    assert_eq!(split_command("a,b@1,2,3"), Some(("a,b".to_string(), "3".to_string())));
}

#[test]
fn extend_command_puts_the_command_first() {
    assert_eq!(extend_command("serde@1.", &strings(&["0.0", ""])), strings(&["serde@1.0.0", "serde@1."]));
    assert_eq!(extend_command("x", &Vec::new()), Vec::<String>::new());
}

#[test]
fn crate_names_in_order() {
    let found = vec![
        CrateMeta { name: "b".to_string(), path: strings(&["r", "b"]) },
        CrateMeta { name: "a".to_string(), path: Vec::new() },
    ];
    assert_eq!(crate_names(&found), strings(&["b", "a"]));
}

#[test]
fn complete_crate_name_lists_matching_packages() {
    assert_eq!(complete_crate_name(&index(), "serde"), strings(&["serde", "serde_json", "serde-yaml"]));
    assert_eq!(complete_crate_name(&index(), "serde-"), strings(&["serde_json", "serde-yaml"]));
    assert_eq!(complete_crate_name(&index(), "tokio"), Vec::<String>::new());
}

#[test]
fn complete_crate_without_at_sign_completes_names() {
    assert_eq!(complete_crate(&index(), "ser"), Ok(strings(&["serde", "serde_json", "serde-yaml", "serve"])));
    assert_eq!(complete_crate(&index(), "serde_j"), Ok(strings(&["serde_json"])));
    assert_eq!(complete_crate(&index(), "zzz"), Ok(Vec::new()));
}

#[test]
fn complete_crate_with_at_sign_completes_versions() {
    assert_eq!(complete_crate(&index(), "serde@1."), Ok(strings(&["serde@1.1.0", "serde@1.0.0"])));
    assert_eq!(complete_crate(&index(), "serde@2"), Ok(strings(&["serde@2.0.0-beta"])));
    assert_eq!(complete_crate(&index(), "serde@3"), Ok(Vec::new()));
    assert_eq!(complete_crate(&index(), "serde_json@"), Ok(Vec::new()));
}

#[test]
fn complete_crate_completes_the_last_requirement() {
    assert_eq!(
        complete_crate(&index(), "serde@>=1.0,1.1"),
        Ok(strings(&["serde@>=1.0,1.1.0"]))
    );
    assert_eq!(complete_crate(&index(), "serde@>=1.0,<2"), Ok(Vec::new()));
}

#[test]
fn complete_crate_of_an_unknown_package_is_not_found() {
    assert_eq!(complete_crate(&index(), "tokio@1"), Err(Error::NotFound));
    assert_eq!(complete_crate(&index(), "@1"), Err(Error::NotFound));
    assert_eq!(complete_crate(&index(), "serde-json@1"), Err(Error::NotFound));
}

#[test]
fn complete_crate_of_a_broken_file_fails_to_decode() {
    assert_eq!(complete_crate(&index(), "serde-yaml@1"), Err(Error::DecodeFailure));
    assert_eq!(complete_crate(&index(), "serve@o"), Err(Error::DecodeFailure));
    assert_eq!(complete_crate(&index(), "serve@1"), Ok(strings(&["serve@1.0.0"])));
}

#[test]
fn complete_crate_of_a_directory_is_not_found() {
    assert_eq!(complete_crate(&index(), "se@1"), Err(Error::NotFound));
    assert_eq!(complete_crate(&index(), "rd@1"), Err(Error::NotFound));
}

#[test]
fn complete_crate_where_a_name_is_listed_twice_fails_to_read() {
    let twice = CratesIndex::new(
        strings(&["registry"]),
        Node::Dir(vec![dir("x", Vec::new()), file("x", Some(Vec::new()))]),
    );
    assert_eq!(complete_crate(&twice, "x@1"), Err(Error::IoFailure));
    assert_eq!(complete_feature(&twice, "x", "1"), Err(Error::IoFailure));
}

#[test]
fn releases_of_a_package() {
    let index = index();
    assert_eq!(releases(&index, "serde").map(|r| r.len()), Ok(4));
    assert_eq!(releases(&index, "serde_json"), Ok(&Vec::new()));
    assert_eq!(releases(&index, "nothing"), Err(Error::NotFound));
    assert_eq!(releases(&index, "serde-yaml"), Err(Error::DecodeFailure));
    assert_eq!(releases(&index, "se"), Err(Error::NotFound));
}

#[test]
fn complete_feature_takes_the_last_release_that_matches() {
    assert_eq!(complete_feature(&index(), "serde", "1"), Ok(strings(&["derive", "std", "alloc"])));
    assert_eq!(complete_feature(&index(), "serde", "1.0"), Ok(strings(&["derive"])));
    assert_eq!(complete_feature(&index(), "serde", ""), Ok(strings(&["next"])));
    assert_eq!(complete_feature(&index(), "serve", "o"), Ok(strings(&["odd"])));
}

#[test]
fn complete_feature_failures() {
    assert_eq!(complete_feature(&index(), "serde", "3"), Err(Error::NotFound));
    assert_eq!(complete_feature(&index(), "tokio", "1"), Err(Error::NotFound));
    assert_eq!(complete_feature(&index(), "serde_json", ""), Err(Error::NotFound));
    assert_eq!(complete_feature(&index(), "serde-yaml", "1"), Err(Error::DecodeFailure));
    assert_eq!(complete_feature(&index(), "se", "1"), Err(Error::NotFound));
}
