use cargo_edit_completion::crates::Crate;
use cargo_edit_completion::error::Error;
use cargo_edit_completion::features::list_features;

fn strings(items: &[&str]) -> Vec<String> {
    items.iter().map(|s| s.to_string()).collect()
}

fn release(version: &str, yanked: bool, features: &[&str]) -> Crate {
    Crate {
        name: "demo".to_string(),
        version: version.to_string(),
        features: features.iter().map(|f| (f.to_string(), vec!["dep".to_string()])).collect(),
        yanked,
    }
}

#[test]
fn list_features_takes_the_last_match_of_the_file() {
    let a = release("2.1.0", false, &["alpha", "shared"]);
    let b = release("2.0.5", false, &["beta"]);
    assert_eq!(list_features(&vec![a, b], "2"), Ok(strings(&["beta"])));
}

#[test]
fn list_features_skips_later_releases_that_do_not_match() {
    let records = vec![
        release("1.0.0", false, &["one"]),
        release("2.0.0", false, &["two", "more"]),
        release("3.0.0", false, &["three"]),
    ];
    assert_eq!(list_features(&records, "2"), Ok(strings(&["two", "more"])));
    assert_eq!(list_features(&records, ""), Ok(strings(&["three"])));
}

#[test]
fn list_features_counts_a_yanked_release() {
    let records = vec![release("1.0.0", false, &["kept"]), release("1.0.1", true, &["gone"])];
    assert_eq!(list_features(&records, "1.0"), Ok(strings(&["gone"])));
}

#[test]
fn list_features_of_a_release_without_features_is_empty() {
    let records = vec![release("1.0.0", false, &[])];
    assert_eq!(list_features(&records, "1"), Ok(Vec::new()));
}

#[test]
fn list_features_without_a_match_is_not_found() {
    let records = vec![release("1.0.0", false, &["one"])];
    assert_eq!(list_features(&records, "2"), Err(Error::NotFound));
    assert_eq!(list_features(&Vec::new(), ""), Err(Error::NotFound));
}

#[test]
fn list_features_does_not_parse_the_version() {
    let records = vec![release("not-a-version", false, &["odd"])];
    assert_eq!(list_features(&records, "not"), Ok(strings(&["odd"])));
}
