//! End-to-end tests: describe a record's fields, build its plan, and run the
//! comparison routine, the way a record type's owner would.

use cache_diff::fields::{create_cache_diff, FieldDecl};
use cache_diff::routine;

fn named(ident: &str, type_path: &str, annotation: Option<&str>) -> FieldDecl {
    FieldDecl {
        ident: Some(ident.to_string()),
        type_path: type_path.to_string(),
        annotation: annotation.map(|a| a.to_string()),
    }
}

struct Person {
    _name: String,
}

impl cache_diff::CacheDiff for Person {
    fn diff(&self, old: &Self) -> Vec<String> {
        let decls = vec![named("_name", "String", None)];
        let plan = create_cache_diff(&decls).unwrap();
        routine::diff(&plan, &vec![self._name.clone()], &vec![old._name.clone()])
    }
}

fn is_diff<T: cache_diff::CacheDiff>(_in: &T) {}

#[test]
fn ignore_a_field() {
    let decls = vec![
        named("ruby_version", "String", None),
        named("_modified_by", "String", Some("ignore")),
    ];
    let plan = create_cache_diff(&decls).unwrap();
    let diff = routine::diff(
        &plan,
        &vec!["3.4.0".to_string(), "richard".to_string()],
        &vec!["3.3.0".to_string(), "not rich".to_string()],
    );
    assert_eq!(diff.len(), 1);
    let contents = diff.join(" ");
    assert!(
        !contents.contains("modified"),
        "Unexpected contents {contents}"
    );
}

#[test]
fn auto_display_path_buff() {
    let decls = vec![named("path", "PathBuf", None)];
    let plan = create_cache_diff(&decls).unwrap();
    let diff = routine::diff(&plan, &vec!["/tmp".to_string()], &vec!["/tmp2".to_string()]);
    assert_eq!(diff.len(), 1);
    let contents = diff.join(" ");
    assert!(
        contents.contains("/tmp"),
        "Unexpected contents '{contents}'"
    );
}

#[test]
fn ignore_rename_display_field() {
    let decls = vec![named(
        "version",
        "String",
        Some(r#"rename="Ruby version", display=my_display"#),
    )];
    let plan = create_cache_diff(&decls).unwrap();
    let my_display = |_name: String, value: String| format!("custom {value}");
    let diff = routine::diff_with(
        &plan,
        &vec!["3.4.0".to_string()],
        &vec!["3.3.0".to_string()],
        my_display,
    );
    assert_eq!(diff.len(), 1);
    let contents = diff.join(" ");
    assert!(
        contents.contains("custom 3.4.0"),
        "Expected `{contents}` to contain 'custom 3.4.0'"
    );
}

#[test]
fn ignore_rename_field() {
    let decls = vec![named("version", "String", Some(r#"rename = "Ruby version""#))];
    let plan = create_cache_diff(&decls).unwrap();
    let diff = routine::diff(&plan, &vec!["3.4.0".to_string()], &vec!["3.3.0".to_string()]);
    assert_eq!(diff.len(), 1);
    let contents = diff.join(" ");
    assert!(
        contents.contains("Ruby version"),
        "Expected `{contents}` to contain Ruby version"
    );
}

#[test]
fn test_replace_space() {
    let decls = vec![named("ruby_version", "String", None)];
    let plan = create_cache_diff(&decls).unwrap();
    let diff = routine::diff(&plan, &vec!["3.4.0".to_string()], &vec!["3.3.0".to_string()]);
    assert_eq!(diff.len(), 1);
    assert!(diff.join(" ").contains("ruby version"));
}

#[test]
fn test_cache_diff() {
    let richard = Person {
        _name: "richard".to_string(),
    };
    is_diff(&richard);
    let diff = cache_diff::CacheDiff::diff(
        &richard,
        &Person {
            _name: "rich".to_string(),
        },
    );
    assert_eq!(diff.len(), 1);
}
