//! Concrete checks of the library's stated properties: message order and
//! exact message text, ignore/rename/display behavior, the path formatter,
//! the styled formatter, and the generation-time errors.

use cache_diff::fields::{create_cache_diff, CacheDiffField, DisplayFn, FieldDecl, GenError};
use cache_diff::routine;
use cache_diff::CacheDiff;

struct Anything;

impl CacheDiff for Anything {
    fn diff(&self, _old: &Self) -> Vec<String> {
        Vec::new()
    }
}

fn named(ident: &str, type_path: &str, annotation: Option<&str>) -> FieldDecl {
    FieldDecl {
        ident: Some(ident.to_string()),
        type_path: type_path.to_string(),
        annotation: annotation.map(|a| a.to_string()),
    }
}

#[test]
fn order_preserved_one_message_per_differing_field() {
    let decls = vec![
        named("version", "String", None),
        named("distro", "String", None),
    ];
    let plan = create_cache_diff(&decls).unwrap();
    let diff = routine::diff(
        &plan,
        &vec!["3.4.0".to_string(), "Ubuntu".to_string()],
        &vec!["3.3.0".to_string(), "Alpine".to_string()],
    );
    assert_eq!(
        diff,
        vec![
            "version (`3.3.0` to `3.4.0`)".to_string(),
            "distro (`Alpine` to `Ubuntu`)".to_string(),
        ]
    );
}

#[test]
fn unchanged_fields_get_no_message() {
    let decls = vec![
        named("a", "String", None),
        named("b", "String", None),
        named("c", "String", None),
    ];
    let plan = create_cache_diff(&decls).unwrap();
    let diff = routine::diff(
        &plan,
        &vec!["1".to_string(), "same".to_string(), "3".to_string()],
        &vec!["0".to_string(), "same".to_string(), "2".to_string()],
    );
    assert_eq!(
        diff,
        vec!["a (`0` to `1`)".to_string(), "c (`2` to `3`)".to_string()]
    );
}

#[test]
fn same_instance_yields_empty_diff() {
    let decls = vec![
        named("version", "String", None),
        named("distro", "String", None),
    ];
    let plan = create_cache_diff(&decls).unwrap();
    let x = vec!["3.4.0".to_string(), "Ubuntu".to_string()];
    let diff = routine::diff(&plan, &x, &x);
    assert!(diff.is_empty());
}

#[test]
fn zero_field_record_yields_empty_diff() {
    let decls: Vec<FieldDecl> = vec![];
    let plan = create_cache_diff(&decls).unwrap();
    let diff = routine::diff(&plan, &vec![], &vec![]);
    assert!(diff.is_empty());
}

#[test]
fn ignored_field_never_appears_even_when_it_differs() {
    let decls = vec![
        named("kept", "String", None),
        named("dropped", "String", Some("ignore, rename = \"Loud Name\"")),
    ];
    let plan = create_cache_diff(&decls).unwrap();
    let diff = routine::diff(
        &plan,
        &vec!["same".to_string(), "one".to_string()],
        &vec!["same".to_string(), "two".to_string()],
    );
    assert!(diff.is_empty(), "got {diff:?}");
}

#[test]
fn rename_message_starts_with_new_name() {
    let decls = vec![named("version", "String", Some(r#"rename = "X""#))];
    let plan = create_cache_diff(&decls).unwrap();
    let diff = routine::diff(&plan, &vec!["2".to_string()], &vec!["1".to_string()]);
    assert_eq!(diff.len(), 1);
    assert!(diff[0].starts_with("X ("), "got {}", diff[0]);
    assert!(!diff[0].contains("version"), "got {}", diff[0]);
}

#[test]
fn default_name_transform_exact_message() {
    let decls = vec![named("ruby_version", "String", None)];
    let plan = create_cache_diff(&decls).unwrap();
    let diff = routine::diff(&plan, &vec!["3.4.0".to_string()], &vec!["3.3.0".to_string()]);
    assert_eq!(diff, vec!["ruby version (`3.3.0` to `3.4.0`)".to_string()]);
    assert!(diff[0].starts_with("ruby version ("));
}

#[test]
fn path_auto_formatting_exact_segments() {
    let decls = vec![named("path", "PathBuf", None)];
    let plan = create_cache_diff(&decls).unwrap();
    let diff = routine::diff(&plan, &vec!["/tmp2".to_string()], &vec!["/tmp".to_string()]);
    assert_eq!(diff, vec!["path (`/tmp` to `/tmp2`)".to_string()]);
}

#[test]
fn custom_display_applied_to_both_sides() {
    let decls = vec![named("version", "String", Some("display = f"))];
    let plan = create_cache_diff(&decls).unwrap();
    let apply = |name: String, value: String| {
        assert_eq!(name, "f");
        format!("custom {value}")
    };
    let diff = routine::diff_with(
        &plan,
        &vec!["3.4.0".to_string()],
        &vec!["3.3.0".to_string()],
        apply,
    );
    assert_eq!(
        diff,
        vec!["version (`custom 3.3.0` to `custom 3.4.0`)".to_string()]
    );
}

#[test]
fn pathbuf_recognition_is_structural() {
    let cases = vec![
        ("PathBuf", true),
        ("std::path::PathBuf", true),
        ("path::PathBuf", true),
        ("String", false),
        ("Vec<PathBuf>", false),
        ("PathBuffer", false),
        ("MyPathBuf", false),
    ];
    for (type_path, is_path) in cases {
        let decls = vec![named("field", type_path, None)];
        let plan = create_cache_diff(&decls).unwrap();
        let expected = if is_path {
            DisplayFn::PathDisplay
        } else {
            DisplayFn::Identity
        };
        assert_eq!(
            plan.fields[0].display_fn, expected,
            "type {type_path} misclassified"
        );
    }
}

#[test]
fn plan_holds_resolved_names_and_positions() {
    let decls = vec![
        named("first_field", "String", None),
        named("skipped", "String", Some("ignore")),
        named("third", "String", Some(r#"rename = "Third""#)),
    ];
    let plan = create_cache_diff(&decls).unwrap();
    assert_eq!(plan.field_count, 3);
    assert_eq!(
        plan.fields,
        vec![
            CacheDiffField {
                index: 0,
                field_ident: "first_field".to_string(),
                name: "first field".to_string(),
                display_fn: DisplayFn::Identity,
            },
            CacheDiffField {
                index: 2,
                field_ident: "third".to_string(),
                name: "Third".to_string(),
                display_fn: DisplayFn::Identity,
            },
        ]
    );
}

#[test]
fn positional_field_rejected() {
    let decls = vec![
        named("fine", "String", None),
        FieldDecl {
            ident: None,
            type_path: "String".to_string(),
            annotation: None,
        },
    ];
    let err = create_cache_diff(&decls).unwrap_err();
    assert_eq!(err, GenError::UnsupportedShape);
    assert_eq!(err.message(), "positional fields not supported");
}

#[test]
fn annotation_error_surfaces_from_generation() {
    let decls = vec![named("field", "String", Some(r#"foo = "bar""#))];
    let err = create_cache_diff(&decls).unwrap_err();
    let msg = err.message();
    assert!(msg.contains("rename") && msg.contains("display") && msg.contains("ignore"));
}

#[test]
fn styled_formatter_wraps_values_in_color() {
    let decls = vec![named("path", "PathBuf", None)];
    let plan = create_cache_diff(&decls).unwrap();
    let diff = routine::diff_styled(&plan, &vec!["/tmp2".to_string()], &vec!["/tmp".to_string()]);
    assert_eq!(
        diff,
        vec![format!(
            "path (`{y}/tmp{r}` to `{y}/tmp2{r}`)",
            y = "\u{1b}[0;33m",
            r = "\u{1b}[0m"
        )]
    );
}

#[test]
fn fmt_value_wraps_in_backticks() {
    assert_eq!(Anything.fmt_value(&"3.4.0".to_string()), "`3.4.0`");
    assert_eq!(routine::fmt_value(&"v".to_string()), "`v`");
}
