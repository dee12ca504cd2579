use visit::emit::is_ignore_field;
use visit::emit::field_refs;
use visit::emit::ignore_field_inner;
use visit::emit::FieldRef;
use visit::model::Field;
use visit::model::FieldAttr;
use visit::model::MarkerItem;
use visit::names::camelcase_to_snake_case;
use visit::names::hook_names;

fn named_field(name: &str) -> Field {
    Field { name: Some(name.to_string()), attrs: vec![] }
}

fn ignored_field(name: &str) -> Field {
    Field {
        name: Some(name.to_string()),
        attrs: vec![FieldAttr::Group(
            "visit".to_string(),
            vec![MarkerItem::Marker("ignore".to_string())],
        )],
    }
}

#[test]
fn name_derivation_foo_bar() {
    assert_eq!(camelcase_to_snake_case("FooBar"), "_foo_bar");
}

#[test]
fn name_derivation_hook_pair() {
    let (enter, exit) = hook_names("FooBar");
    assert_eq!(enter, "visit_foo_bar");
    assert_eq!(exit, "exit_foo_bar");
}

#[test]
fn name_derivation_is_deterministic() {
    let first = hook_names("SelectStatement");
    let second = hook_names("SelectStatement");
    assert_eq!(first, second);
    assert_eq!(first.0, "visit_select_statement");
    assert_eq!(first.1, "exit_select_statement");
}

#[test]
fn name_derivation_lowercase_is_copied() {
    assert_eq!(camelcase_to_snake_case("lower"), "lower");
}

#[test]
fn name_derivation_empty_identifier() {
    assert_eq!(camelcase_to_snake_case(""), "");
}

#[test]
fn name_derivation_every_boundary_gets_underscore() {
    assert_eq!(camelcase_to_snake_case("ABC"), "_a_b_c");
}

#[test]
fn ignore_marker_inner_recognized() {
    assert!(ignore_field_inner(&MarkerItem::Marker("ignore".to_string())));
    assert!(!ignore_field_inner(&MarkerItem::Marker("other".to_string())));
    assert!(!ignore_field_inner(&MarkerItem::OtherItem));
}

#[test]
fn ignore_field_needs_visit_group() {
    assert!(is_ignore_field(&ignored_field("a")));

    let wrong_group = Field {
        name: Some("a".to_string()),
        attrs: vec![FieldAttr::Group(
            "serde".to_string(),
            vec![MarkerItem::Marker("ignore".to_string())],
        )],
    };
    assert!(!is_ignore_field(&wrong_group));

    let wrong_marker = Field {
        name: Some("a".to_string()),
        attrs: vec![FieldAttr::Group(
            "visit".to_string(),
            vec![MarkerItem::Marker("rename".to_string())],
        )],
    };
    assert!(!is_ignore_field(&wrong_marker));

    let plain = Field { name: Some("a".to_string()), attrs: vec![FieldAttr::OtherAttr] };
    assert!(!is_ignore_field(&plain));
}

#[test]
fn ignore_field_found_in_later_attribute() {
    let field = Field {
        name: Some("a".to_string()),
        attrs: vec![
            FieldAttr::OtherAttr,
            FieldAttr::Group(
                "visit".to_string(),
                vec![MarkerItem::OtherItem, MarkerItem::Marker("ignore".to_string())],
            ),
        ],
    };
    assert!(is_ignore_field(&field));
}

#[test]
fn selection_keeps_order_and_drops_ignored() {
    let fields = vec![
        named_field("x"),
        ignored_field("skip_me"),
        named_field("y"),
        Field { name: None, attrs: vec![] },
    ];
    let refs = field_refs(&fields);
    assert_eq!(refs.len(), 3);
    assert!(matches!(&refs[0], FieldRef::Named(n) if n == "x"));
    assert!(matches!(&refs[1], FieldRef::Named(n) if n == "y"));
    assert!(matches!(&refs[2], FieldRef::Positional(3)));
}

#[test]
fn selection_of_all_ignored_is_empty() {
    let fields = vec![ignored_field("a"), ignored_field("b")];
    let refs = field_refs(&fields);
    assert_eq!(refs.len(), 0);
}
