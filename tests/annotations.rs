use derive_core::annotation::{
    is_word, parse_builder_annotations, parse_debug_annotations, AnnotationError, AttrBody,
    Literal, NestedEntry, RawAnnotation,
};

fn list(name: &str, entries: Vec<(&str, Option<Literal>)>, loc: usize) -> RawAnnotation {
    RawAnnotation {
        name: name.to_string(),
        body: AttrBody::List(
            entries
                .into_iter()
                .enumerate()
                .map(|(i, (k, v))| NestedEntry { key: k.to_string(), value: v, loc: loc * 10 + i })
                .collect(),
        ),
        loc,
    }
}

fn lit(s: &str) -> Option<Literal> {
    Some(Literal::Str(s.to_string()))
}

#[test]
fn builder_each_value_is_read() {
    let attrs = vec![list("builder", vec![("each", lit("arg"))], 1)];
    assert_eq!(parse_builder_annotations(&attrs).unwrap(), Some("arg".to_string()));
}

#[test]
fn no_builder_annotation_gives_none() {
    let attrs = vec![list("serde", vec![("rename", lit("x"))], 1)];
    assert_eq!(parse_builder_annotations(&attrs).unwrap(), None);
    assert_eq!(parse_builder_annotations(&vec![]).unwrap(), None);
}

#[test]
fn all_builder_blocks_are_read_and_last_each_wins() {
    let attrs = vec![
        list("builder", vec![("each", lit("first"))], 1),
        list("builder", vec![("each", lit("second"))], 2),
    ];
    assert_eq!(parse_builder_annotations(&attrs).unwrap(), Some("second".to_string()));
}

#[test]
fn builder_unknown_key_is_refused() {
    let attrs = vec![list("builder", vec![("eac", lit("arg"))], 3)];
    match parse_builder_annotations(&attrs) {
        Err(AnnotationError::UnrecognizedKey { key, loc }) => {
            assert_eq!(key, "eac");
            assert_eq!(loc, 30);
        }
        other => panic!("unexpected {:?}", other),
    }
}

#[test]
fn builder_value_must_be_a_string_literal() {
    let attrs = vec![list("builder", vec![("each", Some(Literal::Other))], 2)];
    match parse_builder_annotations(&attrs) {
        Err(AnnotationError::Malformed { key, loc }) => {
            assert_eq!(key, "each");
            assert_eq!(loc, 20);
        }
        other => panic!("unexpected {:?}", other),
    }
    let attrs = vec![list("builder", vec![("each", None)], 2)];
    assert!(matches!(parse_builder_annotations(&attrs), Err(AnnotationError::Malformed { .. })));
}

#[test]
fn builder_needs_a_nested_list() {
    let attrs = vec![RawAnnotation {
        name: "builder".to_string(),
        body: AttrBody::Value(Literal::Str("x".to_string())),
        loc: 4,
    }];
    match parse_builder_annotations(&attrs) {
        Err(AnnotationError::Malformed { key, loc }) => {
            assert_eq!(key, "builder");
            assert_eq!(loc, 4);
        }
        other => panic!("unexpected {:?}", other),
    }
}

#[test]
fn debug_format_string_is_read() {
    let attrs = vec![RawAnnotation {
        name: "debug".to_string(),
        body: AttrBody::Value(Literal::Str("0b{:08b}".to_string())),
        loc: 0,
    }];
    let a = parse_debug_annotations(&attrs).unwrap();
    assert_eq!(a.format, Some("0b{:08b}".to_string()));
    assert_eq!(a.bound, None);
}

#[test]
fn debug_bound_that_parses_is_kept() {
    let attrs = vec![list("debug", vec![("bound", lit("T::Value: Debug"))], 1)];
    let a = parse_debug_annotations(&attrs).unwrap();
    assert_eq!(a.bound, Some("T::Value: Debug".to_string()));
    assert_eq!(a.format, None);
}

#[test]
fn debug_bound_that_does_not_parse_is_refused() {
    let attrs = vec![list("debug", vec![("bound", lit("not a ( predicate"))], 1)];
    match parse_debug_annotations(&attrs) {
        Err(AnnotationError::Malformed { key, loc }) => {
            assert_eq!(key, "bound");
            assert_eq!(loc, 10);
        }
        other => panic!("unexpected {:?}", other),
    }
}

#[test]
fn debug_unknown_key_and_bare_form_are_refused() {
    let attrs = vec![list("debug", vec![("bounds", lit("T: Debug"))], 1)];
    assert!(matches!(
        parse_debug_annotations(&attrs),
        Err(AnnotationError::UnrecognizedKey { .. })
    ));
    let attrs = vec![RawAnnotation { name: "debug".to_string(), body: AttrBody::Bare, loc: 5 }];
    match parse_debug_annotations(&attrs) {
        Err(AnnotationError::Malformed { key, loc }) => {
            assert_eq!(key, "debug");
            assert_eq!(loc, 5);
        }
        other => panic!("unexpected {:?}", other),
    }
    let attrs = vec![RawAnnotation {
        name: "debug".to_string(),
        body: AttrBody::Value(Literal::Other),
        loc: 6,
    }];
    assert!(matches!(parse_debug_annotations(&attrs), Err(AnnotationError::Malformed { .. })));
}

#[test]
fn words_compare_exactly() {
    assert!(is_word(&"each".to_string(), "each"));
    assert!(!is_word(&"Each".to_string(), "each"));
    assert!(!is_word(&"eachx".to_string(), "each"));
}
