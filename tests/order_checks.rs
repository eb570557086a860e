use derive_core::order::{
    check_branch_order, check_key_order, check_variant_order, flatten_branch_patterns, OrderError,
    OrderKey, Pattern, Variant,
};
use derive_core::text::{path_string, str_lt};

fn variants(names: &[&str]) -> Vec<Variant> {
    names
        .iter()
        .enumerate()
        .map(|(i, n)| Variant { name: n.to_string(), loc: i })
        .collect()
}

fn tuple(path: &[&str], loc: usize) -> Pattern {
    Pattern::TupleStruct { segments: path.iter().map(|s| s.to_string()).collect(), loc }
}

#[test]
fn variants_out_of_order_report_later_key() {
    let r = check_variant_order(&variants(&["Bravo", "Alpha"]));
    match r {
        Err(OrderError::OutOfOrder { later, earlier, loc }) => {
            assert_eq!(later, "Alpha");
            assert_eq!(earlier, "Bravo");
            assert_eq!(loc, 1);
        }
        other => panic!("unexpected {:?}", other),
    }
}

#[test]
fn variants_in_order_pass() {
    assert!(check_variant_order(&variants(&["Alpha", "Bravo", "Charlie"])).is_ok());
}

#[test]
fn empty_and_single_variant_lists_pass() {
    assert!(check_variant_order(&variants(&[])).is_ok());
    assert!(check_variant_order(&variants(&["Only"])).is_ok());
}

#[test]
fn first_violation_in_comparison_order_is_reported() {
    // (0, 2) is compared before (1, 2): "Delta" against "Alpha" comes first.
    let r = check_variant_order(&variants(&["Delta", "Echo", "Alpha"]));
    match r {
        Err(OrderError::OutOfOrder { later, earlier, loc }) => {
            assert_eq!(later, "Alpha");
            assert_eq!(earlier, "Delta");
            assert_eq!(loc, 2);
        }
        other => panic!("unexpected {:?}", other),
    }
}

#[test]
fn equal_keys_are_in_order() {
    assert!(check_variant_order(&variants(&["Same", "Same"])).is_ok());
}

#[test]
fn alternation_flattens_in_order_and_fails_on_first_pair() {
    let pats = vec![
        tuple(&["B"], 0),
        Pattern::Or { cases: vec![tuple(&["A"], 1), tuple(&["C"], 2)] },
    ];
    let keys = flatten_branch_patterns(&pats).unwrap();
    let texts: Vec<&str> = keys.iter().map(|k| k.key.as_str()).collect();
    assert_eq!(texts, vec!["B", "A", "C"]);
    match check_branch_order(&pats) {
        Err(OrderError::OutOfOrder { later, earlier, loc }) => {
            assert_eq!(later, "A");
            assert_eq!(earlier, "B");
            assert_eq!(loc, 1);
        }
        other => panic!("unexpected {:?}", other),
    }
}

#[test]
fn paths_wildcards_and_bindings_give_keys() {
    let pats = vec![
        Pattern::Path { segments: vec!["Error".to_string(), "Fmt".to_string()], loc: 0 },
        tuple(&["Error", "Io"], 1),
        Pattern::Ident { name: "other".to_string(), loc: 2 },
        Pattern::Wild { loc: 3 },
    ];
    let keys = flatten_branch_patterns(&pats).unwrap();
    let texts: Vec<&str> = keys.iter().map(|k| k.key.as_str()).collect();
    assert_eq!(texts, vec!["Error::Fmt", "Error::Io", "other", "_"]);
    let locs: Vec<usize> = keys.iter().map(|k| k.loc).collect();
    assert_eq!(locs, vec![0, 1, 2, 3]);
}

#[test]
fn wildcard_key_compares_by_character() {
    // '_' is below the lower-case letters and above the upper-case ones.
    let pats = vec![Pattern::Ident { name: "x".to_string(), loc: 0 }, Pattern::Wild { loc: 1 }];
    match check_branch_order(&pats) {
        Err(OrderError::OutOfOrder { later, earlier, .. }) => {
            assert_eq!(later, "_");
            assert_eq!(earlier, "x");
        }
        other => panic!("unexpected {:?}", other),
    }
    let pats = vec![tuple(&["A"], 0), Pattern::Wild { loc: 1 }];
    assert!(check_branch_order(&pats).is_ok());
}

#[test]
fn unsupported_pattern_fails_with_its_location() {
    let pats = vec![
        tuple(&["A"], 0),
        Pattern::Or { cases: vec![tuple(&["B"], 1), Pattern::Unsupported { loc: 7 }] },
        Pattern::Unsupported { loc: 9 },
    ];
    match check_branch_order(&pats) {
        Err(OrderError::UnsupportedPattern { loc }) => assert_eq!(loc, 7),
        other => panic!("unexpected {:?}", other),
    }
}

#[test]
fn key_order_checks_keys_directly() {
    let keys = vec![
        OrderKey { key: "abc".to_string(), loc: 0 },
        OrderKey { key: "ab".to_string(), loc: 1 },
    ];
    match check_key_order(&keys) {
        Err(OrderError::OutOfOrder { later, earlier, loc }) => {
            assert_eq!(later, "ab");
            assert_eq!(earlier, "abc");
            assert_eq!(loc, 1);
        }
        other => panic!("unexpected {:?}", other),
    }
}

#[test]
fn lexical_order_of_strings() {
    assert!(str_lt("Alpha", "Bravo"));
    assert!(!str_lt("Bravo", "Alpha"));
    assert!(str_lt("ab", "abc"));
    assert!(!str_lt("abc", "abc"));
    assert!(str_lt("", "a"));
    assert!(!str_lt("a", ""));
    assert!(str_lt("Z", "a"));
}

#[test]
fn path_segments_join_with_double_colon() {
    let segs: Vec<String> = vec!["std".to_string(), "io".to_string(), "Error".to_string()];
    assert_eq!(path_string(&segs), "std::io::Error");
    assert_eq!(path_string(&vec!["One".to_string()]), "One");
    assert_eq!(path_string(&vec![]), "");
}
