use derive_core::annotation::{AttrBody, Literal, NestedEntry, RawAnnotation};
use derive_core::builder::{
    build_model, Action, BuilderInput, Finish, Member, ModelError, SlotInit,
};
use derive_core::formatter::{
    associated_occurrences, is_param, Bounds, CustomDebugInput, FormatError,
    Predicate, Render,
};
use derive_core::shape::{
    classify, collection_table, match_wrapper, optional_table, Classification, GenericArg,
    Segment, TypeExpr,
};

/// A type argument: a plain path `a::b`, or any other type by its text.
fn arg(text: &str) -> GenericArg {
    if text.contains('<') || text.contains('&') {
        GenericArg::Type(TypeExpr { text: text.to_string(), path: None })
    } else {
        let segs: Vec<&str> = text.split("::").collect();
        GenericArg::Type(ty(&segs, &[]))
    }
}

/// A path type: segments, and the arguments of the last one.
fn ty(path: &[&str], args: &[&str]) -> TypeExpr {
    let n = path.len();
    let segs: Vec<Segment> = path
        .iter()
        .enumerate()
        .map(|(i, s)| Segment {
            ident: s.to_string(),
            args: if i + 1 == n { args.iter().map(|a| arg(a)).collect() } else { vec![] },
        })
        .collect();
    let mut text = path.join("::");
    if !args.is_empty() {
        text = format!("{}<{}>", text, args.join(", "));
    }
    TypeExpr { text, path: Some(segs) }
}

fn each(name: &str) -> Vec<RawAnnotation> {
    vec![RawAnnotation {
        name: "builder".to_string(),
        body: AttrBody::List(vec![NestedEntry {
            key: "each".to_string(),
            value: Some(Literal::Str(name.to_string())),
            loc: 0,
        }]),
        loc: 0,
    }]
}

fn debug_fmt(f: &str) -> Vec<RawAnnotation> {
    vec![RawAnnotation {
        name: "debug".to_string(),
        body: AttrBody::Value(Literal::Str(f.to_string())),
        loc: 0,
    }]
}

fn debug_bound(b: &str) -> Vec<RawAnnotation> {
    vec![RawAnnotation {
        name: "debug".to_string(),
        body: AttrBody::List(vec![NestedEntry {
            key: "bound".to_string(),
            value: Some(Literal::Str(b.to_string())),
            loc: 0,
        }]),
        loc: 0,
    }]
}

fn member(name: &str, t: TypeExpr, attrs: Vec<RawAnnotation>) -> Member {
    Member { name: name.to_string(), ty: t, attrs, loc: 0 }
}

#[test]
fn optional_shapes_are_recognised_by_spelling() {
    let table = optional_table();
    assert_eq!(match_wrapper(&ty(&["Option"], &["String"]), &table), Some("String".to_string()));
    assert_eq!(
        match_wrapper(&ty(&["std", "option", "Option"], &["u8"]), &table),
        Some("u8".to_string())
    );
    assert_eq!(
        match_wrapper(&ty(&["core", "option", "Option"], &["u8"]), &table),
        Some("u8".to_string())
    );
    // An alias is not resolved.
    assert_eq!(match_wrapper(&ty(&["Opt"], &["u8"]), &table), None);
    assert_eq!(match_wrapper(&ty(&["Option"], &[]), &table), None);
    assert_eq!(match_wrapper(&ty(&["Vec"], &["u8"]), &table), None);
    let not_a_path = TypeExpr { text: "&str".to_string(), path: None };
    assert_eq!(match_wrapper(&not_a_path, &table), None);
}

#[test]
fn first_argument_must_be_a_type() {
    let mut t = ty(&["Option"], &[]);
    if let Some(segs) = t.path.as_mut() {
        segs[0].args = vec![GenericArg::NotType, arg("u8")];
    }
    assert_eq!(match_wrapper(&t, &optional_table()), None);
}

#[test]
fn classification_follows_shape_and_each() {
    match classify(&ty(&["Option"], &["String"]), None) {
        Some(Classification::Optional { inner }) => assert_eq!(inner, "String"),
        other => panic!("unexpected {:?}", other),
    }
    assert!(matches!(classify(&ty(&["String"], &[]), None), Some(Classification::Required)));
    match classify(&ty(&["std", "vec", "Vec"], &["String"]), Some("arg".to_string())) {
        Some(Classification::Accumulating { inner, appender }) => {
            assert_eq!(inner, "String");
            assert_eq!(appender, "arg");
        }
        other => panic!("unexpected {:?}", other),
    }
    // Without `each` a collection is an ordinary required member.
    assert!(matches!(classify(&ty(&["Vec"], &["u8"]), None), Some(Classification::Required)));
    // `each` on a non-collection is refused, even on an optional type.
    assert!(classify(&ty(&["String"], &[]), Some("x".to_string())).is_none());
    assert!(classify(&ty(&["Option"], &["u8"]), Some("x".to_string())).is_none());
    assert!(match_wrapper(&ty(&["alloc", "vec", "Vec"], &["u8"]), &collection_table()).is_some());
}

fn command_members() -> Vec<Member> {
    vec![
        member("executable", ty(&["String"], &[]), vec![]),
        member("args", ty(&["Vec"], &["String"]), each("arg")),
        member("current_dir", ty(&["Option"], &["String"]), vec![]),
    ]
}

#[test]
fn builder_model_classifies_each_member() {
    let model = build_model(&command_members()).unwrap();
    assert_eq!(model.len(), 3);
    assert!(matches!(model[0].class, Classification::Required));
    assert!(matches!(&model[1].class, Classification::Accumulating { inner, appender } if inner == "String" && appender == "arg"));
    assert!(matches!(&model[2].class, Classification::Optional { inner } if inner == "String"));
    assert_eq!(model[1].ty, "Vec<String>");
}

#[test]
fn builder_synthesis_is_repeatable() {
    let a = BuilderInput::parse(&"Command".to_string(), &command_members()).unwrap();
    let b = BuilderInput::parse(&"Command".to_string(), &command_members()).unwrap();
    assert_eq!(a.builder_struct_ident(), b.builder_struct_ident());
    assert_eq!(format!("{:?}", a.generate_builder_struct()), format!("{:?}", b.generate_builder_struct()));
    assert_eq!(format!("{:?}", a.generate_builder_method()), format!("{:?}", b.generate_builder_method()));
    assert_eq!(format!("{:?}", a.generate_setter_methods()), format!("{:?}", b.generate_setter_methods()));
    assert_eq!(
        format!("{:?}", a.generate_final_build_method()),
        format!("{:?}", b.generate_final_build_method())
    );
}

#[test]
fn each_without_collection_is_a_shape_mismatch() {
    let ms = vec![
        member("ok", ty(&["u8"], &[]), vec![]),
        member("env", ty(&["String"], &[]), each("var")),
    ];
    match build_model(&ms) {
        Err(ModelError::ShapeMismatch { member, .. }) => assert_eq!(member, "env"),
        other => panic!("unexpected {:?}", other),
    }
}

#[test]
fn model_reports_annotation_errors() {
    let mut attrs = each("x");
    if let AttrBody::List(es) = &mut attrs[0].body {
        es[0].key = "eac".to_string();
    }
    let ms = vec![member("env", ty(&["Vec"], &["String"]), attrs)];
    assert!(matches!(build_model(&ms), Err(ModelError::Annotation(_))));
}

#[test]
fn empty_record_gives_empty_plan() {
    let input = BuilderInput::parse(&"Unit".to_string(), &vec![]).unwrap();
    assert_eq!(input.builder_struct_ident(), "UnitBuilder");
    assert!(input.generate_builder_struct().is_empty());
    assert!(input.generate_setter_methods().is_empty());
}

fn decl(name: &str, generics: &[&str], attrs: Vec<RawAnnotation>, members: Vec<Member>) -> CustomDebugInput {
    CustomDebugInput {
        name: name.to_string(),
        generics: generics.iter().map(|g| g.to_string()).collect(),
        attrs,
        members,
        loc: 0,
    }
}

#[test]
fn associated_path_gets_targeted_bound_and_direct_param_blanket() {
    let d = decl(
        "Field",
        &["T", "U"],
        vec![],
        vec![
            member("values", ty(&["Vec"], &["T::Value"]), vec![]),
            member("direct", ty(&["U"], &[]), vec![]),
        ],
    );
    let plan = d.debug_impl().unwrap();
    assert_eq!(plan.label, "Field");
    match plan.bounds {
        Bounds::Inferred { blanket, targeted } => {
            assert_eq!(blanket, vec!["U".to_string()]);
            assert_eq!(targeted.len(), 1);
            match &targeted[0] {
                Predicate::Formattable(p) => assert_eq!(p, "T::Value"),
                other => panic!("unexpected {:?}", other),
            }
        }
        other => panic!("unexpected {:?}", other),
    }
}

#[test]
fn associated_type_as_whole_member_type_is_targeted() {
    let d = decl("Wrap", &["T"], vec![], vec![member("item", ty(&["T", "Item"], &[]), vec![])]);
    let occ = associated_occurrences(&d.members[0].ty, &d.generics);
    assert_eq!(occ.len(), 1);
    assert_eq!(occ[0].receiver, "T");
    assert_eq!(occ[0].path, "T::Item");
    match d.debug_impl().unwrap().bounds {
        Bounds::Inferred { blanket, targeted } => {
            assert!(blanket.is_empty());
            assert!(matches!(&targeted[0], Predicate::Formattable(p) if p == "T::Item"));
        }
        other => panic!("unexpected {:?}", other),
    }
}

#[test]
fn non_parameter_paths_are_not_associated() {
    let params = vec!["T".to_string()];
    let occ = associated_occurrences(&ty(&["std", "string", "String"], &[]), &params);
    assert!(occ.is_empty());
    let occ = associated_occurrences(&ty(&["Vec"], &["io::Error"]), &params);
    assert!(occ.is_empty());
    assert!(is_param(&params, &"T".to_string()));
    assert!(!is_param(&params, &"U".to_string()));
}

#[test]
fn member_format_strings_and_default_rendering() {
    let d = decl(
        "Field",
        &[],
        vec![],
        vec![
            member("name", ty(&["String"], &[]), vec![]),
            member("bitmask", ty(&["u8"], &[]), debug_fmt("0b{:08b}")),
        ],
    );
    let plan = d.debug_impl().unwrap();
    assert_eq!(plan.fields.len(), 2);
    assert_eq!(plan.fields[0].name, "name");
    assert!(matches!(plan.fields[0].render, Render::Default));
    assert_eq!(plan.fields[1].name, "bitmask");
    assert!(matches!(&plan.fields[1].render, Render::Custom(f) if f == "0b{:08b}"));
}

#[test]
fn declaration_bound_overrides_inference() {
    let d = decl(
        "Wrapper",
        &["T"],
        debug_bound("T::Value: std::fmt::Debug"),
        vec![member("field", ty(&["Field"], &["T"]), vec![])],
    );
    match d.debug_impl().unwrap().bounds {
        Bounds::Override(b) => assert_eq!(b, "T::Value: std::fmt::Debug"),
        other => panic!("unexpected {:?}", other),
    }
}

#[test]
fn member_bound_replaces_its_inference() {
    let d = decl(
        "Wrapper",
        &["T"],
        vec![],
        vec![member("field", ty(&["Vec"], &["T::Value"]), debug_bound("T::Value: Clone"))],
    );
    match d.debug_impl().unwrap().bounds {
        Bounds::Inferred { blanket, targeted } => {
            assert_eq!(blanket, vec!["T".to_string()]);
            assert!(matches!(&targeted[0], Predicate::Verbatim(p) if p == "T::Value: Clone"));
        }
        other => panic!("unexpected {:?}", other),
    }
}

#[test]
fn format_string_on_declaration_is_refused() {
    let mut d = decl("Field", &[], debug_fmt("{}"), vec![]);
    d.loc = 3;
    match d.debug_impl() {
        Err(FormatError::FormatOnDeclaration { loc }) => assert_eq!(loc, 3),
        other => panic!("unexpected {:?}", other),
    }
}

#[test]
fn formatter_synthesis_is_repeatable() {
    let d = decl("Field", &["T"], vec![], vec![member("t", ty(&["T"], &[]), vec![])]);
    let a = d.debug_impl().unwrap();
    let b = d.debug_impl().unwrap();
    assert_eq!(format!("{:?}", a), format!("{:?}", b));
}

#[test]
fn builder_input_pieces_follow_the_members() {
    let input = BuilderInput::parse(&"Command".to_string(), &command_members()).unwrap();
    assert_eq!(input.ident, "Command");
    assert_eq!(input.builder_struct_ident(), "CommandBuilder");

    let slots = input.generate_builder_struct();
    let names: Vec<&str> = slots.iter().map(|s| s.name.as_str()).collect();
    assert_eq!(names, vec!["executable", "args", "current_dir"]);
    let types: Vec<&str> = slots.iter().map(|s| s.ty.as_str()).collect();
    assert_eq!(types, vec!["String", "Vec<String>", "Option<String>"]);
    let wrapped: Vec<bool> = slots.iter().map(|s| s.wrapped).collect();
    assert_eq!(wrapped, vec![true, false, false]);

    let starts = input.generate_builder_method();
    let inits: Vec<SlotInit> = starts.iter().map(|s| s.init).collect();
    assert_eq!(inits, vec![SlotInit::Absent, SlotInit::EmptyList, SlotInit::Absent]);

    let mutators = input.generate_setter_methods();
    let methods: Vec<&str> = mutators.iter().map(|m| m.method.as_str()).collect();
    assert_eq!(methods, vec!["executable", "arg", "current_dir"]);
    let params: Vec<&str> = mutators.iter().map(|m| m.param_type.as_str()).collect();
    assert_eq!(params, vec!["String", "String", "String"]);
    let actions: Vec<Action> = mutators.iter().map(|m| m.action).collect();
    assert_eq!(actions, vec![Action::Store, Action::Push, Action::Store]);
    assert_eq!(mutators[1].field, "args");

    let steps = input.generate_final_build_method();
    let finishes: Vec<Finish> = steps.iter().map(|s| s.finish).collect();
    assert_eq!(finishes, vec![Finish::RequirePresent, Finish::TakeAsIs, Finish::TakeAsIs]);
}

#[test]
fn builder_input_refuses_each_on_a_string() {
    let ms = vec![member("env", ty(&["String"], &[]), each("var"))];
    match BuilderInput::parse(&"Command".to_string(), &ms) {
        Err(ModelError::ShapeMismatch { member, .. }) => assert_eq!(member, "env"),
        other => panic!("unexpected {:?}", other),
    }
}

#[test]
fn appender_named_like_another_member_is_refused() {
    let ms = vec![
        member("arg", ty(&["String"], &[]), vec![]),
        member("args", ty(&["Vec"], &["String"]), each("arg")),
    ];
    match BuilderInput::parse(&"Command".to_string(), &ms) {
        Err(ModelError::MutatorCollision { method, first, second }) => {
            assert_eq!(method, "arg");
            assert_eq!(first, "arg");
            assert_eq!(second, "args");
        }
        other => panic!("unexpected {:?}", other),
    }
    // An appender named like its own member is fine.
    let ms = vec![member("env", ty(&["Vec"], &["String"]), each("env"))];
    assert!(BuilderInput::parse(&"Command".to_string(), &ms).is_ok());
}

#[test]
fn wrapper_with_two_arguments_is_not_a_match() {
    assert_eq!(match_wrapper(&ty(&["Option"], &["A", "B"]), &optional_table()), None);
    assert!(matches!(classify(&ty(&["Option"], &["A", "B"]), None), Some(Classification::Required)));
    assert!(classify(&ty(&["Vec"], &["T", "Alloc"]), Some("x".to_string())).is_none());
}

#[test]
fn clash_reports_first_pair_in_comparison_order() {
    let ms = vec![
        member("b", ty(&["String"], &[]), vec![]),
        member("a", ty(&["String"], &[]), vec![]),
        member("bs", ty(&["Vec"], &["String"]), each("b")),
        member("as_", ty(&["Vec"], &["String"]), each("a")),
    ];
    match BuilderInput::parse(&"S".to_string(), &ms) {
        Err(ModelError::MutatorCollision { method, first, second }) => {
            assert_eq!(method, "b");
            assert_eq!(first, "b");
            assert_eq!(second, "bs");
        }
        other => panic!("unexpected {:?}", other),
    }
}

#[test]
fn associated_paths_are_found_at_any_depth() {
    let nested = ty(&["Vec"], &[]);
    let nested = {
        let mut t = nested;
        if let Some(segs) = t.path.as_mut() {
            segs[0].args = vec![GenericArg::Type({
                let mut o = ty(&["Option"], &[]);
                if let Some(s2) = o.path.as_mut() {
                    s2[0].args = vec![arg("T::Item")];
                }
                o.text = "Option<T::Item>".to_string();
                o
            })];
        }
        t.text = "Vec<Option<T::Item>>".to_string();
        t
    };
    let params = vec!["T".to_string()];
    let occ = associated_occurrences(&nested, &params);
    assert_eq!(occ.len(), 1);
    assert_eq!(occ[0].receiver, "T");
    assert_eq!(occ[0].path, "T::Item");
    let d = decl("Deep", &["T"], vec![], vec![member("items", nested, vec![])]);
    match d.debug_impl().unwrap().bounds {
        Bounds::Inferred { blanket, targeted } => {
            assert!(blanket.is_empty());
            assert!(matches!(&targeted[0], Predicate::Formattable(p) if p == "T::Item"));
        }
        other => panic!("unexpected {:?}", other),
    }
}

#[test]
fn bound_outside_the_accepted_set_is_refused() {
    let d = decl(
        "Wrapper",
        &["T"],
        vec![],
        vec![member("field", ty(&["Vec"], &["T::Value"]), debug_bound("T::Value: Clone"))],
    );
    assert!(matches!(d.debug_impl_with(&vec![]), Err(FormatError::Annotation(_))));
    let plan = d.debug_impl_with(&vec!["T::Value: Clone".to_string()]).unwrap();
    assert!(matches!(plan.bounds, Bounds::Inferred { .. }));
}
