use enum_is::ast::{RawAttr, Shape, TypeDecl, TypeDeclKind, VariantDecl};
use enum_is::derive_enum_is;
use enum_is::errors::GenError;
use enum_is::plan_decl;
use enum_is::plan::Plan;
use enum_is::semantics::{eval_predicate, FieldValue, PayloadValue, UnionValue};

fn attr(body: &str) -> RawAttr {
    RawAttr { namespace: "enum_is".to_string(), body: body.to_string(), loc: 0 }
}

fn attr_at(body: &str, loc: usize) -> RawAttr {
    RawAttr { namespace: "enum_is".to_string(), body: body.to_string(), loc }
}

fn variant(ident: &str, shape: Shape, attrs: Vec<RawAttr>) -> VariantDecl {
    VariantDecl { ident: ident.to_string(), shape, attrs }
}

fn union_decl(name: &str, variants: Vec<VariantDecl>) -> TypeDecl {
    TypeDecl { name: name.to_string(), kind: TypeDeclKind::Union(variants) }
}

fn mixed_decl() -> TypeDecl {
    union_decl(
        "Mixed",
        vec![
            variant("Unit", Shape::NoPayload, vec![attr("group = \"is_uts\"")]),
            variant("Tuple", Shape::PositionalPayload, vec![attr("group = \"is_uts\"")]),
            variant("Struct", Shape::NamedPayload, vec![attr("group = \"is_uts\"")]),
            variant("Ignored", Shape::NoPayload, vec![attr("ignore")]),
            variant(
                "Named",
                Shape::NoPayload,
                vec![attr("group = \"is_uts\", rename = \"is_renamed\"")],
            ),
        ],
    )
}

fn mixed_plan() -> Plan {
    plan_decl(mixed_decl()).ok().unwrap()
}

fn value(ident: &str, payload: PayloadValue) -> UnionValue {
    UnionValue { variant: ident.to_string(), payload }
}

fn is(plan: &Plan, name: &str, v: &UnionValue) -> bool {
    eval_predicate(plan, name, v).unwrap()
}

#[test]
fn unit_variant() {
    let plan = mixed_plan();
    let v = value("Unit", PayloadValue::NoPayload);

    assert!(!is(&plan, "is_tuple", &v));
    assert!(is(&plan, "is_unit", &v));
    assert!(!is(&plan, "is_struct", &v));
    assert!(is(&plan, "is_uts", &v));
}

#[test]
fn tuple_variant() {
    let plan = mixed_plan();
    let v = value("Tuple", PayloadValue::Positional(vec![1, 2]));

    assert!(is(&plan, "is_tuple", &v));
    assert!(!is(&plan, "is_unit", &v));
    assert!(!is(&plan, "is_struct", &v));
    assert!(is(&plan, "is_uts", &v));
}

#[test]
fn struct_variant() {
    let plan = mixed_plan();
    let v = value(
        "Struct",
        PayloadValue::Named(vec![
            FieldValue { name: "x".to_string(), value: 10 },
            FieldValue { name: "y".to_string(), value: 20 },
        ]),
    );
    assert!(is(&plan, "is_struct", &v));
    assert!(!is(&plan, "is_unit", &v));
    assert!(!is(&plan, "is_tuple", &v));
    assert!(is(&plan, "is_uts", &v));
}

#[test]
fn rename_and_group() {
    let plan = mixed_plan();
    let v = value("Named", PayloadValue::NoPayload);
    assert!(is(&plan, "is_renamed", &v));
    assert!(is(&plan, "is_uts", &v));
}

#[test]
fn mixed_generates_exactly_the_promised_methods() {
    let plan = mixed_plan();
    let pred_names: Vec<&str> = plan.predicates.iter().map(|e| e.name.as_str()).collect();
    assert_eq!(pred_names, vec!["is_unit", "is_tuple", "is_struct", "is_renamed"]);
    let group_names: Vec<&str> = plan.groups.iter().map(|e| e.name.as_str()).collect();
    assert_eq!(group_names, vec!["is_uts"]);
    assert_eq!(plan.groups[0].patterns.len(), 4);

    let ignored = value("Ignored", PayloadValue::NoPayload);
    assert_eq!(eval_predicate(&plan, "is_named", &ignored), None);
    assert_eq!(eval_predicate(&plan, "is_ignored", &ignored), None);
    assert_eq!(eval_predicate(&plan, "is_uts", &ignored), Some(false));
    assert_eq!(eval_predicate(&plan, "is_unit", &ignored), Some(false));
    assert_eq!(eval_predicate(&plan, "is_tuple", &ignored), Some(false));
    assert_eq!(eval_predicate(&plan, "is_struct", &ignored), Some(false));
    assert_eq!(eval_predicate(&plan, "is_renamed", &ignored), Some(false));

    for name in ["Unit", "Tuple", "Struct", "Named"] {
        let v = value(name, PayloadValue::NoPayload);
        assert_eq!(eval_predicate(&plan, "is_uts", &v), Some(true));
    }
}

#[test]
fn predicate_ignores_payload_contents() {
    let plan = mixed_plan();
    let a = value("Tuple", PayloadValue::Positional(vec![1, 2]));
    let b = value("Tuple", PayloadValue::Positional(vec![250, 0, 7]));
    assert_eq!(eval_predicate(&plan, "is_tuple", &a), Some(true));
    assert_eq!(eval_predicate(&plan, "is_tuple", &b), Some(true));
}

#[test]
fn no_directives_gives_one_default_predicate_per_variant() {
    let decl = union_decl(
        "Simple",
        vec![
            variant("Alpha", Shape::NoPayload, vec![]),
            variant("Beta", Shape::PositionalPayload, vec![]),
        ],
    );
    let plan = plan_decl(decl).ok().unwrap();
    let pred_names: Vec<&str> = plan.predicates.iter().map(|e| e.name.as_str()).collect();
    assert_eq!(pred_names, vec!["is_alpha", "is_beta"]);
    assert!(plan.groups.is_empty());
}

#[test]
fn emitted_text_is_exact() {
    let decl = union_decl(
        "Simple",
        vec![
            variant("Alpha", Shape::NoPayload, vec![]),
            variant("Beta", Shape::PositionalPayload, vec![]),
        ],
    );
    let text = derive_enum_is(decl).ok().unwrap();
    let expected = "impl Simple {\n    #[inline]\n    pub fn is_alpha(&self) -> bool {\n        matches!(self, Self::Alpha)\n    }\n    #[inline]\n    pub fn is_beta(&self) -> bool {\n        matches!(self, Self::Beta(..))\n    }\n}\n";
    assert_eq!(text, expected);
}

#[test]
fn emitted_group_text_joins_patterns() {
    let decl = union_decl(
        "Pair",
        vec![
            variant("A", Shape::NoPayload, vec![attr("group = \"is_any\"")]),
            variant("B", Shape::NamedPayload, vec![attr("group = \"is_any\"")]),
        ],
    );
    let text = derive_enum_is(decl).ok().unwrap();
    assert!(text.contains("matches!(self, Self::A | Self::B { .. })"));
}

#[test]
fn default_names_fold_acronym_runs() {
    let decl = union_decl(
        "Evt",
        vec![
            variant("HTTPError", Shape::NoPayload, vec![]),
            variant("ReadTimedOut", Shape::NoPayload, vec![]),
        ],
    );
    let plan = plan_decl(decl).ok().unwrap();
    let pred_names: Vec<&str> = plan.predicates.iter().map(|e| e.name.as_str()).collect();
    assert_eq!(pred_names, vec!["is_http_error", "is_read_timed_out"]);
}

#[test]
fn generation_is_deterministic() {
    let a = derive_enum_is(mixed_decl()).ok().unwrap();
    let b = derive_enum_is(mixed_decl()).ok().unwrap();
    assert_eq!(a, b);
}

#[test]
fn group_methods_come_in_lexicographic_order() {
    let decl = union_decl(
        "Ordered",
        vec![
            variant("A", Shape::NoPayload, vec![attr("group = \"zz\"")]),
            variant("B", Shape::NoPayload, vec![attr("group = \"aa\"")]),
        ],
    );
    let plan = plan_decl(decl).ok().unwrap();
    let group_names: Vec<&str> = plan.groups.iter().map(|e| e.name.as_str()).collect();
    assert_eq!(group_names, vec!["aa", "zz"]);
}

#[test]
fn group_subsets_answer_exactly() {
    let decl = union_decl(
        "Zones",
        vec![
            variant("A", Shape::NoPayload, vec![attr("group = \"is_g_one\"")]),
            variant(
                "B",
                Shape::NoPayload,
                vec![attr("group = \"is_g_one\", group = \"is_g_two\"")],
            ),
            variant("C", Shape::NoPayload, vec![attr("group = \"is_g_two\"")]),
        ],
    );
    let plan = plan_decl(decl).ok().unwrap();
    let a = value("A", PayloadValue::NoPayload);
    let b = value("B", PayloadValue::NoPayload);
    let c = value("C", PayloadValue::NoPayload);
    assert_eq!(eval_predicate(&plan, "is_g_one", &a), Some(true));
    assert_eq!(eval_predicate(&plan, "is_g_one", &b), Some(true));
    assert_eq!(eval_predicate(&plan, "is_g_one", &c), Some(false));
    assert_eq!(eval_predicate(&plan, "is_g_two", &a), Some(false));
    assert_eq!(eval_predicate(&plan, "is_g_two", &b), Some(true));
    assert_eq!(eval_predicate(&plan, "is_g_two", &c), Some(true));
}

#[test]
fn repeated_group_mention_is_harmless() {
    let decl = union_decl(
        "Rep",
        vec![variant("A", Shape::NoPayload, vec![attr("group = \"is_g\", group = \"is_g\"")])],
    );
    let plan = plan_decl(decl).ok().unwrap();
    assert_eq!(plan.groups.len(), 1);
    assert_eq!(plan.groups[0].patterns.len(), 2);
    let a = value("A", PayloadValue::NoPayload);
    assert_eq!(eval_predicate(&plan, "is_g", &a), Some(true));
}

#[test]
fn last_rename_wins() {
    let decl = union_decl(
        "Ren",
        vec![variant("A", Shape::NoPayload, vec![attr("rename = \"is_x\", rename = \"is_y\"")])],
    );
    let plan = plan_decl(decl).ok().unwrap();
    assert_eq!(plan.predicates[0].name, "is_y");
}

#[test]
fn not_a_union_is_rejected() {
    let decl = TypeDecl { name: "Rec".to_string(), kind: TypeDeclKind::Record };
    match plan_decl(decl) {
        Err(GenError::NotAUnion { name }) => assert_eq!(name, "Rec"),
        _ => panic!("expected the declaration to be rejected"),
    }
}

#[test]
fn ignore_with_rename_conflicts() {
    let decl = union_decl(
        "C1",
        vec![variant("A", Shape::NoPayload, vec![attr_at("ignore, rename = \"is_x\"", 7)])],
    );
    match plan_decl(decl) {
        Err(GenError::IgnoreConflict { loc }) => assert_eq!(loc, 7),
        _ => panic!("expected the conflict to be rejected"),
    }
}

#[test]
fn ignore_with_group_conflicts() {
    let decl = union_decl(
        "C2",
        vec![variant("A", Shape::NoPayload, vec![attr_at("ignore, group = \"is_g\"", 3)])],
    );
    match plan_decl(decl) {
        Err(GenError::IgnoreConflict { loc }) => assert_eq!(loc, 3),
        _ => panic!("expected the conflict to be rejected"),
    }
}

#[test]
fn ignore_with_rename_and_group_conflicts() {
    let decl = union_decl(
        "C3",
        vec![variant(
            "A",
            Shape::NoPayload,
            vec![
                attr_at("ignore", 11),
                attr_at("rename = \"is_x\", group = \"is_g\"", 12),
            ],
        )],
    );
    match plan_decl(decl) {
        Err(GenError::IgnoreConflict { loc }) => assert_eq!(loc, 11),
        _ => panic!("expected the conflict to be rejected"),
    }
}

#[test]
fn colliding_default_names_are_rejected() {
    let decl = union_decl(
        "Col",
        vec![
            variant("FooBar", Shape::NoPayload, vec![]),
            variant("foo_bar", Shape::NoPayload, vec![]),
        ],
    );
    match plan_decl(decl) {
        Err(GenError::NameCollision { name }) => assert_eq!(name, "is_foo_bar"),
        _ => panic!("expected the collision to be rejected"),
    }
}

#[test]
fn rename_colliding_with_default_is_rejected() {
    let decl = union_decl(
        "Col2",
        vec![
            variant("A", Shape::NoPayload, vec![]),
            variant("B", Shape::NoPayload, vec![attr("rename = \"is_a\"")]),
        ],
    );
    match plan_decl(decl) {
        Err(GenError::NameCollision { name }) => assert_eq!(name, "is_a"),
        _ => panic!("expected the collision to be rejected"),
    }
}

#[test]
fn group_colliding_with_predicate_is_rejected() {
    let decl = union_decl(
        "Col3",
        vec![
            variant("A", Shape::NoPayload, vec![]),
            variant("B", Shape::NoPayload, vec![attr("group = \"is_a\"")]),
        ],
    );
    match plan_decl(decl) {
        Err(GenError::NameCollision { name }) => assert_eq!(name, "is_a"),
        _ => panic!("expected the collision to be rejected"),
    }
}

#[test]
fn unsupported_key_is_rejected() {
    let decl = union_decl(
        "U",
        vec![variant("A", Shape::NoPayload, vec![attr("nope")])],
    );
    match plan_decl(decl) {
        Err(GenError::UnsupportedDirective { key, .. }) => assert_eq!(key, "nope"),
        _ => panic!("expected the key to be rejected"),
    }
}

#[test]
fn rename_without_value_is_malformed() {
    let decl = union_decl(
        "M1",
        vec![variant("A", Shape::NoPayload, vec![attr("rename")])],
    );
    assert!(matches!(plan_decl(decl), Err(GenError::MalformedArgument { .. })));
}

#[test]
fn rename_with_non_string_value_is_malformed() {
    let decl = union_decl(
        "M2",
        vec![variant("A", Shape::NoPayload, vec![attr("rename = 5")])],
    );
    assert!(matches!(plan_decl(decl), Err(GenError::MalformedArgument { .. })));
}

#[test]
fn rename_with_empty_value_is_malformed() {
    let decl = union_decl(
        "M3",
        vec![variant("A", Shape::NoPayload, vec![attr("rename = \"\"")])],
    );
    assert!(matches!(plan_decl(decl), Err(GenError::MalformedArgument { .. })));
}

#[test]
fn unterminated_value_is_malformed() {
    let decl = union_decl(
        "M4",
        vec![variant("A", Shape::NoPayload, vec![attr("group = \"is_g")])],
    );
    assert!(matches!(plan_decl(decl), Err(GenError::MalformedArgument { .. })));
}

#[test]
fn stray_equals_is_invalid() {
    let decl = union_decl(
        "I1",
        vec![variant("A", Shape::NoPayload, vec![attr("= \"x\"")])],
    );
    assert!(matches!(plan_decl(decl), Err(GenError::InvalidDirective { .. })));
}

#[test]
fn ignore_with_value_is_invalid() {
    let decl = union_decl(
        "I2",
        vec![variant("A", Shape::NoPayload, vec![attr("ignore = \"x\"")])],
    );
    assert!(matches!(plan_decl(decl), Err(GenError::InvalidDirective { .. })));
}

#[test]
fn foreign_namespace_attributes_are_left_alone() {
    let decl = union_decl(
        "F",
        vec![variant(
            "A",
            Shape::NoPayload,
            vec![RawAttr {
                namespace: "doc".to_string(),
                body: "= ! this is not directive text !".to_string(),
                loc: 0,
            }],
        )],
    );
    let plan = plan_decl(decl).ok().unwrap();
    assert_eq!(plan.predicates[0].name, "is_a");
    assert!(plan.groups.is_empty());
}

#[test]
fn blanks_and_trailing_comma_are_accepted() {
    let decl = union_decl(
        "W",
        vec![variant("A", Shape::NoPayload, vec![attr("  group = \"is_g\" ,  ")])],
    );
    let plan = plan_decl(decl).ok().unwrap();
    assert_eq!(plan.groups.len(), 1);
    assert_eq!(plan.groups[0].name, "is_g");
}

#[test]
fn empty_directive_body_means_no_directives() {
    let decl = union_decl(
        "E",
        vec![variant("A", Shape::NoPayload, vec![attr("")])],
    );
    let plan = plan_decl(decl).ok().unwrap();
    assert_eq!(plan.predicates[0].name, "is_a");
    assert!(plan.groups.is_empty());
}

#[test]
fn quoted_values_may_hold_separators() {
    let decl = union_decl(
        "Q",
        vec![variant("A", Shape::NoPayload, vec![attr("rename = \"is_a, really\"")])],
    );
    let plan = plan_decl(decl).ok().unwrap();
    assert_eq!(plan.predicates[0].name, "is_a, really");
}

#[test]
fn unknown_key_with_digits_is_named_in_the_rejection() {
    let decl = union_decl(
        "K",
        vec![variant("A", Shape::NoPayload, vec![attr("group2 = \"is_g\"")])],
    );
    match plan_decl(decl) {
        Err(GenError::UnsupportedDirective { key, .. }) => assert_eq!(key, "group2"),
        _ => panic!("expected the key to be rejected"),
    }
}

#[test]
fn mixed_emits_the_whole_block() {
    let text = derive_enum_is(mixed_decl()).ok().unwrap();
    let expected = "impl Mixed {\n    #[inline]\n    pub fn is_unit(&self) -> bool {\n        matches!(self, Self::Unit)\n    }\n    #[inline]\n    pub fn is_tuple(&self) -> bool {\n        matches!(self, Self::Tuple(..))\n    }\n    #[inline]\n    pub fn is_struct(&self) -> bool {\n        matches!(self, Self::Struct { .. })\n    }\n    #[inline]\n    pub fn is_renamed(&self) -> bool {\n        matches!(self, Self::Named)\n    }\n    #[inline]\n    pub fn is_uts(&self) -> bool {\n        matches!(self, Self::Unit | Self::Tuple(..) | Self::Struct { .. } | Self::Named)\n    }\n}\n";
    assert_eq!(text, expected);
}
