use generic_visitor::drive::FieldAccessor;
use generic_visitor::drive::impl_drive;
use generic_visitor::group::ImplBody;
use generic_visitor::group::MacroArg;
use generic_visitor::group::GroupTargetTag;
use generic_visitor::group::Options;
use generic_visitor::group::TyVisitKind;
use generic_visitor::group::impl_visitable_group;
use generic_visitor::model::BehaviorTag;
use generic_visitor::model::CompositeInput;
use generic_visitor::model::CompositeKind;
use generic_visitor::model::FieldDesc;
use generic_visitor::model::GenericTy;
use generic_visitor::model::GenericsDecl;
use generic_visitor::model::NamedGenericTy;
use generic_visitor::model::Ty;
use generic_visitor::model::VariantDesc;
use generic_visitor::model::VisitEntry;
use generic_visitor::visit::VisitBody;
use generic_visitor::visit::impl_visit;
use generic_visitor::visit::impl_visitor;
use generic_visitor::visit::resolve_entries;

fn no_generics() -> GenericsDecl {
    GenericsDecl { params: Vec::new(), where_preds: Vec::new() }
}

fn simple_ty(ident: &str) -> Ty {
    Ty { repr: ident.to_string(), name_seg: Some(ident.to_string()) }
}

fn complex_ty(repr: &str) -> Ty {
    Ty { repr: repr.to_string(), name_seg: None }
}

fn named_field(name: &str, ty: &str, skip: bool) -> FieldDesc {
    FieldDesc { name: Some(name.to_string()), ty: simple_ty(ty), skip }
}

fn positional_field(ty: &str, skip: bool) -> FieldDesc {
    FieldDesc { name: None, ty: simple_ty(ty), skip }
}

fn bare_target(ty: Ty) -> NamedGenericTy {
    NamedGenericTy { name: None, ty: GenericTy { generics: no_generics(), ty } }
}

#[test]
fn drive_plan_struct_fields_in_order() {
    let input = CompositeInput {
        ident: "Foo".to_string(),
        generics: no_generics(),
        skip: false,
        kind: CompositeKind::Struct {
            fields: vec![
                named_field("x", "A", false),
                named_field("z", "B", true),
                positional_field("C", false),
            ],
        },
    };
    let plan = impl_drive(input, false);
    assert_eq!(plan.subject, "Foo");
    assert_eq!(plan.names.drive_inner_method, "drive_inner");
    assert_eq!(plan.arms.len(), 1);
    let arm = &plan.arms[0];
    assert!(arm.variant.is_none());
    // Every field is destructured, even the excluded one.
    assert_eq!(arm.bindings.len(), 3);
    assert_eq!(arm.bindings[0].var, "x");
    assert_eq!(arm.bindings[1].var, "z");
    assert_eq!(arm.bindings[2].var, "i2");
    match &arm.bindings[2].accessor {
        FieldAccessor::Positional(i) => assert_eq!(*i, 2),
        FieldAccessor::Named(_) => panic!("expected a positional accessor"),
    }
    // Only retained fields are visited, in declaration order.
    assert_eq!(arm.visits.len(), 2);
    assert_eq!(arm.visits[0].var, "x");
    assert_eq!(arm.visits[0].ty.repr, "A");
    assert_eq!(arm.visits[1].var, "i2");
    assert_eq!(arm.visits[1].ty.repr, "C");
    let bounds: Vec<&str> = plan.constraints.iter().map(|t| t.repr.as_str()).collect();
    assert_eq!(bounds, vec!["A", "C"]);
}

#[test]
fn drive_plan_enum_skips_variants() {
    let input = CompositeInput {
        ident: "List".to_string(),
        generics: no_generics(),
        skip: false,
        kind: CompositeKind::Enum {
            variants: vec![
                VariantDesc { name: "Nil".to_string(), skip: false, fields: vec![] },
                VariantDesc {
                    name: "Secret".to_string(),
                    skip: true,
                    fields: vec![positional_field("S", false)],
                },
                VariantDesc {
                    name: "Cons".to_string(),
                    skip: false,
                    fields: vec![positional_field("Node", false)],
                },
            ],
        },
    };
    let plan = impl_drive(input, true);
    assert_eq!(plan.names.drive_inner_method, "drive_inner_mut");
    assert_eq!(plan.arms.len(), 2);
    assert_eq!(plan.arms[0].variant.as_deref(), Some("Nil"));
    assert_eq!(plan.arms[1].variant.as_deref(), Some("Cons"));
    assert_eq!(plan.arms[1].visits.len(), 1);
    assert_eq!(plan.arms[1].visits[0].var, "i0");
    let bounds: Vec<&str> = plan.constraints.iter().map(|t| t.repr.as_str()).collect();
    assert_eq!(bounds, vec!["Node"]);
}

#[test]
fn drive_plan_opaque_type_is_empty() {
    let input = CompositeInput {
        ident: "Sealed".to_string(),
        generics: no_generics(),
        skip: true,
        kind: CompositeKind::Struct { fields: vec![named_field("inner", "T", false)] },
    };
    let plan = impl_drive(input, false);
    assert_eq!(plan.arms.len(), 0);
    assert_eq!(plan.constraints.len(), 0);
}

#[test]
fn resolution_errors_leave_siblings_alone() {
    let entries = vec![
        VisitEntry { tag: BehaviorTag::Enter, target: bare_target(simple_ty("MyNode")) },
        VisitEntry { tag: BehaviorTag::Override, target: bare_target(complex_ty("Box<T>")) },
        VisitEntry { tag: BehaviorTag::Drive, target: bare_target(complex_ty("Box<T>")) },
        VisitEntry { tag: BehaviorTag::Exit, target: bare_target(simple_ty("List")) },
    ];
    let (visits, errors) = resolve_entries(entries);
    // The failing override is dropped; drive needs no name, and the
    // other targets are untouched.
    assert_eq!(visits.len(), 3);
    assert_eq!(errors.len(), 1);
    assert_eq!(errors[0].ty, "Box<T>");
}

#[test]
fn visit_plan_builds_method_names() {
    let entries = vec![
        VisitEntry { tag: BehaviorTag::Enter, target: bare_target(simple_ty("MyNode")) },
        VisitEntry { tag: BehaviorTag::Exit, target: bare_target(simple_ty("MyNode")) },
        VisitEntry { tag: BehaviorTag::Override, target: bare_target(simple_ty("HtmlParser5")) },
        VisitEntry { tag: BehaviorTag::Skip, target: bare_target(simple_ty("String")) },
        VisitEntry { tag: BehaviorTag::Drive, target: bare_target(simple_ty("List")) },
    ];
    let (plan, errors) = impl_visit("SumVisitor".to_string(), no_generics(), entries, false);
    assert!(errors.is_empty());
    assert_eq!(plan.subject, "SumVisitor");
    assert_eq!(plan.impls.len(), 5);
    match &plan.impls[0].body {
        VisitBody::Enter { method } => assert_eq!(method, "enter_my_node"),
        _ => panic!("expected an enter body"),
    }
    match &plan.impls[1].body {
        VisitBody::Exit { method } => assert_eq!(method, "exit_my_node"),
        _ => panic!("expected an exit body"),
    }
    match &plan.impls[2].body {
        VisitBody::Override { method } => assert_eq!(method, "visit_html_parser_5"),
        _ => panic!("expected an override body"),
    }
    assert!(matches!(plan.impls[3].body, VisitBody::Skip));
    assert!(matches!(plan.impls[4].body, VisitBody::Drive));
}

#[test]
fn visit_plan_demands_type_params() {
    let target = NamedGenericTy {
        name: None,
        ty: GenericTy {
            generics: GenericsDecl {
                params: vec![generic_visitor::model::GenericParam {
                    text: "T".to_string(),
                    type_ident: Some("T".to_string()),
                }],
                where_preds: Vec::new(),
            },
            ty: simple_ty("Box"),
        },
    };
    let entries = vec![VisitEntry { tag: BehaviorTag::Drive, target }];
    let (plan, errors) = impl_visit("V".to_string(), no_generics(), entries, false);
    assert!(errors.is_empty());
    assert_eq!(plan.impls[0].self_constraints, vec!["T".to_string()]);
}

#[test]
fn visitor_plan_is_infallible_by_default() {
    let plan = impl_visitor("SumVisitor".to_string(), no_generics());
    assert_eq!(plan.visitor_trait, "::generic_visitor::Visitor");
    assert_eq!(plan.subject, "SumVisitor");
    assert_eq!(plan.break_ty, "::std::convert::Infallible");
}

#[test]
fn group_plan_builds_the_trait_family() {
    let args = vec![
        MacroArg::SetVisitorTrait {
            method_name: "drive_list".to_string(),
            mutable: false,
            trait_name: "ListVisitor".to_string(),
            infaillible: false,
        },
        MacroArg::SetVisitorTrait {
            method_name: "drive".to_string(),
            mutable: false,
            trait_name: "AstVisitor".to_string(),
            infaillible: true,
        },
        MacroArg::SetVisitableTypes {
            kind: GroupTargetTag::Drive,
            tys: vec![bare_target(simple_ty("List"))],
        },
        MacroArg::SetVisitableTypes {
            kind: GroupTargetTag::Skip,
            tys: vec![bare_target(simple_ty("String"))],
        },
        MacroArg::SetVisitableTypes {
            kind: GroupTargetTag::Override,
            tys: vec![bare_target(simple_ty("Node"))],
        },
        MacroArg::SetVisitableTypes {
            kind: GroupTargetTag::OverrideSkip,
            tys: vec![bare_target(simple_ty("Id"))],
        },
    ];
    let (options, errors) = Options::from_args(args);
    assert!(errors.is_empty());
    assert_eq!(options.visitors.len(), 2);
    assert!(options.visitors[0].faillible);
    assert!(!options.visitors[1].faillible);
    assert_eq!(options.tys.len(), 4);

    let plan = impl_visitable_group(options, "ListVisitable".to_string());
    assert_eq!(plan.trait_name, "ListVisitable");
    assert_eq!(plan.wrapper_name, "ListVisitableWrapper");
    assert_eq!(plan.infaillible_wrapper_name, "ListVisitableInfaillibleWrapper");
    assert!(plan.has_infaillible_wrapper);

    // One drive method per requested visitor trait.
    assert_eq!(plan.drive_methods.len(), 2);
    assert_eq!(plan.drive_methods[0].method_name, "drive_list");
    assert_eq!(plan.drive_methods[0].vis_trait_name, "ListVisitor");

    // One capability impl per participant, one method per request.
    assert_eq!(plan.impls.len(), 4);
    assert!(matches!(plan.impls[0].methods[0].body, ImplBody::Drive));
    assert!(matches!(plan.impls[1].methods[0].body, ImplBody::SkipContinue));
    assert!(matches!(plan.impls[1].methods[1].body, ImplBody::SkipUnit));
    match &plan.impls[2].methods[0].body {
        ImplBody::Override { method } => assert_eq!(method, "visit_node"),
        _ => panic!("expected an override body"),
    }

    // The faillible trait goes through the plain wrapper, the
    // infaillible one through its twin, wrapping results in a success.
    assert_eq!(plan.wrapper_impls.len(), 2);
    assert_eq!(plan.wrapper_impls[0].wrapper, "ListVisitableWrapper");
    assert!(!plan.wrapper_impls[0].wraps_continue);
    assert_eq!(plan.wrapper_impls[1].wrapper, "ListVisitableInfaillibleWrapper");
    assert!(plan.wrapper_impls[1].wraps_continue);

    // Each generated trait carries the override method triples.
    assert_eq!(plan.visitor_traits.len(), 2);
    let vt = &plan.visitor_traits[0];
    assert_eq!(vt.name, "ListVisitor");
    assert!(vt.has_visit_by_val_infallible);
    assert_eq!(vt.overrides.len(), 2);
    assert_eq!(vt.overrides[0].visit_method, "visit_node");
    assert_eq!(vt.overrides[0].enter_method, "enter_node");
    assert_eq!(vt.overrides[0].exit_method, "exit_node");
    assert!(!vt.overrides[0].skip_default);
    assert_eq!(vt.overrides[1].visit_method, "visit_id");
    assert!(vt.overrides[1].skip_default);
    let at = &plan.visitor_traits[1];
    assert!(!at.has_visit_by_val_infallible);
    assert_eq!(at.wrapper, "ListVisitableInfaillibleWrapper");
}

#[test]
fn group_resolution_errors_are_scoped() {
    let args = vec![
        MacroArg::SetVisitableTypes {
            kind: GroupTargetTag::Override,
            tys: vec![bare_target(complex_ty("Vec<T>")), bare_target(simple_ty("Node"))],
        },
    ];
    let (options, errors) = Options::from_args(args);
    assert_eq!(errors.len(), 1);
    assert_eq!(errors[0].ty, "Vec<T>");
    assert_eq!(options.tys.len(), 1);
    match &options.tys[0].kind {
        TyVisitKind::Override { skip, name } => {
            assert!(!skip);
            assert_eq!(name, "node");
        }
        _ => panic!("expected an override participant"),
    }
}
