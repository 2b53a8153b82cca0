use generic_visitor::model::GenericTy;
use generic_visitor::model::GenericsDecl;
use generic_visitor::model::NamedGenericTy;
use generic_visitor::model::Names;
use generic_visitor::model::Ty;
use generic_visitor::names::decimal_string;
use generic_visitor::names::infer_fragment;

fn simple_ty(ident: &str) -> Ty {
    Ty { repr: ident.to_string(), name_seg: Some(ident.to_string()) }
}

fn complex_ty(repr: &str) -> Ty {
    Ty { repr: repr.to_string(), name_seg: None }
}

fn bare_target(ty: Ty) -> NamedGenericTy {
    NamedGenericTy {
        name: None,
        ty: GenericTy {
            generics: GenericsDecl { params: Vec::new(), where_preds: Vec::new() },
            ty,
        },
    }
}

#[test]
fn inference_splits_words_and_digits() {
    assert_eq!(infer_fragment("HtmlParser5"), "html_parser_5");
    assert_eq!(infer_fragment("HTMLParser"), "html_parser");
    assert_eq!(infer_fragment("MyList"), "my_list");
    assert_eq!(infer_fragment("Node"), "node");
    assert_eq!(infer_fragment("Expr"), "expr");
    assert_eq!(infer_fragment("X"), "x");
    assert_eq!(infer_fragment(""), "");
}

#[test]
fn inference_is_deterministic() {
    let a = infer_fragment("HtmlParser5");
    let b = infer_fragment("HtmlParser5");
    assert_eq!(a, b);
    assert_eq!(a, "html_parser_5");
}

#[test]
fn decimal_rendering() {
    assert_eq!(decimal_string(0), "0");
    assert_eq!(decimal_string(7), "7");
    assert_eq!(decimal_string(10), "10");
    assert_eq!(decimal_string(12345), "12345");
}

#[test]
fn get_name_prefers_explicit_name() {
    let mut t = bare_target(simple_ty("MyNode"));
    t.name = Some("elem".to_string());
    assert_eq!(t.get_name().unwrap(), "elem");
}

#[test]
fn get_name_infers_from_simple_type() {
    let t = bare_target(simple_ty("MyNode"));
    assert_eq!(t.get_name().unwrap(), "my_node");
}

#[test]
fn get_name_rejects_complex_type() {
    let t = bare_target(complex_ty("std::vec::Vec<u8>"));
    let err = t.get_name().unwrap_err();
    assert_eq!(err.ty, "std::vec::Vec<u8>");
    assert_eq!(
        err.message,
        "Cannot make up a method name for this type; provide one by writing `foo: ` before the type"
    );
}

#[test]
fn names_follow_the_mode() {
    let n = Names::new(false);
    assert_eq!(n.visit_trait, "::generic_visitor::Visit");
    assert_eq!(n.drive_trait, "::generic_visitor::Drive");
    assert_eq!(n.drive_inner_method, "drive_inner");
    assert_eq!(n.control_flow, "::std::ops::ControlFlow");
    assert_eq!(n.visitor_param, "V");
    assert_eq!(n.lifetime_param, "'s");
    assert!(!n.mutable);
    let m = Names::new(true);
    assert_eq!(m.visit_trait, "::generic_visitor::VisitMut");
    assert_eq!(m.drive_trait, "::generic_visitor::DriveMut");
    assert_eq!(m.drive_inner_method, "drive_inner_mut");
    assert!(m.mutable);
}
