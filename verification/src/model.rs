//! The configuration model: the normalized description of what the user
//! asked for, as handed over by the surface-syntax front end.
//!
//! Types, generic parameters and where-clauses are carried as text; the
//! plan builders never look inside them except for one point: a type that
//! is a single-segment named path also carries that segment's identifier,
//! from which a method-name fragment can be inferred when no explicit
//! name is given.

use vstd::prelude::*;

use crate::names::snake_of;
use crate::names::infer_fragment;

verus! {

/// A configuration error, scoped to one offending target type.
#[derive(Debug)]
pub struct ConfigError {
    /// The text of the type the error is about.
    pub ty: String,
    /// What went wrong and how to fix it.
    pub message: String,
}

/// The diagnostic for a target whose method name cannot be inferred.
pub open spec fn name_error_message() -> Seq<char> {
    "Cannot make up a method name for this type; provide one by writing `foo: ` before the type"@
}

/// A target type, carried as text. `name_seg` is the identifier of the
/// path's only segment when the type is a simple named type (a single
/// path segment, no qualified self type), and `None` otherwise.
pub struct Ty {
    pub repr: String,
    pub name_seg: Option<String>,
}

impl Ty {
    /// An identical copy of this type reference.
    pub fn duplicate(&self) -> (r: Ty)
        ensures
            r == *self,
    {
        Ty {
            repr: self.repr.clone(),
            name_seg: match &self.name_seg {
                Some(s) => Some(s.clone()),
                None => None,
            },
        }
    }
}

/// One generic parameter, as text, with its bare identifier when it is a
/// type parameter.
pub struct GenericParam {
    pub text: String,
    pub type_ident: Option<String>,
}

/// A `for<...>` prefix or a declaration's generics: parameters plus
/// where-clause predicates, all as text.
pub struct GenericsDecl {
    pub params: Vec<GenericParam>,
    pub where_preds: Vec<String>,
}

/// A type, optionally prefixed with `for<A, B, C: Trait>` generics.
pub struct GenericTy {
    pub generics: GenericsDecl,
    pub ty: Ty,
}

impl GenericParam {
    /// An identical copy of this parameter.
    pub fn duplicate(&self) -> (r: GenericParam)
        ensures
            r == *self,
    {
        GenericParam {
            text: self.text.clone(),
            type_ident: match &self.type_ident {
                Some(s) => Some(s.clone()),
                None => None,
            },
        }
    }
}

/// Whether two generics declarations hold the same parameters and
/// where-clause predicates.
pub open spec fn generics_eqv(a: GenericsDecl, b: GenericsDecl) -> bool {
    a.params@ == b.params@ && a.where_preds@ == b.where_preds@
}

/// Whether two target types are the same type under the same generics.
pub open spec fn generic_ty_eqv(a: GenericTy, b: GenericTy) -> bool {
    generics_eqv(a.generics, b.generics) && a.ty == b.ty
}

impl GenericsDecl {
    /// An identical copy of this generics declaration.
    pub fn duplicate(&self) -> (r: GenericsDecl)
        ensures
            generics_eqv(r, *self),
    {
        let mut params: Vec<GenericParam> = Vec::new();
        let mut i: usize = 0;
        while i < self.params.len()
            invariant
                i <= self.params.len(),
                params@ == self.params@.take(i as int),
            decreases self.params.len() - i,
        {
            params.push(self.params[i].duplicate());
            proof {
                assert(params@ =~= self.params@.take(i + 1));
            }
            i += 1;
        }
        let mut where_preds: Vec<String> = Vec::new();
        let mut j: usize = 0;
        while j < self.where_preds.len()
            invariant
                j <= self.where_preds.len(),
                where_preds@ == self.where_preds@.take(j as int),
            decreases self.where_preds.len() - j,
        {
            where_preds.push(self.where_preds[j].clone());
            proof {
                assert(where_preds@ =~= self.where_preds@.take(j + 1));
            }
            j += 1;
        }
        proof {
            assert(self.params@.take(self.params@.len() as int) =~= self.params@);
            assert(self.where_preds@.take(self.where_preds@.len() as int) =~= self.where_preds@);
        }
        GenericsDecl { params, where_preds }
    }
}

impl GenericTy {
    /// An identical copy of this target type.
    pub fn duplicate(&self) -> (r: GenericTy)
        ensures
            generic_ty_eqv(r, *self),
    {
        GenericTy { generics: self.generics.duplicate(), ty: self.ty.duplicate() }
    }
}

/// A `GenericTy` optionally prefixed with an explicit `ident:` name.
pub struct NamedGenericTy {
    pub name: Option<String>,
    pub ty: GenericTy,
}

/// Whether a method-name fragment can be resolved for this target.
pub open spec fn resolvable(t: NamedGenericTy) -> bool {
    t.name is Some || t.ty.ty.name_seg is Some
}

/// The fragment a resolvable target resolves to: the explicit name when
/// one was written, otherwise the inference from the type's identifier.
pub open spec fn resolved_name(t: NamedGenericTy) -> Seq<char> {
    if t.name is Some {
        t.name.unwrap()@
    } else {
        snake_of(t.ty.ty.name_seg.unwrap()@)
    }
}

impl NamedGenericTy {
    /// The method-name fragment of this target: the explicit name when
    /// given; otherwise it is inferred from the type's identifier, and a
    /// type that is not a simple named type is rejected — never guessed.
    pub fn get_name(&self) -> (r: Result<String, ConfigError>)
        ensures
            r is Ok <==> resolvable(*self),
            r is Ok ==> r.unwrap()@ == resolved_name(*self),
            r is Err ==> r.unwrap_err().ty@ == self.ty.ty.repr@ && r.unwrap_err().message@
                == name_error_message(),
    {
        match &self.name {
            Some(name) => Ok(name.clone()),
            None => match &self.ty.ty.name_seg {
                Some(ident) => Ok(infer_fragment(ident.as_str())),
                None => Err(
                    ConfigError {
                        ty: self.ty.ty.repr.clone(),
                        message:
                            "Cannot make up a method name for this type; provide one by writing `foo: ` before the type".to_owned(),
                    },
                ),
            },
        }
    }
}

/// The important paths and identifiers the rendered declarations use,
/// for one traversal mode.
pub struct Names {
    pub control_flow: String,
    pub visitor_trait: String,
    pub visit_trait: String,
    pub drive_trait: String,
    pub drive_inner_method: String,
    pub visitor_param: String,
    pub lifetime_param: String,
    pub mutable: bool,
}

/// The paths and identifiers every plan of the given mode carries.
pub open spec fn standard_names(n: Names, mutable: bool) -> bool {
    &&& n.control_flow@ == "::std::ops::ControlFlow"@
    &&& n.visitor_trait@ == "::generic_visitor::Visitor"@
    &&& n.visit_trait@ == (if mutable {
        "::generic_visitor::VisitMut"@
    } else {
        "::generic_visitor::Visit"@
    })
    &&& n.drive_trait@ == (if mutable {
        "::generic_visitor::DriveMut"@
    } else {
        "::generic_visitor::Drive"@
    })
    &&& n.drive_inner_method@ == (if mutable {
        "drive_inner_mut"@
    } else {
        "drive_inner"@
    })
    &&& n.visitor_param@ == "V"@
    &&& n.lifetime_param@ == "'s"@
    &&& n.mutable == mutable
}

impl Names {
    /// The paths and identifiers for the immutable or the mutable mode.
    pub fn new(mutable: bool) -> (r: Names)
        ensures
            standard_names(r, mutable),
    {
        Names {
            control_flow: "::std::ops::ControlFlow".to_owned(),
            visitor_trait: "::generic_visitor::Visitor".to_owned(),
            visit_trait: if mutable {
                "::generic_visitor::VisitMut".to_owned()
            } else {
                "::generic_visitor::Visit".to_owned()
            },
            drive_trait: if mutable {
                "::generic_visitor::DriveMut".to_owned()
            } else {
                "::generic_visitor::Drive".to_owned()
            },
            drive_inner_method: if mutable {
                "drive_inner_mut".to_owned()
            } else {
                "drive_inner".to_owned()
            },
            visitor_param: "V".to_owned(),
            lifetime_param: "'s".to_owned(),
            mutable,
        }
    }
}

/// One field of a composite type: named or positional, with its declared
/// type, and whether it is excluded from traversal.
pub struct FieldDesc {
    pub name: Option<String>,
    pub ty: Ty,
    pub skip: bool,
}

/// One variant of a tagged union: its name, its fields, and whether the
/// whole variant is excluded from traversal.
pub struct VariantDesc {
    pub name: String,
    pub skip: bool,
    pub fields: Vec<FieldDesc>,
}

/// The field or variant layout of a composite type.
pub enum CompositeKind {
    Struct { fields: Vec<FieldDesc> },
    Enum { variants: Vec<VariantDesc> },
}

/// A composite declaration as the drive planner consumes it: the subject
/// type's identifier and generics, whether the whole type is opaque to
/// traversal, and its layout.
pub struct CompositeInput {
    pub ident: String,
    pub generics: GenericsDecl,
    pub skip: bool,
    pub kind: CompositeKind,
}

/// The behavior tag of one entry of a behavior declaration list. A bare
/// target with no tag is sugar for `Override` and is normalized to it by
/// the front end.
pub enum BehaviorTag {
    Drive,
    Skip,
    Override,
    Enter,
    Exit,
}

/// One entry of a behavior declaration list: a tag applied to a target.
pub struct VisitEntry {
    pub tag: BehaviorTag,
    pub target: NamedGenericTy,
}

} // verus!
