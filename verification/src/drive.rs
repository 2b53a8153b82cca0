//! The per-field dispatch ("drive") planner: for exactly one composite
//! type, the plan for forwarding each retained field of a value to the
//! generic visit call, short-circuiting on the first stop signal.
//!
//! The plan records, per match arm, how every field of the matched
//! variant is destructured and which of them are visited, in declaration
//! order with excluded fields absent; an opaque type produces no arm at
//! all. It also records the capability requirements the dispatch induces:
//! one visit bound per visited field type, in visit order.

use vstd::prelude::*;

use crate::exec::visited_indices;
use crate::exec::visited_upto;
use crate::model::CompositeInput;
use crate::model::CompositeKind;
use crate::model::FieldDesc;
use crate::model::Names;
use crate::model::Ty;
use crate::model::VariantDesc;
use crate::model::standard_names;
use crate::names::decimal_of;
use crate::names::decimal_string;

verus! {

/// How a field is reached in a destructuring pattern: by its name or by
/// its position.
pub enum FieldAccessor {
    Named(String),
    Positional(usize),
}

/// One field of a destructuring pattern: its accessor and the variable
/// it is bound to.
pub struct FieldBinding {
    pub accessor: FieldAccessor,
    pub var: String,
}

/// One planned visit: the bound variable holding the field's value and
/// the field's declared type.
pub struct FieldVisit {
    pub var: String,
    pub ty: Ty,
}

/// The dispatch plan for one variant: the variant visited (`None` for a
/// struct), the full destructuring of its fields, and the visits of its
/// retained fields in declaration order.
pub struct MatchArm {
    pub variant: Option<String>,
    pub bindings: Vec<FieldBinding>,
    pub visits: Vec<FieldVisit>,
}

/// The per-field dispatch plan of one composite type.
pub struct DrivePlan {
    pub names: Names,
    pub subject: String,
    pub generics: crate::model::GenericsDecl,
    pub constraints: Vec<Ty>,
    pub arms: Vec<MatchArm>,
}

/// The variable a field is bound to: its name, or `i` followed by its
/// position.
pub open spec fn binding_var(f: FieldDesc, i: int) -> Seq<char> {
    if f.name is Some {
        f.name.unwrap()@
    } else {
        "i"@ + decimal_of(i)
    }
}

/// Whether `b` is the destructuring binding of field `f` at position `i`.
pub open spec fn binding_represents(b: FieldBinding, f: FieldDesc, i: int) -> bool {
    &&& b.var@ == binding_var(f, i)
    &&& match (b.accessor, f.name) {
        (FieldAccessor::Named(a), Some(n)) => a@ == n@,
        (FieldAccessor::Positional(j), None) => j == i,
        _ => false,
    }
}

/// The observable content of one planned visit.
pub open spec fn visit_view(v: FieldVisit) -> (Seq<char>, Ty) {
    (v.var@, v.ty)
}

/// The visits induced by the first `n` fields: one per retained field,
/// in declaration order.
pub open spec fn visit_views_upto(fields: Seq<FieldDesc>, n: int) -> Seq<(Seq<char>, Ty)>
    decreases n,
{
    if n <= 0 {
        Seq::empty()
    } else {
        visit_views_upto(fields, n - 1) + (if fields[n - 1].skip {
            Seq::<(Seq<char>, Ty)>::empty()
        } else {
            seq![(binding_var(fields[n - 1], n - 1), fields[n - 1].ty)]
        })
    }
}

/// The visits induced by a field list.
pub open spec fn visit_views(fields: Seq<FieldDesc>) -> Seq<(Seq<char>, Ty)> {
    visit_views_upto(fields, fields.len() as int)
}

/// The visited field types of a field list, in visit order.
pub open spec fn visit_tys(fields: Seq<FieldDesc>) -> Seq<Ty> {
    visit_views(fields).map_values(|p: (Seq<char>, Ty)| p.1)
}

/// Whether `arm` is the dispatch plan of a variant with the given name
/// and fields.
pub open spec fn arm_represents(arm: MatchArm, variant: Option<Seq<char>>, fields: Seq<
    FieldDesc,
>) -> bool {
    &&& match (arm.variant, variant) {
        (Some(a), Some(n)) => a@ == n,
        (None, None) => true,
        _ => false,
    }
    &&& arm.bindings.len() == fields.len()
    &&& (forall|j: int|
        0 <= j < fields.len() ==> binding_represents(#[trigger] arm.bindings@[j], fields[j], j))
    &&& arm.visits@.map_values(|v: FieldVisit| visit_view(v)) == visit_views(fields)
}

/// The positions of the variants kept by the dispatch among the first
/// `n` declared ones: those not excluded, in declaration order.
pub open spec fn kept_upto(vs: Seq<VariantDesc>, n: int) -> Seq<int>
    decreases n,
{
    if n <= 0 {
        Seq::empty()
    } else {
        kept_upto(vs, n - 1) + (if vs[n - 1].skip {
            Seq::<int>::empty()
        } else {
            seq![n - 1]
        })
    }
}

/// The positions of the kept variants of a variant list.
pub open spec fn kept_variants(vs: Seq<VariantDesc>) -> Seq<int> {
    kept_upto(vs, vs.len() as int)
}

/// The capability requirements induced by the first `n` variants: the
/// visited field types of each kept variant, in declaration order.
pub open spec fn enum_tys_upto(vs: Seq<VariantDesc>, n: int) -> Seq<Ty>
    decreases n,
{
    if n <= 0 {
        Seq::empty()
    } else {
        enum_tys_upto(vs, n - 1) + (if vs[n - 1].skip {
            Seq::<Ty>::empty()
        } else {
            visit_tys(vs[n - 1].fields@)
        })
    }
}

/// The capability requirements induced by a variant list.
pub open spec fn enum_tys(vs: Seq<VariantDesc>) -> Seq<Ty> {
    enum_tys_upto(vs, vs.len() as int)
}

/// Plan the handling of a single field: its destructuring binding, and
/// its visit unless the field is excluded.
pub fn visit_field(field: FieldDesc, index: usize) -> (r: (FieldBinding, Option<FieldVisit>))
    ensures
        binding_represents(r.0, field, index as int),
        field.skip <==> r.1 is None,
        !field.skip ==> visit_view(r.1.unwrap()) == (binding_var(field, index as int), field.ty),
{
    let var: String = match &field.name {
        Some(n) => n.clone(),
        None => "i".to_owned().concat(decimal_string(index).as_str()),
    };
    let accessor = match field.name {
        Some(n) => FieldAccessor::Named(n),
        None => FieldAccessor::Positional(index),
    };
    if field.skip {
        (FieldBinding { accessor, var }, None)
    } else {
        let visit = FieldVisit { var: var.clone(), ty: field.ty };
        (FieldBinding { accessor, var }, Some(visit))
    }
}

/// Plan the match arm that destructures the given variant's fields and
/// visits each retained one, collecting the induced visit bounds.
pub fn match_variant(variant: Option<String>, fields: Vec<FieldDesc>) -> (r: (MatchArm, Vec<Ty>))
    ensures
        arm_represents(
            r.0,
            match variant {
                Some(n) => Some(n@),
                None => None,
            },
            fields@,
        ),
        r.1@ == visit_tys(fields@),
{
    let ghost all_fields = fields@;
    let total: usize = fields.len();
    let mut fields = fields;
    let mut bindings: Vec<FieldBinding> = Vec::new();
    let mut visits: Vec<FieldVisit> = Vec::new();
    let mut tys: Vec<Ty> = Vec::new();
    let mut i: usize = 0;
    while fields.len() > 0
        invariant
            all_fields.len() == total,
            i + fields.len() == all_fields.len(),
            fields@ == all_fields.skip(i as int),
            bindings.len() == i,
            forall|j: int|
                0 <= j < i ==> binding_represents(#[trigger] bindings@[j], all_fields[j], j),
            visits@.map_values(|v: FieldVisit| visit_view(v)) == visit_views_upto(
                all_fields,
                i as int,
            ),
            tys@ == visit_views_upto(all_fields, i as int).map_values(|p: (Seq<char>, Ty)| p.1),
        decreases fields.len(),
    {
        let field = fields.remove(0);
        proof {
            assert(field == all_fields[i as int]);
            assert(fields@ =~= all_fields.skip(i + 1));
        }
        let (binding, visit) = visit_field(field, i);
        bindings.push(binding);
        match visit {
            Some(v) => {
                let ghost prev = visits@;
                let ty = v.ty.duplicate();
                visits.push(v);
                tys.push(ty);
                proof {
                    assert(visits@.map_values(|v: FieldVisit| visit_view(v)) =~= prev.map_values(
                        |v: FieldVisit| visit_view(v),
                    ).push(visit_view(v)));
                    assert(visit_views_upto(all_fields, i + 1) =~= visit_views_upto(
                        all_fields,
                        i as int,
                    ).push((binding_var(all_fields[i as int], i as int), all_fields[i as int].ty)));
                    assert(tys@ =~= visit_views_upto(all_fields, i + 1).map_values(
                        |p: (Seq<char>, Ty)| p.1,
                    ));
                }
            },
            None => {
                proof {
                    assert(visit_views_upto(all_fields, i + 1) =~= visit_views_upto(
                        all_fields,
                        i as int,
                    ));
                }
            },
        }
        i += 1;
    }
    proof {
        assert(all_fields.skip(all_fields.len() as int) =~= Seq::<FieldDesc>::empty());
    }
    (MatchArm { variant, bindings, visits }, tys)
}

/// Build the per-field dispatch plan of one composite type, for the
/// immutable or the mutable traversal mode: one arm per kept variant
/// (one arm in all for a struct), each visiting the variant's retained
/// fields in declaration order, and nothing at all when the type is
/// opaque.
pub fn impl_drive(input: CompositeInput, mutable: bool) -> (r: DrivePlan)
    ensures
        standard_names(r.names, mutable),
        r.subject@ == input.ident@,
        r.generics == input.generics,
        input.skip ==> r.arms.len() == 0 && r.constraints.len() == 0,
        !input.skip ==> match input.kind {
            CompositeKind::Struct { fields } => {
                &&& r.arms.len() == 1
                &&& arm_represents(r.arms@[0], None, fields@)
                &&& r.constraints@ == visit_tys(fields@)
            },
            CompositeKind::Enum { variants } => {
                &&& r.arms.len() == kept_variants(variants@).len()
                &&& (forall|i: int|
                    0 <= i < r.arms.len() ==> {
                        let k = kept_variants(variants@)[i];
                        arm_represents(
                            #[trigger] r.arms@[i],
                            Some(variants@[k].name@),
                            variants@[k].fields@,
                        )
                    })
                &&& r.constraints@ == enum_tys(variants@)
            },
        },
{
    let names = Names::new(mutable);
    let CompositeInput { ident, generics, skip, kind } = input;
    let mut arms: Vec<MatchArm> = Vec::new();
    let mut constraints: Vec<Ty> = Vec::new();
    if !skip {
        match kind {
            CompositeKind::Struct { fields } => {
                let (arm, tys) = match_variant(None, fields);
                arms.push(arm);
                constraints = tys;
            },
            CompositeKind::Enum { variants } => {
                let ghost all = variants@;
                let total: usize = variants.len();
                let mut variants = variants;
                let mut i: usize = 0;
                while variants.len() > 0
                    invariant
                        all.len() == total,
                        i + variants.len() == all.len(),
                        variants@ == all.skip(i as int),
                        arms.len() == kept_upto(all, i as int).len(),
                        forall|k: int|
                            0 <= k < arms.len() ==> {
                                let idx = kept_upto(all, i as int)[k];
                                arm_represents(
                                    #[trigger] arms@[k],
                                    Some(all[idx].name@),
                                    all[idx].fields@,
                                )
                            },
                        constraints@ == enum_tys_upto(all, i as int),
                    decreases variants.len(),
                {
                    let v = variants.remove(0);
                    proof {
                        assert(v == all[i as int]);
                        assert(variants@ =~= all.skip(i + 1));
                    }
                    if !v.skip {
                        let VariantDesc { name, skip: _, fields } = v;
                        let (arm, mut tys) = match_variant(Some(name), fields);
                        arms.push(arm);
                        constraints.append(&mut tys);
                        proof {
                            assert(kept_upto(all, i + 1) =~= kept_upto(all, i as int).push(
                                i as int,
                            ));
                            assert(enum_tys_upto(all, i + 1) =~= enum_tys_upto(all, i as int)
                                + visit_tys(all[i as int].fields@));
                        }
                    } else {
                        proof {
                            assert(kept_upto(all, i + 1) =~= kept_upto(all, i as int));
                            assert(enum_tys_upto(all, i + 1) =~= enum_tys_upto(all, i as int));
                        }
                    }
                    i += 1;
                }
                proof {
                    assert(all.skip(all.len() as int) =~= Seq::<VariantDesc>::empty());
                }
            },
        }
    }
    DrivePlan { names, subject: ident, generics, constraints, arms }
}

/// The traversal flags a field list induces: a field is forwarded
/// exactly when it is not excluded.
pub open spec fn plan_flags(fields: Seq<FieldDesc>) -> Seq<bool> {
    Seq::new(fields.len(), |i: int| !fields[i].skip)
}

/// The plan and the dispatch agree: the planned visits of a field list
/// are exactly the fields at the dispatch's retained positions, in the
/// same order — the declared order with excluded fields absent.
pub proof fn lemma_plan_matches_dispatch(fields: Seq<FieldDesc>)
    ensures
        visit_views(fields).len() == visited_indices(plan_flags(fields)).len(),
        forall|j: int|
            0 <= j < visit_views(fields).len() ==> {
                let idx = visited_indices(plan_flags(fields))[j];
                #[trigger] visit_views(fields)[j] == (binding_var(fields[idx], idx), fields[idx].ty)
            },
{
    lemma_plan_matches_upto(fields, fields.len() as int);
}

/// The agreement, position by position, over a prefix.
proof fn lemma_plan_matches_upto(fields: Seq<FieldDesc>, n: int)
    requires
        n <= fields.len(),
    ensures
        visit_views_upto(fields, n).len() == visited_upto(plan_flags(fields), n).len(),
        forall|j: int|
            0 <= j < visit_views_upto(fields, n).len() ==> {
                let idx = visited_upto(plan_flags(fields), n)[j];
                #[trigger] visit_views_upto(fields, n)[j] == (
                    binding_var(fields[idx], idx),
                    fields[idx].ty,
                )
            },
    decreases n,
{
    if n > 0 {
        lemma_plan_matches_upto(fields, n - 1);
        let flags = plan_flags(fields);
        if !fields[n - 1].skip {
            assert(visit_views_upto(fields, n) =~= visit_views_upto(fields, n - 1).push(
                (binding_var(fields[n - 1], n - 1), fields[n - 1].ty),
            ));
            assert(visited_upto(flags, n) =~= visited_upto(flags, n - 1).push(n - 1));
        } else {
            assert(visit_views_upto(fields, n) =~= visit_views_upto(fields, n - 1));
            assert(visited_upto(flags, n) =~= visited_upto(flags, n - 1));
        }
    }
}

} // verus!
