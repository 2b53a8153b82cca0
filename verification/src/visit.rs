//! The per-type behavior ("visit") planner: for one visitor-defining
//! type, the plan for how it handles each configured target type.
//!
//! Each entry of a behavior declaration list resolves to one planned
//! implementation: pass through to the per-field dispatch (`Drive`), do
//! nothing (`Skip`), delegate to a user method (`Override`), or run a
//! hook before (`Enter`) or after (`Exit`) the dispatch. A target whose
//! method name cannot be resolved yields a configuration error scoped to
//! that single target; its siblings are planned regardless.

use vstd::prelude::*;

use crate::model::BehaviorTag;
use crate::model::ConfigError;
use crate::model::GenericParam;
use crate::model::GenericTy;
use crate::model::GenericsDecl;
use crate::model::Names;
use crate::model::Ty;
use crate::model::VisitEntry;
use crate::model::name_error_message;
use crate::model::resolvable;
use crate::model::resolved_name;
use crate::model::standard_names;

verus! {

/// A resolved behavior: the traversal policy of one target, with the
/// method-name fragment of the hook-based policies.
pub enum VisitKind {
    Drive,
    Skip,
    Override(String),
    Enter(String),
    Exit(String),
}

/// One resolved entry of a behavior declaration list: the plan source
/// for one `Visit` implementation.
pub struct Visit {
    pub generics: GenericsDecl,
    pub ty: Ty,
    pub kind: VisitKind,
}

/// The planned body of one visit implementation, with the full name of
/// the user method it calls, if any.
pub enum VisitBody {
    Skip,
    Drive,
    Enter { method: String },
    Exit { method: String },
    Override { method: String },
}

/// One planned `Visit` implementation: the target's own generics, the
/// type parameters among them that the visitor must itself know how to
/// visit, the target type, and the body.
pub struct VisitImpl {
    pub target_generics: GenericsDecl,
    pub self_constraints: Vec<String>,
    pub ty: Ty,
    pub body: VisitBody,
}

/// The behavior plan of one visitor-defining type.
pub struct VisitPlan {
    pub names: Names,
    pub subject: String,
    pub subject_generics: GenericsDecl,
    pub impls: Vec<VisitImpl>,
}

/// Whether this tag's handling calls a named user method.
pub open spec fn needs_name(tag: BehaviorTag) -> bool {
    match tag {
        BehaviorTag::Override => true,
        BehaviorTag::Enter => true,
        BehaviorTag::Exit => true,
        BehaviorTag::Drive => false,
        BehaviorTag::Skip => false,
    }
}

/// Whether this entry resolves: either its tag needs no name, or a name
/// can be resolved for its target.
pub open spec fn entry_ok(e: VisitEntry) -> bool {
    !needs_name(e.tag) || resolvable(e.target)
}

/// The positions of the resolving entries among the first `n`.
pub open spec fn ok_upto(es: Seq<VisitEntry>, n: int) -> Seq<int>
    decreases n,
{
    if n <= 0 {
        Seq::empty()
    } else {
        ok_upto(es, n - 1) + (if entry_ok(es[n - 1]) {
            seq![n - 1]
        } else {
            Seq::<int>::empty()
        })
    }
}

/// The positions of the resolving entries of a declaration list.
pub open spec fn ok_entries(es: Seq<VisitEntry>) -> Seq<int> {
    ok_upto(es, es.len() as int)
}

/// The positions of the failing entries among the first `n`.
pub open spec fn err_upto(es: Seq<VisitEntry>, n: int) -> Seq<int>
    decreases n,
{
    if n <= 0 {
        Seq::empty()
    } else {
        err_upto(es, n - 1) + (if entry_ok(es[n - 1]) {
            Seq::<int>::empty()
        } else {
            seq![n - 1]
        })
    }
}

/// The positions of the failing entries of a declaration list.
pub open spec fn err_entries(es: Seq<VisitEntry>) -> Seq<int> {
    err_upto(es, es.len() as int)
}

/// Whether `v` is the resolved form of entry `e`: same target type and
/// generics, and the kind the tag asks for, carrying the resolved
/// method-name fragment where one is needed.
pub open spec fn visit_of(v: Visit, e: VisitEntry) -> bool {
    &&& v.generics == e.target.ty.generics
    &&& v.ty == e.target.ty.ty
    &&& match (v.kind, e.tag) {
        (VisitKind::Drive, BehaviorTag::Drive) => true,
        (VisitKind::Skip, BehaviorTag::Skip) => true,
        (VisitKind::Override(n), BehaviorTag::Override) => n@ == resolved_name(e.target),
        (VisitKind::Enter(n), BehaviorTag::Enter) => n@ == resolved_name(e.target),
        (VisitKind::Exit(n), BehaviorTag::Exit) => n@ == resolved_name(e.target),
        _ => false,
    }
}

/// Whether `err` is the diagnostic for the failing entry `e`.
pub open spec fn error_of(err: ConfigError, e: VisitEntry) -> bool {
    &&& err.ty@ == e.target.ty.ty.repr@
    &&& err.message@ == name_error_message()
}

/// Resolve a behavior declaration list: each resolving entry in order
/// becomes one resolved behavior, each failing one yields its own error,
/// and a failure never disturbs the entries around it.
pub fn resolve_entries(entries: Vec<VisitEntry>) -> (r: (Vec<Visit>, Vec<ConfigError>))
    ensures
        r.0.len() == ok_entries(entries@).len(),
        forall|i: int|
            0 <= i < r.0.len() ==> visit_of(#[trigger] r.0@[i], entries@[ok_entries(entries@)[i]]),
        r.1.len() == err_entries(entries@).len(),
        forall|i: int|
            0 <= i < r.1.len() ==> error_of(
                #[trigger] r.1@[i],
                entries@[err_entries(entries@)[i]],
            ),
{
    let ghost all = entries@;
    let total: usize = entries.len();
    let mut entries = entries;
    let mut visits: Vec<Visit> = Vec::new();
    let mut errors: Vec<ConfigError> = Vec::new();
    let mut i: usize = 0;
    while entries.len() > 0
        invariant
            all.len() == total,
            i + entries.len() == all.len(),
            entries@ == all.skip(i as int),
            visits.len() == ok_upto(all, i as int).len(),
            forall|k: int|
                0 <= k < visits.len() ==> visit_of(
                    #[trigger] visits@[k],
                    all[ok_upto(all, i as int)[k]],
                ),
            errors.len() == err_upto(all, i as int).len(),
            forall|k: int|
                0 <= k < errors.len() ==> error_of(
                    #[trigger] errors@[k],
                    all[err_upto(all, i as int)[k]],
                ),
        decreases entries.len(),
    {
        let e = entries.remove(0);
        proof {
            assert(e == all[i as int]);
            assert(entries@ =~= all.skip(i + 1));
        }
        match e.tag {
            BehaviorTag::Drive => {
                let GenericTy { generics, ty } = e.target.ty;
                visits.push(Visit { generics, ty, kind: VisitKind::Drive });
            },
            BehaviorTag::Skip => {
                let GenericTy { generics, ty } = e.target.ty;
                visits.push(Visit { generics, ty, kind: VisitKind::Skip });
            },
            BehaviorTag::Override => match e.target.get_name() {
                Ok(name) => {
                    let GenericTy { generics, ty } = e.target.ty;
                    visits.push(Visit { generics, ty, kind: VisitKind::Override(name) });
                },
                Err(err) => errors.push(err),
            },
            BehaviorTag::Enter => match e.target.get_name() {
                Ok(name) => {
                    let GenericTy { generics, ty } = e.target.ty;
                    visits.push(Visit { generics, ty, kind: VisitKind::Enter(name) });
                },
                Err(err) => errors.push(err),
            },
            BehaviorTag::Exit => match e.target.get_name() {
                Ok(name) => {
                    let GenericTy { generics, ty } = e.target.ty;
                    visits.push(Visit { generics, ty, kind: VisitKind::Exit(name) });
                },
                Err(err) => errors.push(err),
            },
        }
        proof {
            if entry_ok(all[i as int]) {
                assert(ok_upto(all, i + 1) =~= ok_upto(all, i as int).push(i as int));
                assert(err_upto(all, i + 1) =~= err_upto(all, i as int));
            } else {
                assert(ok_upto(all, i + 1) =~= ok_upto(all, i as int));
                assert(err_upto(all, i + 1) =~= err_upto(all, i as int).push(i as int));
            }
        }
        i += 1;
    }
    proof {
        assert(all.skip(all.len() as int) =~= Seq::<VisitEntry>::empty());
    }
    (visits, errors)
}

/// The bare identifiers of the type parameters among the first `n`
/// generic parameters.
pub open spec fn type_idents_upto(ps: Seq<GenericParam>, n: int) -> Seq<String>
    decreases n,
{
    if n <= 0 {
        Seq::empty()
    } else {
        type_idents_upto(ps, n - 1) + (match ps[n - 1].type_ident {
            Some(id) => seq![id],
            None => Seq::<String>::empty(),
        })
    }
}

/// The bare identifiers of a parameter list's type parameters.
pub open spec fn type_idents(ps: Seq<GenericParam>) -> Seq<String> {
    type_idents_upto(ps, ps.len() as int)
}

/// Collect the bare identifiers of a parameter list's type parameters.
fn collect_type_idents(ps: &Vec<GenericParam>) -> (r: Vec<String>)
    ensures
        r@ == type_idents(ps@),
{
    let mut out: Vec<String> = Vec::new();
    let mut i: usize = 0;
    while i < ps.len()
        invariant
            i <= ps.len(),
            out@ == type_idents_upto(ps@, i as int),
        decreases ps.len() - i,
    {
        match &ps[i].type_ident {
            Some(id) => {
                out.push(id.clone());
                proof {
                    assert(out@ =~= type_idents_upto(ps@, i + 1));
                }
            },
            None => {
                proof {
                    assert(type_idents_upto(ps@, i + 1) =~= type_idents_upto(ps@, i as int));
                }
            },
        }
        i += 1;
    }
    out
}

/// Whether `body` is the planned handling of the resolved behavior `k`.
pub open spec fn body_of(body: VisitBody, k: VisitKind) -> bool {
    match (body, k) {
        (VisitBody::Skip, VisitKind::Skip) => true,
        (VisitBody::Drive, VisitKind::Drive) => true,
        (VisitBody::Enter { method }, VisitKind::Enter(n)) => method@ == "enter_"@ + n@,
        (VisitBody::Exit { method }, VisitKind::Exit(n)) => method@ == "exit_"@ + n@,
        (VisitBody::Override { method }, VisitKind::Override(n)) => method@ == "visit_"@ + n@,
        _ => false,
    }
}

/// Whether `imp` is the planned implementation for the resolved
/// behavior `v`.
pub open spec fn impl_of(imp: VisitImpl, v: Visit) -> bool {
    &&& imp.target_generics == v.generics
    &&& imp.self_constraints@ == type_idents(v.generics.params@)
    &&& imp.ty == v.ty
    &&& body_of(imp.body, v.kind)
}

/// Whether `body` is the planned handling of entry `e`: what the tag
/// asks for, calling the method named after the target's resolved
/// fragment where one is involved.
pub open spec fn planned_body_of(body: VisitBody, e: VisitEntry) -> bool {
    match (body, e.tag) {
        (VisitBody::Skip, BehaviorTag::Skip) => true,
        (VisitBody::Drive, BehaviorTag::Drive) => true,
        (VisitBody::Enter { method }, BehaviorTag::Enter) => method@ == "enter_"@ + resolved_name(
            e.target,
        ),
        (VisitBody::Exit { method }, BehaviorTag::Exit) => method@ == "exit_"@ + resolved_name(
            e.target,
        ),
        (VisitBody::Override { method }, BehaviorTag::Override) => method@ == "visit_"@
            + resolved_name(e.target),
        _ => false,
    }
}

/// Whether `imp` is the planned implementation for entry `e`: the
/// entry's own generics and type, a visit demand on each of its type
/// parameters, and the handling its tag asks for.
pub open spec fn planned_impl_of(imp: VisitImpl, e: VisitEntry) -> bool {
    &&& imp.target_generics == e.target.ty.generics
    &&& imp.self_constraints@ == type_idents(e.target.ty.generics.params@)
    &&& imp.ty == e.target.ty.ty
    &&& planned_body_of(imp.body, e)
}

/// Build the behavior plan of one visitor-defining type, for the
/// immutable or the mutable mode: one implementation per resolving
/// entry, in declaration order, each demanding that the visitor itself
/// can visit the target's own type parameters; failing entries yield
/// their errors without disturbing their siblings.
pub fn impl_visit(
    subject: String,
    subject_generics: GenericsDecl,
    entries: Vec<VisitEntry>,
    mutable: bool,
) -> (r: (VisitPlan, Vec<ConfigError>))
    ensures
        standard_names(r.0.names, mutable),
        r.0.subject@ == subject@,
        r.0.subject_generics == subject_generics,
        r.0.impls.len() == ok_entries(entries@).len(),
        forall|i: int|
            0 <= i < r.0.impls.len() ==> planned_impl_of(
                #[trigger] r.0.impls@[i],
                entries@[ok_entries(entries@)[i]],
            ),
        r.1.len() == err_entries(entries@).len(),
        forall|i: int|
            0 <= i < r.1.len() ==> error_of(
                #[trigger] r.1@[i],
                entries@[err_entries(entries@)[i]],
            ),
{
    let names = Names::new(mutable);
    let ghost all = entries@;
    let (visits, errors) = resolve_entries(entries);
    let ghost resolved = visits@;
    let total: usize = visits.len();
    let mut visits = visits;
    let mut impls: Vec<VisitImpl> = Vec::new();
    let mut i: usize = 0;
    while visits.len() > 0
        invariant
            resolved.len() == total,
            i + visits.len() == resolved.len(),
            visits@ == resolved.skip(i as int),
            impls.len() == i,
            forall|k: int|
                0 <= k < i ==> impl_of(#[trigger] impls@[k], resolved[k]),
        decreases visits.len(),
    {
        let v = visits.remove(0);
        proof {
            assert(v == resolved[i as int]);
            assert(visits@ =~= resolved.skip(i + 1));
        }
        let Visit { generics, ty, kind } = v;
        let self_constraints = collect_type_idents(&generics.params);
        let body = match kind {
            VisitKind::Skip => VisitBody::Skip,
            VisitKind::Drive => VisitBody::Drive,
            VisitKind::Enter(n) => VisitBody::Enter {
                method: "enter_".to_owned().concat(n.as_str()),
            },
            VisitKind::Exit(n) => VisitBody::Exit { method: "exit_".to_owned().concat(n.as_str()) },
            VisitKind::Override(n) => VisitBody::Override {
                method: "visit_".to_owned().concat(n.as_str()),
            },
        };
        impls.push(VisitImpl { target_generics: generics, self_constraints, ty, body });
        i += 1;
    }
    proof {
        assert(resolved.skip(resolved.len() as int) =~= Seq::<Visit>::empty());
        assert forall|k: int| 0 <= k < impls.len() implies planned_impl_of(
            #[trigger] impls@[k],
            all[ok_entries(all)[k]],
        ) by {
            assert(visit_of(resolved[k], all[ok_entries(all)[k]]));
            assert(impl_of(impls@[k], resolved[k]));
        }
    }
    (VisitPlan { names, subject, subject_generics, impls }, errors)
}

/// The plan of the `Visitor` implementation of one subject type: it
/// fixes the short-circuit type to the empty one.
pub struct VisitorImplPlan {
    pub visitor_trait: String,
    pub subject: String,
    pub subject_generics: GenericsDecl,
    pub break_ty: String,
}

/// Plan the `Visitor` implementation for a subject type, whose
/// short-circuit type is the empty `Infallible`.
pub fn impl_visitor(subject: String, subject_generics: GenericsDecl) -> (r: VisitorImplPlan)
    ensures
        r.visitor_trait@ == "::generic_visitor::Visitor"@,
        r.subject@ == subject@,
        r.subject_generics == subject_generics,
        r.break_ty@ == "::std::convert::Infallible"@,
{
    let names = Names::new(false);
    VisitorImplPlan {
        visitor_trait: names.visitor_trait,
        subject,
        subject_generics,
        break_ty: "::std::convert::Infallible".to_owned(),
    }
}

} // verus!
