//! The capability-group planner: from a set of participant types and one
//! or more requested visitor traits, the plan for a whole trait family.
//!
//! The family comprises: one drive method on the shared capability trait
//! per requested visitor trait; an implementation of that trait for
//! every participant, dispatching on the participant's tag; a wrapper
//! adapter (and an infallible twin when some requested trait hides
//! short-circuiting) that bridges the generated traits back to the
//! low-level per-field dispatch; and the generated visitor traits
//! themselves, with their entrypoints and one overridable
//! `visit_<name>`/`enter_<name>`/`exit_<name>` method triple per
//! override participant.

use vstd::prelude::*;

use crate::model::ConfigError;
use crate::model::GenericTy;
use crate::model::GenericsDecl;
use crate::model::NamedGenericTy;
use crate::model::Names;
use crate::model::Ty;
use crate::model::generic_ty_eqv;
use crate::model::generics_eqv;
use crate::model::name_error_message;
use crate::model::resolvable;
use crate::model::resolved_name;

verus! {

/// The traversal policy of one participant type: recurse blindly, do
/// nothing, or defer to an overridable per-name method whose default
/// either recurses between hooks (`skip == false`) or does nothing
/// (`skip == true`).
pub enum TyVisitKind {
    Skip,
    Drive,
    Override { skip: bool, name: String },
}

/// One requested visitor trait: its name, the drive method it is served
/// by on the capability trait, whether it traverses mutably, and whether
/// its interface exposes short-circuiting.
pub struct VisitorDef {
    pub vis_trait_name: String,
    pub method_name: String,
    pub mutable: bool,
    pub faillible: bool,
}

/// One participant of the group: a target type and its policy.
pub struct GroupTarget {
    pub ty: GenericTy,
    pub kind: TyVisitKind,
}

/// The normalized configuration of one capability group.
pub struct Options {
    pub visitors: Vec<VisitorDef>,
    pub tys: Vec<GroupTarget>,
}

/// The tag a surface declaration applies to a list of targets.
#[derive(Clone, Copy)]
pub enum GroupTargetTag {
    Skip,
    Drive,
    Override,
    OverrideSkip,
}

/// One surface argument of a capability-group declaration.
pub enum MacroArg {
    SetVisitorTrait { method_name: String, mutable: bool, trait_name: String, infaillible: bool },
    SetVisitableTypes { kind: GroupTargetTag, tys: Vec<NamedGenericTy> },
}

/// The tagged targets one argument contributes, in declaration order.
pub open spec fn arg_entries(a: MacroArg) -> Seq<(GroupTargetTag, NamedGenericTy)> {
    match a {
        MacroArg::SetVisitorTrait { .. } => Seq::empty(),
        MacroArg::SetVisitableTypes { kind, tys } => tys@.map_values(
            |t: NamedGenericTy| (kind, t),
        ),
    }
}

/// The tagged targets the first `n` arguments contribute.
pub open spec fn entries_upto(args: Seq<MacroArg>, n: int) -> Seq<(GroupTargetTag, NamedGenericTy)>
    decreases n,
{
    if n <= 0 {
        Seq::empty()
    } else {
        entries_upto(args, n - 1) + arg_entries(args[n - 1])
    }
}

/// The tagged targets of a whole declaration, in declaration order.
pub open spec fn group_entries(args: Seq<MacroArg>) -> Seq<(GroupTargetTag, NamedGenericTy)> {
    entries_upto(args, args.len() as int)
}

/// Whether this argument requests a visitor trait.
pub open spec fn is_visitor_arg(a: MacroArg) -> bool {
    a is SetVisitorTrait
}

/// Whether `d` is the visitor request of argument `a`: a declaration
/// marked `infaillible` yields a non-faillible calling convention.
pub open spec fn def_of(d: VisitorDef, a: MacroArg) -> bool {
    match a {
        MacroArg::SetVisitorTrait { method_name, mutable, trait_name, infaillible } => {
            &&& d.vis_trait_name == trait_name
            &&& d.method_name == method_name
            &&& d.mutable == mutable
            &&& d.faillible == !infaillible
        },
        _ => false,
    }
}

/// The positions of the visitor requests among the first `n` arguments.
pub open spec fn visitor_args_upto(args: Seq<MacroArg>, n: int) -> Seq<int>
    decreases n,
{
    if n <= 0 {
        Seq::empty()
    } else {
        visitor_args_upto(args, n - 1) + (if is_visitor_arg(args[n - 1]) {
            seq![n - 1]
        } else {
            Seq::<int>::empty()
        })
    }
}

/// The positions of a declaration's visitor requests.
pub open spec fn visitor_args(args: Seq<MacroArg>) -> Seq<int> {
    visitor_args_upto(args, args.len() as int)
}

/// Whether this tag's participants carry overridable per-name methods,
/// so that a name must resolve for them.
pub open spec fn gentry_needs_name(tag: GroupTargetTag) -> bool {
    match tag {
        GroupTargetTag::Override => true,
        GroupTargetTag::OverrideSkip => true,
        GroupTargetTag::Skip => false,
        GroupTargetTag::Drive => false,
    }
}

/// Whether a tagged target resolves.
pub open spec fn gentry_ok(e: (GroupTargetTag, NamedGenericTy)) -> bool {
    !gentry_needs_name(e.0) || resolvable(e.1)
}

/// The positions of the resolving tagged targets among the first `n`.
pub open spec fn gok_upto(es: Seq<(GroupTargetTag, NamedGenericTy)>, n: int) -> Seq<int>
    decreases n,
{
    if n <= 0 {
        Seq::empty()
    } else {
        gok_upto(es, n - 1) + (if gentry_ok(es[n - 1]) {
            seq![n - 1]
        } else {
            Seq::<int>::empty()
        })
    }
}

/// The positions of the resolving tagged targets.
pub open spec fn gok_entries(es: Seq<(GroupTargetTag, NamedGenericTy)>) -> Seq<int> {
    gok_upto(es, es.len() as int)
}

/// The positions of the failing tagged targets among the first `n`.
pub open spec fn gerr_upto(es: Seq<(GroupTargetTag, NamedGenericTy)>, n: int) -> Seq<int>
    decreases n,
{
    if n <= 0 {
        Seq::empty()
    } else {
        gerr_upto(es, n - 1) + (if gentry_ok(es[n - 1]) {
            Seq::<int>::empty()
        } else {
            seq![n - 1]
        })
    }
}

/// The positions of the failing tagged targets.
pub open spec fn gerr_entries(es: Seq<(GroupTargetTag, NamedGenericTy)>) -> Seq<int> {
    gerr_upto(es, es.len() as int)
}

/// Whether `t` is the normalized participant of the tagged target `e`.
pub open spec fn target_of(t: GroupTarget, e: (GroupTargetTag, NamedGenericTy)) -> bool {
    &&& t.ty == e.1.ty
    &&& match (t.kind, e.0) {
        (TyVisitKind::Skip, GroupTargetTag::Skip) => true,
        (TyVisitKind::Drive, GroupTargetTag::Drive) => true,
        (TyVisitKind::Override { skip: false, name }, GroupTargetTag::Override) => name@
            == resolved_name(e.1),
        (TyVisitKind::Override { skip: true, name }, GroupTargetTag::OverrideSkip) => name@
            == resolved_name(e.1),
        _ => false,
    }
}

/// Whether `err` is the diagnostic for the failing tagged target `e`.
pub open spec fn gerror_of(err: ConfigError, e: (GroupTargetTag, NamedGenericTy)) -> bool {
    &&& err.ty@ == e.1.ty.ty.repr@
    &&& err.message@ == name_error_message()
}

impl Options {
    /// Normalize a capability-group declaration: visitor requests in
    /// declaration order, participants in declaration order with their
    /// names resolved, and one error per override participant whose name
    /// cannot resolve, without disturbing its siblings.
    pub fn from_args(args: Vec<MacroArg>) -> (r: (Options, Vec<ConfigError>))
        ensures
            r.0.visitors.len() == visitor_args(args@).len(),
            forall|i: int|
                0 <= i < r.0.visitors.len() ==> def_of(
                    #[trigger] r.0.visitors@[i],
                    args@[visitor_args(args@)[i]],
                ),
            r.0.tys.len() == gok_entries(group_entries(args@)).len(),
            forall|i: int|
                0 <= i < r.0.tys.len() ==> target_of(
                    #[trigger] r.0.tys@[i],
                    group_entries(args@)[gok_entries(group_entries(args@))[i]],
                ),
            r.1.len() == gerr_entries(group_entries(args@)).len(),
            forall|i: int|
                0 <= i < r.1.len() ==> gerror_of(
                    #[trigger] r.1@[i],
                    group_entries(args@)[gerr_entries(group_entries(args@))[i]],
                ),
    {
        let ghost all = args@;
        let total: usize = args.len();
        let mut args = args;
        let mut visitors: Vec<VisitorDef> = Vec::new();
        let mut flat: Vec<(GroupTargetTag, NamedGenericTy)> = Vec::new();
        let mut i: usize = 0;
        while args.len() > 0
            invariant
                all.len() == total,
                i + args.len() == all.len(),
                args@ == all.skip(i as int),
                visitors.len() == visitor_args_upto(all, i as int).len(),
                forall|k: int|
                    0 <= k < visitors.len() ==> def_of(
                        #[trigger] visitors@[k],
                        all[visitor_args_upto(all, i as int)[k]],
                    ),
                flat@ == entries_upto(all, i as int),
            decreases args.len(),
        {
            let a = args.remove(0);
            proof {
                assert(a == all[i as int]);
                assert(args@ =~= all.skip(i + 1));
            }
            match a {
                MacroArg::SetVisitorTrait { method_name, mutable, trait_name, infaillible } => {
                    visitors.push(
                        VisitorDef {
                            vis_trait_name: trait_name,
                            method_name,
                            mutable,
                            faillible: !infaillible,
                        },
                    );
                    proof {
                        assert(visitor_args_upto(all, i + 1) =~= visitor_args_upto(
                            all,
                            i as int,
                        ).push(i as int));
                        assert(entries_upto(all, i + 1) =~= entries_upto(all, i as int));
                    }
                },
                MacroArg::SetVisitableTypes { kind, tys } => {
                    let ghost arg_tys = tys@;
                    let inner_total: usize = tys.len();
                    let mut tys = tys;
                    let mut j: usize = 0;
                    while tys.len() > 0
                        invariant
                            arg_tys.len() == inner_total,
                            j + tys.len() == arg_tys.len(),
                            tys@ == arg_tys.skip(j as int),
                            flat@ == entries_upto(all, i as int) + arg_tys.take(
                                j as int,
                            ).map_values(|t: NamedGenericTy| (kind, t)),
                        decreases tys.len(),
                    {
                        let t = tys.remove(0);
                        proof {
                            assert(t == arg_tys[j as int]);
                            assert(tys@ =~= arg_tys.skip(j + 1));
                        }
                        flat.push((kind, t));
                        proof {
                            assert(flat@ =~= entries_upto(all, i as int) + arg_tys.take(
                                j + 1,
                            ).map_values(|t: NamedGenericTy| (kind, t)));
                        }
                        j += 1;
                    }
                    proof {
                        assert(arg_tys.take(arg_tys.len() as int) =~= arg_tys);
                        assert(entries_upto(all, i + 1) =~= entries_upto(all, i as int)
                            + arg_entries(all[i as int]));
                        assert(visitor_args_upto(all, i + 1) =~= visitor_args_upto(all, i as int));
                    }
                },
            }
            i += 1;
        }
        proof {
            assert(all.skip(all.len() as int) =~= Seq::<MacroArg>::empty());
        }
        let ghost es = group_entries(all);
        let flat_total: usize = flat.len();
        let mut flat = flat;
        let mut out_tys: Vec<GroupTarget> = Vec::new();
        let mut errors: Vec<ConfigError> = Vec::new();
        let mut k: usize = 0;
        while flat.len() > 0
            invariant
                es.len() == flat_total,
                k + flat.len() == es.len(),
                flat@ == es.skip(k as int),
                out_tys.len() == gok_upto(es, k as int).len(),
                forall|m: int|
                    0 <= m < out_tys.len() ==> target_of(
                        #[trigger] out_tys@[m],
                        es[gok_upto(es, k as int)[m]],
                    ),
                errors.len() == gerr_upto(es, k as int).len(),
                forall|m: int|
                    0 <= m < errors.len() ==> gerror_of(
                        #[trigger] errors@[m],
                        es[gerr_upto(es, k as int)[m]],
                    ),
            decreases flat.len(),
        {
            let (tag, target) = flat.remove(0);
            proof {
                assert((tag, target) == es[k as int]);
                assert(flat@ =~= es.skip(k + 1));
            }
            match tag {
                GroupTargetTag::Skip => {
                    out_tys.push(GroupTarget { ty: target.ty, kind: TyVisitKind::Skip });
                },
                GroupTargetTag::Drive => {
                    out_tys.push(GroupTarget { ty: target.ty, kind: TyVisitKind::Drive });
                },
                GroupTargetTag::Override => match target.get_name() {
                    Ok(name) => {
                        out_tys.push(
                            GroupTarget {
                                ty: target.ty,
                                kind: TyVisitKind::Override { skip: false, name },
                            },
                        );
                    },
                    Err(err) => errors.push(err),
                },
                GroupTargetTag::OverrideSkip => match target.get_name() {
                    Ok(name) => {
                        out_tys.push(
                            GroupTarget {
                                ty: target.ty,
                                kind: TyVisitKind::Override { skip: true, name },
                            },
                        );
                    },
                    Err(err) => errors.push(err),
                },
            }
            proof {
                if gentry_ok(es[k as int]) {
                    assert(gok_upto(es, k + 1) =~= gok_upto(es, k as int).push(k as int));
                    assert(gerr_upto(es, k + 1) =~= gerr_upto(es, k as int));
                } else {
                    assert(gok_upto(es, k + 1) =~= gok_upto(es, k as int));
                    assert(gerr_upto(es, k + 1) =~= gerr_upto(es, k as int).push(k as int));
                }
            }
            k += 1;
        }
        proof {
            assert(es.skip(es.len() as int) =~= Seq::<(GroupTargetTag, NamedGenericTy)>::empty());
        }
        (Options { visitors, tys: out_tys }, errors)
    }
}

/// The signature of one drive method of the shared capability trait, or
/// of its implementation on a participant: named after its visitor
/// request, bounded by the generated trait, returning a short-circuit
/// result exactly when the request is faillible.
pub struct DriveMethodSig {
    pub method_name: String,
    pub vis_trait_name: String,
    pub mutable: bool,
    pub faillible: bool,
}

/// The planned body of a participant's drive method.
pub enum ImplBody {
    SkipContinue,
    SkipUnit,
    Drive,
    Override { method: String },
}

/// One drive method implemented on a participant.
pub struct ImplMethod {
    pub sig: DriveMethodSig,
    pub body: ImplBody,
}

/// The capability-trait implementation of one participant.
pub struct ParticipantImpl {
    pub ty: GenericTy,
    pub methods: Vec<ImplMethod>,
}

/// The visit implementation a wrapper adapter gets for one visitor
/// request: it forwards every participant to the wrapped visitor's
/// entrypoint, wrapping the call in a success result when the request
/// hides short-circuiting.
pub struct WrapperImpl {
    pub visit_trait: String,
    pub vis_trait_name: String,
    pub wrapper: String,
    pub mutable: bool,
    pub wraps_continue: bool,
}

/// The overridable method triple one override participant contributes
/// to a generated visitor trait. The default `visit` body runs the
/// enter hook, recurses through `visit_inner`, then runs the exit hook,
/// unless the participant defaults to a no-op.
pub struct OverrideMethod {
    pub generics: GenericsDecl,
    pub ty: Ty,
    pub visit_method: String,
    pub enter_method: String,
    pub exit_method: String,
    pub skip_default: bool,
    pub faillible: bool,
}

/// One generated visitor trait: its entrypoints, which wrapper its
/// `visit_inner` re-enters through, whether it offers
/// `visit_by_val_infallible`, and its override method triples.
pub struct VisitorTraitPlan {
    pub name: String,
    pub method_name: String,
    pub mutable: bool,
    pub faillible: bool,
    pub wrapper: String,
    pub has_visit_by_val_infallible: bool,
    pub overrides: Vec<OverrideMethod>,
}

/// The full plan of one capability group.
pub struct GroupPlan {
    pub trait_name: String,
    pub drive_methods: Vec<DriveMethodSig>,
    pub impls: Vec<ParticipantImpl>,
    pub wrapper_name: String,
    pub infaillible_wrapper_name: String,
    pub has_infaillible_wrapper: bool,
    pub wrapper_impls: Vec<WrapperImpl>,
    pub visitor_traits: Vec<VisitorTraitPlan>,
}

/// Whether `s` is the drive method signature of request `d`.
pub open spec fn sig_of(s: DriveMethodSig, d: VisitorDef) -> bool {
    &&& s.method_name@ == d.method_name@
    &&& s.vis_trait_name@ == d.vis_trait_name@
    &&& s.mutable == d.mutable
    &&& s.faillible == d.faillible
}

/// Whether `b` is the drive body of a participant with policy `k` under
/// a request of the given faillibility: a skipped participant succeeds
/// immediately, a driven one recurses into its contents, an override
/// one defers to its per-name visit method.
pub open spec fn impl_body_of(b: ImplBody, k: TyVisitKind, faillible: bool) -> bool {
    match (b, k) {
        (ImplBody::SkipContinue, TyVisitKind::Skip) => faillible,
        (ImplBody::SkipUnit, TyVisitKind::Skip) => !faillible,
        (ImplBody::Drive, TyVisitKind::Drive) => true,
        (ImplBody::Override { method }, TyVisitKind::Override { skip: _, name }) => method@
            == "visit_"@ + name@,
        _ => false,
    }
}

/// Whether `p` implements the capability trait for participant `t`
/// under every request in `defs`.
pub open spec fn participant_of(p: ParticipantImpl, t: GroupTarget, defs: Seq<VisitorDef>) -> bool {
    &&& generic_ty_eqv(p.ty, t.ty)
    &&& p.methods.len() == defs.len()
    &&& forall|j: int|
        0 <= j < defs.len() ==> sig_of((#[trigger] p.methods@[j]).sig, defs[j]) && impl_body_of(
            p.methods@[j].body,
            t.kind,
            defs[j].faillible,
        )
}

/// Whether `w` is the wrapper visit implementation for request `d`: a
/// faillible request goes through the plain wrapper, a non-faillible
/// one through the infallible wrapper with its result wrapped in a
/// success.
pub open spec fn wrapper_impl_of(
    w: WrapperImpl,
    d: VisitorDef,
    wrapper: Seq<char>,
    infaillible_wrapper: Seq<char>,
) -> bool {
    &&& w.visit_trait@ == (if d.mutable {
        "::generic_visitor::VisitMut"@
    } else {
        "::generic_visitor::Visit"@
    })
    &&& w.vis_trait_name@ == d.vis_trait_name@
    &&& w.wrapper@ == (if d.faillible {
        wrapper
    } else {
        infaillible_wrapper
    })
    &&& w.mutable == d.mutable
    &&& w.wraps_continue == !d.faillible
}

/// Whether this policy carries overridable per-name methods.
pub open spec fn is_override(k: TyVisitKind) -> bool {
    k is Override
}

/// The positions of the override participants among the first `n`.
pub open spec fn override_upto(ts: Seq<GroupTarget>, n: int) -> Seq<int>
    decreases n,
{
    if n <= 0 {
        Seq::empty()
    } else {
        override_upto(ts, n - 1) + (if is_override(ts[n - 1].kind) {
            seq![n - 1]
        } else {
            Seq::<int>::empty()
        })
    }
}

/// The positions of the override participants.
pub open spec fn override_targets(ts: Seq<GroupTarget>) -> Seq<int> {
    override_upto(ts, ts.len() as int)
}

/// Whether `m` is the overridable method triple of participant `t` in a
/// trait of the given faillibility.
pub open spec fn override_of(m: OverrideMethod, t: GroupTarget, faillible: bool) -> bool {
    &&& generics_eqv(m.generics, t.ty.generics)
    &&& m.ty == t.ty.ty
    &&& match t.kind {
        TyVisitKind::Override { skip, name } => {
            &&& m.visit_method@ == "visit_"@ + name@
            &&& m.enter_method@ == "enter_"@ + name@
            &&& m.exit_method@ == "exit_"@ + name@
            &&& m.skip_default == skip
        },
        _ => false,
    }
    &&& m.faillible == faillible
}

/// Whether `vt` is the generated visitor trait of request `d` over the
/// participants `ts`.
pub open spec fn visitor_trait_of(
    vt: VisitorTraitPlan,
    d: VisitorDef,
    ts: Seq<GroupTarget>,
    wrapper: Seq<char>,
    infaillible_wrapper: Seq<char>,
) -> bool {
    &&& vt.name@ == d.vis_trait_name@
    &&& vt.method_name@ == d.method_name@
    &&& vt.mutable == d.mutable
    &&& vt.faillible == d.faillible
    &&& vt.wrapper@ == (if d.faillible {
        wrapper
    } else {
        infaillible_wrapper
    })
    &&& vt.has_visit_by_val_infallible == d.faillible
    &&& vt.overrides.len() == override_targets(ts).len()
    &&& forall|j: int|
        0 <= j < vt.overrides.len() ==> override_of(
            #[trigger] vt.overrides@[j],
            ts[override_targets(ts)[j]],
            d.faillible,
        )
}

/// Duplicate the signature fields of one request.
fn sig_for(d: &VisitorDef) -> (s: DriveMethodSig)
    ensures
        sig_of(s, *d),
{
    DriveMethodSig {
        method_name: d.method_name.clone(),
        vis_trait_name: d.vis_trait_name.clone(),
        mutable: d.mutable,
        faillible: d.faillible,
    }
}

/// Build the plan of one capability group: the drive methods the shared
/// trait gains, the participant implementations, the wrapper adapter
/// (and its infallible twin exactly when some request hides
/// short-circuiting), the wrapper's visit implementations, and the
/// generated visitor traits with one overridable method triple per
/// override participant.
pub fn impl_visitable_group(options: Options, trait_name: String) -> (r: GroupPlan)
    ensures
        r.trait_name@ == trait_name@,
        r.drive_methods.len() == options.visitors.len(),
        forall|i: int|
            0 <= i < options.visitors.len() ==> sig_of(
                #[trigger] r.drive_methods@[i],
                options.visitors@[i],
            ),
        r.impls.len() == options.tys.len(),
        forall|i: int|
            0 <= i < options.tys.len() ==> participant_of(
                #[trigger] r.impls@[i],
                options.tys@[i],
                options.visitors@,
            ),
        r.wrapper_name@ == trait_name@ + "Wrapper"@,
        r.infaillible_wrapper_name@ == trait_name@ + "InfaillibleWrapper"@,
        r.has_infaillible_wrapper <==> exists|j: int|
            0 <= j < options.visitors.len() && !(#[trigger] options.visitors@[j]).faillible,
        r.wrapper_impls.len() == options.visitors.len(),
        forall|i: int|
            0 <= i < options.visitors.len() ==> wrapper_impl_of(
                #[trigger] r.wrapper_impls@[i],
                options.visitors@[i],
                trait_name@ + "Wrapper"@,
                trait_name@ + "InfaillibleWrapper"@,
            ),
        r.visitor_traits.len() == options.visitors.len(),
        forall|i: int|
            0 <= i < options.visitors.len() ==> visitor_trait_of(
                #[trigger] r.visitor_traits@[i],
                options.visitors@[i],
                options.tys@,
                trait_name@ + "Wrapper"@,
                trait_name@ + "InfaillibleWrapper"@,
            ),
{
    let wrapper_name = trait_name.clone().concat("Wrapper");
    let infaillible_wrapper_name = trait_name.clone().concat("InfaillibleWrapper");

    let mut drive_methods: Vec<DriveMethodSig> = Vec::new();
    let mut i: usize = 0;
    while i < options.visitors.len()
        invariant
            i <= options.visitors.len(),
            drive_methods.len() == i,
            forall|k: int|
                0 <= k < i ==> sig_of(#[trigger] drive_methods@[k], options.visitors@[k]),
        decreases options.visitors.len() - i,
    {
        drive_methods.push(sig_for(&options.visitors[i]));
        i += 1;
    }

    let mut impls: Vec<ParticipantImpl> = Vec::new();
    let mut t: usize = 0;
    while t < options.tys.len()
        invariant
            t <= options.tys.len(),
            impls.len() == t,
            forall|k: int|
                0 <= k < t ==> participant_of(
                    #[trigger] impls@[k],
                    options.tys@[k],
                    options.visitors@,
                ),
        decreases options.tys.len() - t,
    {
        let mut methods: Vec<ImplMethod> = Vec::new();
        let mut j: usize = 0;
        while j < options.visitors.len()
            invariant
                t < options.tys.len(),
                j <= options.visitors.len(),
                methods.len() == j,
                forall|k: int|
                    0 <= k < j ==> sig_of(
                        (#[trigger] methods@[k]).sig,
                        options.visitors@[k],
                    ) && impl_body_of(
                        methods@[k].body,
                        options.tys@[t as int].kind,
                        options.visitors@[k].faillible,
                    ),
            decreases options.visitors.len() - j,
        {
            let target = &options.tys[t];
            let def = &options.visitors[j];
            let body = match &target.kind {
                TyVisitKind::Skip => if def.faillible {
                    ImplBody::SkipContinue
                } else {
                    ImplBody::SkipUnit
                },
                TyVisitKind::Drive => ImplBody::Drive,
                TyVisitKind::Override { skip: _, name } => ImplBody::Override {
                    method: "visit_".to_owned().concat(name.as_str()),
                },
            };
            methods.push(ImplMethod { sig: sig_for(def), body });
            j += 1;
        }
        impls.push(ParticipantImpl { ty: options.tys[t].ty.duplicate(), methods });
        t += 1;
    }

    let mut has_infaillible_wrapper = false;
    let mut h: usize = 0;
    while h < options.visitors.len()
        invariant
            h <= options.visitors.len(),
            has_infaillible_wrapper <==> exists|j: int|
                0 <= j < h && !(#[trigger] options.visitors@[j]).faillible,
        decreases options.visitors.len() - h,
    {
        if !options.visitors[h].faillible {
            has_infaillible_wrapper = true;
        }
        h += 1;
    }

    let mut wrapper_impls: Vec<WrapperImpl> = Vec::new();
    let mut w: usize = 0;
    while w < options.visitors.len()
        invariant
            w <= options.visitors.len(),
            wrapper_impls.len() == w,
            wrapper_name@ == trait_name@ + "Wrapper"@,
            infaillible_wrapper_name@ == trait_name@ + "InfaillibleWrapper"@,
            forall|k: int|
                0 <= k < w ==> wrapper_impl_of(
                    #[trigger] wrapper_impls@[k],
                    options.visitors@[k],
                    trait_name@ + "Wrapper"@,
                    trait_name@ + "InfaillibleWrapper"@,
                ),
        decreases options.visitors.len() - w,
    {
        let def = &options.visitors[w];
        let names = Names::new(def.mutable);
        wrapper_impls.push(
            WrapperImpl {
                visit_trait: names.visit_trait,
                vis_trait_name: def.vis_trait_name.clone(),
                wrapper: if def.faillible {
                    wrapper_name.clone()
                } else {
                    infaillible_wrapper_name.clone()
                },
                mutable: def.mutable,
                wraps_continue: !def.faillible,
            },
        );
        w += 1;
    }

    let mut visitor_traits: Vec<VisitorTraitPlan> = Vec::new();
    let mut v: usize = 0;
    while v < options.visitors.len()
        invariant
            v <= options.visitors.len(),
            visitor_traits.len() == v,
            wrapper_name@ == trait_name@ + "Wrapper"@,
            infaillible_wrapper_name@ == trait_name@ + "InfaillibleWrapper"@,
            forall|k: int|
                0 <= k < v ==> visitor_trait_of(
                    #[trigger] visitor_traits@[k],
                    options.visitors@[k],
                    options.tys@,
                    trait_name@ + "Wrapper"@,
                    trait_name@ + "InfaillibleWrapper"@,
                ),
        decreases options.visitors.len() - v,
    {
        let mut overrides: Vec<OverrideMethod> = Vec::new();
        let mut o: usize = 0;
        while o < options.tys.len()
            invariant
                v < options.visitors.len(),
                o <= options.tys.len(),
                overrides.len() == override_upto(options.tys@, o as int).len(),
                forall|k: int|
                    0 <= k < overrides.len() ==> override_of(
                        #[trigger] overrides@[k],
                        options.tys@[override_upto(options.tys@, o as int)[k]],
                        options.visitors@[v as int].faillible,
                    ),
            decreases options.tys.len() - o,
        {
            let target = &options.tys[o];
            let def = &options.visitors[v];
            match &target.kind {
                TyVisitKind::Override { skip, name } => {
                    let m = OverrideMethod {
                        generics: target.ty.generics.duplicate(),
                        ty: target.ty.ty.duplicate(),
                        visit_method: "visit_".to_owned().concat(name.as_str()),
                        enter_method: "enter_".to_owned().concat(name.as_str()),
                        exit_method: "exit_".to_owned().concat(name.as_str()),
                        skip_default: *skip,
                        faillible: def.faillible,
                    };
                    overrides.push(m);
                    proof {
                        assert(override_upto(options.tys@, o + 1) =~= override_upto(
                            options.tys@,
                            o as int,
                        ).push(o as int));
                    }
                },
                TyVisitKind::Skip => {
                    proof {
                        assert(override_upto(options.tys@, o + 1) =~= override_upto(
                            options.tys@,
                            o as int,
                        ));
                    }
                },
                TyVisitKind::Drive => {
                    proof {
                        assert(override_upto(options.tys@, o + 1) =~= override_upto(
                            options.tys@,
                            o as int,
                        ));
                    }
                },
            }
            o += 1;
        }
        let def = &options.visitors[v];
        visitor_traits.push(
            VisitorTraitPlan {
                name: def.vis_trait_name.clone(),
                method_name: def.method_name.clone(),
                mutable: def.mutable,
                faillible: def.faillible,
                wrapper: if def.faillible {
                    wrapper_name.clone()
                } else {
                    infaillible_wrapper_name.clone()
                },
                has_visit_by_val_infallible: def.faillible,
                overrides,
            },
        );
        v += 1;
    }

    GroupPlan {
        trait_name,
        drive_methods,
        impls,
        wrapper_name,
        infaillible_wrapper_name,
        has_infaillible_wrapper,
        wrapper_impls,
        visitor_traits,
    }
}

} // verus!
