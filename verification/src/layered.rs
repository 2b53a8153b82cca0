//! Stacked wrapper visitors over one capability group: each layer of a
//! stack contributes its own enter and exit hooks, and delegation runs
//! inward, so independently authored wrappers compose around a base
//! visitor without modifying it.
//!
//! At every override participant the stack runs the enter hooks of its
//! layers outermost first, traverses the participant's retained fields
//! through the whole stack, then runs the exit hooks innermost first.
//! The layering law proved here says composition is transparent: what
//! one layer observes in a stack is exactly what it observes alone —
//! its hooks run exactly once per traversal step, wherever it stands in
//! the stack. Hooks cannot signal a stop, so a stack's traversal always
//! runs to completion; how a stop would cut a traversal short is the
//! single-visitor story, told next to the plain dispatch semantics.

use vstd::prelude::*;

use crate::exec::TypeTable;
use crate::exec::Value;
use crate::exec::make_retain_flags;
use crate::exec::retain_flags;

verus! {

/// The policy of one participant type in the group: do nothing, recurse
/// blindly, or run the stack's hook methods around the recursion.
#[derive(Clone, Copy)]
pub enum GroupBehavior {
    Skip,
    Drive,
    Hooked,
}

/// Which hooks one layer of a stack overrides, per type key.
pub struct LayerHooks {
    pub enters: Vec<bool>,
    pub exits: Vec<bool>,
}

/// Whether this layer overrides the enter hook of the given type.
pub open spec fn has_enter(l: LayerHooks, ty: usize) -> bool {
    ty < l.enters@.len() && l.enters@[ty as int]
}

/// Whether this layer overrides the exit hook of the given type.
pub open spec fn has_exit(l: LayerHooks, ty: usize) -> bool {
    ty < l.exits@.len() && l.exits@[ty as int]
}

/// Which hook of which layer ran.
#[derive(Clone, Copy, PartialEq, Eq, Structural, Debug)]
pub enum LHookKind {
    Enter,
    Exit,
}

/// One hook invocation of one layer, with the visited value's type key,
/// variant and payload.
#[derive(Clone, Copy, PartialEq, Eq, Structural, Debug)]
pub struct LEvent {
    pub layer: usize,
    pub kind: LHookKind,
    pub ty: usize,
    pub variant: usize,
    pub data: u64,
}

/// Layer `l`'s enter hook invocation on a value.
pub open spec fn layer_enter(l: int, v: Value) -> LEvent {
    LEvent { layer: l as usize, kind: LHookKind::Enter, ty: v.ty, variant: v.variant, data: v.data }
}

/// Layer `l`'s exit hook invocation on a value.
pub open spec fn layer_exit(l: int, v: Value) -> LEvent {
    LEvent { layer: l as usize, kind: LHookKind::Exit, ty: v.ty, variant: v.variant, data: v.data }
}

/// The enter hooks of the first `n` layers on a value, outermost first.
pub open spec fn enters_upto(layers: Seq<LayerHooks>, v: Value, n: int) -> Seq<LEvent>
    decreases n,
{
    if n <= 0 {
        Seq::empty()
    } else {
        enters_upto(layers, v, n - 1) + (if n - 1 < layers.len() && has_enter(
            layers[n - 1],
            v.ty,
        ) {
            seq![layer_enter(n - 1, v)]
        } else {
            Seq::<LEvent>::empty()
        })
    }
}

/// The exit hooks of the layers from `hi - 1` down to `lo`, innermost
/// first.
pub open spec fn exits_range(layers: Seq<LayerHooks>, v: Value, hi: int, lo: int) -> Seq<LEvent>
    decreases hi - lo,
{
    if hi <= lo {
        Seq::empty()
    } else {
        (if hi - 1 < layers.len() && has_exit(layers[hi - 1], v.ty) {
            seq![layer_exit(hi - 1, v)]
        } else {
            Seq::<LEvent>::empty()
        }) + exits_range(layers, v, hi - 1, lo)
    }
}

/// The hook invocations a stack of layers performs visiting one value.
pub open spec fn layered_visit(
    t: TypeTable,
    gb: Seq<GroupBehavior>,
    layers: Seq<LayerHooks>,
    v: Value,
) -> Seq<LEvent>
    decreases v, 1int, 0int,
{
    if v.ty < gb.len() {
        match gb[v.ty as int] {
            GroupBehavior::Skip => Seq::empty(),
            GroupBehavior::Drive => layered_fields(
                t,
                gb,
                layers,
                v.fields@,
                retain_flags(t, v),
                v.fields@.len() as int,
            ),
            GroupBehavior::Hooked => enters_upto(layers, v, layers.len() as int) + layered_fields(
                t,
                gb,
                layers,
                v.fields@,
                retain_flags(t, v),
                v.fields@.len() as int,
            ) + exits_range(layers, v, layers.len() as int, 0),
        }
    } else {
        Seq::empty()
    }
}

/// The hook invocations of visiting the flagged ones among the first
/// `n` elements, in order.
pub open spec fn layered_fields(
    t: TypeTable,
    gb: Seq<GroupBehavior>,
    layers: Seq<LayerHooks>,
    elems: Seq<Value>,
    flags: Seq<bool>,
    n: int,
) -> Seq<LEvent>
    decreases elems, 0int, n,
{
    if n <= 0 {
        Seq::empty()
    } else {
        layered_fields(t, gb, layers, elems, flags, n - 1) + (if n - 1 < elems.len() && n - 1
            < flags.len() && flags[n - 1] {
            layered_visit(t, gb, layers, elems[n - 1])
        } else {
            Seq::empty()
        })
    }
}

/// A later split of the exit run comes after an earlier one.
proof fn lemma_exits_split(layers: Seq<LayerHooks>, v: Value, hi: int, mid: int, lo: int)
    requires
        lo <= mid <= hi,
    ensures
        exits_range(layers, v, hi, lo) == exits_range(layers, v, hi, mid) + exits_range(
            layers,
            v,
            mid,
            lo,
        ),
    decreases hi - mid,
{
    if hi == mid {
        assert(exits_range(layers, v, hi, mid) + exits_range(layers, v, mid, lo) =~= exits_range(
            layers,
            v,
            mid,
            lo,
        ));
    } else {
        lemma_exits_split(layers, v, hi - 1, mid, lo);
        let piece = if hi - 1 < layers.len() && has_exit(layers[hi - 1], v.ty) {
            seq![layer_exit(hi - 1, v)]
        } else {
            Seq::<LEvent>::empty()
        };
        assert(exits_range(layers, v, hi, lo) == piece + (exits_range(layers, v, hi - 1, mid)
            + exits_range(layers, v, mid, lo)));
        assert(piece + (exits_range(layers, v, hi - 1, mid) + exits_range(layers, v, mid, lo)) =~= (
        piece + exits_range(layers, v, hi - 1, mid)) + exits_range(layers, v, mid, lo));
    }
}

/// Run a stack of layers over a value: at every override participant
/// run the enter hooks outermost first, traverse the retained fields
/// through the whole stack, then run the exit hooks innermost first,
/// recording each hook invocation.
#[verifier::loop_isolation(false)]
pub fn layered_run(
    t: &TypeTable,
    gb: &Vec<GroupBehavior>,
    layers: &Vec<LayerHooks>,
    v: &Value,
    out: &mut Vec<LEvent>,
)
    ensures
        final(out)@ == old(out)@ + layered_visit(*t, gb@, layers@, *v),
    decreases *v, 1int,
{
    let ghost out0 = old(out)@;
    if v.ty >= gb.len() {
        return ;
    }
    match gb[v.ty] {
        GroupBehavior::Skip => {
            proof {
                assert(out0 + layered_visit(*t, gb@, layers@, *v) =~= out0);
            }
        },
        GroupBehavior::Drive => {
            layered_run_fields(t, gb, layers, v, out);
        },
        GroupBehavior::Hooked => {
            let mut l: usize = 0;
            while l < layers.len()
                invariant
                    l <= layers@.len(),
                    out@ == out0 + enters_upto(layers@, *v, l as int),
                decreases layers@.len() - l,
            {
                if v.ty < layers[l].enters.len() && layers[l].enters[v.ty] {
                    out.push(
                        LEvent {
                            layer: l,
                            kind: LHookKind::Enter,
                            ty: v.ty,
                            variant: v.variant,
                            data: v.data,
                        },
                    );
                }
                proof {
                    assert(out@ =~= out0 + enters_upto(layers@, *v, l + 1));
                }
                l += 1;
            }
            let ghost after_enters = out@;
            layered_run_fields(t, gb, layers, v, out);
            let ghost after_fields = out@;
            let mut e: usize = layers.len();
            while e > 0
                invariant
                    e <= layers@.len(),
                    out@ == after_fields + exits_range(layers@, *v, layers@.len() as int, e as int),
                decreases e,
            {
                e -= 1;
                if v.ty < layers[e].exits.len() && layers[e].exits[v.ty] {
                    out.push(
                        LEvent {
                            layer: e,
                            kind: LHookKind::Exit,
                            ty: v.ty,
                            variant: v.variant,
                            data: v.data,
                        },
                    );
                }
                proof {
                    lemma_exits_split(layers@, *v, layers@.len() as int, e + 1, e as int);
                    assert(exits_range(layers@, *v, e as int, e as int) == Seq::<LEvent>::empty());
                    assert(exits_range(layers@, *v, e + 1, e as int) =~= (if e < layers@.len()
                        && has_exit(layers@[e as int], v.ty) {
                        seq![layer_exit(e as int, *v)]
                    } else {
                        Seq::<LEvent>::empty()
                    }));
                    assert(out@ =~= after_fields + exits_range(
                        layers@,
                        *v,
                        layers@.len() as int,
                        e as int,
                    ));
                }
            }
            proof {
                assert(out@ =~= out0 + layered_visit(*t, gb@, layers@, *v));
            }
        },
    }
}

/// Traverse the retained fields of a value through the whole stack, in
/// declaration order.
#[verifier::loop_isolation(false)]
fn layered_run_fields(
    t: &TypeTable,
    gb: &Vec<GroupBehavior>,
    layers: &Vec<LayerHooks>,
    v: &Value,
    out: &mut Vec<LEvent>,
)
    ensures
        final(out)@ == old(out)@ + layered_fields(
            *t,
            gb@,
            layers@,
            v.fields@,
            retain_flags(*t, *v),
            v.fields@.len() as int,
        ),
    decreases *v, 0int,
{
    let ghost out0 = old(out)@;
    let ghost fl = retain_flags(*t, *v);
    let flags = make_retain_flags(t, v);
    let mut i: usize = 0;
    while i < v.fields.len()
        invariant
            i <= v.fields@.len(),
            out@ == out0 + layered_fields(*t, gb@, layers@, v.fields@, fl, i as int),
        decreases v.fields@.len() - i,
    {
        if i < flags.len() && flags[i] {
            proof {
                assert(decreases_to!(*v, 0int => v.fields@[i as int], 1int));
            }
            layered_run(t, gb, layers, &v.fields[i], out);
            proof {
                assert(out@ =~= out0 + layered_fields(*t, gb@, layers@, v.fields@, fl, i + 1));
            }
        } else {
            proof {
                assert(layered_fields(*t, gb@, layers@, v.fields@, fl, i + 1) =~= layered_fields(
                    *t,
                    gb@,
                    layers@,
                    v.fields@,
                    fl,
                    i as int,
                ));
            }
        }
        i += 1;
    }
}


/// The hook invocations of one layer within a composite trace.
pub open spec fn project(tr: Seq<LEvent>, l: int) -> Seq<LEvent>
    decreases tr.len(),
{
    if tr.len() == 0 {
        Seq::empty()
    } else {
        (if tr[0].layer == l {
            seq![tr[0]]
        } else {
            Seq::<LEvent>::empty()
        }) + project(tr.drop_first(), l)
    }
}

/// The same invocations re-attributed to layer `l`.
pub open spec fn stamp(e: LEvent, l: usize) -> LEvent {
    LEvent { layer: l, kind: e.kind, ty: e.ty, variant: e.variant, data: e.data }
}

/// A trace re-attributed to layer `l`, invocation by invocation.
pub open spec fn relabel(tr: Seq<LEvent>, l: usize) -> Seq<LEvent>
    decreases tr.len(),
{
    if tr.len() == 0 {
        Seq::empty()
    } else {
        seq![stamp(tr[0], l)] + relabel(tr.drop_first(), l)
    }
}

/// Projection distributes over concatenation.
proof fn lemma_project_add(a: Seq<LEvent>, b: Seq<LEvent>, l: int)
    ensures
        project(a + b, l) == project(a, l) + project(b, l),
    decreases a.len(),
{
    if a.len() == 0 {
        assert(a + b =~= b);
        assert(project(a, l) + project(b, l) =~= project(b, l));
    } else {
        assert((a + b).drop_first() =~= a.drop_first() + b);
        lemma_project_add(a.drop_first(), b, l);
        assert(project(a + b, l) =~= project(a, l) + project(b, l));
    }
}

/// Re-attribution distributes over concatenation.
proof fn lemma_relabel_add(a: Seq<LEvent>, b: Seq<LEvent>, l: usize)
    ensures
        relabel(a + b, l) == relabel(a, l) + relabel(b, l),
    decreases a.len(),
{
    if a.len() == 0 {
        assert(a + b =~= b);
        assert(relabel(a, l) + relabel(b, l) =~= relabel(b, l));
    } else {
        assert((a + b).drop_first() =~= a.drop_first() + b);
        lemma_relabel_add(a.drop_first(), b, l);
        assert(relabel(a + b, l) =~= relabel(a, l) + relabel(b, l));
    }
}

/// Projection of a one-event trace.
proof fn lemma_project_one(e: LEvent, l: int)
    ensures
        project(seq![e], l) == (if e.layer == l {
            seq![e]
        } else {
            Seq::<LEvent>::empty()
        }),
{
    assert(seq![e].drop_first() =~= Seq::<LEvent>::empty());
    assert(project(Seq::<LEvent>::empty(), l) == Seq::<LEvent>::empty());
    if e.layer == l {
        assert(project(seq![e], l) =~= seq![e]);
    } else {
        assert(project(seq![e], l) =~= Seq::<LEvent>::empty());
    }
}

/// Re-attribution of a one-event trace.
proof fn lemma_relabel_one(e: LEvent, l: usize)
    ensures
        relabel(seq![e], l) == seq![stamp(e, l)],
{
    assert(seq![e].drop_first() =~= Seq::<LEvent>::empty());
    assert(relabel(Seq::<LEvent>::empty(), l) == Seq::<LEvent>::empty());
    assert(relabel(seq![e], l) =~= seq![stamp(e, l)]);
}

/// In a run of enter hooks, layer `l` contributes exactly its own.
proof fn lemma_enters_project(layers: Seq<LayerHooks>, v: Value, n: int, l: int)
    requires
        layers.len() <= usize::MAX,
        0 <= l < layers.len(),
    ensures
        project(enters_upto(layers, v, n), l) == (if l < n && has_enter(layers[l], v.ty) {
            seq![layer_enter(l, v)]
        } else {
            Seq::<LEvent>::empty()
        }),
    decreases n,
{
    if n <= 0 {
    } else {
        lemma_enters_project(layers, v, n - 1, l);
        let piece = if n - 1 < layers.len() && has_enter(layers[n - 1], v.ty) {
            seq![layer_enter(n - 1, v)]
        } else {
            Seq::<LEvent>::empty()
        };
        assert(enters_upto(layers, v, n) == enters_upto(layers, v, n - 1) + piece);
        lemma_project_add(enters_upto(layers, v, n - 1), piece, l);
        assert(project(Seq::<LEvent>::empty(), l) == Seq::<LEvent>::empty());
        if n - 1 < layers.len() && has_enter(layers[n - 1], v.ty) {
            lemma_project_one(layer_enter(n - 1, v), l);
            if l == n - 1 {
                assert(layer_enter(n - 1, v).layer == l);
                assert(project(piece, l) =~= seq![layer_enter(l, v)]);
            } else {
                assert(layer_enter(n - 1, v).layer != l);
                assert(project(piece, l) =~= Seq::<LEvent>::empty());
            }
        } else {
            assert(project(piece, l) =~= Seq::<LEvent>::empty());
        }
        assert(project(enters_upto(layers, v, n), l) =~= (if l < n && has_enter(layers[l], v.ty) {
            seq![layer_enter(l, v)]
        } else {
            Seq::<LEvent>::empty()
        }));
    }
}

/// In a run of exit hooks, layer `l` contributes exactly its own.
proof fn lemma_exits_project(layers: Seq<LayerHooks>, v: Value, n: int, l: int)
    requires
        layers.len() <= usize::MAX,
        0 <= l < layers.len(),
    ensures
        project(exits_range(layers, v, n, 0), l) == (if l < n && has_exit(layers[l], v.ty) {
            seq![layer_exit(l, v)]
        } else {
            Seq::<LEvent>::empty()
        }),
    decreases n,
{
    if n <= 0 {
    } else {
        lemma_exits_project(layers, v, n - 1, l);
        let piece = if n - 1 < layers.len() && has_exit(layers[n - 1], v.ty) {
            seq![layer_exit(n - 1, v)]
        } else {
            Seq::<LEvent>::empty()
        };
        assert(exits_range(layers, v, n, 0) == piece + exits_range(layers, v, n - 1, 0));
        lemma_project_add(piece, exits_range(layers, v, n - 1, 0), l);
        assert(project(Seq::<LEvent>::empty(), l) == Seq::<LEvent>::empty());
        if n - 1 < layers.len() && has_exit(layers[n - 1], v.ty) {
            lemma_project_one(layer_exit(n - 1, v), l);
            if l == n - 1 {
                assert(layer_exit(n - 1, v).layer == l);
                assert(project(piece, l) =~= seq![layer_exit(l, v)]);
            } else {
                assert(layer_exit(n - 1, v).layer != l);
                assert(project(piece, l) =~= Seq::<LEvent>::empty());
            }
        } else {
            assert(project(piece, l) =~= Seq::<LEvent>::empty());
        }
        assert(project(exits_range(layers, v, n, 0), l) =~= (if l < n && has_exit(
            layers[l],
            v.ty,
        ) {
            seq![layer_exit(l, v)]
        } else {
            Seq::<LEvent>::empty()
        }));
    }
}

/// Layering is transparent: within a stack, one layer's hook
/// invocations are exactly the invocations it performs when it wraps
/// the traversal alone — each of its hooks runs exactly once per
/// traversal step, wherever the layer stands and whatever the other
/// layers do.
pub proof fn lemma_layering(
    t: TypeTable,
    gb: Seq<GroupBehavior>,
    layers: Seq<LayerHooks>,
    v: Value,
    l: int,
)
    requires
        layers.len() <= usize::MAX,
        0 <= l < layers.len(),
    ensures
        project(layered_visit(t, gb, layers, v), l) == relabel(
            layered_visit(t, gb, seq![layers[l]], v),
            l as usize,
        ),
    decreases v, 1int, 0int,
{
    let single = seq![layers[l]];
    if v.ty < gb.len() {
        let flags = retain_flags(t, v);
        let n = v.fields@.len() as int;
        match gb[v.ty as int] {
            GroupBehavior::Skip => {
                assert(project(Seq::<LEvent>::empty(), l) == Seq::<LEvent>::empty());
                assert(relabel(Seq::<LEvent>::empty(), l as usize) == Seq::<LEvent>::empty());
            },
            GroupBehavior::Drive => {
                lemma_layering_fields(FieldWalk { t, gb, elems: v.fields@, flags }, layers, n, l);
            },
            GroupBehavior::Hooked => {
                let em = enters_upto(layers, v, layers.len() as int);
                let fm = layered_fields(t, gb, layers, v.fields@, flags, n);
                let xm = exits_range(layers, v, layers.len() as int, 0);
                let es = enters_upto(single, v, 1);
                let fs = layered_fields(t, gb, single, v.fields@, flags, n);
                let xs = exits_range(single, v, 1, 0);
                lemma_project_add(em + fm, xm, l);
                lemma_project_add(em, fm, l);
                lemma_relabel_add(es + fs, xs, l as usize);
                lemma_relabel_add(es, fs, l as usize);
                lemma_enters_project(layers, v, layers.len() as int, l);
                lemma_exits_project(layers, v, layers.len() as int, l);
                lemma_layering_fields(FieldWalk { t, gb, elems: v.fields@, flags }, layers, n, l);
                assert(enters_upto(single, v, 0) == Seq::<LEvent>::empty());
                assert(exits_range(single, v, 0, 0) == Seq::<LEvent>::empty());
                if has_enter(layers[l], v.ty) {
                    assert(es =~= seq![layer_enter(0, v)]);
                    lemma_relabel_one(layer_enter(0, v), l as usize);
                    assert(relabel(es, l as usize) =~= seq![layer_enter(l, v)]);
                } else {
                    assert(es =~= Seq::<LEvent>::empty());
                    assert(relabel(es, l as usize) == Seq::<LEvent>::empty());
                }
                if has_exit(layers[l], v.ty) {
                    assert(xs =~= seq![layer_exit(0, v)]);
                    lemma_relabel_one(layer_exit(0, v), l as usize);
                    assert(relabel(xs, l as usize) =~= seq![layer_exit(l, v)]);
                } else {
                    assert(xs =~= Seq::<LEvent>::empty());
                    assert(relabel(xs, l as usize) == Seq::<LEvent>::empty());
                }
                assert(project(layered_visit(t, gb, layers, v), l) =~= relabel(
                    layered_visit(t, gb, single, v),
                    l as usize,
                ));
            },
        }
    } else {
        assert(project(Seq::<LEvent>::empty(), l) == Seq::<LEvent>::empty());
        assert(relabel(Seq::<LEvent>::empty(), l as usize) == Seq::<LEvent>::empty());
    }
}

/// A field traversal within a stack: the registry, the group
/// behaviors, the elements and their retain flags.
pub struct FieldWalk {
    pub t: TypeTable,
    pub gb: Seq<GroupBehavior>,
    pub elems: Seq<Value>,
    pub flags: Seq<bool>,
}

/// Layering is transparent across a field traversal.
proof fn lemma_layering_fields(w: FieldWalk, layers: Seq<LayerHooks>, n: int, l: int)
    requires
        layers.len() <= usize::MAX,
        0 <= l < layers.len(),
    ensures
        project(layered_fields(w.t, w.gb, layers, w.elems, w.flags, n), l) == relabel(
            layered_fields(w.t, w.gb, seq![layers[l]], w.elems, w.flags, n),
            l as usize,
        ),
    decreases w.elems, 0int, n,
{
    let t = w.t;
    let gb = w.gb;
    let single = seq![layers[l]];
    let elems = w.elems;
    let flags = w.flags;
    if n <= 0 {
        assert(project(Seq::<LEvent>::empty(), l) == Seq::<LEvent>::empty());
        assert(relabel(Seq::<LEvent>::empty(), l as usize) == Seq::<LEvent>::empty());
    } else {
        lemma_layering_fields(w, layers, n - 1, l);
        if n - 1 < elems.len() && n - 1 < flags.len() && flags[n - 1] {
            lemma_layering(t, gb, layers, elems[n - 1], l);
            lemma_project_add(
                layered_fields(t, gb, layers, elems, flags, n - 1),
                layered_visit(t, gb, layers, elems[n - 1]),
                l,
            );
            lemma_relabel_add(
                layered_fields(t, gb, single, elems, flags, n - 1),
                layered_visit(t, gb, single, elems[n - 1]),
                l as usize,
            );
        } else {
            lemma_project_add(
                layered_fields(t, gb, layers, elems, flags, n - 1),
                Seq::<LEvent>::empty(),
                l,
            );
            lemma_relabel_add(
                layered_fields(t, gb, single, elems, flags, n - 1),
                Seq::<LEvent>::empty(),
                l as usize,
            );
        }
    }
}

} // verus!
