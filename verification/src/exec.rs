//! The meaning of the dispatch protocol: a registry of type shapes and a
//! per-type behavior assignment determine, for any value, the sequence
//! of hook invocations a generated visitor performs, and where a
//! traversal stops when a hook signals a short-circuit.
//!
//! Dispatch resolves through an explicit mapping from a type key — an
//! index into the registry — to the registered shape and behavior,
//! validated for completeness before use. A visitor here is the
//! observable skeleton of a user's visitor: which behavior it installs
//! per type, and at which of its override calls, if any, it signals a
//! stop. A deterministic visitor's interaction with one traversal is
//! exactly captured by the index of the first override call at which it
//! stops, so the laws proved over every such index hold of every
//! deterministic visitor.

use vstd::prelude::*;

use core::ops::ControlFlow;

verus! {

/// One field of a registered variant: whether it is excluded from
/// traversal, and the type key of its contents.
pub struct FieldShape {
    pub skip: bool,
    pub ty: usize,
}

/// One registered variant: whether it is excluded as a whole, and its
/// field layout.
pub struct VariantShape {
    pub skip: bool,
    pub fields: Vec<FieldShape>,
}

/// The registered shape of one type: a leaf with no contents, a
/// composite with variants (a struct registers exactly one; a box, a
/// pair or a result register their fields likewise), or a collection of
/// elements of one type visited in order (a vector, an option, an
/// array).
pub enum Shape {
    Leaf,
    Composite { opaque: bool, variants: Vec<VariantShape> },
    Collection { elem: usize },
}

/// The registry: the shape of every type of the configuration unit,
/// keyed by index.
pub struct TypeTable {
    pub shapes: Vec<Shape>,
}

/// The behavior a visitor installs for one type: do nothing, recurse
/// blindly, run a hook before or after recursing (or both around it),
/// or defer entirely to an override call that may signal a stop.
#[derive(Clone, Copy)]
pub enum Behavior {
    Skip,
    Drive,
    Enter,
    Exit,
    Both,
    Custom,
}

/// The observable skeleton of a visitor: its per-type behaviors, and
/// the number of override calls it lets pass before signalling a stop
/// (`None` for a visitor that never stops — one whose short-circuit
/// type is uninhabited).
pub struct Visitor {
    pub behaviors: Vec<Behavior>,
    pub fuel: Option<u64>,
}

/// What a hook invocation is: entering a value, leaving it, or an
/// override call on it.
#[derive(Clone, Copy, PartialEq, Eq, Structural, Debug)]
pub enum EventKind {
    Enter,
    Exit,
    Call,
}

/// One hook invocation, with the visited value's type key, variant and
/// payload.
#[derive(Clone, Copy, PartialEq, Eq, Structural, Debug)]
pub struct Event {
    pub kind: EventKind,
    pub ty: usize,
    pub variant: usize,
    pub data: u64,
}

/// A value of the modeled data world: a tree whose nodes carry their
/// type key, the variant they are built from, a payload, and their
/// field contents in declaration order.
pub struct Value {
    pub ty: usize,
    pub variant: usize,
    pub data: u64,
    pub fields: Vec<Value>,
}

/// Whether every type key the registry mentions is itself registered.
pub open spec fn table_wf(t: TypeTable) -> bool {
    forall|s: int|
        0 <= s < t.shapes@.len() ==> match #[trigger] t.shapes@[s] {
            Shape::Leaf => true,
            Shape::Composite { opaque, variants } => forall|v: int|
                0 <= v < variants@.len() ==> forall|f: int|
                    0 <= f < (#[trigger] variants@[v]).fields@.len()
                        ==> (#[trigger] variants@[v].fields@[f]).ty < t.shapes@.len(),
            Shape::Collection { elem } => elem < t.shapes@.len(),
        }
}

/// Whether a value is well formed against the registry: its type is
/// registered, it is built from a registered variant, and its fields
/// match that variant's layout, recursively.
pub open spec fn value_wf(t: TypeTable, v: Value) -> bool
    decreases v,
{
    &&& v.ty < t.shapes@.len()
    &&& match t.shapes@[v.ty as int] {
        Shape::Leaf => v.fields@.len() == 0 && v.variant == 0,
        Shape::Composite { opaque, variants } => {
            &&& v.variant < variants@.len()
            &&& v.fields@.len() == variants@[v.variant as int].fields@.len()
            &&& forall|i: int|
                0 <= i < v.fields@.len() ==> (#[trigger] v.fields@[i]).ty
                    == variants@[v.variant as int].fields@[i].ty && value_wf(t, v.fields@[i])
        },
        Shape::Collection { elem } => {
            &&& v.variant == 0
            &&& forall|i: int|
                0 <= i < v.fields@.len() ==> (#[trigger] v.fields@[i]).ty == elem && value_wf(
                    t,
                    v.fields@[i],
                )
        },
    }
}

/// The enter hook invocation on a value.
pub open spec fn enter_event(v: Value) -> Event {
    Event { kind: EventKind::Enter, ty: v.ty, variant: v.variant, data: v.data }
}

/// The exit hook invocation on a value.
pub open spec fn exit_event(v: Value) -> Event {
    Event { kind: EventKind::Exit, ty: v.ty, variant: v.variant, data: v.data }
}

/// The override call on a value.
pub open spec fn call_event(v: Value) -> Event {
    Event { kind: EventKind::Call, ty: v.ty, variant: v.variant, data: v.data }
}

/// Which fields of a value the per-field dispatch forwards: none for a
/// leaf, an opaque composite or an excluded variant; the non-excluded
/// fields of the matched variant; every element of a collection.
pub open spec fn retain_flags(t: TypeTable, v: Value) -> Seq<bool> {
    if v.ty < t.shapes@.len() {
        match t.shapes@[v.ty as int] {
            Shape::Leaf => Seq::new(v.fields@.len(), |i: int| false),
            Shape::Composite { opaque, variants } => {
                if opaque || !(v.variant < variants@.len()) || variants@[v.variant as int].skip {
                    Seq::new(v.fields@.len(), |i: int| false)
                } else {
                    Seq::new(
                        v.fields@.len(),
                        |i: int|
                            0 <= i < variants@[v.variant as int].fields@.len()
                                && !variants@[v.variant as int].fields@[i].skip,
                    )
                }
            },
            Shape::Collection { elem } => Seq::new(v.fields@.len(), |i: int| true),
        }
    } else {
        Seq::new(v.fields@.len(), |i: int| false)
    }
}

/// The hook invocations the visit of one value produces, when nothing
/// stops it: what the behavior installed for the value's type does.
pub open spec fn visit_trace(t: TypeTable, b: Seq<Behavior>, v: Value) -> Seq<Event>
    decreases v, 2int, 0int,
{
    if v.ty < b.len() {
        match b[v.ty as int] {
            Behavior::Skip => Seq::empty(),
            Behavior::Drive => drive_trace(t, b, v),
            Behavior::Enter => seq![enter_event(v)] + drive_trace(t, b, v),
            Behavior::Exit => drive_trace(t, b, v) + seq![exit_event(v)],
            Behavior::Both => seq![enter_event(v)] + drive_trace(t, b, v) + seq![exit_event(v)],
            Behavior::Custom => seq![call_event(v)],
        }
    } else {
        Seq::empty()
    }
}

/// The hook invocations the per-field dispatch of one value produces:
/// each retained field's visit, in declaration order.
pub open spec fn drive_trace(t: TypeTable, b: Seq<Behavior>, v: Value) -> Seq<Event>
    decreases v, 1int, 0int,
{
    fields_upto(t, b, v.fields@, retain_flags(t, v), v.fields@.len() as int)
}

/// The hook invocations of visiting the flagged ones among the first
/// `n` elements, in order.
pub open spec fn fields_upto(
    t: TypeTable,
    b: Seq<Behavior>,
    elems: Seq<Value>,
    flags: Seq<bool>,
    n: int,
) -> Seq<Event>
    decreases elems, 0int, n,
{
    if n <= 0 {
        Seq::empty()
    } else {
        fields_upto(t, b, elems, flags, n - 1) + (if n - 1 < elems.len() && n - 1 < flags.len()
            && flags[n - 1] {
            visit_trace(t, b, elems[n - 1])
        } else {
            Seq::empty()
        })
    }
}

/// The hook invocations of visiting the flagged elements from position
/// `i` on.
pub open spec fn fields_from(
    t: TypeTable,
    b: Seq<Behavior>,
    elems: Seq<Value>,
    flags: Seq<bool>,
    i: int,
) -> Seq<Event>
    decreases elems, 0int, elems.len() - i,
{
    if i < 0 || i >= elems.len() {
        Seq::empty()
    } else {
        (if i < flags.len() && flags[i] {
            visit_trace(t, b, elems[i])
        } else {
            Seq::empty()
        }) + fields_from(t, b, elems, flags, i + 1)
    }
}

/// How many override calls a trace holds.
pub open spec fn count_calls(tr: Seq<Event>) -> nat
    decreases tr.len(),
{
    if tr.len() == 0 {
        0
    } else {
        (if tr[0].kind is Call {
            1nat
        } else {
            0nat
        }) + count_calls(tr.drop_first())
    }
}

/// The prefix of a trace a visitor that stops at its `n`-th override
/// call actually performs: everything up to and including that call, or
/// the whole trace when it holds no more than `n` calls.
pub open spec fn cut(tr: Seq<Event>, n: nat) -> Seq<Event>
    decreases tr.len(),
{
    if tr.len() == 0 {
        tr
    } else if tr[0].kind is Call {
        if n == 0 {
            seq![tr[0]]
        } else {
            seq![tr[0]] + cut(tr.drop_first(), (n - 1) as nat)
        }
    } else {
        seq![tr[0]] + cut(tr.drop_first(), n)
    }
}

/// Override calls add up over concatenation.
pub proof fn lemma_count_add(a: Seq<Event>, b: Seq<Event>)
    ensures
        count_calls(a + b) == count_calls(a) + count_calls(b),
    decreases a.len(),
{
    if a.len() == 0 {
        assert(a + b =~= b);
    } else {
        assert((a + b).drop_first() =~= a.drop_first() + b);
        lemma_count_add(a.drop_first(), b);
    }
}

/// A trace with no more calls than the visitor lets pass is performed
/// whole.
pub proof fn lemma_cut_all(tr: Seq<Event>, n: nat)
    requires
        count_calls(tr) <= n,
    ensures
        cut(tr, n) == tr,
    decreases tr.len(),
{
    if tr.len() != 0 {
        if tr[0].kind is Call {
            lemma_cut_all(tr.drop_first(), (n - 1) as nat);
        } else {
            lemma_cut_all(tr.drop_first(), n);
        }
        assert(seq![tr[0]] + tr.drop_first() =~= tr);
    }
}

/// When the stop falls beyond a first part, the cut keeps that part
/// whole and cuts the rest with the calls that remain.
pub proof fn lemma_cut_add_break(a: Seq<Event>, b: Seq<Event>, n: nat)
    requires
        count_calls(a) <= n,
        count_calls(a) + count_calls(b) > n,
    ensures
        cut(a + b, n) == a + cut(b, (n - count_calls(a)) as nat),
    decreases a.len(),
{
    lemma_count_add(a, b);
    if a.len() == 0 {
        assert(a + b =~= b);
        assert(a + cut(b, (n - count_calls(a)) as nat) =~= cut(b, (n - count_calls(a)) as nat));
    } else {
        assert((a + b).drop_first() =~= a.drop_first() + b);
        if a[0].kind is Call {
            lemma_cut_add_break(a.drop_first(), b, (n - 1) as nat);
        } else {
            lemma_cut_add_break(a.drop_first(), b, n);
        }
        assert(cut(a + b, n) =~= a + cut(b, (n - count_calls(a)) as nat));
    }
}

/// When the stop falls within a first part, nothing after that part is
/// performed at all.
pub proof fn lemma_cut_prefix(a: Seq<Event>, b: Seq<Event>, n: nat)
    requires
        count_calls(a) > n,
    ensures
        cut(a + b, n) == cut(a, n),
    decreases a.len(),
{
    if a.len() != 0 {
        assert((a + b).drop_first() =~= a.drop_first() + b);
        if a[0].kind is Call {
            if n > 0 {
                lemma_cut_prefix(a.drop_first(), b, (n - 1) as nat);
            }
        } else {
            lemma_cut_prefix(a.drop_first(), b, n);
        }
    }
}

/// Splitting a field traversal at any position splits its trace.
pub proof fn lemma_fields_split(
    t: TypeTable,
    b: Seq<Behavior>,
    elems: Seq<Value>,
    flags: Seq<bool>,
    i: int,
)
    requires
        0 <= i <= elems.len(),
    ensures
        fields_upto(t, b, elems, flags, elems.len() as int) == fields_upto(t, b, elems, flags, i)
            + fields_from(t, b, elems, flags, i),
    decreases elems.len() - i,
{
    if i == elems.len() {
        assert(fields_upto(t, b, elems, flags, i) + fields_from(t, b, elems, flags, i)
            =~= fields_upto(t, b, elems, flags, i));
    } else {
        lemma_fields_split(t, b, elems, flags, i + 1);
        let piece = if i < flags.len() && flags[i] {
            visit_trace(t, b, elems[i])
        } else {
            Seq::<Event>::empty()
        };
        assert(fields_upto(t, b, elems, flags, i + 1) =~= fields_upto(t, b, elems, flags, i)
            + piece);
        assert(fields_upto(t, b, elems, flags, i) + (piece + fields_from(t, b, elems, flags, i + 1))
            =~= (fields_upto(t, b, elems, flags, i) + piece) + fields_from(
            t,
            b,
            elems,
            flags,
            i + 1,
        ));
    }
}

/// Override calls of a one-event trace.
pub proof fn lemma_count_one(e: Event)
    ensures
        count_calls(seq![e]) == (if e.kind is Call {
            1nat
        } else {
            0nat
        }),
{
    assert(seq![e].drop_first() =~= Seq::<Event>::empty());
    assert(count_calls(Seq::<Event>::empty()) == 0);
    assert(count_calls(seq![e]) == (if e.kind is Call {
        1nat
    } else {
        0nat
    }) + count_calls(seq![e].drop_first()));
}

/// What one traversal step guarantees: with no stop budget the whole
/// trace is performed and the traversal goes on; with a budget of `n`
/// remaining calls, either the trace holds no more than `n` calls and
/// is performed whole with the budget reduced accordingly, or the
/// traversal performs exactly the cut at the `n`-th call, exhausts the
/// budget, and signals the stop upward.
pub open spec fn run_post(
    tr: Seq<Event>,
    fuel0: Option<u64>,
    fuel1: Option<u64>,
    out0: Seq<Event>,
    out1: Seq<Event>,
    r: ControlFlow<(), ()>,
) -> bool {
    match fuel0 {
        None => fuel1 is None && out1 == out0 + tr && r is Continue,
        Some(n) => {
            if count_calls(tr) <= n as nat {
                &&& out1 == out0 + tr
                &&& r is Continue
                &&& fuel1 == Some((n - count_calls(tr)) as u64)
            } else {
                &&& out1 == out0 + cut(tr, n as nat)
                &&& r is Break
                &&& fuel1 == Some(0u64)
            }
        },
    }
}

/// Compute which fields of `v` the per-field dispatch forwards.
#[verifier::loop_isolation(false)]
pub(crate) fn make_retain_flags(t: &TypeTable, v: &Value) -> (flags: Vec<bool>)
    ensures
        flags@ == retain_flags(*t, *v),
{
    let n = v.fields.len();
    let mut flags: Vec<bool> = Vec::new();
    if v.ty < t.shapes.len() {
        match &t.shapes[v.ty] {
            Shape::Leaf => {
                let mut i: usize = 0;
                while i < n
                    invariant
                        i <= n,
                        flags@ == Seq::new(i as nat, |k: int| false),
                    decreases n - i,
                {
                    flags.push(false);
                    proof {
                        assert(flags@ =~= Seq::new((i + 1) as nat, |k: int| false));
                    }
                    i += 1;
                }
            },
            Shape::Composite { opaque, variants } => {
                if *opaque || v.variant >= variants.len() || variants[v.variant].skip {
                    let mut i: usize = 0;
                    while i < n
                        invariant
                            i <= n,
                            flags@ == Seq::new(i as nat, |k: int| false),
                        decreases n - i,
                    {
                        flags.push(false);
                        proof {
                            assert(flags@ =~= Seq::new((i + 1) as nat, |k: int| false));
                        }
                        i += 1;
                    }
                } else {
                    let vs = &variants[v.variant];
                    let mut i: usize = 0;
                    while i < n
                        invariant
                            i <= n,
                            flags@ == Seq::new(
                                i as nat,
                                |k: int|
                                    0 <= k < vs.fields@.len() && !vs.fields@[k].skip,
                            ),
                        decreases n - i,
                    {
                        flags.push(i < vs.fields.len() && !vs.fields[i].skip);
                        proof {
                            assert(flags@ =~= Seq::new(
                                (i + 1) as nat,
                                |k: int| 0 <= k < vs.fields@.len() && !vs.fields@[k].skip,
                            ));
                        }
                        i += 1;
                    }
                }
            },
            Shape::Collection { elem } => {
                let mut i: usize = 0;
                while i < n
                    invariant
                        i <= n,
                        flags@ == Seq::new(i as nat, |k: int| true),
                    decreases n - i,
                {
                    flags.push(true);
                    proof {
                        assert(flags@ =~= Seq::new((i + 1) as nat, |k: int| true));
                    }
                    i += 1;
                }
            },
        }
    } else {
        let mut i: usize = 0;
        while i < n
            invariant
                i <= n,
                flags@ == Seq::new(i as nat, |k: int| false),
            decreases n - i,
        {
            flags.push(false);
            proof {
                assert(flags@ =~= Seq::new((i + 1) as nat, |k: int| false));
            }
            i += 1;
        }
    }
    proof {
        assert(flags@ =~= retain_flags(*t, *v));
    }
    flags
}

/// Visit one value: perform what the behavior installed for its type
/// does, record each hook invocation, and stop at the visitor's first
/// stopping override call.
pub fn visit_value(t: &TypeTable, vis: &mut Visitor, v: &Value, out: &mut Vec<Event>) -> (r:
    ControlFlow<(), ()>)
    ensures
        final(vis).behaviors@ == old(vis).behaviors@,
        run_post(
            visit_trace(*t, old(vis).behaviors@, *v),
            old(vis).fuel,
            final(vis).fuel,
            old(out)@,
            final(out)@,
            r,
        ),
    decreases *v, 2int,
{
    let ghost b = old(vis).behaviors@;
    let ghost out0 = old(out)@;
    let ghost tr = visit_trace(*t, b, *v);
    if v.ty >= vis.behaviors.len() {
        proof {
            assert(out0 + tr =~= out0);
        }
        return ControlFlow::Continue(());
    }
    match vis.behaviors[v.ty] {
        Behavior::Skip => {
            proof {
                assert(out0 + tr =~= out0);
            }
            ControlFlow::Continue(())
        },
        Behavior::Drive => {
            proof {
                assert(decreases_to!(*v, 2int => *v, 1int));
            }
            drive_value(t, vis, v, out)
        },
        Behavior::Enter => {
            out.push(Event { kind: EventKind::Enter, ty: v.ty, variant: v.variant, data: v.data });
            proof {
                assert(out@ =~= out0 + seq![enter_event(*v)]);
            }
            let ghost dtr = drive_trace(*t, b, *v);
            let r = drive_value(t, vis, v, out);
            proof {
                lemma_count_one(enter_event(*v));
                lemma_count_add(seq![enter_event(*v)], dtr);
                match old(vis).fuel {
                    None => {
                        assert(out0 + seq![enter_event(*v)] + dtr =~= out0 + tr);
                    },
                    Some(n) => {
                        if count_calls(dtr) <= n as nat {
                            assert(out0 + seq![enter_event(*v)] + dtr =~= out0 + tr);
                        } else {
                            lemma_cut_add_break(seq![enter_event(*v)], dtr, n as nat);
                            assert(out0 + seq![enter_event(*v)] + cut(dtr, n as nat) =~= out0 + cut(
                                tr,
                                n as nat,
                            ));
                        }
                    },
                }
            }
            r
        },
        Behavior::Exit => {
            let ghost dtr = drive_trace(*t, b, *v);
            let r = drive_value(t, vis, v, out);
            proof {
                lemma_count_one(exit_event(*v));
                lemma_count_add(dtr, seq![exit_event(*v)]);
            }
            match r {
                ControlFlow::Continue(_) => {
                    out.push(
                        Event { kind: EventKind::Exit, ty: v.ty, variant: v.variant, data: v.data },
                    );
                    proof {
                        assert(out@ =~= out0 + dtr + seq![exit_event(*v)]);
                        assert(out0 + dtr + seq![exit_event(*v)] =~= out0 + tr);
                    }
                    ControlFlow::Continue(())
                },
                ControlFlow::Break(_) => {
                    proof {
                        let n = old(vis).fuel.unwrap() as nat;
                        lemma_cut_prefix(dtr, seq![exit_event(*v)], n);
                    }
                    ControlFlow::Break(())
                },
            }
        },
        Behavior::Both => {
            out.push(Event { kind: EventKind::Enter, ty: v.ty, variant: v.variant, data: v.data });
            proof {
                assert(out@ =~= out0 + seq![enter_event(*v)]);
            }
            let ghost dtr = drive_trace(*t, b, *v);
            let r = drive_value(t, vis, v, out);
            proof {
                lemma_count_one(enter_event(*v));
                lemma_count_one(exit_event(*v));
                lemma_count_add(seq![enter_event(*v)], dtr);
                lemma_count_add(seq![enter_event(*v)] + dtr, seq![exit_event(*v)]);
            }
            match r {
                ControlFlow::Continue(_) => {
                    out.push(
                        Event { kind: EventKind::Exit, ty: v.ty, variant: v.variant, data: v.data },
                    );
                    proof {
                        assert(out@ =~= out0 + seq![enter_event(*v)] + dtr + seq![exit_event(*v)]);
                        assert(out0 + seq![enter_event(*v)] + dtr + seq![exit_event(*v)] =~= out0
                            + tr);
                    }
                    ControlFlow::Continue(())
                },
                ControlFlow::Break(_) => {
                    proof {
                        let n = old(vis).fuel.unwrap() as nat;
                        lemma_cut_prefix(seq![enter_event(*v)] + dtr, seq![exit_event(*v)], n);
                        lemma_cut_add_break(seq![enter_event(*v)], dtr, n);
                        assert(out0 + seq![enter_event(*v)] + cut(dtr, n) =~= out0 + cut(tr, n));
                    }
                    ControlFlow::Break(())
                },
            }
        },
        Behavior::Custom => {
            out.push(Event { kind: EventKind::Call, ty: v.ty, variant: v.variant, data: v.data });
            proof {
                assert(out@ =~= out0 + seq![call_event(*v)]);
                lemma_count_one(call_event(*v));
                assert(out0 + seq![call_event(*v)] =~= out0 + tr);
            }
            match vis.fuel {
                None => ControlFlow::Continue(()),
                Some(n) => {
                    if n == 0 {
                        proof {
                            assert(cut(tr, 0nat) =~= seq![call_event(*v)]);
                            assert(out0 + seq![call_event(*v)] =~= out0 + cut(tr, 0nat));
                        }
                        ControlFlow::Break(())
                    } else {
                        vis.fuel = Some(n - 1);
                        ControlFlow::Continue(())
                    }
                },
            }
        },
    }
}

/// Forward each retained field of one value to the generic visit call,
/// in declaration order, stopping at the first stop signal.
pub fn drive_value(t: &TypeTable, vis: &mut Visitor, v: &Value, out: &mut Vec<Event>) -> (r:
    ControlFlow<(), ()>)
    ensures
        final(vis).behaviors@ == old(vis).behaviors@,
        run_post(
            drive_trace(*t, old(vis).behaviors@, *v),
            old(vis).fuel,
            final(vis).fuel,
            old(out)@,
            final(out)@,
            r,
        ),
    decreases *v, 1int,
{
    let flags = make_retain_flags(t, v);
    proof {
        assert(decreases_to!(*v, 1int => v.fields@, 0int));
    }
    drive_fields_exec(t, vis, &v.fields, &flags, out)
}

/// Visit the flagged elements of a field list in order, stopping at the
/// first stop signal.
#[verifier::loop_isolation(false)]
fn drive_fields_exec(
    t: &TypeTable,
    vis: &mut Visitor,
    elems: &Vec<Value>,
    flags: &Vec<bool>,
    out: &mut Vec<Event>,
) -> (r: ControlFlow<(), ()>)
    ensures
        final(vis).behaviors@ == old(vis).behaviors@,
        run_post(
            fields_upto(*t, old(vis).behaviors@, elems@, flags@, elems@.len() as int),
            old(vis).fuel,
            final(vis).fuel,
            old(out)@,
            final(out)@,
            r,
        ),
    decreases elems@, 0int,
{
    let ghost b = old(vis).behaviors@;
    let ghost fuel0 = old(vis).fuel;
    let ghost out0 = old(out)@;
    let mut i: usize = 0;
    while i < elems.len()
        invariant
            i <= elems@.len(),
            vis.behaviors@ == b,
            run_post(
                fields_upto(*t, b, elems@, flags@, i as int),
                fuel0,
                vis.fuel,
                out0,
                out@,
                ControlFlow::Continue(()),
            ),
        decreases elems@.len() - i,
    {
        let ghost upto_i = fields_upto(*t, b, elems@, flags@, i as int);
        if i < flags.len() && flags[i] {
            let ghost pre_fuel = vis.fuel;
            let ghost pre_out = out@;
            let ghost ftr = visit_trace(*t, b, elems@[i as int]);
            proof {
                assert(decreases_to!(elems@, 0int => elems@[i as int], 2int));
            }
            let r = visit_value(t, vis, &elems[i], out);
            match r {
                ControlFlow::Break(_) => {
                    proof {
                        let n = fuel0.unwrap() as nat;
                        let ci = count_calls(upto_i);
                        let m = (n - ci) as nat;
                        let full = fields_upto(*t, b, elems@, flags@, elems@.len() as int);
                        let from_i = fields_from(*t, b, elems@, flags@, i as int);
                        let from_next = fields_from(*t, b, elems@, flags@, i + 1);
                        lemma_fields_split(*t, b, elems@, flags@, i as int);
                        assert(from_i =~= ftr + from_next);
                        lemma_count_add(ftr, from_next);
                        lemma_count_add(upto_i, from_i);
                        lemma_cut_add_break(upto_i, from_i, n);
                        lemma_cut_prefix(ftr, from_next, m);
                        assert(pre_out + cut(ftr, m) =~= out0 + (upto_i + cut(ftr, m)));
                        assert(out@ == out0 + cut(full, n));
                    }
                    return ControlFlow::Break(());
                },
                ControlFlow::Continue(_) => {
                    proof {
                        lemma_count_add(upto_i, ftr);
                        assert(fields_upto(*t, b, elems@, flags@, i + 1) =~= upto_i + ftr);
                        assert(pre_out + ftr =~= out0 + (upto_i + ftr));
                    }
                },
            }
        } else {
            proof {
                assert(fields_upto(*t, b, elems@, flags@, i + 1) =~= upto_i);
            }
        }
        i += 1;
    }
    ControlFlow::Continue(())
}

/// The hook invocations of driving through an iterable of values: every
/// element visited, in order.
pub open spec fn iter_trace(t: TypeTable, b: Seq<Behavior>, elems: Seq<Value>) -> Seq<Event> {
    fields_upto(t, b, elems, Seq::new(elems.len(), |i: int| true), elems.len() as int)
}

/// Drive through an iterable of values: visit every element in order,
/// stopping at the first stop signal. This serves collections that have
/// no registered shape of their own.
pub fn drive_iter(t: &TypeTable, vis: &mut Visitor, elems: &Vec<Value>, out: &mut Vec<Event>) -> (r:
    ControlFlow<(), ()>)
    ensures
        final(vis).behaviors@ == old(vis).behaviors@,
        run_post(
            iter_trace(*t, old(vis).behaviors@, elems@),
            old(vis).fuel,
            final(vis).fuel,
            old(out)@,
            final(out)@,
            r,
        ),
{
    let mut flags: Vec<bool> = Vec::new();
    let mut i: usize = 0;
    while i < elems.len()
        invariant
            i <= elems@.len(),
            flags@ == Seq::new(i as nat, |k: int| true),
        decreases elems@.len() - i,
    {
        flags.push(true);
        proof {
            assert(flags@ =~= Seq::new((i + 1) as nat, |k: int| true));
        }
        i += 1;
    }
    drive_fields_exec(t, vis, elems, &flags, out)
}

/// Drive mutably through an iterable of values. The mutable mode
/// changes how the rendered code borrows each element, not which
/// elements are visited nor in which order, so its meaning is the same
/// trace.
pub fn drive_iter_mut(
    t: &TypeTable,
    vis: &mut Visitor,
    elems: &Vec<Value>,
    out: &mut Vec<Event>,
) -> (r: ControlFlow<(), ()>)
    ensures
        final(vis).behaviors@ == old(vis).behaviors@,
        run_post(
            iter_trace(*t, old(vis).behaviors@, elems@),
            old(vis).fuel,
            final(vis).fuel,
            old(out)@,
            final(out)@,
            r,
        ),
{
    drive_iter(t, vis, elems, out)
}

/// Visit a value, consuming and returning the visitor for chaining; a
/// stop signal carries no visitor out.
pub fn visit_by_val(vis: Visitor, t: &TypeTable, v: &Value, out: &mut Vec<Event>) -> (r: ControlFlow<
    (),
    Visitor,
>)
    ensures
        match r {
            ControlFlow::Continue(vis2) => vis2.behaviors@ == vis.behaviors@ && run_post(
                visit_trace(*t, vis.behaviors@, *v),
                vis.fuel,
                vis2.fuel,
                old(out)@,
                final(out)@,
                ControlFlow::Continue(()),
            ),
            ControlFlow::Break(_) => run_post(
                visit_trace(*t, vis.behaviors@, *v),
                vis.fuel,
                Some(0u64),
                old(out)@,
                final(out)@,
                ControlFlow::Break(()),
            ),
        },
{
    let mut vis = vis;
    match visit_value(t, &mut vis, v, out) {
        ControlFlow::Continue(_) => ControlFlow::Continue(vis),
        ControlFlow::Break(_) => ControlFlow::Break(()),
    }
}

/// Visit a value with a visitor that cannot stop — one whose
/// short-circuit type is uninhabited — and get the visitor back: the
/// traversal always completes, whatever the value, a leaf or an empty
/// composite included.
pub fn visit_by_val_infallible(vis: Visitor, t: &TypeTable, v: &Value, out: &mut Vec<Event>) -> (r:
    Visitor)
    requires
        vis.fuel is None,
    ensures
        r.behaviors@ == vis.behaviors@,
        r.fuel is None,
        final(out)@ == old(out)@ + visit_trace(*t, vis.behaviors@, *v),
{
    match visit_by_val(vis, t, v, out) {
        ControlFlow::Continue(vis2) => vis2,
        ControlFlow::Break(_) => vstd::pervasive::unreached(),
    }
}

/// Check that the registry is complete: every type key any shape
/// mentions is itself registered, so dispatch never meets a missing
/// entry.
#[verifier::loop_isolation(false)]
pub fn validate_table(t: &TypeTable) -> (r: bool)
    ensures
        r == table_wf(*t),
{
    let n = t.shapes.len();
    let mut s: usize = 0;
    let mut ok = true;
    while s < n
        invariant
            s <= n,
            ok == (forall|si: int|
                0 <= si < s ==> match #[trigger] t.shapes@[si] {
                    Shape::Leaf => true,
                    Shape::Composite { opaque, variants } => forall|vi: int|
                        0 <= vi < variants@.len() ==> forall|f: int|
                            0 <= f < (#[trigger] variants@[vi]).fields@.len()
                                ==> (#[trigger] variants@[vi].fields@[f]).ty < t.shapes@.len(),
                    Shape::Collection { elem } => elem < t.shapes@.len(),
                }),
        decreases n - s,
    {
        match &t.shapes[s] {
            Shape::Leaf => {},
            Shape::Composite { opaque: _, variants } => {
                let mut vi: usize = 0;
                let mut shape_ok = true;
                while vi < variants.len()
                    invariant
                        vi <= variants@.len(),
                        shape_ok == (forall|vj: int|
                            0 <= vj < vi ==> forall|f: int|
                                0 <= f < (#[trigger] variants@[vj]).fields@.len()
                                    ==> (#[trigger] variants@[vj].fields@[f]).ty
                                    < t.shapes@.len()),
                    decreases variants@.len() - vi,
                {
                    let fields = &variants[vi].fields;
                    let mut f: usize = 0;
                    let mut var_ok = true;
                    while f < fields.len()
                        invariant
                            f <= fields@.len(),
                            var_ok == (forall|fj: int|
                                0 <= fj < f ==> (#[trigger] fields@[fj]).ty < t.shapes@.len()),
                        decreases fields@.len() - f,
                    {
                        if fields[f].ty >= n {
                            var_ok = false;
                        }
                        f += 1;
                    }
                    if !var_ok {
                        shape_ok = false;
                    }
                    vi += 1;
                }
                if !shape_ok {
                    ok = false;
                }
            },
            Shape::Collection { elem } => {
                if *elem >= n {
                    ok = false;
                }
            },
        }
        s += 1;
    }
    ok
}

/// Check that a visitor installs a behavior for every registered type,
/// so no traversal can meet a missing handler.
pub fn validate_visitor(t: &TypeTable, vis: &Visitor) -> (r: bool)
    ensures
        r == (vis.behaviors@.len() == t.shapes@.len()),
{
    vis.behaviors.len() == t.shapes.len()
}

/// Nothing of an opaque composite, or of an excluded variant, is ever
/// traversed: its per-field dispatch performs no hook invocation at
/// all, whatever its fields hold, and so it can never signal a stop.
pub proof fn lemma_opaque_noop(t: TypeTable, b: Seq<Behavior>, v: Value)
    requires
        v.ty < t.shapes@.len(),
        t.shapes@[v.ty as int] matches Shape::Composite { opaque, variants } && (opaque || (
        v.variant < variants@.len() && variants@[v.variant as int].skip)),
    ensures
        drive_trace(t, b, v) == Seq::<Event>::empty(),
        count_calls(drive_trace(t, b, v)) == 0,
{
    let flags = retain_flags(t, v);
    assert(forall|k: int| 0 <= k < flags.len() ==> !flags[k]);
    lemma_fields_none(t, b, v.fields@, flags, v.fields@.len() as int);
}

/// A traversal over all-false flags performs nothing.
pub proof fn lemma_fields_none(
    t: TypeTable,
    b: Seq<Behavior>,
    elems: Seq<Value>,
    flags: Seq<bool>,
    n: int,
)
    requires
        forall|k: int| 0 <= k < flags.len() ==> !flags[k],
    ensures
        fields_upto(t, b, elems, flags, n) == Seq::<Event>::empty(),
    decreases n,
{
    if n > 0 {
        lemma_fields_none(t, b, elems, flags, n - 1);
        assert(fields_upto(t, b, elems, flags, n) =~= Seq::<Event>::empty());
    }
}

/// When a traversal stops, what was performed is a prefix of the full
/// trace that ends at the stopping override call: the stop signal
/// propagates unchanged, and no later hook invocation — no subsequent
/// field, no exit hook — takes place.
pub proof fn lemma_short_circuit(tr: Seq<Event>, n: nat)
    requires
        count_calls(tr) > n,
    ensures
        cut(tr, n).is_prefix_of(tr),
        cut(tr, n).len() >= 1,
        cut(tr, n).last().kind is Call,
        count_calls(cut(tr, n)) == n + 1,
    decreases tr.len(),
{
    let c = cut(tr, n);
    if tr[0].kind is Call && n == 0 {
        assert(c =~= seq![tr[0]]);
        lemma_count_one(tr[0]);
        assert(c.is_prefix_of(tr));
    } else {
        let rest = tr.drop_first();
        let m: nat = if tr[0].kind is Call {
            (n - 1) as nat
        } else {
            n
        };
        lemma_short_circuit(rest, m);
        assert(c =~= seq![tr[0]] + cut(rest, m));
        lemma_count_add(seq![tr[0]], cut(rest, m));
        lemma_count_one(tr[0]);
        assert(c.last() == cut(rest, m).last());
        assert(seq![tr[0]] + rest =~= tr);
        assert(c.subrange(1, c.len() as int) =~= cut(rest, m));
        assert(forall|i: int| 0 <= i < c.len() ==> c[i] == tr[i]);
        assert(c.is_prefix_of(tr)) by {
            assert(c =~= tr.subrange(0, c.len() as int));
        }
    }
}

/// An override participant's default handling runs its enter hook
/// exactly once before recursing and its exit hook exactly once after —
/// and the exit hook exactly when the recursion did not stop: a stopped
/// recursion keeps the enter hook and loses the exit hook.
pub proof fn lemma_enter_exit_pairing(t: TypeTable, b: Seq<Behavior>, v: Value, n: nat)
    requires
        v.ty < b.len(),
        b[v.ty as int] is Both,
    ensures
        visit_trace(t, b, v) == seq![enter_event(v)] + drive_trace(t, b, v) + seq![exit_event(v)],
        count_calls(drive_trace(t, b, v)) <= n ==> cut(visit_trace(t, b, v), n) == visit_trace(
            t,
            b,
            v,
        ),
        count_calls(drive_trace(t, b, v)) > n ==> cut(visit_trace(t, b, v), n) == seq![
            enter_event(v),
        ] + cut(drive_trace(t, b, v), n),
{
    let dtr = drive_trace(t, b, v);
    let tr = visit_trace(t, b, v);
    lemma_count_one(enter_event(v));
    lemma_count_one(exit_event(v));
    lemma_count_add(seq![enter_event(v)], dtr);
    lemma_count_add(seq![enter_event(v)] + dtr, seq![exit_event(v)]);
    if count_calls(dtr) <= n {
        lemma_cut_all(tr, n);
    } else {
        lemma_cut_prefix(seq![enter_event(v)] + dtr, seq![exit_event(v)], n);
        lemma_cut_add_break(seq![enter_event(v)], dtr, n);
    }
}

/// The positions of the set flags among the first `n`, in order.
pub open spec fn visited_upto(flags: Seq<bool>, n: int) -> Seq<int>
    decreases n,
{
    if n <= 0 {
        Seq::empty()
    } else {
        visited_upto(flags, n - 1) + (if 0 <= n - 1 < flags.len() && flags[n - 1] {
            seq![n - 1]
        } else {
            Seq::<int>::empty()
        })
    }
}

/// The positions of all set flags, in order.
pub open spec fn visited_indices(flags: Seq<bool>) -> Seq<int> {
    visited_upto(flags, flags.len() as int)
}

/// The concatenation of the visits of the elements at the given
/// positions, in that order.
pub open spec fn concat_traces(t: TypeTable, b: Seq<Behavior>, elems: Seq<Value>, idxs: Seq<
    int,
>) -> Seq<Event>
    decreases idxs.len(),
{
    if idxs.len() == 0 {
        Seq::empty()
    } else {
        (if 0 <= idxs[0] < elems.len() {
            visit_trace(t, b, elems[idxs[0]])
        } else {
            Seq::<Event>::empty()
        }) + concat_traces(t, b, elems, idxs.drop_first())
    }
}

/// Appending one position appends that element's visit.
proof fn lemma_concat_push(t: TypeTable, b: Seq<Behavior>, elems: Seq<Value>, idxs: Seq<int>, i: int)
    requires
        0 <= i < elems.len(),
    ensures
        concat_traces(t, b, elems, idxs.push(i)) == concat_traces(t, b, elems, idxs) + visit_trace(
            t,
            b,
            elems[i],
        ),
    decreases idxs.len(),
{
    if idxs.len() == 0 {
        assert(idxs =~= Seq::<int>::empty());
        assert(idxs.push(i).drop_first() =~= Seq::<int>::empty());
        assert(idxs.push(i)[0] == i);
        assert(concat_traces(t, b, elems, Seq::<int>::empty()) == Seq::<Event>::empty());
        assert(concat_traces(t, b, elems, idxs.push(i)) == visit_trace(t, b, elems[i])
            + concat_traces(t, b, elems, Seq::<int>::empty()));
        assert(concat_traces(t, b, elems, idxs.push(i)) =~= concat_traces(t, b, elems, idxs)
            + visit_trace(t, b, elems[i]));
    } else {
        assert(idxs.push(i).drop_first() =~= idxs.drop_first().push(i));
        assert(idxs.push(i)[0] == idxs[0]);
        lemma_concat_push(t, b, elems, idxs.drop_first(), i);
        let head = if 0 <= idxs[0] < elems.len() {
            visit_trace(t, b, elems[idxs[0]])
        } else {
            Seq::<Event>::empty()
        };
        assert(concat_traces(t, b, elems, idxs.push(i)) == head + (concat_traces(
            t,
            b,
            elems,
            idxs.drop_first(),
        ) + visit_trace(t, b, elems[i])));
        assert(head + (concat_traces(t, b, elems, idxs.drop_first()) + visit_trace(t, b, elems[i]))
            =~= (head + concat_traces(t, b, elems, idxs.drop_first())) + visit_trace(
            t,
            b,
            elems[i],
        ));
    }
}

/// The per-field dispatch is exactly the concatenation of the retained
/// fields' visits, in declaration order: the visit-call sequence equals
/// the declared field order with excluded fields absent. The retained
/// positions are strictly increasing, and a position is among them
/// exactly when its flag is set.
pub proof fn lemma_field_order(t: TypeTable, b: Seq<Behavior>, elems: Seq<Value>, flags: Seq<bool>)
    requires
        flags.len() == elems.len(),
    ensures
        fields_upto(t, b, elems, flags, elems.len() as int) == concat_traces(
            t,
            b,
            elems,
            visited_indices(flags),
        ),
        forall|j: int|
            0 <= j < visited_indices(flags).len() ==> 0 <= #[trigger] visited_indices(flags)[j]
                < flags.len() && flags[visited_indices(flags)[j]],
        forall|j1: int, j2: int|
            0 <= j1 < j2 < visited_indices(flags).len() ==> #[trigger] visited_indices(flags)[j1]
                < #[trigger] visited_indices(flags)[j2],
        forall|k: int| 0 <= k < flags.len() && flags[k] ==> visited_indices(flags).contains(k),
{
    lemma_visited_props(flags, flags.len() as int);
    lemma_fields_concat(t, b, elems, flags, elems.len() as int);
    assert forall|k: int| 0 <= k < flags.len() && flags[k] implies visited_indices(flags).contains(
        k,
    ) by {
        lemma_visited_contains(flags, flags.len() as int, k);
    }
}

/// The positions of set flags are in range, set, and increasing.
proof fn lemma_visited_props(flags: Seq<bool>, n: int)
    ensures
        forall|j: int|
            0 <= j < visited_upto(flags, n).len() ==> 0 <= #[trigger] visited_upto(flags, n)[j] < n
                && 0 <= visited_upto(flags, n)[j] < flags.len() && flags[visited_upto(flags, n)[j]],
        forall|j1: int, j2: int|
            0 <= j1 < j2 < visited_upto(flags, n).len() ==> #[trigger] visited_upto(flags, n)[j1]
                < #[trigger] visited_upto(flags, n)[j2],
    decreases n,
{
    if n > 0 {
        lemma_visited_props(flags, n - 1);
        let prev = visited_upto(flags, n - 1);
        let cur = visited_upto(flags, n);
        if 0 <= n - 1 < flags.len() && flags[n - 1] {
            assert(cur =~= prev.push(n - 1));
        } else {
            assert(cur =~= prev);
        }
        assert forall|j: int| 0 <= j < cur.len() implies 0 <= #[trigger] cur[j] < n && 0 <= cur[j]
            < flags.len() && flags[cur[j]] by {
            if j < prev.len() {
                assert(cur[j] == prev[j]);
            }
        }
        assert forall|j1: int, j2: int| 0 <= j1 < j2 < cur.len() implies #[trigger] cur[j1]
            < #[trigger] cur[j2] by {
            if j2 < prev.len() {
            } else {
                assert(cur[j2] == n - 1);
                assert(cur[j1] == prev[j1]);
            }
        }
    }
}

/// A set flag's position is collected.
proof fn lemma_visited_contains(flags: Seq<bool>, n: int, k: int)
    requires
        0 <= k < n,
        k < flags.len(),
        flags[k],
    ensures
        visited_upto(flags, n).contains(k),
    decreases n,
{
    if k == n - 1 {
        assert(visited_upto(flags, n)[visited_upto(flags, n).len() - 1] == k);
    } else {
        lemma_visited_contains(flags, n - 1, k);
        let j = choose|j: int|
            0 <= j < visited_upto(flags, n - 1).len() && #[trigger] visited_upto(flags, n - 1)[j]
                == k;
        assert(visited_upto(flags, n)[j] == k);
    }
}

/// The flagged-prefix traversal equals the concatenation over collected
/// positions.
proof fn lemma_fields_concat(
    t: TypeTable,
    b: Seq<Behavior>,
    elems: Seq<Value>,
    flags: Seq<bool>,
    n: int,
)
    requires
        flags.len() == elems.len(),
        n <= elems.len(),
    ensures
        fields_upto(t, b, elems, flags, n) == concat_traces(t, b, elems, visited_upto(flags, n)),
    decreases n,
{
    if n <= 0 {
    } else {
        lemma_fields_concat(t, b, elems, flags, n - 1);
        if 0 <= n - 1 < flags.len() && flags[n - 1] {
            assert(visited_upto(flags, n) =~= visited_upto(flags, n - 1).push(n - 1));
            lemma_concat_push(t, b, elems, visited_upto(flags, n - 1), n - 1);
        } else {
            assert(visited_upto(flags, n) =~= visited_upto(flags, n - 1));
            assert(fields_upto(t, b, elems, flags, n) =~= fields_upto(t, b, elems, flags, n - 1));
        }
    }
}

} // verus!
