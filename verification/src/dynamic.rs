//! Compatibility with an event-driven, type-erased visitor protocol: a
//! reflection-style visitor is notified of entering a value, then each
//! retained field is forwarded recursively, then it is notified of
//! leaving the value — in that order, never interleaved and never
//! skipped. The protocol has no short-circuit concept, so a traversal
//! always completes.

use vstd::prelude::*;

use crate::exec::TypeTable;
use crate::exec::Value;
use crate::exec::retain_flags;

verus! {

/// What the reflection-style visitor is notified of.
#[derive(Clone, Copy, PartialEq, Eq, Structural, Debug)]
pub enum DynEventKind {
    Enter,
    Exit,
}

/// One notification, with the visited value's type key, variant and
/// payload.
#[derive(Clone, Copy, PartialEq, Eq, Structural, Debug)]
pub struct DynEvent {
    pub kind: DynEventKind,
    pub ty: usize,
    pub variant: usize,
    pub data: u64,
}

/// The enter notification of a value.
pub open spec fn dyn_enter(v: Value) -> DynEvent {
    DynEvent { kind: DynEventKind::Enter, ty: v.ty, variant: v.variant, data: v.data }
}

/// The exit notification of a value.
pub open spec fn dyn_exit(v: Value) -> DynEvent {
    DynEvent { kind: DynEventKind::Exit, ty: v.ty, variant: v.variant, data: v.data }
}

/// The notifications walking the reflection visitor over a value
/// produces: enter, then each retained field recursively, then exit.
pub open spec fn dyn_trace(t: TypeTable, v: Value) -> Seq<DynEvent>
    decreases v, 1int, 0int,
{
    seq![dyn_enter(v)] + dyn_fields(t, v.fields@, retain_flags(t, v), v.fields@.len() as int)
        + seq![dyn_exit(v)]
}

/// The notifications of walking the flagged ones among the first `n`
/// elements, in order.
pub open spec fn dyn_fields(t: TypeTable, elems: Seq<Value>, flags: Seq<bool>, n: int) -> Seq<
    DynEvent,
>
    decreases elems, 0int, n,
{
    if n <= 0 {
        Seq::empty()
    } else {
        dyn_fields(t, elems, flags, n - 1) + (if n - 1 < elems.len() && n - 1 < flags.len()
            && flags[n - 1] {
            dyn_trace(t, elems[n - 1])
        } else {
            Seq::empty()
        })
    }
}

/// A walk is well bracketed: it opens by entering the value and closes
/// by leaving it, and the two notifications are never skipped, however
/// the value looks.
pub proof fn lemma_dyn_bracketed(t: TypeTable, v: Value)
    ensures
        dyn_trace(t, v).len() >= 2,
        dyn_trace(t, v).first() == dyn_enter(v),
        dyn_trace(t, v).last() == dyn_exit(v),
{
    let inner = dyn_fields(t, v.fields@, retain_flags(t, v), v.fields@.len() as int);
    assert(dyn_trace(t, v)[0] == dyn_enter(v));
    assert(dyn_trace(t, v)[dyn_trace(t, v).len() - 1] == dyn_exit(v));
}

/// The adapter that satisfies the low-level per-field dispatch on
/// behalf of a reflection-style visitor: it holds the visitor — here,
/// the record of its notifications — and forwards every field it is
/// asked to visit as a full recursive walk.
pub struct DynVisitorAdapter {
    pub sink: Vec<DynEvent>,
}

impl DynVisitorAdapter {
    /// Wrap a reflection-style visitor so it can stand where a
    /// per-field visitor is expected.
    pub fn wrap(sink: Vec<DynEvent>) -> (r: DynVisitorAdapter)
        ensures
            r.sink@ == sink@,
    {
        DynVisitorAdapter { sink }
    }

    /// Visit one field on the wrapped visitor's behalf: walk it fully.
    pub fn visit(&mut self, t: &TypeTable, x: &Value)
        ensures
            final(self).sink@ == old(self).sink@ + dyn_trace(*t, *x),
    {
        drive(t, x, self);
    }
}

/// Walk the reflection visitor over a value: notify it of entering,
/// forward each retained field recursively, then notify it of leaving.
#[verifier::loop_isolation(false)]
pub fn drive(t: &TypeTable, x: &Value, v: &mut DynVisitorAdapter)
    ensures
        final(v).sink@ == old(v).sink@ + dyn_trace(*t, *x),
    decreases *x,
{
    let ghost sink0 = old(v).sink@;
    v.sink.push(DynEvent { kind: DynEventKind::Enter, ty: x.ty, variant: x.variant, data: x.data });
    proof {
        assert(v.sink@ =~= sink0 + seq![dyn_enter(*x)]);
    }
    let flags = crate::exec::make_retain_flags(t, x);
    let ghost fl = retain_flags(*t, *x);
    let mut i: usize = 0;
    while i < x.fields.len()
        invariant
            i <= x.fields@.len(),
            v.sink@ == sink0 + seq![dyn_enter(*x)] + dyn_fields(*t, x.fields@, fl, i as int),
        decreases x.fields@.len() - i,
    {
        if i < flags.len() && flags[i] {
            proof {
                assert(decreases_to!(*x => x.fields@[i as int]));
            }
            drive(t, &x.fields[i], v);
            proof {
                assert(v.sink@ =~= sink0 + seq![dyn_enter(*x)] + dyn_fields(
                    *t,
                    x.fields@,
                    fl,
                    i + 1,
                ));
            }
        } else {
            proof {
                assert(dyn_fields(*t, x.fields@, fl, i + 1) =~= dyn_fields(
                    *t,
                    x.fields@,
                    fl,
                    i as int,
                ));
            }
        }
        i += 1;
    }
    v.sink.push(DynEvent { kind: DynEventKind::Exit, ty: x.ty, variant: x.variant, data: x.data });
    proof {
        assert(v.sink@ =~= sink0 + dyn_trace(*t, *x));
    }
}

/// Walk the reflection visitor mutably over a value. The mutable mode
/// changes how the rendered code borrows the value, not the
/// notifications, so its meaning is the same walk.
pub fn drive_mut(t: &TypeTable, x: &Value, v: &mut DynVisitorAdapter)
    ensures
        final(v).sink@ == old(v).sink@ + dyn_trace(*t, *x),
{
    drive(t, x, v);
}

} // verus!
