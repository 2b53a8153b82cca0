use std::ops::ControlFlow;

use generic_visitor::dynamic::DynEventKind;
use generic_visitor::dynamic::DynVisitorAdapter;
use generic_visitor::dynamic::drive;
use generic_visitor::dynamic::drive_mut;
use generic_visitor::exec::Behavior;
use generic_visitor::exec::Event;
use generic_visitor::exec::EventKind;
use generic_visitor::exec::FieldShape;
use generic_visitor::exec::Shape;
use generic_visitor::exec::TypeTable;
use generic_visitor::exec::Value;
use generic_visitor::exec::VariantShape;
use generic_visitor::exec::Visitor;
use generic_visitor::exec::drive_iter;
use generic_visitor::exec::drive_iter_mut;
use generic_visitor::exec::validate_table;
use generic_visitor::exec::visit_by_val;
use generic_visitor::exec::visit_by_val_infallible;
use generic_visitor::exec::visit_value;

const LEAF: usize = 0;
const REC: usize = 1;

fn leaf(data: u64) -> Value {
    Value { ty: LEAF, variant: 0, data, fields: vec![] }
}

fn record(fields: Vec<Value>, shape_fields: Vec<FieldShape>, opaque: bool) -> (TypeTable, Value) {
    let table = TypeTable {
        shapes: vec![
            Shape::Leaf,
            Shape::Composite {
                opaque,
                variants: vec![VariantShape { skip: false, fields: shape_fields }],
            },
        ],
    };
    (table, Value { ty: REC, variant: 0, data: 0, fields })
}

fn plain_field() -> FieldShape {
    FieldShape { skip: false, ty: LEAF }
}

#[test]
fn field_order_skips_excluded_fields() {
    // Four fields, the second excluded: the visit calls come in declared
    // order with the excluded field absent.
    let (table, rec) = record(
        vec![leaf(10), leaf(20), leaf(30), leaf(40)],
        vec![plain_field(), FieldShape { skip: true, ty: LEAF }, plain_field(), plain_field()],
        false,
    );
    assert!(validate_table(&table));
    let visitor = Visitor { behaviors: vec![Behavior::Custom, Behavior::Drive], fuel: None };
    let mut out: Vec<Event> = Vec::new();
    let _ = visit_by_val_infallible(visitor, &table, &rec, &mut out);
    let seen: Vec<u64> = out.iter().map(|e| e.data).collect();
    assert_eq!(seen, vec![10, 30, 40]);
}

#[test]
fn short_circuit_stops_the_whole_record() {
    // A three-field record whose second field's visit signals a stop:
    // the third field is never visited and the exit hook never runs.
    let (table, rec) = record(
        vec![leaf(1), leaf(2), leaf(3)],
        vec![plain_field(), plain_field(), plain_field()],
        false,
    );
    let visitor = Visitor { behaviors: vec![Behavior::Custom, Behavior::Both], fuel: Some(1) };
    let mut out: Vec<Event> = Vec::new();
    let r = visit_by_val(visitor, &table, &rec, &mut out);
    assert!(r.is_break());
    let kinds: Vec<(EventKind, u64)> = out.iter().map(|e| (e.kind, e.data)).collect();
    assert_eq!(
        kinds,
        vec![(EventKind::Enter, 0), (EventKind::Call, 1), (EventKind::Call, 2)]
    );
}

#[test]
fn enter_and_exit_pair_up_when_nothing_stops() {
    let (table, rec) =
        record(vec![leaf(5)], vec![plain_field()], false);
    let visitor = Visitor { behaviors: vec![Behavior::Custom, Behavior::Both], fuel: None };
    let mut out: Vec<Event> = Vec::new();
    let _ = visit_by_val_infallible(visitor, &table, &rec, &mut out);
    let kinds: Vec<EventKind> = out.iter().map(|e| e.kind).collect();
    assert_eq!(kinds, vec![EventKind::Enter, EventKind::Call, EventKind::Exit]);
    assert_eq!(out[0].ty, REC);
    assert_eq!(out[2].ty, REC);
}

#[test]
fn infallible_visits_always_return() {
    // A visitor whose short-circuit type is uninhabited completes on any
    // input, a bare leaf and an empty composite included.
    let table = TypeTable {
        shapes: vec![
            Shape::Leaf,
            Shape::Composite {
                opaque: false,
                variants: vec![VariantShape { skip: false, fields: vec![] }],
            },
        ],
    };
    let make = || Visitor {
        behaviors: vec![Behavior::Custom, Behavior::Both],
        fuel: None,
    };
    let mut out: Vec<Event> = Vec::new();
    let v1 = visit_by_val_infallible(make(), &table, &leaf(7), &mut out);
    assert!(v1.fuel.is_none());
    let empty = Value { ty: REC, variant: 0, data: 0, fields: vec![] };
    let v2 = visit_by_val_infallible(make(), &table, &empty, &mut out);
    assert!(v2.fuel.is_none());
    let kinds: Vec<EventKind> = out.iter().map(|e| e.kind).collect();
    assert_eq!(kinds, vec![EventKind::Call, EventKind::Enter, EventKind::Exit]);
}

#[test]
fn opaque_records_are_never_traversed() {
    // An opaque composite with real fields: driving it performs nothing
    // and always completes, even under a visitor eager to stop.
    let (table, rec) = record(
        vec![leaf(1), leaf(2)],
        vec![plain_field(), plain_field()],
        true,
    );
    let mut visitor = Visitor { behaviors: vec![Behavior::Custom, Behavior::Drive], fuel: Some(0) };
    let mut out: Vec<Event> = Vec::new();
    let r = visit_value(&table, &mut visitor, &rec, &mut out);
    assert!(matches!(r, ControlFlow::Continue(())));
    assert!(out.is_empty());
}

#[test]
fn excluded_variants_are_never_traversed() {
    let table = TypeTable {
        shapes: vec![
            Shape::Leaf,
            Shape::Composite {
                opaque: false,
                variants: vec![
                    VariantShape { skip: false, fields: vec![plain_field()] },
                    VariantShape { skip: true, fields: vec![plain_field()] },
                ],
            },
        ],
    };
    let hidden = Value { ty: REC, variant: 1, data: 0, fields: vec![leaf(9)] };
    let mut visitor = Visitor { behaviors: vec![Behavior::Custom, Behavior::Drive], fuel: None };
    let mut out: Vec<Event> = Vec::new();
    let r = visit_value(&table, &mut visitor, &hidden, &mut out);
    assert!(matches!(r, ControlFlow::Continue(())));
    assert!(out.is_empty());
}

#[test]
fn drive_iter_visits_every_element_in_order() {
    let table = TypeTable { shapes: vec![Shape::Leaf] };
    let elems = vec![leaf(3), leaf(1), leaf(4), leaf(1), leaf(5)];
    let mut visitor = Visitor { behaviors: vec![Behavior::Custom], fuel: None };
    let mut out: Vec<Event> = Vec::new();
    let r = drive_iter(&table, &mut visitor, &elems, &mut out);
    assert!(matches!(r, ControlFlow::Continue(())));
    let seen: Vec<u64> = out.iter().map(|e| e.data).collect();
    assert_eq!(seen, vec![3, 1, 4, 1, 5]);

    let mut out2: Vec<Event> = Vec::new();
    let mut visitor2 = Visitor { behaviors: vec![Behavior::Custom], fuel: None };
    let r2 = drive_iter_mut(&table, &mut visitor2, &elems, &mut out2);
    assert!(matches!(r2, ControlFlow::Continue(())));
    assert_eq!(out2, out);
}

#[test]
fn drive_iter_short_circuits_between_elements() {
    let table = TypeTable { shapes: vec![Shape::Leaf] };
    let elems = vec![leaf(3), leaf(1), leaf(4)];
    let mut visitor = Visitor { behaviors: vec![Behavior::Custom], fuel: Some(1) };
    let mut out: Vec<Event> = Vec::new();
    let r = drive_iter(&table, &mut visitor, &elems, &mut out);
    assert!(matches!(r, ControlFlow::Break(())));
    let seen: Vec<u64> = out.iter().map(|e| e.data).collect();
    assert_eq!(seen, vec![3, 1]);
}

#[test]
fn dyn_walks_are_bracketed_and_complete() {
    // The reflection protocol notifies enter, forwards each retained
    // field, then notifies exit — even for an opaque value, whose
    // contents simply do not appear.
    let (table, rec) = record(
        vec![leaf(1), leaf(2)],
        vec![plain_field(), FieldShape { skip: true, ty: LEAF }],
        false,
    );
    let mut adapter = DynVisitorAdapter::wrap(Vec::new());
    drive(&table, &rec, &mut adapter);
    let walk: Vec<(DynEventKind, usize, u64)> =
        adapter.sink.iter().map(|e| (e.kind, e.ty, e.data)).collect();
    assert_eq!(
        walk,
        vec![
            (DynEventKind::Enter, REC, 0),
            (DynEventKind::Enter, LEAF, 1),
            (DynEventKind::Exit, LEAF, 1),
            (DynEventKind::Exit, REC, 0),
        ]
    );

    let (table2, sealed) = record(vec![leaf(8)], vec![plain_field()], true);
    let mut adapter2 = DynVisitorAdapter::wrap(Vec::new());
    drive_mut(&table2, &sealed, &mut adapter2);
    let walk2: Vec<DynEventKind> = adapter2.sink.iter().map(|e| e.kind).collect();
    assert_eq!(walk2, vec![DynEventKind::Enter, DynEventKind::Exit]);
}
