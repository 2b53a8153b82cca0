use generic_visitor::exec::Behavior;
use generic_visitor::exec::Event;
use generic_visitor::exec::EventKind;
use generic_visitor::exec::FieldShape;
use generic_visitor::exec::Shape;
use generic_visitor::exec::TypeTable;
use generic_visitor::exec::Value;
use generic_visitor::exec::VariantShape;
use generic_visitor::exec::Visitor;
use generic_visitor::exec::validate_table;
use generic_visitor::exec::visit_by_val_infallible;

fn leaf(ty: usize, data: u64) -> Value {
    Value { ty, variant: 0, data, fields: Vec::new() }
}

fn node(ty: usize, variant: usize, data: u64, fields: Vec<Value>) -> Value {
    Value { ty, variant, data, fields }
}

fn field(ty: usize) -> FieldShape {
    FieldShape { skip: false, ty }
}

fn struct_shape(fields: Vec<FieldShape>) -> Shape {
    Shape::Composite { opaque: false, variants: vec![VariantShape { skip: false, fields }] }
}

#[test]
fn visitable_group_infaillible_visitable_group() {
    // Id(String); Expr = Literal(usize) | Let { lhs: Pat, rhs: Box<Expr>,
    // body: Box<Expr> }; Pat = Var(Id).
    const USIZE: usize = 0;
    const STRING: usize = 1;
    const BOX_EXPR: usize = 2;
    const EXPR: usize = 3;
    const PAT: usize = 4;
    const ID: usize = 5;
    let table = TypeTable {
        shapes: vec![
            Shape::Leaf,
            Shape::Leaf,
            struct_shape(vec![field(EXPR)]),
            Shape::Composite {
                opaque: false,
                variants: vec![
                    VariantShape { skip: false, fields: vec![field(USIZE)] },
                    VariantShape {
                        skip: false,
                        fields: vec![field(PAT), field(BOX_EXPR), field(BOX_EXPR)],
                    },
                ],
            },
            Shape::Composite {
                opaque: false,
                variants: vec![VariantShape { skip: false, fields: vec![field(ID)] }],
            },
            struct_shape(vec![field(STRING)]),
        ],
    };
    assert!(validate_table(&table));

    let greeting = "hello";
    let expr = node(
        EXPR,
        1,
        0,
        vec![
            node(PAT, 0, 0, vec![node(ID, 0, 0, vec![leaf(STRING, greeting.len() as u64)])]),
            node(BOX_EXPR, 0, 0, vec![node(EXPR, 0, 12, vec![leaf(USIZE, 12)])]),
            node(BOX_EXPR, 0, 0, vec![node(EXPR, 0, 30, vec![leaf(USIZE, 30)])]),
        ],
    );

    // skip(usize, String), drive(Box<_>), override(Pat, Expr),
    // override_skip(Id): an infallible visitor whose only override is the
    // enter hook on expressions, summing the literals.
    let visitor = Visitor {
        behaviors: vec![
            Behavior::Skip,
            Behavior::Skip,
            Behavior::Drive,
            Behavior::Both,
            Behavior::Both,
            Behavior::Skip,
        ],
        fuel: None,
    };
    let mut out: Vec<Event> = Vec::new();
    let _ = visit_by_val_infallible(visitor, &table, &expr, &mut out);
    let sum: u64 = out
        .iter()
        .filter(|e| e.kind == EventKind::Enter && e.ty == EXPR && e.variant == 0)
        .map(|e| e.data)
        .sum();
    assert!(sum == 42);
}
