use generic_visitor::exec::FieldShape;
use generic_visitor::exec::Shape;
use generic_visitor::exec::TypeTable;
use generic_visitor::exec::Value;
use generic_visitor::exec::VariantShape;
use generic_visitor::layered::GroupBehavior;
use generic_visitor::layered::LEvent;
use generic_visitor::layered::LHookKind;
use generic_visitor::layered::LayerHooks;
use generic_visitor::layered::layered_run;

// List = Nil | Cons(Node), Node { val: u32 (excluded), next: Box<List> }
const U32: usize = 0;
const LIST: usize = 1;
const NODE: usize = 2;
const BOX_LIST: usize = 3;

fn list_table() -> TypeTable {
    TypeTable {
        shapes: vec![
            Shape::Leaf,
            Shape::Composite {
                opaque: false,
                variants: vec![
                    VariantShape { skip: false, fields: vec![] },
                    VariantShape {
                        skip: false,
                        fields: vec![FieldShape { skip: false, ty: NODE }],
                    },
                ],
            },
            Shape::Composite {
                opaque: false,
                variants: vec![VariantShape {
                    skip: false,
                    fields: vec![
                        FieldShape { skip: true, ty: U32 },
                        FieldShape { skip: false, ty: BOX_LIST },
                    ],
                }],
            },
            Shape::Composite {
                opaque: false,
                variants: vec![VariantShape {
                    skip: false,
                    fields: vec![FieldShape { skip: false, ty: LIST }],
                }],
            },
        ],
    }
}

fn nil() -> Value {
    Value { ty: LIST, variant: 0, data: 0, fields: vec![] }
}

fn cons(list: Value, val: u64) -> Value {
    let next = Value { ty: BOX_LIST, variant: 0, data: 0, fields: vec![list] };
    let cell = Value {
        ty: NODE,
        variant: 0,
        data: val,
        fields: vec![Value { ty: U32, variant: 0, data: val, fields: vec![] }, next],
    };
    Value { ty: LIST, variant: 1, data: 0, fields: vec![cell] }
}

fn from_list(slice: &[u64]) -> Value {
    let mut ret = nil();
    for x in slice.iter().copied().rev() {
        ret = cons(ret, x);
    }
    ret
}

fn node_hooks(enter: bool, exit: bool) -> LayerHooks {
    LayerHooks {
        enters: vec![false, false, enter, false],
        exits: vec![false, false, exit, false],
    }
}

#[test]
fn visitable_group_wrapper_test_visitor_wrapper() {
    // A depth-tracking wrapper around a sum-tracking wrapper around a
    // base visitor whose node override adds the node's value weighted by
    // the current depth.
    let table = list_table();
    let gb = vec![GroupBehavior::Skip, GroupBehavior::Drive, GroupBehavior::Hooked,
        GroupBehavior::Drive];
    let layers = vec![node_hooks(true, true), node_hooks(true, false), node_hooks(true, false)];

    let slice: &[u64] = &[0, 1, 2, 3, 4, 5, 6];
    let list = from_list(slice);
    let mut out: Vec<LEvent> = Vec::new();
    layered_run(&table, &gb, &layers, &list, &mut out);

    let mut depth: u64 = 0;
    let mut sum: u64 = 0;
    let mut total: u64 = 0;
    for e in &out {
        match (e.layer, e.kind) {
            (0, LHookKind::Enter) => depth += 1,
            (0, LHookKind::Exit) => depth -= 1,
            (1, LHookKind::Enter) => sum += e.data,
            (2, LHookKind::Enter) => total += e.data * depth,
            _ => {}
        }
    }
    assert_eq!(sum, slice.iter().sum::<u64>());
    assert_eq!(
        total,
        slice.iter().enumerate().map(|(i, val)| (i as u64 + 1) * val).sum::<u64>()
    );
}
