use visit::semantics::traverse;
use visit::semantics::traverse_mut;
use visit::semantics::Event;
use visit::semantics::FieldVal;
use visit::semantics::Recorder;
use visit::semantics::Value;

fn leaf(name: &str) -> Value {
    Value::EmptyNode { name: name.to_string() }
}

fn field(value: Value) -> FieldVal {
    FieldVal { ignored: false, value }
}

fn ignored(value: Value) -> FieldVal {
    FieldVal { ignored: true, value }
}

fn enter(name: &str) -> Event {
    Event::Enter(name.to_string())
}

fn exit(name: &str) -> Event {
    Event::Exit(name.to_string())
}

fn recorder() -> Recorder {
    Recorder { break_on: vec![], log: vec![] }
}

fn breaking_on(name: &str) -> Recorder {
    Recorder { break_on: vec![name.to_string()], log: vec![] }
}

fn point_value() -> Value {
    Value::RecordNode {
        name: "Point".to_string(),
        fields: vec![field(leaf("X")), field(leaf("Y")), ignored(leaf("DebugLabel"))],
    }
}

#[test]
fn enter_then_children_then_exit() {
    let mut rec = recorder();
    traverse(&point_value(), &mut rec);
    assert_eq!(
        rec.log,
        vec![
            enter("Point"),
            enter("X"),
            exit("X"),
            enter("Y"),
            exit("Y"),
            exit("Point"),
        ],
    );
}

#[test]
fn exit_fires_even_on_break() {
    let mut rec = breaking_on("Point");
    traverse(&point_value(), &mut rec);
    assert_eq!(rec.log, vec![enter("Point"), exit("Point")]);
}

#[test]
fn break_applies_only_to_the_named_node() {
    let tree = Value::RecordNode {
        name: "Outer".to_string(),
        fields: vec![field(Value::RecordNode {
            name: "Inner".to_string(),
            fields: vec![field(leaf("Leaf"))],
        })],
    };
    let mut rec = breaking_on("Inner");
    traverse(&tree, &mut rec);
    assert_eq!(
        rec.log,
        vec![
            enter("Outer"),
            enter("Inner"),
            exit("Inner"),
            exit("Outer"),
        ],
    );
}

#[test]
fn union_descends_into_exactly_one_payload() {
    let shape = Value::UnionNode {
        name: "Shape".to_string(),
        variant: "Square".to_string(),
        payload: Box::new(leaf("SquarePayload")),
    };
    let mut rec = recorder();
    traverse(&shape, &mut rec);
    assert_eq!(
        rec.log,
        vec![
            enter("Shape"),
            enter("SquarePayload"),
            exit("SquarePayload"),
            exit("Shape"),
        ],
    );
}

#[test]
fn empty_record_is_enter_then_exit() {
    let mut rec = recorder();
    traverse(&leaf("Unit"), &mut rec);
    assert_eq!(rec.log, vec![enter("Unit"), exit("Unit")]);
}

#[test]
fn empty_optional_wrapper_contributes_nothing() {
    let tree = Value::RecordNode {
        name: "Holder".to_string(),
        fields: vec![field(Value::OptWrapper(None))],
    };
    let mut rec = recorder();
    traverse(&tree, &mut rec);
    assert_eq!(rec.log, vec![enter("Holder"), exit("Holder")]);
}

#[test]
fn full_optional_wrapper_contributes_exactly_one_visit() {
    let tree = Value::OptWrapper(Some(Box::new(leaf("Inner"))));
    let mut rec = recorder();
    traverse(&tree, &mut rec);
    assert_eq!(rec.log, vec![enter("Inner"), exit("Inner")]);
}

#[test]
fn sequence_wrapper_visits_every_element_in_order() {
    let tree = Value::SeqWrapper(vec![leaf("A"), leaf("B"), leaf("C")]);
    let mut rec = recorder();
    traverse(&tree, &mut rec);
    assert_eq!(
        rec.log,
        vec![enter("A"), exit("A"), enter("B"), exit("B"), enter("C"), exit("C")],
    );
}

#[test]
fn empty_sequence_wrapper_contributes_nothing() {
    let tree = Value::SeqWrapper(vec![]);
    let mut rec = recorder();
    traverse(&tree, &mut rec);
    assert_eq!(rec.log, vec![]);
}

#[test]
fn ownership_indirection_is_invisible() {
    let tree = Value::BoxWrapper(Box::new(leaf("Pointee")));
    let mut rec = recorder();
    traverse(&tree, &mut rec);
    assert_eq!(rec.log, vec![enter("Pointee"), exit("Pointee")]);
}

#[test]
fn composed_wrappers_are_transparent() {
    // an optional ordered-sequence of exclusively-owned nodes
    let tree = Value::OptWrapper(Some(Box::new(Value::SeqWrapper(vec![
        Value::BoxWrapper(Box::new(leaf("N1"))),
        Value::BoxWrapper(Box::new(leaf("N2"))),
    ]))));
    let mut rec = recorder();
    traverse(&tree, &mut rec);
    assert_eq!(
        rec.log,
        vec![enter("N1"), exit("N1"), enter("N2"), exit("N2")],
    );
}

#[test]
fn both_modes_visit_identically() {
    let mut ro = recorder();
    traverse(&point_value(), &mut ro);

    let mut tree = point_value();
    let mut mu = recorder();
    traverse_mut(&mut tree, &mut mu);

    assert_eq!(ro.log, mu.log);
}

#[test]
fn both_modes_break_identically() {
    let shape = Value::UnionNode {
        name: "Shape".to_string(),
        variant: "Circle".to_string(),
        payload: Box::new(leaf("CirclePayload")),
    };
    let mut ro = breaking_on("Shape");
    traverse(&shape, &mut ro);

    let mut tree = Value::UnionNode {
        name: "Shape".to_string(),
        variant: "Circle".to_string(),
        payload: Box::new(leaf("CirclePayload")),
    };
    let mut mu = breaking_on("Shape");
    traverse_mut(&mut tree, &mut mu);

    assert_eq!(ro.log, mu.log);
    assert_eq!(ro.log, vec![enter("Shape"), exit("Shape")]);
}

#[test]
fn ignored_fields_are_never_visited() {
    let tree = Value::RecordNode {
        name: "R".to_string(),
        fields: vec![ignored(leaf("A")), ignored(leaf("B"))],
    };
    let mut rec = recorder();
    traverse(&tree, &mut rec);
    assert_eq!(rec.log, vec![enter("R"), exit("R")]);
}
