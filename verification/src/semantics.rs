//! A reference semantics for the traversal that generated code performs.
//!
//! Emitted source text only acquires behavior once compiled elsewhere, so
//! the traversal laws are stated and proved here over a model: tree
//! values shaped the way generated code sees them, a visitor that logs
//! every hook call, and executable walks that follow exactly the emitted
//! order — enter hook, children on `Continue`, exit hook in all cases.

use vstd::prelude::*;

use crate::runtime::Control;

verus! {

/// One hook call observed during a traversal.
#[derive(Debug, PartialEq)]
pub enum Event {
    Enter(String),
    Exit(String),
}

/// One field slot of a record value, carrying the definition's ignore
/// marker alongside the runtime value.
#[derive(Debug)]
pub struct FieldVal {
    pub ignored: bool,
    pub value: Value,
}

/// A runtime tree value as generated code sees it: nodes (records, tagged
/// unions, empty records) carry their type name and receive hooks; the
/// three wrapper shapes are transparent and receive none.
#[derive(Debug)]
pub enum Value {
    RecordNode { name: String, fields: Vec<FieldVal> },
    UnionNode { name: String, variant: String, payload: Box<Value> },
    EmptyNode { name: String },
    OptWrapper(Option<Box<Value>>),
    SeqWrapper(Vec<Value>),
    BoxWrapper(Box<Value>),
}

/// Whether the model visitor answers `Break` for this type name.
pub open spec fn breaks_on(brk: Seq<String>, name: Seq<char>) -> bool {
    exists|i: int| 0 <= i < brk.len() && (#[trigger] brk[i])@ == name
}

/// The events of a full traversal of `v` under a visitor that answers
/// `Break` exactly for the names in `brk`: each node contributes its
/// enter event, its children's events unless the enter hook broke, and
/// its exit event, in that order; wrappers contribute only their
/// contents' events.
pub open spec fn trace_of(v: Value, brk: Seq<String>) -> Seq<Event>
    decreases v,
{
    match v {
        Value::RecordNode { name, fields } => seq![Event::Enter(name)] + (if breaks_on(
            brk,
            name@,
        ) {
            Seq::empty()
        } else {
            fields_trace(fields@, brk)
        }) + seq![Event::Exit(name)],
        Value::UnionNode { name, variant, payload } => seq![Event::Enter(name)] + (
        if breaks_on(brk, name@) {
            Seq::empty()
        } else {
            trace_of(*payload, brk)
        }) + seq![Event::Exit(name)],
        Value::EmptyNode { name } => seq![Event::Enter(name), Event::Exit(name)],
        Value::OptWrapper(o) => match o {
            Option::Some(b) => trace_of(*b, brk),
            Option::None => Seq::empty(),
        },
        Value::SeqWrapper(vs) => elems_trace(vs@, brk),
        Value::BoxWrapper(b) => trace_of(*b, brk),
    }
}

/// The events the non-ignored fields of a record contribute, in
/// declaration order; an ignored field contributes none.
pub open spec fn fields_trace(fs: Seq<FieldVal>, brk: Seq<String>) -> Seq<Event>
    decreases fs,
{
    if fs.len() == 0 {
        Seq::empty()
    } else {
        (if fs[0].ignored {
            Seq::empty()
        } else {
            trace_of(fs[0].value, brk)
        }) + fields_trace(fs.skip(1), brk)
    }
}

/// The events the elements of an ordered sequence contribute, in order.
pub open spec fn elems_trace(vs: Seq<Value>, brk: Seq<String>) -> Seq<Event>
    decreases vs,
{
    if vs.len() == 0 {
        Seq::empty()
    } else {
        trace_of(vs[0], brk) + elems_trace(vs.skip(1), brk)
    }
}

/// A model visitor: answers `Break` for the type names listed in
/// `break_on`, `Continue` for every other, and logs every hook call.
pub struct Recorder {
    pub break_on: Vec<String>,
    pub log: Vec<Event>,
}

fn contains_name(names: &Vec<String>, name: &String) -> (r: bool)
    ensures
        r == breaks_on(names@, name@),
{
    let mut i: usize = 0;
    while i < names.len()
        invariant
            i <= names@.len(),
            forall|k: int| 0 <= k < i ==> (#[trigger] names@[k])@ != name@,
        decreases names@.len() - i,
    {
        let hit = names[i] == *name;
        if hit {
            proof {
                assert((names@[i as int])@ == name@);
            }
            return true;
        }
        i = i + 1;
    }
    false
}

impl Recorder {
    /// The enter hook: logs the call and answers the control signal.
    fn enter(&mut self, name: &String) -> (c: Control)
        ensures
            final(self).log@ == old(self).log@.push(Event::Enter(*name)),
            final(self).break_on == old(self).break_on,
            c == (if breaks_on(old(self).break_on@, name@) {
                Control::Break
            } else {
                Control::Continue
            }),
    {
        self.log.push(Event::Enter(name.clone()));
        if contains_name(&self.break_on, name) {
            Control::Break
        } else {
            Control::Continue
        }
    }

    /// The exit hook: logs the call; it has no return value.
    fn exit(&mut self, name: &String)
        ensures
            final(self).log@ == old(self).log@.push(Event::Exit(*name)),
            final(self).break_on == old(self).break_on,
    {
        self.log.push(Event::Exit(name.clone()));
    }
}

proof fn lemma_fields_trace_take_step(fs: Seq<FieldVal>, brk: Seq<String>, i: int)
    requires
        0 <= i < fs.len(),
    ensures
        fields_trace(fs.take(i + 1), brk) == fields_trace(fs.take(i), brk) + (if fs[i].ignored {
            Seq::<Event>::empty()
        } else {
            trace_of(fs[i].value, brk)
        }),
    decreases i,
{
    if i == 0 {
        assert(fs.take(1).skip(1) =~= Seq::<FieldVal>::empty());
        assert(fs.take(0) =~= Seq::<FieldVal>::empty());
        assert(fs.take(1)[0] == fs[0]);
        assert(fields_trace(fs.take(1), brk) =~= fields_trace(fs.take(0), brk) + (
        if fs[0].ignored {
            Seq::<Event>::empty()
        } else {
            trace_of(fs[0].value, brk)
        }));
    } else {
        lemma_fields_trace_take_step(fs.skip(1), brk, i - 1);
        assert(fs.take(i + 1).skip(1) =~= fs.skip(1).take(i));
        assert(fs.take(i).skip(1) =~= fs.skip(1).take(i - 1));
        assert(fs.take(i + 1)[0] == fs[0]);
        assert(fs.take(i)[0] == fs[0]);
        assert(fs.skip(1)[i - 1] == fs[i]);
        let head = if fs[0].ignored {
            Seq::<Event>::empty()
        } else {
            trace_of(fs[0].value, brk)
        };
        let last = if fs[i].ignored {
            Seq::<Event>::empty()
        } else {
            trace_of(fs[i].value, brk)
        };
        assert(head + (fields_trace(fs.skip(1).take(i - 1), brk) + last) =~= (head + fields_trace(
            fs.skip(1).take(i - 1),
            brk,
        )) + last);
    }
}

proof fn lemma_elems_trace_take_step(vs: Seq<Value>, brk: Seq<String>, i: int)
    requires
        0 <= i < vs.len(),
    ensures
        elems_trace(vs.take(i + 1), brk) == elems_trace(vs.take(i), brk) + trace_of(vs[i], brk),
    decreases i,
{
    if i == 0 {
        assert(vs.take(1).skip(1) =~= Seq::<Value>::empty());
        assert(vs.take(0) =~= Seq::<Value>::empty());
        assert(vs.take(1)[0] == vs[0]);
        assert(elems_trace(vs.take(1), brk) =~= elems_trace(vs.take(0), brk) + trace_of(
            vs[0],
            brk,
        ));
    } else {
        lemma_elems_trace_take_step(vs.skip(1), brk, i - 1);
        assert(vs.take(i + 1).skip(1) =~= vs.skip(1).take(i));
        assert(vs.take(i).skip(1) =~= vs.skip(1).take(i - 1));
        assert(vs.take(i + 1)[0] == vs[0]);
        assert(vs.take(i)[0] == vs[0]);
        assert(vs.skip(1)[i - 1] == vs[i]);
        assert(trace_of(vs[0], brk) + (elems_trace(vs.skip(1).take(i - 1), brk) + trace_of(
            vs[i],
            brk,
        )) =~= (trace_of(vs[0], brk) + elems_trace(vs.skip(1).take(i - 1), brk)) + trace_of(
            vs[i],
            brk,
        ));
    }
}

/// Perform the read-only traversal of `value`, calling the visitor's
/// hooks exactly as generated code does: the enter hook first, the
/// children only when it answered `Continue`, and the exit hook in all
/// cases.
pub fn traverse(value: &Value, vis: &mut Recorder)
    ensures
        final(vis).log@ == old(vis).log@ + trace_of(*value, old(vis).break_on@),
        final(vis).break_on == old(vis).break_on,
    decreases *value,
{
    match value {
        Value::RecordNode { name, fields } => {
            let c = vis.enter(name);
            if c == Control::Continue {
                let ghost mid = vis.log@;
                let mut i: usize = 0;
                while i < fields.len()
                    invariant
                        i <= fields@.len(),
                        *value == (Value::RecordNode { name: *name, fields: *fields }),
                        vis.log@ == mid + fields_trace(
                            fields@.take(i as int),
                            old(vis).break_on@,
                        ),
                        vis.break_on == old(vis).break_on,
                    decreases fields@.len() - i,
                {
                    if !fields[i].ignored {
                        proof {
                            assert(*value == Value::RecordNode { name: *name, fields: *fields });
                            assert(decreases_to!(*value => value->RecordNode_fields@[i as int].value));
                        }
                        traverse(&fields[i].value, vis);
                    }
                    proof {
                        lemma_fields_trace_take_step(fields@, old(vis).break_on@, i as int);
                    }
                    i = i + 1;
                }
                proof {
                    assert(fields@.take(fields@.len() as int) =~= fields@);
                }
            }
            vis.exit(name);
            proof {
                assert(vis.log@ =~= old(vis).log@ + trace_of(*value, old(vis).break_on@));
            }
        },
        Value::UnionNode { name, variant, payload } => {
            let c = vis.enter(name);
            if c == Control::Continue {
                proof {
                    assert(*value == Value::UnionNode { name: *name, variant: *variant, payload: *payload });
                    assert(decreases_to!(*value => value->UnionNode_payload));
                }
                traverse(payload, vis);
            }
            vis.exit(name);
            proof {
                assert(vis.log@ =~= old(vis).log@ + trace_of(*value, old(vis).break_on@));
            }
        },
        Value::EmptyNode { name } => {
            let c = vis.enter(name);
            if c == Control::Continue {
            }
            vis.exit(name);
            proof {
                assert(vis.log@ =~= old(vis).log@ + trace_of(*value, old(vis).break_on@));
            }
        },
        Value::OptWrapper(o) => {
            match o {
                Option::Some(b) => {
                    proof {
                        assert(*value == Value::OptWrapper(Option::Some(*b)));
                        assert(decreases_to!(*value => value->OptWrapper_0->Some_0));
                    }
                    traverse(b, vis);
                },
                Option::None => {
                    proof {
                        assert(vis.log@ =~= old(vis).log@ + trace_of(
                            *value,
                            old(vis).break_on@,
                        ));
                    }
                },
            }
        },
        Value::SeqWrapper(vs) => {
            let ghost start = vis.log@;
            let mut i: usize = 0;
            while i < vs.len()
                invariant
                    i <= vs@.len(),
                    *value == Value::SeqWrapper(*vs),
                    vis.log@ == start + elems_trace(vs@.take(i as int), old(vis).break_on@),
                    vis.break_on == old(vis).break_on,
                decreases vs@.len() - i,
            {
                proof {
                    assert(*value == Value::SeqWrapper(*vs));
                    assert(decreases_to!(*value => value->SeqWrapper_0@[i as int]));
                }
                traverse(&vs[i], vis);
                proof {
                    lemma_elems_trace_take_step(vs@, old(vis).break_on@, i as int);
                }
                i = i + 1;
            }
            proof {
                assert(vs@.take(vs@.len() as int) =~= vs@);
            }
        },
        Value::BoxWrapper(b) => {
            proof {
                assert(*value == Value::BoxWrapper(*b));
                assert(decreases_to!(*value => value->BoxWrapper_0));
            }
            traverse(b, vis);
        },
    }
}

/// Structural equality of two tree values: same shapes, names, variant
/// tags and ignore markers throughout, with sequence contents compared
/// element by element.
pub open spec fn matches_value(a: Value, b: Value) -> bool
    decreases a,
{
    match (a, b) {
        (
            Value::RecordNode { name: n1, fields: f1 },
            Value::RecordNode { name: n2, fields: f2 },
        ) => n1 == n2 && f1@.len() == f2@.len() && (forall|i: int|
            0 <= i < f1@.len() ==> (#[trigger] f1@[i]).ignored == f2@[i].ignored && matches_value(
                f1@[i].value,
                f2@[i].value,
            )),
        (
            Value::UnionNode { name: n1, variant: v1, payload: p1 },
            Value::UnionNode { name: n2, variant: v2, payload: p2 },
        ) => n1 == n2 && v1 == v2 && matches_value(*p1, *p2),
        (Value::EmptyNode { name: n1 }, Value::EmptyNode { name: n2 }) => n1 == n2,
        (Value::OptWrapper(o1), Value::OptWrapper(o2)) => match (o1, o2) {
            (Option::Some(b1), Option::Some(b2)) => matches_value(*b1, *b2),
            (Option::None, Option::None) => true,
            _ => false,
        },
        (Value::SeqWrapper(v1), Value::SeqWrapper(v2)) => v1@.len() == v2@.len() && (forall|
            i: int,
        |
            0 <= i < v1@.len() ==> matches_value(#[trigger] v1@[i], v2@[i])),
        (Value::BoxWrapper(b1), Value::BoxWrapper(b2)) => matches_value(*b1, *b2),
        _ => false,
    }
}

proof fn lemma_matches_value_refl(v: Value)
    ensures
        matches_value(v, v),
    decreases v,
{
    match v {
        Value::RecordNode { name, fields } => {
            assert forall|i: int| 0 <= i < fields@.len() implies (#[trigger] fields@[i]).ignored
                == fields@[i].ignored && matches_value(fields@[i].value, fields@[i].value) by {
                lemma_matches_value_refl(fields@[i].value);
            }
        },
        Value::UnionNode { name, variant, payload } => {
            lemma_matches_value_refl(*payload);
        },
        Value::EmptyNode { name } => {
        },
        Value::OptWrapper(o) => {
            match o {
                Option::Some(b) => {
                    lemma_matches_value_refl(*b);
                },
                Option::None => {
                },
            }
        },
        Value::SeqWrapper(vs) => {
            assert forall|i: int| 0 <= i < vs@.len() implies matches_value(
                #[trigger] vs@[i],
                vs@[i],
            ) by {
                lemma_matches_value_refl(vs@[i]);
            }
        },
        Value::BoxWrapper(b) => {
            lemma_matches_value_refl(*b);
        },
    }
}

/// Perform the mutable traversal of `value`.
///
/// Law (mode symmetry): the mutable walk calls the hooks in exactly the
/// order the read-only walk does — its event log extension is the very
/// same `trace_of` — and differs only in handing each child out by
/// mutable reference. The model visitor rewrites nothing, so the tree
/// keeps its structure.
pub fn traverse_mut(value: &mut Value, vis: &mut Recorder)
    ensures
        final(vis).log@ == old(vis).log@ + trace_of(*old(value), old(vis).break_on@),
        final(vis).break_on == old(vis).break_on,
        matches_value(*final(value), *old(value)),
    decreases *old(value),
{
    match value {
        Value::RecordNode { name, fields } => {
            let c = vis.enter(name);
            if c == Control::Continue {
                let ghost mid = vis.log@;
                let ghost fields0 = old(value)->RecordNode_fields@;
                let mut i: usize = 0;
                while i < fields.len()
                    invariant
                        i <= fields@.len(),
                        *old(value) is RecordNode,
                        fields0 == old(value)->RecordNode_fields@,
                        fields@.len() == fields0.len(),
                        forall|k: int| i <= k < fields0.len() ==> #[trigger] fields@[k]
                            == fields0[k],
                        forall|k: int| 0 <= k < i ==> (#[trigger] fields@[k]).ignored
                            == fields0[k].ignored && matches_value(
                            fields@[k].value,
                            fields0[k].value,
                        ),
                        vis.log@ == mid + fields_trace(
                            fields0.take(i as int),
                            old(vis).break_on@,
                        ),
                        vis.break_on == old(vis).break_on,
                    decreases fields@.len() - i,
                {
                    if !fields[i].ignored {
                        proof {
                            assert(decreases_to!(*old(value) => old(
                                value,
                            )->RecordNode_fields@[i as int].value));
                            assert(fields@[i as int].value == fields0[i as int].value);
                        }
                        traverse_mut(&mut fields[i].value, vis);
                    }
                    proof {
                        lemma_fields_trace_take_step(fields0, old(vis).break_on@, i as int);
                        if fields0[i as int].ignored {
                            lemma_matches_value_refl(fields@[i as int].value);
                        }
                    }
                    i = i + 1;
                }
                proof {
                    assert(fields0.take(fields0.len() as int) =~= fields0);
                }
            } else {
                proof {
                    lemma_matches_value_refl(*old(value));
                }
            }
            vis.exit(name);
            proof {
                assert(vis.log@ =~= old(vis).log@ + trace_of(*old(value), old(vis).break_on@));
            }
        },
        Value::UnionNode { name, variant, payload } => {
            let c = vis.enter(name);
            if c == Control::Continue {
                proof {
                    assert(*old(value) == Value::UnionNode {
                        name: *name,
                        variant: *variant,
                        payload: *payload,
                    });
                    assert(decreases_to!(*old(value) => old(value)->UnionNode_payload));
                }
                traverse_mut(payload, vis);
            } else {
                proof {
                    lemma_matches_value_refl(**payload);
                }
            }
            vis.exit(name);
            proof {
                assert(vis.log@ =~= old(vis).log@ + trace_of(*old(value), old(vis).break_on@));
            }
        },
        Value::EmptyNode { name } => {
            let c = vis.enter(name);
            if c == Control::Continue {
            }
            vis.exit(name);
            proof {
                lemma_matches_value_refl(*old(value));
                assert(vis.log@ =~= old(vis).log@ + trace_of(*old(value), old(vis).break_on@));
            }
        },
        Value::OptWrapper(o) => {
            match o {
                Option::Some(b) => {
                    proof {
                        assert(*old(value) == Value::OptWrapper(Option::Some(*b)));
                        assert(decreases_to!(*old(value) => old(value)->OptWrapper_0->Some_0));
                    }
                    traverse_mut(b, vis);
                },
                Option::None => {
                    proof {
                        lemma_matches_value_refl(*old(value));
                    }
                },
            }
        },
        Value::SeqWrapper(vs) => {
            let ghost start = vis.log@;
            let ghost elems0 = old(value)->SeqWrapper_0@;
            let mut i: usize = 0;
            while i < vs.len()
                invariant
                    i <= vs@.len(),
                    *old(value) is SeqWrapper,
                    elems0 == old(value)->SeqWrapper_0@,
                    vs@.len() == elems0.len(),
                    forall|k: int| i <= k < elems0.len() ==> #[trigger] vs@[k] == elems0[k],
                    forall|k: int| 0 <= k < i ==> matches_value(#[trigger] vs@[k], elems0[k]),
                    vis.log@ == start + elems_trace(elems0.take(i as int), old(vis).break_on@),
                    vis.break_on == old(vis).break_on,
                decreases vs@.len() - i,
            {
                proof {
                    assert(decreases_to!(*old(value) => old(value)->SeqWrapper_0@[i as int]));
                    assert(vs@[i as int] == elems0[i as int]);
                }
                traverse_mut(&mut vs[i], vis);
                proof {
                    lemma_elems_trace_take_step(elems0, old(vis).break_on@, i as int);
                }
                i = i + 1;
            }
            proof {
                assert(elems0.take(elems0.len() as int) =~= elems0);
            }
        },
        Value::BoxWrapper(b) => {
            proof {
                assert(*old(value) == Value::BoxWrapper(*b));
                assert(decreases_to!(*old(value) => old(value)->BoxWrapper_0));
            }
            traverse_mut(b, vis);
        },
    }
}

/// The type name of a node value (meaningful for the three node shapes).
pub open spec fn node_name(v: Value) -> String {
    match v {
        Value::RecordNode { name, fields } => name,
        Value::UnionNode { name, variant, payload } => name,
        Value::EmptyNode { name } => name,
        Value::OptWrapper(o) => arbitrary(),
        Value::SeqWrapper(vs) => arbitrary(),
        Value::BoxWrapper(b) => arbitrary(),
    }
}

/// Whether a value is a node — a shape that carries a type name and
/// receives hooks — rather than a transparent wrapper.
pub open spec fn is_node(v: Value) -> bool {
    v is RecordNode || v is UnionNode || v is EmptyNode
}

/// The events a node's children contribute when descent happens.
pub open spec fn children_trace(v: Value, brk: Seq<String>) -> Seq<Event> {
    match v {
        Value::RecordNode { name, fields } => fields_trace(fields@, brk),
        Value::UnionNode { name, variant, payload } => trace_of(*payload, brk),
        _ => Seq::empty(),
    }
}

/// Law: every visited node's events are framed by exactly one enter event
/// first and exactly one exit event last; the children's events stand in
/// between when the enter hook answered `Continue`, and are absent when
/// it answered `Break`. The exit event is there unconditionally.
pub proof fn lemma_enter_exit_frame(v: Value, brk: Seq<String>)
    requires
        is_node(v),
    ensures
        trace_of(v, brk) == seq![Event::Enter(node_name(v))] + (if breaks_on(
            brk,
            node_name(v)@,
        ) {
            Seq::<Event>::empty()
        } else {
            children_trace(v, brk)
        }) + seq![Event::Exit(node_name(v))],
{
    if v is EmptyNode {
        assert(seq![Event::Enter(node_name(v))] + Seq::<Event>::empty() + seq![
            Event::Exit(node_name(v)),
        ] =~= seq![Event::Enter(node_name(v)), Event::Exit(node_name(v))]);
    }
}

/// Law: `Break` suppresses descent — when the enter hook answers `Break`
/// for a node, no child of that node is visited, yet the exit hook still
/// fires: the node contributes exactly its enter and exit events.
pub proof fn lemma_break_suppresses_descent(v: Value, brk: Seq<String>)
    requires
        is_node(v),
        breaks_on(brk, node_name(v)@),
    ensures
        trace_of(v, brk) == seq![Event::Enter(node_name(v)), Event::Exit(node_name(v))],
{
    lemma_enter_exit_frame(v, brk);
    assert(seq![Event::Enter(node_name(v))] + Seq::<Event>::empty() + seq![
        Event::Exit(node_name(v)),
    ] =~= seq![Event::Enter(node_name(v)), Event::Exit(node_name(v))]);
}

/// Law: tagged-union exclusivity — traversal of a tagged-union value
/// descends into exactly one payload, the one the runtime tag selected,
/// never zero and never more than one.
pub proof fn lemma_union_exclusive(
    name: String,
    variant: String,
    payload: Box<Value>,
    brk: Seq<String>,
)
    requires
        !breaks_on(brk, name@),
    ensures
        trace_of(Value::UnionNode { name, variant, payload }, brk) == seq![
            Event::Enter(name),
        ] + trace_of(*payload, brk) + seq![Event::Exit(name)],
{
}

/// Law: empty-shape no-op — traversing an empty record invokes enter and
/// then exit, with no child visit in between.
pub proof fn lemma_empty_shape_noop(name: String, brk: Seq<String>)
    ensures
        trace_of(Value::EmptyNode { name }, brk) == seq![
            Event::Enter(name),
            Event::Exit(name),
        ],
{
}

/// Law: wrapper transparency — an empty optional wrapper contributes no
/// events; a full one contributes exactly its single content's events;
/// the exclusive-ownership indirection is invisible.
pub proof fn lemma_wrapper_transparent(b: Box<Value>, brk: Seq<String>)
    ensures
        trace_of(Value::OptWrapper(Option::None), brk) == Seq::<Event>::empty(),
        trace_of(Value::OptWrapper(Option::Some(b)), brk) == trace_of(*b, brk),
        trace_of(Value::BoxWrapper(b), brk) == trace_of(*b, brk),
{
}

/// Law: wrapper transparency for sequences — the elements of an ordered
/// sequence contribute their events in order, each exactly once: the
/// trace of a sequence splits at every index into the traces of the
/// prefix and of the suffix, and a sequence of length zero contributes
/// nothing.
pub proof fn lemma_seq_wrapper_in_order(vs: Seq<Value>, brk: Seq<String>, i: int)
    requires
        0 <= i <= vs.len(),
    ensures
        elems_trace(vs, brk) == elems_trace(vs.take(i), brk) + elems_trace(vs.skip(i), brk),
        elems_trace(Seq::<Value>::empty(), brk) == Seq::<Event>::empty(),
    decreases i,
{
    if i == 0 {
        assert(vs.take(0) =~= Seq::<Value>::empty());
        assert(vs.skip(0) =~= vs);
        assert(elems_trace(vs.take(0), brk) + elems_trace(vs, brk) =~= elems_trace(vs, brk));
    } else {
        lemma_seq_wrapper_in_order(vs, brk, i - 1);
        lemma_elems_trace_take_step(vs, brk, i - 1);
        assert(vs.skip(i - 1).skip(1) =~= vs.skip(i));
        assert(vs.skip(i - 1)[0] == vs[i - 1]);
        assert(elems_trace(vs.skip(i - 1), brk) == trace_of(vs[i - 1], brk) + elems_trace(
            vs.skip(i),
            brk,
        ));
        assert((elems_trace(vs.take(i - 1), brk) + trace_of(vs[i - 1], brk)) + elems_trace(
            vs.skip(i),
            brk,
        ) =~= elems_trace(vs.take(i - 1), brk) + (trace_of(vs[i - 1], brk) + elems_trace(
            vs.skip(i),
            brk,
        )));
    }
}

} // verus!
