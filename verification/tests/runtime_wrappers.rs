use std::cell::Cell;

use visit::Control;
use visit::Visit;

struct Leaf {
    hits: Cell<u32>,
    count: u32,
}

fn leaf() -> Leaf {
    Leaf { hits: Cell::new(0), count: 0 }
}

impl Visit for Leaf {
    fn visit<'ast, V>(&'ast self, _v: &mut V) {
        self.hits.set(self.hits.get() + 1);
    }

    fn visit_mut<V>(&mut self, _v: &mut V) {
        self.count += 1;
    }
}

#[test]
fn control_signal_equality() {
    assert_eq!(Control::Continue, Control::Continue);
    assert_ne!(Control::Continue, Control::Break);
}

#[test]
fn box_passthrough_visits_contents() {
    let boxed = Box::new(leaf());
    let mut visitor = ();
    boxed.visit(&mut visitor);
    assert_eq!(boxed.hits.get(), 1);
}

#[test]
fn box_passthrough_visits_contents_mutably() {
    let mut boxed = Box::new(leaf());
    let mut visitor = ();
    boxed.visit_mut(&mut visitor);
    assert_eq!(boxed.count, 1);
}

#[test]
fn empty_option_is_a_no_op() {
    let none: Option<Leaf> = None;
    let mut visitor = ();
    none.visit(&mut visitor);

    let mut none_mut: Option<Leaf> = None;
    none_mut.visit_mut(&mut visitor);
    assert!(none_mut.is_none());
}

#[test]
fn empty_option_leaves_the_visitor_untouched() {
    let none: Option<Leaf> = None;
    let mut visitor: u32 = 7;
    none.visit(&mut visitor);
    assert_eq!(visitor, 7);

    let mut none_mut: Option<Leaf> = None;
    none_mut.visit_mut(&mut visitor);
    assert_eq!(visitor, 7);
}

#[test]
fn empty_vec_leaves_the_visitor_untouched() {
    let elems: Vec<Leaf> = vec![];
    let mut visitor: u32 = 7;
    elems.visit(&mut visitor);
    assert_eq!(visitor, 7);

    let mut elems_mut: Vec<Leaf> = vec![];
    elems_mut.visit_mut(&mut visitor);
    assert_eq!(visitor, 7);
    assert_eq!(elems_mut.len(), 0);
}

#[test]
fn full_option_visits_exactly_once() {
    let some = Some(leaf());
    let mut visitor = ();
    some.visit(&mut visitor);
    assert_eq!(some.as_ref().unwrap().hits.get(), 1);

    let mut some_mut = Some(leaf());
    some_mut.visit_mut(&mut visitor);
    assert_eq!(some_mut.as_ref().unwrap().count, 1);
}

#[test]
fn vec_visits_every_element_once() {
    let elems = vec![leaf(), leaf(), leaf()];
    let mut visitor = ();
    elems.visit(&mut visitor);
    for e in &elems {
        assert_eq!(e.hits.get(), 1);
    }
}

#[test]
fn vec_visits_every_element_once_mutably() {
    let mut elems = vec![leaf(), leaf(), leaf()];
    let mut visitor = ();
    elems.visit_mut(&mut visitor);
    assert_eq!(elems.len(), 3);
    for e in &elems {
        assert_eq!(e.count, 1);
    }
}

#[test]
fn empty_vec_is_a_no_op() {
    let elems: Vec<Leaf> = vec![];
    let mut visitor = ();
    elems.visit(&mut visitor);

    let mut elems_mut: Vec<Leaf> = vec![];
    elems_mut.visit_mut(&mut visitor);
    assert_eq!(elems_mut.len(), 0);
}
