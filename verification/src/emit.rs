//! The generator: which fields participate in traversal, and the emission
//! of the capability implementation for one type definition.
//!
//! Emission is a pure function of the type definition and the traversal
//! mode; the contracts below pin the emitted text down to the character.

use vstd::prelude::*;
use vstd::string::StringExecFns;

use crate::model::Field;
use crate::model::FieldAttr;
use crate::model::MarkerItem;
use crate::model::TypeBody;
use crate::model::TypeDef;
use crate::model::Variant;
use crate::names::enter_hook_name;
use crate::names::exit_hook_name;
use crate::names::hook_names;
use crate::names::push_char;

verus! {

// ---------------------------------------------------------------------
// The ignore marker
// ---------------------------------------------------------------------
/// Whether one nested entry is the argument-less `ignore` marker.
pub open spec fn marks_ignore(item: MarkerItem) -> bool {
    match item {
        MarkerItem::Marker(name) => name@ == "ignore"@,
        MarkerItem::OtherItem => false,
    }
}

/// Whether one attribute is a `visit` marker group holding an `ignore`
/// marker.
pub open spec fn group_marks_ignore(attr: FieldAttr) -> bool {
    match attr {
        FieldAttr::Group(name, items) => name@ == "visit"@ && exists|i: int|
            0 <= i < items@.len() && marks_ignore(#[trigger] items@[i]),
        FieldAttr::OtherAttr => false,
    }
}

/// Whether a field is excluded from traversal by an ignore marker.
pub open spec fn field_is_ignored(f: Field) -> bool {
    exists|i: int| 0 <= i < f.attrs@.len() && group_marks_ignore(#[trigger] f.attrs@[i])
}

/// Whether one nested entry is the argument-less `ignore` marker.
pub fn ignore_field_inner(item: &MarkerItem) -> (r: bool)
    ensures
        r == marks_ignore(*item),
{
    let ignore_value = String::from_str("ignore");
    match item {
        MarkerItem::Marker(name) => *name == ignore_value,
        MarkerItem::OtherItem => false,
    }
}

/// Whether a field carries an `ignore` marker inside a `visit` group.
pub fn is_ignore_field(field: &Field) -> (r: bool)
    ensures
        r == field_is_ignored(*field),
{
    let attr_name = String::from_str("visit");
    let mut i: usize = 0;
    while i < field.attrs.len()
        invariant
            i <= field.attrs@.len(),
            attr_name@ == "visit"@,
            forall|k: int| 0 <= k < i ==> !group_marks_ignore(#[trigger] field.attrs@[k]),
        decreases field.attrs@.len() - i,
    {
        match &field.attrs[i] {
            FieldAttr::Group(name, items) => {
                let same = *name == attr_name;
                if same {
                    let mut j: usize = 0;
                    while j < items.len()
                        invariant
                            j <= items@.len(),
                            i < field.attrs@.len(),
                            field.attrs@[i as int] == FieldAttr::Group(*name, *items),
                            name@ == "visit"@,
                            forall|k: int| 0 <= k < j ==> !marks_ignore(#[trigger] items@[k]),
                        decreases items@.len() - j,
                    {
                        if ignore_field_inner(&items[j]) {
                            proof {
                                assert(marks_ignore(items@[j as int]));
                                assert(group_marks_ignore(FieldAttr::Group(*name, *items)));
                                assert(group_marks_ignore(field.attrs@[i as int]));
                                assert(field_is_ignored(*field));
                            }
                            return true;
                        }
                        j = j + 1;
                    }
                    proof {
                        assert(!group_marks_ignore(FieldAttr::Group(*name, *items)));
                        assert(!group_marks_ignore(field.attrs@[i as int]));
                    }
                } else {
                    proof {
                        assert(!group_marks_ignore(FieldAttr::Group(*name, *items)));
                        assert(!group_marks_ignore(field.attrs@[i as int]));
                    }
                }
            },
            FieldAttr::OtherAttr => {
                proof {
                    assert(!group_marks_ignore(field.attrs@[i as int]));
                }
            },
        }
        i = i + 1;
    }
    false
}

// ---------------------------------------------------------------------
// Field selection
// ---------------------------------------------------------------------
/// The handle generated code uses to reach one field of `self`: its name,
/// or its position for unnamed fields.
#[derive(Debug)]
pub enum FieldRef {
    Named(String),
    Positional(usize),
}

/// The reference for a field standing at position `pos`.
pub open spec fn field_ref_of(f: Field, pos: int) -> FieldRef {
    match f.name {
        Option::Some(n) => FieldRef::Named(n),
        Option::None => FieldRef::Positional(pos as usize),
    }
}

/// The ordered references of the non-ignored fields of `fields`, which
/// stands at position `base` of the whole declaration.
pub open spec fn selected_refs_from(fields: Seq<Field>, base: int) -> Seq<FieldRef>
    decreases fields.len(),
{
    if fields.len() == 0 {
        Seq::empty()
    } else {
        let rest = selected_refs_from(fields.skip(1), base + 1);
        if field_is_ignored(fields[0]) {
            rest
        } else {
            seq![field_ref_of(fields[0], base)] + rest
        }
    }
}

/// The ordered references of the fields that participate in traversal.
pub open spec fn selected_refs(fields: Seq<Field>) -> Seq<FieldRef> {
    selected_refs_from(fields, 0)
}

/// How many fields of the list participate in traversal.
pub open spec fn unignored_count(fields: Seq<Field>) -> nat
    decreases fields.len(),
{
    if fields.len() == 0 {
        0
    } else {
        (if field_is_ignored(fields[0]) {
            0nat
        } else {
            1nat
        }) + unignored_count(fields.skip(1))
    }
}

proof fn lemma_selected_refs_concat(a: Seq<Field>, b: Seq<Field>, base: int)
    ensures
        selected_refs_from(a + b, base) == selected_refs_from(a, base) + selected_refs_from(
            b,
            base + a.len(),
        ),
    decreases a.len(),
{
    if a.len() == 0 {
        assert(a + b =~= b);
        assert(selected_refs_from(a, base) + selected_refs_from(b, base) =~= selected_refs_from(
            b,
            base,
        ));
    } else {
        assert((a + b).skip(1) =~= a.skip(1) + b);
        lemma_selected_refs_concat(a.skip(1), b, base + 1);
        assert((a + b)[0] == a[0]);
        if !field_is_ignored(a[0]) {
            let unit = seq![field_ref_of(a[0], base)];
            assert(unit + (selected_refs_from(a.skip(1), base + 1) + selected_refs_from(
                b,
                base + a.len(),
            )) =~= (unit + selected_refs_from(a.skip(1), base + 1)) + selected_refs_from(
                b,
                base + a.len(),
            ));
        }
    }
}

proof fn lemma_selected_refs_len(fields: Seq<Field>, base: int)
    ensures
        selected_refs_from(fields, base).len() == unignored_count(fields),
    decreases fields.len(),
{
    if fields.len() > 0 {
        lemma_selected_refs_len(fields.skip(1), base + 1);
    }
}

proof fn lemma_selected_refs_singleton(fields: Seq<Field>, p: int, base: int)
    requires
        0 <= p < fields.len(),
    ensures
        selected_refs_from(fields.subrange(p, p + 1), base) == (if field_is_ignored(fields[p]) {
            Seq::<FieldRef>::empty()
        } else {
            seq![field_ref_of(fields[p], base)]
        }),
{
    let unit = fields.subrange(p, p + 1);
    assert(unit.skip(1) =~= Seq::<Field>::empty());
    assert(selected_refs_from(unit.skip(1), base + 1) == Seq::<FieldRef>::empty());
    if !field_is_ignored(fields[p]) {
        assert(seq![field_ref_of(fields[p], base)] + Seq::<FieldRef>::empty() =~= seq![
            field_ref_of(fields[p], base),
        ]);
    }
}

proof fn lemma_selected_refs_take_step(fields: Seq<Field>, i: int)
    requires
        0 <= i < fields.len(),
    ensures
        selected_refs_from(fields.take(i + 1), 0) == selected_refs_from(fields.take(i), 0) + (
        if field_is_ignored(fields[i]) {
            Seq::<FieldRef>::empty()
        } else {
            seq![field_ref_of(fields[i], i)]
        }),
{
    assert(fields.take(i + 1) =~= fields.take(i) + fields.subrange(i, i + 1));
    lemma_selected_refs_concat(fields.take(i), fields.subrange(i, i + 1), 0);
    lemma_selected_refs_singleton(fields, i, i);
}

/// Law: field selection is a pure, order-preserving filter. The selection
/// splits, at every position, into the selection of the prefix followed by
/// the selection of the suffix, so declaration order is kept; one field
/// contributes exactly its own reference when its ignore marker is unset
/// and nothing at all when it is set; and the number of references is
/// exactly the number of non-ignored fields, for any field count.
pub proof fn lemma_field_order_preserved(fields: Seq<Field>, i: int)
    requires
        0 <= i <= fields.len(),
    ensures
        selected_refs(fields) == selected_refs_from(fields.take(i), 0) + selected_refs_from(
            fields.skip(i),
            i,
        ),
        selected_refs(fields).len() == unignored_count(fields),
        forall|p: int| 0 <= p < fields.len() ==> selected_refs_from(
            fields.subrange(p, p + 1),
            p,
        ) == (if field_is_ignored(fields[p]) {
            Seq::<FieldRef>::empty()
        } else {
            seq![field_ref_of(fields[p], p)]
        }),
{
    assert(fields =~= fields.take(i) + fields.skip(i));
    lemma_selected_refs_concat(fields.take(i), fields.skip(i), 0);
    lemma_selected_refs_len(fields, 0);
    assert forall|p: int| 0 <= p < fields.len() implies selected_refs_from(
        fields.subrange(p, p + 1),
        p,
    ) == (if field_is_ignored(fields[p]) {
        Seq::<FieldRef>::empty()
    } else {
        seq![field_ref_of(fields[p], p)]
    }) by {
        lemma_selected_refs_singleton(fields, p, p);
    }
}

/// Select the fields that participate in traversal, pairing each with the
/// handle generated code uses to reach it.
pub fn field_refs(fields: &Vec<Field>) -> (refs: Vec<FieldRef>)
    ensures
        refs@ == selected_refs(fields@),
{
    let mut refs: Vec<FieldRef> = Vec::new();
    let mut i: usize = 0;
    while i < fields.len()
        invariant
            i <= fields@.len(),
            refs@ == selected_refs_from(fields@.take(i as int), 0),
        decreases fields@.len() - i,
    {
        let ghost prev = refs@;
        if !is_ignore_field(&fields[i]) {
            match &fields[i].name {
                Option::Some(n) => refs.push(FieldRef::Named(n.clone())),
                Option::None => refs.push(FieldRef::Positional(i)),
            }
            proof {
                assert(refs@ =~= prev + seq![field_ref_of(fields@[i as int], i as int)]);
            }
        }
        proof {
            lemma_selected_refs_take_step(fields@, i as int);
        }
        i = i + 1;
    }
    proof {
        assert(fields@.take(fields@.len() as int) =~= fields@);
    }
    refs
}

// ---------------------------------------------------------------------
// Decimal rendering of positional indices
// ---------------------------------------------------------------------
/// The decimal digit character for `d` (meaningful for `0 <= d < 10`).
pub open spec fn decimal_digit(d: int) -> char {
    if d == 0 {
        '0'
    } else if d == 1 {
        '1'
    } else if d == 2 {
        '2'
    } else if d == 3 {
        '3'
    } else if d == 4 {
        '4'
    } else if d == 5 {
        '5'
    } else if d == 6 {
        '6'
    } else if d == 7 {
        '7'
    } else if d == 8 {
        '8'
    } else {
        '9'
    }
}

/// The decimal rendering of a nonnegative number, most significant digit
/// first, with no leading zero except for zero itself.
pub open spec fn decimal_of(n: int) -> Seq<char>
    decreases n,
{
    if n < 10 {
        seq![decimal_digit(n)]
    } else {
        decimal_of(n / 10).push(decimal_digit(n % 10))
    }
}

fn decimal_digit_char(d: usize) -> (c: char)
    requires
        d < 10,
    ensures
        c == decimal_digit(d as int),
{
    if d == 0 {
        '0'
    } else if d == 1 {
        '1'
    } else if d == 2 {
        '2'
    } else if d == 3 {
        '3'
    } else if d == 4 {
        '4'
    } else if d == 5 {
        '5'
    } else if d == 6 {
        '6'
    } else if d == 7 {
        '7'
    } else if d == 8 {
        '8'
    } else {
        '9'
    }
}

/// Render a positional field index in decimal.
fn usize_decimal(n: usize) -> (s: String)
    ensures
        s@ == decimal_of(n as int),
{
    let mut digits: Vec<char> = Vec::new();
    let mut m: usize = n;
    proof {
        assert(digits@.reverse() =~= Seq::<char>::empty());
        assert(decimal_of(n as int) =~= decimal_of(n as int) + digits@.reverse());
    }
    while m >= 10
        invariant
            decimal_of(n as int) == decimal_of(m as int) + digits@.reverse(),
        decreases m,
    {
        let ghost pre = digits@;
        let d: usize = m % 10;
        digits.push(decimal_digit_char(d));
        proof {
            assert(digits@.reverse() =~= seq![decimal_digit(d as int)] + pre.reverse());
            assert(decimal_of(m as int) == decimal_of(m as int / 10).push(
                decimal_digit(m as int % 10),
            ));
            assert(decimal_of(m as int / 10) + digits@.reverse() =~= decimal_of(m as int)
                + pre.reverse());
            assert((m / 10) as int == m as int / 10);
        }
        m = m / 10;
    }
    let mut s = String::new();
    push_char(&mut s, decimal_digit_char(m));
    proof {
        assert(s@ =~= seq![decimal_digit(m as int)]);
        assert(decimal_of(m as int) == seq![decimal_digit(m as int)]);
    }
    let mut k: usize = digits.len();
    while k > 0
        invariant
            k <= digits@.len(),
            decimal_of(n as int) == decimal_of(m as int) + digits@.reverse(),
            s@ == seq![decimal_digit(m as int)] + digits@.skip(k as int).reverse(),
        decreases k,
    {
        let ghost pre = s@;
        push_char(&mut s, digits[k - 1]);
        proof {
            assert(digits@.skip(k - 1).reverse() =~= digits@.skip(k as int).reverse().push(
                digits@[k - 1],
            ));
            assert(s@ =~= seq![decimal_digit(m as int)] + digits@.skip(k - 1).reverse());
        }
        k = k - 1;
    }
    proof {
        assert(digits@.skip(0).reverse() =~= digits@.reverse());
        assert(s@ =~= decimal_of(n as int));
    }
    s
}

// ---------------------------------------------------------------------
// Text emission
// ---------------------------------------------------------------------
/// The traversal mode being emitted: mutable or read-only.
#[derive(Debug, Clone, Copy)]
pub struct IsMut(pub bool);

/// The path of the traversal method the generated statements call.
pub open spec fn visit_path(is_mut: bool) -> Seq<char> {
    if is_mut {
        "::visit::Visit::visit_mut"@
    } else {
        "::visit::Visit::visit"@
    }
}

/// The accessor text of one field reference.
pub open spec fn accessor_text(r: FieldRef) -> Seq<char> {
    match r {
        FieldRef::Named(n) => n@,
        FieldRef::Positional(i) => decimal_of(i as int),
    }
}

/// One generated statement: visit one field of `self`, by shared or
/// mutable reference as the mode asks, passing the same visitor along.
pub open spec fn field_stmt(r: FieldRef, is_mut: bool) -> Seq<char> {
    visit_path(is_mut) + "("@ + (if is_mut {
        "&mut self."@
    } else {
        "&self."@
    }) + accessor_text(r) + ", v); "@
}

/// The statements visiting `refs`, in order.
pub open spec fn stmts_text(refs: Seq<FieldRef>, is_mut: bool) -> Seq<char>
    decreases refs.len(),
{
    if refs.len() == 0 {
        Seq::empty()
    } else {
        field_stmt(refs[0], is_mut) + stmts_text(refs.skip(1), is_mut)
    }
}

/// One generated match arm: the matching variant binds its single payload
/// and visits it.
pub open spec fn arm_text(enum_name: Seq<char>, variant: Seq<char>, is_mut: bool) -> Seq<char> {
    enum_name + "::"@ + variant + (if is_mut {
        "(ref mut x) => "@
    } else {
        "(ref x) => "@
    }) + visit_path(is_mut) + "(x, v), "@
}

/// The match arms for `variants`, in order, one arm per variant.
pub open spec fn arms_text(enum_name: Seq<char>, variants: Seq<Variant>, is_mut: bool) -> Seq<char>
    decreases variants.len(),
{
    if variants.len() == 0 {
        Seq::empty()
    } else {
        arm_text(enum_name, variants[0].name@, is_mut) + arms_text(
            enum_name,
            variants.skip(1),
            is_mut,
        )
    }
}

/// The children-traversal body for one shape and mode: nothing for an
/// empty record; one visit statement per selected field, in declaration
/// order, for a record; a match over the runtime tag with one arm per
/// variant for a tagged union.
pub open spec fn children_text(d: TypeDef, is_mut: bool) -> Seq<char> {
    match d.body {
        TypeBody::Record(fields) => stmts_text(selected_refs(fields@), is_mut),
        TypeBody::TaggedUnion(variants) => "match *self { "@ + arms_text(
            d.name@,
            variants@,
            is_mut,
        ) + "} "@,
        TypeBody::EmptyRecord => Seq::empty(),
    }
}

/// The full text of one generated traversal method: the signature of the
/// requested mode, then the enter hook, the children-traversal body
/// guarded by `Continue`, and the unconditional exit hook.
pub open spec fn method_text(d: TypeDef, is_mut: bool) -> Seq<char> {
    (if is_mut {
        "fn visit_mut<V>(&mut self, v: &mut V) where V: ::visit::VisitorMut { "@
    } else {
        "fn visit<'ast, V>(&'ast self, v: &mut V) where V: ::visit::Visitor<'ast> { "@
    }) + "if ::visit::Control::Continue == v."@ + enter_hook_name(d.name@) + "(self) { "@
        + children_text(d, is_mut) + "} v."@ + exit_hook_name(d.name@) + "(self); }"@
}

/// The full generated implementation for one type definition: the
/// capability implementation holding both traversal-mode methods.
pub open spec fn impl_text(d: TypeDef) -> Seq<char> {
    "impl ::visit::Visit for "@ + d.name@ + " { "@ + method_text(d, false) + " "@ + method_text(
        d,
        true,
    ) + " }"@
}

proof fn lemma_stmts_text_concat(a: Seq<FieldRef>, b: Seq<FieldRef>, is_mut: bool)
    ensures
        stmts_text(a + b, is_mut) == stmts_text(a, is_mut) + stmts_text(b, is_mut),
    decreases a.len(),
{
    if a.len() == 0 {
        assert(a + b =~= b);
        assert(stmts_text(a, is_mut) + stmts_text(b, is_mut) =~= stmts_text(b, is_mut));
    } else {
        assert((a + b).skip(1) =~= a.skip(1) + b);
        lemma_stmts_text_concat(a.skip(1), b, is_mut);
        assert((a + b)[0] == a[0]);
        assert(field_stmt(a[0], is_mut) + (stmts_text(a.skip(1), is_mut) + stmts_text(b, is_mut))
            =~= (field_stmt(a[0], is_mut) + stmts_text(a.skip(1), is_mut)) + stmts_text(b, is_mut));
    }
}

proof fn lemma_stmts_text_take_step(refs: Seq<FieldRef>, i: int, is_mut: bool)
    requires
        0 <= i < refs.len(),
    ensures
        stmts_text(refs.take(i + 1), is_mut) == stmts_text(refs.take(i), is_mut) + field_stmt(
            refs[i],
            is_mut,
        ),
{
    let unit = seq![refs[i]];
    assert(refs.take(i + 1) =~= refs.take(i) + unit);
    lemma_stmts_text_concat(refs.take(i), unit, is_mut);
    assert(unit.skip(1) =~= Seq::<FieldRef>::empty());
    assert(stmts_text(unit.skip(1), is_mut) == Seq::<char>::empty());
    assert(stmts_text(unit, is_mut) =~= field_stmt(refs[i], is_mut));
}

proof fn lemma_arms_text_concat(enum_name: Seq<char>, a: Seq<Variant>, b: Seq<Variant>, is_mut: bool)
    ensures
        arms_text(enum_name, a + b, is_mut) == arms_text(enum_name, a, is_mut) + arms_text(
            enum_name,
            b,
            is_mut,
        ),
    decreases a.len(),
{
    if a.len() == 0 {
        assert(a + b =~= b);
        assert(arms_text(enum_name, a, is_mut) + arms_text(enum_name, b, is_mut) =~= arms_text(
            enum_name,
            b,
            is_mut,
        ));
    } else {
        assert((a + b).skip(1) =~= a.skip(1) + b);
        lemma_arms_text_concat(enum_name, a.skip(1), b, is_mut);
        assert((a + b)[0] == a[0]);
        assert(arm_text(enum_name, a[0].name@, is_mut) + (arms_text(enum_name, a.skip(1), is_mut)
            + arms_text(enum_name, b, is_mut)) =~= (arm_text(enum_name, a[0].name@, is_mut)
            + arms_text(enum_name, a.skip(1), is_mut)) + arms_text(enum_name, b, is_mut));
    }
}

proof fn lemma_arms_text_take_step(enum_name: Seq<char>, variants: Seq<Variant>, i: int, is_mut: bool)
    requires
        0 <= i < variants.len(),
    ensures
        arms_text(enum_name, variants.take(i + 1), is_mut) == arms_text(
            enum_name,
            variants.take(i),
            is_mut,
        ) + arm_text(enum_name, variants[i].name@, is_mut),
{
    let unit = seq![variants[i]];
    assert(variants.take(i + 1) =~= variants.take(i) + unit);
    lemma_arms_text_concat(enum_name, variants.take(i), unit, is_mut);
    assert(unit.skip(1) =~= Seq::<Variant>::empty());
    assert(arms_text(enum_name, unit.skip(1), is_mut) == Seq::<char>::empty());
    assert(arms_text(enum_name, unit, is_mut) =~= arm_text(enum_name, variants[i].name@, is_mut));
}

fn append_field_stmt(s: &mut String, r: &FieldRef, is_mut: bool)
    ensures
        final(s)@ == old(s)@ + field_stmt(*r, is_mut),
{
    if is_mut {
        s.append("::visit::Visit::visit_mut");
        s.append("(");
        s.append("&mut self.");
    } else {
        s.append("::visit::Visit::visit");
        s.append("(");
        s.append("&self.");
    }
    match r {
        FieldRef::Named(n) => s.append(n.as_str()),
        FieldRef::Positional(i) => {
            let d = usize_decimal(*i);
            s.append(d.as_str());
        },
    }
    s.append(", v); ");
    proof {
        assert(s@ =~= old(s)@ + field_stmt(*r, is_mut));
    }
}

fn append_arm(s: &mut String, enum_name: &String, variant: &Variant, is_mut: bool)
    ensures
        final(s)@ == old(s)@ + arm_text(enum_name@, variant.name@, is_mut),
{
    s.append(enum_name.as_str());
    s.append("::");
    s.append(variant.name.as_str());
    if is_mut {
        s.append("(ref mut x) => ");
        s.append("::visit::Visit::visit_mut");
    } else {
        s.append("(ref x) => ");
        s.append("::visit::Visit::visit");
    }
    s.append("(x, v), ");
    proof {
        assert(s@ =~= old(s)@ + arm_text(enum_name@, variant.name@, is_mut));
    }
}

/// Emit the children-traversal statements for one shape and one mode:
/// nothing for an empty record, one statement per non-ignored field in
/// declaration order for a record, and one match arm per variant for a
/// tagged union.
pub fn impl_visit_fields(def: &TypeDef, m: IsMut) -> (s: String)
    ensures
        s@ == children_text(*def, m.0),
{
    let is_mut = m.0;
    match &def.body {
        TypeBody::Record(fields) => {
            let refs = field_refs(fields);
            let mut s = String::new();
            let mut i: usize = 0;
            while i < refs.len()
                invariant
                    refs@ == selected_refs(fields@),
                    i <= refs@.len(),
                    s@ == stmts_text(refs@.take(i as int), is_mut),
                decreases refs@.len() - i,
            {
                append_field_stmt(&mut s, &refs[i], is_mut);
                proof {
                    lemma_stmts_text_take_step(refs@, i as int, is_mut);
                }
                i = i + 1;
            }
            proof {
                assert(refs@.take(refs@.len() as int) =~= refs@);
            }
            s
        },
        TypeBody::TaggedUnion(variants) => {
            let mut s = String::from_str("match *self { ");
            let mut i: usize = 0;
            while i < variants.len()
                invariant
                    i <= variants@.len(),
                    s@ == "match *self { "@ + arms_text(def.name@, variants@.take(i as int), is_mut),
                decreases variants@.len() - i,
            {
                append_arm(&mut s, &def.name, &variants[i], is_mut);
                proof {
                    lemma_arms_text_take_step(def.name@, variants@, i as int, is_mut);
                    assert(s@ =~= "match *self { "@ + arms_text(
                        def.name@,
                        variants@.take(i + 1),
                        is_mut,
                    ));
                }
                i = i + 1;
            }
            s.append("} ");
            proof {
                assert(variants@.take(variants@.len() as int) =~= variants@);
                assert(s@ =~= children_text(*def, is_mut));
            }
            s
        },
        TypeBody::EmptyRecord => String::new(),
    }
}

/// Emit one traversal method for a type definition: the enter hook, the
/// children-traversal body guarded by `Continue`, and the unconditional
/// exit hook, in that order, whatever the shape.
fn emit_method(def: &TypeDef, m: IsMut) -> (s: String)
    ensures
        s@ == method_text(*def, m.0),
{
    let is_mut = m.0;
    let (enter, leave) = hook_names(def.name.as_str());
    let mut s = if is_mut {
        String::from_str("fn visit_mut<V>(&mut self, v: &mut V) where V: ::visit::VisitorMut { ")
    } else {
        String::from_str(
            "fn visit<'ast, V>(&'ast self, v: &mut V) where V: ::visit::Visitor<'ast> { ",
        )
    };
    s.append("if ::visit::Control::Continue == v.");
    s.append(enter.as_str());
    s.append("(self) { ");
    let children = impl_visit_fields(def, m);
    s.append(children.as_str());
    s.append("} v.");
    s.append(leave.as_str());
    s.append("(self); }");
    proof {
        assert(s@ =~= method_text(*def, is_mut));
    }
    s
}

/// Generate the full capability implementation for one type definition:
/// both traversal-mode methods, built from the same hook name pair and the
/// same field selection, differing only in how children are accessed.
pub fn impl_visit(def: &TypeDef) -> (s: String)
    ensures
        s@ == impl_text(*def),
{
    let mut s = String::from_str("impl ::visit::Visit for ");
    s.append(def.name.as_str());
    s.append(" { ");
    let ro = emit_method(def, IsMut(false));
    s.append(ro.as_str());
    s.append(" ");
    let mu = emit_method(def, IsMut(true));
    s.append(mu.as_str());
    s.append(" }");
    proof {
        assert(s@ =~= impl_text(*def));
    }
    s
}

} // verus!
