//! Name derivation: the canonical enter/exit hook names for a type.
//!
//! A type's identifier (assumed to use capitalized word boundaries) is
//! scanned character by character: a lowercase character is copied, any
//! other character emits an underscore followed by its lowercase form.
//! The result deliberately starts with an underscore for a capitalized
//! identifier; joined onto the fixed prefixes `visit` / `exit` it yields
//! identifiers such as `visit_foo_bar` / `exit_foo_bar`.
//!
//! Two differently-cased identifiers can derive the same form and thus
//! colliding hook names; no collision detection is performed here, by
//! design.

use vstd::prelude::*;
use vstd::string::StrSliceExecFns;
use vstd::string::StringExecFns;

verus! {

/// The Unicode lowercase mapping of `c`, as `char::to_lowercase` yields it.
pub uninterp spec fn lowercase_mapping(c: char) -> Seq<char>;

/// Whether `c` is a lowercase character, as `char::is_lowercase` answers.
pub uninterp spec fn char_lowercase(c: char) -> bool;

/// Relies on char::is_lowercase: whether `c` has the Unicode `Lowercase`
/// property, a property of the character alone.
#[verifier::external_body]
fn is_lowercase_char(c: char) -> (r: bool)
    ensures
        r == char_lowercase(c),
{
    c.is_lowercase()
}

/// Relies on char::to_lowercase: the Unicode lowercase mapping of `c`
/// (one or more characters), a function of the character alone.
#[verifier::external_body]
fn to_lowercase_chars(c: char) -> (r: String)
    ensures
        r@ == lowercase_mapping(c),
{
    c.to_lowercase().collect()
}

/// Relies on String::push: appends the given character to the end of the
/// string.
#[verifier::external_body]
pub(crate) fn push_char(s: &mut String, c: char)
    ensures
        final(s)@ == old(s)@.push(c),
{
    s.push(c)
}

/// What one character of the identifier contributes to the derived name:
/// a lowercase character is copied unchanged; any other character is a
/// word-boundary signal and becomes an underscore followed by its
/// lowercase form.
pub open spec fn snake_char(c: char) -> Seq<char> {
    if char_lowercase(c) {
        seq![c]
    } else {
        seq!['_'] + lowercase_mapping(c)
    }
}

/// The derived (snake-case) form of a whole identifier.
pub open spec fn snake_of(s: Seq<char>) -> Seq<char>
    decreases s.len(),
{
    if s.len() == 0 {
        Seq::empty()
    } else {
        snake_char(s[0]) + snake_of(s.skip(1))
    }
}

proof fn lemma_snake_of_concat(a: Seq<char>, b: Seq<char>)
    ensures
        snake_of(a + b) == snake_of(a) + snake_of(b),
    decreases a.len(),
{
    if a.len() == 0 {
        assert(a + b =~= b);
        assert(snake_of(a) + snake_of(b) =~= snake_of(b));
    } else {
        assert((a + b).skip(1) =~= a.skip(1) + b);
        lemma_snake_of_concat(a.skip(1), b);
        assert((a + b)[0] == a[0]);
        assert(snake_char(a[0]) + (snake_of(a.skip(1)) + snake_of(b)) =~= (snake_char(
            a[0],
        ) + snake_of(a.skip(1))) + snake_of(b));
    }
}

proof fn lemma_snake_of_take_step(s: Seq<char>, i: int)
    requires
        0 <= i < s.len(),
    ensures
        snake_of(s.take(i + 1)) == snake_of(s.take(i)) + snake_char(s[i]),
{
    let unit = seq![s[i]];
    assert(s.take(i + 1) =~= s.take(i) + unit);
    lemma_snake_of_concat(s.take(i), unit);
    assert(unit.skip(1) =~= Seq::<char>::empty());
    assert(snake_of(Seq::<char>::empty()) == Seq::<char>::empty());
    assert(snake_of(unit) == snake_char(unit[0]) + snake_of(unit.skip(1)));
    assert(snake_of(unit) =~= snake_char(s[i]));
}

/// Derive the lowercase, underscore-separated form of an identifier.
///
/// The result is exactly the concatenation of each character's
/// contribution, in order; it is a pure function of the identifier.
pub fn camelcase_to_snake_case(camelcase: &str) -> (s: String)
    ensures
        s@ == snake_of(camelcase@),
{
    let mut s = String::new();

    let n: usize = camelcase.unicode_len();
    let mut i: usize = 0;
    while i < n
        invariant
            n == camelcase@.len(),
            i <= n,
            s@ == snake_of(camelcase@.take(i as int)),
        decreases n - i,
    {
        let ghost prev = s@;
        let c = camelcase.get_char(i);
        if is_lowercase_char(c) {
            push_char(&mut s, c);
            proof {
                assert(s@ =~= prev + snake_char(c));
            }
        } else {
            push_char(&mut s, '_');
            let low = to_lowercase_chars(c);
            s.append(low.as_str());
            proof {
                assert(s@ =~= prev + snake_char(c));
            }
        }
        proof {
            lemma_snake_of_take_step(camelcase@, i as int);
        }
        i = i + 1;
    }
    proof {
        assert(camelcase@.take(n as int) =~= camelcase@);
    }
    s
}

/// The enter hook name for a type name: the fixed prefix `visit` joined
/// onto the derived form (whose leading underscore supplies the separator).
pub open spec fn enter_hook_name(name: Seq<char>) -> Seq<char> {
    "visit"@ + snake_of(name)
}

/// The exit hook name for a type name, paired with [`enter_hook_name`].
pub open spec fn exit_hook_name(name: Seq<char>) -> Seq<char> {
    "exit"@ + snake_of(name)
}

/// Compute the enter/exit hook name pair for a type name.
pub fn hook_names(name: &str) -> (r: (String, String))
    ensures
        r.0@ == enter_hook_name(name@),
        r.1@ == exit_hook_name(name@),
{
    let base = camelcase_to_snake_case(name);
    let mut enter = String::from_str("visit");
    enter.append(base.as_str());
    let mut leave = String::from_str("exit");
    leave.append(base.as_str());
    (enter, leave)
}

/// Law: name derivation is pure and deterministic — the hook name pair is
/// a function of the identifier's characters alone, so the same identifier
/// always derives the same pair.
pub proof fn lemma_name_derivation_deterministic(a: Seq<char>, b: Seq<char>)
    requires
        a == b,
    ensures
        enter_hook_name(a) == enter_hook_name(b),
        exit_hook_name(a) == exit_hook_name(b),
{
}

} // verus!
