//! Shared steps of visiting and replacing the values that instructions use.

use crate::primitive::Value;
use vstd::prelude::*;

verus! {

/// The value that takes the place of `value` when `replace` gives way to `with`.
pub open spec fn replace_in(value: Value, replace: Value, with: Value) -> Value {
    if value == replace {
        with
    } else {
        value
    }
}

/// The values that take the place of `values` when `replace` gives way to `with`.
pub open spec fn replace_in_all(values: Seq<Value>, replace: Value, with: Value) -> Seq<Value> {
    values.map_values(|value: Value| replace_in(value, replace, with))
}

/// After a replacement a value is among the values exactly if it was among
/// them before and was not replaced, or if it took the place of one of them.
pub proof fn lemma_replace_in_all_contains(
    values: Seq<Value>,
    replace: Value,
    with: Value,
    value: Value,
)
    ensures
        replace_in_all(values, replace, with).contains(value) <==> (values.contains(value) && value
            != replace) || (value == with && values.contains(replace)),
{
    let after = replace_in_all(values, replace, with);
    if after.contains(value) {
        let i = choose|i: int| 0 <= i < after.len() && after[i] == value;
        assert(values.contains(values[i]));
    }
    if values.contains(value) && value != replace {
        let i = choose|i: int| 0 <= i < values.len() && values[i] == value;
        assert(after[i] == value);
    }
    if value == with && values.contains(replace) {
        let i = choose|i: int| 0 <= i < values.len() && values[i] == replace;
        assert(after[i] == value);
    }
}

/// Values without the replaced value among them are what they are after
/// the replacement.
pub proof fn lemma_replace_in_all_unused(values: Seq<Value>, replace: Value, with: Value)
    requires
        !values.contains(replace),
    ensures
        replace_in_all(values, replace, with) == values,
{
    assert forall|i: int| 0 <= i < values.len() implies replace_in(values[i], replace, with)
        == values[i] by {
        assert(values.contains(values[i]));
    }
    assert(replace_in_all(values, replace, with) =~= values);
}

/// Replaces the value by `with` if it is `replace`, and says whether it was.
pub fn replace_operand(value: &mut Value, replace: Value, with: Value) -> (replaced: bool)
    ensures
        *final(value) == replace_in(*old(value), replace, with),
        replaced == (*old(value) == replace),
{
    if *value == replace {
        *value = with;
        true
    } else {
        false
    }
}

/// Replaces every `replace` among the values by `with`, and says whether
/// there was one.
pub fn replace_operands(values: &mut Vec<Value>, replace: Value, with: Value) -> (replaced: bool)
    ensures
        final(values)@ == replace_in_all(old(values)@, replace, with),
        replaced == old(values)@.contains(replace),
{
    let mut replaced = false;
    let mut i: usize = 0;
    while i < values.len()
        invariant
            i <= values@.len(),
            values@.len() == old(values)@.len(),
            forall|j: int|
                0 <= j < i ==> values@[j] == replace_in(#[trigger] old(values)@[j], replace, with),
            forall|j: int| i <= j < values@.len() ==> values@[j] == old(values)@[j],
            replaced == exists|j: int| 0 <= j < i && #[trigger] old(values)@[j] == replace,
        decreases values@.len() - i,
    {
        if values[i] == replace {
            values[i] = with;
            replaced = true;
        }
        i = i + 1;
    }
    assert(values@ =~= replace_in_all(old(values)@, replace, with));
    replaced
}

/// Calls the visitor on the values in order until it asks to stop.
///
/// Returns `true` if the visitor asked to continue at every value.
pub fn visit_operands<F: Fn(Value) -> bool>(values: &Vec<Value>, visitor: &F) -> (completed: bool)
    requires
        forall|value: Value| values@.contains(value) ==> #[trigger] visitor.requires((value,)),
    ensures
        completed ==> forall|value: Value|
            values@.contains(value) ==> #[trigger] visitor.ensures((value,), true),
        !completed ==> exists|value: Value|
            values@.contains(value) && #[trigger] visitor.ensures((value,), false),
{
    let mut i: usize = 0;
    while i < values.len()
        invariant
            i <= values@.len(),
            forall|value: Value|
                values@.contains(value) ==> #[trigger] visitor.requires((value,)),
            forall|j: int| 0 <= j < i ==> visitor.ensures((#[trigger] values@[j],), true),
        decreases values@.len() - i,
    {
        assert(values@.contains(values@[i as int]));
        if !visitor(values[i]) {
            return false;
        }
        i = i + 1;
    }
    true
}

} // verus!
