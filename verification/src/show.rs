//! From the values of evaluation to printable values.

use vstd::prelude::*;
use crate::text::{
    append_fraction, append_numeral, fraction_text, inserted, le, lemma_inserted_at, numeral,
    precedes,
};
use crate::value::{value_model, values_model, Field, FieldModel, Value, ValueModel};
use crate::values::{ValNode, Values, ValuesModel};

verus! {

/// How deep a value may be to be shown.
pub const SHOW_FUEL: usize = 100_000;

/// Whether the value at `v` is a function.
pub open spec fn is_function(vals: ValuesModel, v: usize) -> bool {
    match vals.node_at(v) {
        Some(ValNode::Closure(_, _)) => true,
        Some(ValNode::Builtin(_)) => true,
        _ => false,
    }
}

/// The printable value of the value at `v`: a number by its numeral, a
/// string by its characters, a list, a record and a tag by their parts, and
/// every function as the same opaque value. A function is never looked
/// into; what stands beside it in a record or a list is shown as it is.
/// `None` where the node is no value or the walk runs out of fuel.
pub open spec fn shown(vals: ValuesModel, v: usize, fuel: nat) -> Option<ValueModel>
    decreases fuel, 0int,
{
    if fuel == 0 {
        None
    } else {
        match vals.node_at(v) {
            Some(ValNode::Int(x)) => Some(ValueModel::Num(numeral(x as int))),
            Some(ValNode::Frac(x)) => Some(ValueModel::Num(fraction_text(x as int))),
            Some(ValNode::Str(span)) => Some(ValueModel::Str(vals.text(span))),
            Some(ValNode::List(span)) => match shown_all(
                vals,
                vals.parts(span),
                0,
                (fuel - 1) as nat,
            ) {
                Some(items) => Some(ValueModel::List(items)),
                None => None,
            },
            Some(ValNode::Tag(name, span)) => match shown_all(
                vals,
                vals.parts(span),
                0,
                (fuel - 1) as nat,
            ) {
                Some(args) => Some(ValueModel::Tag(vals.text(name), args)),
                None => None,
            },
            Some(ValNode::Record(span)) => match shown_fields(
                vals,
                vals.parts(span),
                vals.parts(span).len() as int,
                (fuel - 1) as nat,
            ) {
                Some(fields) => Some(ValueModel::Record(fields)),
                None => None,
            },
            Some(ValNode::Closure(_, _)) => Some(ValueModel::Function),
            Some(ValNode::Builtin(_)) => Some(ValueModel::Function),
            _ => None,
        }
    }
}

/// The printable values of the values at `nodes` from index `i` on.
pub open spec fn shown_all(vals: ValuesModel, nodes: Seq<usize>, i: int, fuel: nat) -> Option<
    Seq<ValueModel>,
>
    decreases fuel, 1 + nodes.len() - i,
{
    if 0 <= i < nodes.len() {
        match shown(vals, nodes[i], fuel) {
            Some(first) => match shown_all(vals, nodes, i + 1, fuel) {
                Some(rest) => Some(seq![first] + rest),
                None => None,
            },
            None => None,
        }
    } else {
        Some(Seq::empty())
    }
}

/// The first `n` fields at `nodes` as printable fields, in the order of
/// their names.
pub open spec fn shown_fields(vals: ValuesModel, nodes: Seq<usize>, n: int, fuel: nat) -> Option<
    Seq<FieldModel>,
>
    decreases fuel, 1 + n,
{
    if 0 < n <= nodes.len() {
        match shown_fields(vals, nodes, n - 1, fuel) {
            Some(sorted) => match vals.node_at(nodes[n - 1]) {
                Some(ValNode::Field(name, value)) => match shown(vals, value, fuel) {
                    Some(first) => Some(
                        inserted(
                            sorted,
                            FieldModel { name: vals.text(name), value: first },
                            |f: FieldModel| f.name,
                        ),
                    ),
                    None => None,
                },
                _ => None,
            },
            None => None,
        }
    } else {
        Some(Seq::empty())
    }
}

/// The models of the fields, in order.
pub open spec fn fields_model(fields: Seq<Field>) -> Seq<FieldModel> {
    Seq::new(fields.len(), |i: int| FieldModel { name: fields[i].name@, value: value_model(fields[i].value) })
}

/// The printable value of the value at `v`.
pub fn show(vals: &Values, v: usize, fuel: usize) -> (r: Option<Value>)
    ensures
        match r {
            Some(value) => shown(vals@, v, fuel as nat) == Some(value@),
            None => shown(vals@, v, fuel as nat) is None,
        },
    decreases fuel, 0int,
{
    if fuel == 0 {
        return None;
    }
    match vals.node(v) {
        Some(ValNode::Int(x)) => {
            let mut text: Vec<char> = Vec::new();
            append_numeral(&mut text, x);
            assert(text@ =~= numeral(x as int));
            Some(Value::Num(text))
        },
        Some(ValNode::Frac(x)) => {
            let mut text: Vec<char> = Vec::new();
            append_fraction(&mut text, x);
            assert(text@ =~= fraction_text(x as int));
            Some(Value::Num(text))
        },
        Some(ValNode::Str(span)) => Some(Value::Str(vals.text(span))),
        Some(ValNode::List(span)) => {
            let nodes = vals.parts(span);
            match show_all(vals, &nodes, fuel - 1) {
                Some(items) => Some(Value::List(items)),
                None => None,
            }
        },
        Some(ValNode::Tag(name, span)) => {
            let nodes = vals.parts(span);
            match show_all(vals, &nodes, fuel - 1) {
                Some(args) => Some(Value::Tag(vals.text(name), args)),
                None => None,
            }
        },
        Some(ValNode::Record(span)) => {
            let nodes = vals.parts(span);
            match show_fields(vals, &nodes, fuel - 1) {
                Some(fields) => {
                    assert(value_model(Value::Record(fields))->Record_0 =~= fields_model(fields@));
                    Some(Value::Record(fields))
                },
                None => None,
            }
        },
        Some(ValNode::Closure(_, _)) => Some(Value::Function),
        Some(ValNode::Builtin(_)) => Some(Value::Function),
        _ => None,
    }
}

/// Puts a field into its place among fields that stand in the order of
/// their names.
fn insert_field(out: &mut Vec<Field>, field: Field)
    ensures
        fields_model(final(out)@) == inserted(
            fields_model(old(out)@),
            FieldModel { name: field.name@, value: field.value@ },
            |f: FieldModel| f.name,
        ),
{
    let ghost key = |f: FieldModel| f.name;
    let ghost model = FieldModel { name: field.name@, value: field.value@ };
    let mut p: usize = 0;
    while p < out.len() && !le(&field.name, &out[p].name)
        invariant
            p <= out@.len(),
            out@ == old(out)@,
            forall|j: int| 0 <= j < p ==> !precedes(field.name@, (#[trigger] out@[j]).name@),
        decreases out.len() - p,
    {
        p = p + 1;
    }
    proof {
        assert forall|j: int| 0 <= j < p implies !precedes(
            key(model),
            key(#[trigger] fields_model(out@)[j]),
        ) by {
            assert(fields_model(out@)[j].name == out@[j].name@);
        }
        lemma_inserted_at(fields_model(out@), model, key, p as int);
        assert(fields_model(out@.insert(p as int, field)) =~= fields_model(out@).insert(
            p as int,
            model,
        ));
    }
    out.insert(p, field);
}

/// The printable values of the values at `nodes`.
pub fn show_all(vals: &Values, nodes: &Vec<usize>, fuel: usize) -> (r: Option<Vec<Value>>)
    ensures
        match r {
            Some(values) => shown_all(vals@, nodes@, 0, fuel as nat) == Some(values_model(values@)),
            None => shown_all(vals@, nodes@, 0, fuel as nat) is None,
        },
    decreases fuel, 1 + nodes@.len(),
{
    let ghost total = shown_all(vals@, nodes@, 0, fuel as nat);
    let mut out: Vec<Value> = Vec::new();
    let mut i: usize = 0;
    assert(values_model(out@) =~= Seq::empty());
    while i < nodes.len()
        invariant
            i <= nodes@.len(),
            total == shown_all(vals@, nodes@, 0, fuel as nat),
            total == match shown_all(vals@, nodes@, i as int, fuel as nat) {
                Some(rest) => Some(values_model(out@) + rest),
                None => None,
            },
        decreases nodes.len() - i,
    {
        let ghost before = values_model(out@);
        match show(vals, nodes[i], fuel) {
            Some(value) => {
                let ghost model = value@;
                out.push(value);
                assert(values_model(out@) =~= before.push(model));
                proof {
                    match shown_all(vals@, nodes@, i + 1, fuel as nat) {
                        Some(rest) => {
                            assert(before.push(model) + rest =~= before + (seq![model] + rest));
                        },
                        None => {},
                    }
                }
            },
            None => {
                return None;
            },
        }
        i = i + 1;
    }
    assert(values_model(out@) + Seq::<ValueModel>::empty() =~= values_model(out@));
    Some(out)
}

/// The fields at `nodes` as printable fields, in the order of their names.
pub fn show_fields(vals: &Values, nodes: &Vec<usize>, fuel: usize) -> (r: Option<Vec<Field>>)
    ensures
        match r {
            Some(fields) => shown_fields(vals@, nodes@, nodes@.len() as int, fuel as nat) == Some(
                fields_model(fields@),
            ),
            None => shown_fields(vals@, nodes@, nodes@.len() as int, fuel as nat) is None,
        },
    decreases fuel, 1 + nodes@.len(),
{
    let mut out: Vec<Field> = Vec::new();
    let mut n: usize = 0;
    assert(fields_model(out@) =~= Seq::empty());
    while n < nodes.len()
        invariant
            n <= nodes@.len(),
            shown_fields(vals@, nodes@, n as int, fuel as nat) == Some(fields_model(out@)),
        decreases nodes.len() - n,
    {
        match vals.node(nodes[n]) {
            Some(ValNode::Field(name, value)) => match show(vals, value, fuel) {
                Some(shown_value) => {
                    insert_field(&mut out, Field { name: vals.text(name), value: shown_value });
                },
                None => {
                    proof {
                        lemma_shown_fields_fail(vals@, nodes@, n + 1, fuel as nat);
                    }
                    return None;
                },
            },
            _ => {
                proof {
                    lemma_shown_fields_fail(vals@, nodes@, n + 1, fuel as nat);
                }
                return None;
            },
        }
        n = n + 1;
    }
    Some(out)
}

/// Where the first `n` fields cannot be shown, neither can all of them.
proof fn lemma_shown_fields_fail(vals: ValuesModel, nodes: Seq<usize>, n: int, fuel: nat)
    requires
        0 <= n <= nodes.len(),
        shown_fields(vals, nodes, n, fuel) is None,
    ensures
        shown_fields(vals, nodes, nodes.len() as int, fuel) is None,
    decreases nodes.len() - n,
{
    if n < nodes.len() {
        lemma_shown_fields_fail(vals, nodes, n + 1, fuel);
    }
}

} // verus!
