//! The way of a value through evaluated memory: the value is laid out
//! under the layouts that were planned for its type, and the printable
//! value is rebuilt from the cells alone. What comes back is what evaluation
//! made.

use vstd::prelude::*;
use crate::memory::{
    conform_all, conforms, data_model, datum_model, field_reprs, fields_model, lemma_round_trip,
    named, rebuild, repeated, repr_model, reprs_model, store, table_model, table_ok,
    table_planned, value_of, values_of, variants_model, Datum, DatumModel, FieldRepr,
    FieldReprModel, Repr, ReprModel, Table, VariantRepr, VariantReprModel,
};
use crate::plan::{plan_model, plan_type, planned_type, PlanModel, Planned};
use crate::show::{is_function, shown, shown_all, shown_fields};
use crate::solve::{snapshot, AliasDef, Types, TypesModel, FUEL};
use crate::text::{
    distinct, fraction_text, inserted, le, lemma_inserted_distinct, lemma_inserted_holds,
    lemma_inserted_ordered, lemma_order_unique, numeral, ordered, precedes, same, UNIT,
};
use crate::value::{FieldModel, Value, ValueModel};
use crate::values::{field_value, find_field, ValNode, Values, ValuesModel};

verus! {

/// Whether the fields of a representation stand in the order of their
/// names, no name twice.
pub open spec fn sorted_reprs(fields: Seq<FieldRepr>) -> bool {
    forall|i: int, j: int|
        0 <= i < j < fields.len() ==> precedes(
            (#[trigger] fields[i]).name@,
            (#[trigger] fields[j]).name@,
        ) && fields[i].name@ != fields[j].name@
}

/// The name of the field at `node`.
pub open spec fn field_name(vals: ValuesModel, node: usize) -> Option<Seq<char>> {
    match vals.node_at(node) {
        Some(ValNode::Field(name, _)) => Some(vals.text(name)),
        _ => None,
    }
}

/// Whether a field of the representation from index `j` on has the name.
pub open spec fn names_field(fields: Seq<FieldRepr>, name: Seq<char>, j: int) -> bool
    decreases fields.len() - j,
{
    if 0 <= j < fields.len() {
        fields[j].name@ == name || names_field(fields, name, j + 1)
    } else {
        false
    }
}

/// Whether the parts of a record value are fields, no name twice, each
/// with a name that the representation has.
pub open spec fn field_parts(vals: ValuesModel, parts: Seq<usize>, fields: Seq<FieldRepr>) -> bool {
    &&& forall|i: int| 0 <= i < parts.len() ==> field_name(vals, #[trigger] parts[i]) is Some
    &&& forall|i: int, k: int|
        0 <= i < parts.len() && 0 <= k < parts.len() && i != k ==> field_name(
            vals,
            #[trigger] parts[i],
        ) != field_name(vals, #[trigger] parts[k])
    &&& forall|i: int|
        0 <= i < parts.len() ==> names_field(
            fields,
            field_name(vals, #[trigger] parts[i]).unwrap(),
            0,
        )
}

/// Whether the datum is the value at `v` in the form that the
/// representation describes. A function is held as a function and not
/// looked into; every other value is held by its parts.
pub open spec fn holds(
    vals: ValuesModel,
    v: usize,
    repr: Repr,
    table: Table,
    d: Datum,
) -> bool
    decreases d, 0int,
{
    match (d, repr) {
        (Datum::Int(x), Repr::Int) => vals.node_at(v) == Some(ValNode::Int(x)),
        (Datum::Frac(x), Repr::Frac) => match vals.node_at(v) {
            Some(ValNode::Frac(y)) => y == x,
            Some(ValNode::Int(n)) => n * UNIT == x,
            _ => false,
        },
        (Datum::Str(text), Repr::Str) => match vals.node_at(v) {
            Some(ValNode::Str(span)) => vals.text(span) == text@,
            _ => false,
        },
        (Datum::List(items), Repr::List(item)) => match vals.node_at(v) {
            Some(ValNode::List(span)) => vals.parts(span).len() == items@.len() && holds_all(
                vals,
                vals.parts(span),
                repeated(*item, items@.len()),
                table,
                items@,
                0,
            ),
            _ => false,
        },
        (Datum::Record(values), Repr::Record(fields)) => match vals.node_at(v) {
            Some(ValNode::Record(span)) => vals.parts(span).len() == fields@.len()
                && values@.len() == fields@.len() && sorted_reprs(fields@) && field_parts(
                vals,
                vals.parts(span),
                fields@,
            ) && holds_fields(
                vals,
                vals.parts(span),
                fields@,
                table,
                values@,
                0,
            ),
            _ => false,
        },
        (Datum::Tag(k, args), Repr::Union(index)) => match vals.node_at(v) {
            Some(ValNode::Tag(name, span)) => index < table.unions@.len() && k
                < table.unions@[index as int].variants@.len()
                && table.unions@[index as int].variants@[k as int].name@ == vals.text(name)
                && vals.parts(span).len() == args@.len() && args@.len()
                == table.unions@[index as int].variants@[k as int].fields@.len() && holds_all(
                vals,
                vals.parts(span),
                table.unions@[index as int].variants@[k as int].fields@,
                table,
                args@,
                0,
            ),
            _ => false,
        },
        (Datum::Function, Repr::Function) => is_function(vals, v),
        _ => false,
    }
}

/// Whether the data from index `i` on are the values at the parts of the
/// same indices.
pub open spec fn holds_all(
    vals: ValuesModel,
    parts: Seq<usize>,
    reprs: Seq<Repr>,
    table: Table,
    data: Seq<Datum>,
    i: int,
) -> bool
    decreases data, data.len() - i,
{
    if 0 <= i < data.len() {
        i < parts.len() && i < reprs.len() && holds(vals, parts[i], reprs[i], table, data[i])
            && holds_all(vals, parts, reprs, table, data, i + 1)
    } else {
        true
    }
}

/// Whether the data from index `j` on are the values of the fields that
/// the representation names at the same indices.
pub open spec fn holds_fields(
    vals: ValuesModel,
    parts: Seq<usize>,
    fields: Seq<FieldRepr>,
    table: Table,
    data: Seq<Datum>,
    j: int,
) -> bool
    decreases data, data.len() - j,
{
    if 0 <= j < data.len() {
        j < fields.len() && holds_field(vals, parts, fields, table, data, j)
            && holds_fields(vals, parts, fields, table, data, j + 1)
    } else {
        true
    }
}

/// Whether the datum at index `j` is the value of the field that the
/// representation names at that index.
pub open spec fn holds_field(
    vals: ValuesModel,
    parts: Seq<usize>,
    fields: Seq<FieldRepr>,
    table: Table,
    data: Seq<Datum>,
    j: int,
) -> bool
    decreases data, 0int,
{
    0 <= j < data.len() && j < fields.len() && match field_value(vals, parts, fields[j].name@, 0) {
        Some(w) => holds(vals, w, fields[j].repr, table, data[j]),
        None => false,
    }
}

/// A datum that holds a value has the form of its representation.
pub proof fn lemma_holds_conforms(
    vals: ValuesModel,
    v: usize,
    repr: Repr,
    table: Table,
    d: Datum,
)
    requires
        holds(vals, v, repr, table, d),
    ensures
        conforms(d, repr, table),
    decreases d, 0int,
{
    match (d, repr) {
        (Datum::List(items), Repr::List(item)) => {
            let span = vals.node_at(v).unwrap()->List_0;
            lemma_holds_all_conform(
                vals,
                vals.parts(span),
                repeated(*item, items@.len()),
                table,
                items@,
                0,
            );
        },
        (Datum::Record(values), Repr::Record(fields)) => {
            let span = vals.node_at(v).unwrap()->Record_0;
            lemma_holds_fields_conform(
                vals,
                vals.parts(span),
                fields@,
                table,
                values@,
                0,
            );
        },
        (Datum::Tag(k, args), Repr::Union(index)) => {
            let span = vals.node_at(v).unwrap()->Tag_1;
            lemma_holds_all_conform(
                vals,
                vals.parts(span),
                table.unions@[index as int].variants@[k as int].fields@,
                table,
                args@,
                0,
            );
        },
        _ => {},
    }
}

/// Data that hold values have the forms of their representations.
proof fn lemma_holds_all_conform(
    vals: ValuesModel,
    parts: Seq<usize>,
    reprs: Seq<Repr>,
    table: Table,
    data: Seq<Datum>,
    i: int,
)
    requires
        holds_all(vals, parts, reprs, table, data, i),
    ensures
        conform_all(data, reprs, table, i),
    decreases data, data.len() - i,
{
    if 0 <= i < data.len() {
        lemma_holds_conforms(vals, parts[i], reprs[i], table, data[i]);
        lemma_holds_all_conform(vals, parts, reprs, table, data, i + 1);
    }
}

/// The data of a record that hold its fields have the forms of the
/// fields' representations.
proof fn lemma_holds_fields_conform(
    vals: ValuesModel,
    parts: Seq<usize>,
    fields: Seq<FieldRepr>,
    table: Table,
    data: Seq<Datum>,
    j: int,
)
    requires
        holds_fields(vals, parts, fields, table, data, j),
    ensures
        conform_all(data, field_reprs(fields), table, j),
    decreases data, data.len() - j,
{
    if 0 <= j < data.len() {
        assert(holds_field(vals, parts, fields, table, data, j));
        let w = field_value(vals, parts, fields[j].name@, 0).unwrap();
        lemma_holds_conforms(vals, w, fields[j].repr, table, data[j]);
        lemma_holds_fields_conform(vals, parts, fields, table, data, j + 1);
    }
}

/// A whole number prints as the fraction of the same value does.
pub proof fn lemma_whole_fraction(n: int)
    ensures
        fraction_text(n * UNIT) == numeral(n),
{
    let m = if n < 0 {
        -n
    } else {
        n
    };
    let x = n * UNIT;
    let a = if x < 0 {
        -x
    } else {
        x
    };
    assert(a == m * UNIT) by (nonlinear_arith)
        requires
            m == (if n < 0 {
                -n
            } else {
                n
            }),
            x == n * UNIT,
            a == (if x < 0 {
                -x
            } else {
                x
            }),
    ;
    vstd::arithmetic::div_mod::lemma_div_multiples_vanish(m, UNIT as int);
    vstd::arithmetic::div_mod::lemma_mod_multiples_basic(m, UNIT as int);
    assert(a / (UNIT as int) == m);
    assert(a % (UNIT as int) == 0);
    assert((x < 0) == (n < 0)) by (nonlinear_arith)
        requires
            x == n * UNIT,
    ;
    if n < 0 {
        assert(fraction_text(x) =~= seq!['-'] + crate::text::digits(m as nat));
    } else {
        assert(fraction_text(x) =~= crate::text::digits(m as nat));
    }
}

/// The value of the field at `node`.
pub open spec fn field_content(vals: ValuesModel, node: usize) -> usize {
    match vals.node_at(node) {
        Some(ValNode::Field(_, value)) => value,
        _ => 0,
    }
}

/// The value that a search from index `i` on finds under a name is the
/// value of a field with that name, and the first such field at that.
proof fn lemma_field_value(vals: ValuesModel, parts: Seq<usize>, name: Seq<char>, i: int)
    requires
        0 <= i <= parts.len(),
    ensures
        field_value(vals, parts, name, i) matches Some(w) ==> exists|k: int|
            i <= k < parts.len() && field_name(vals, #[trigger] parts[k]) == Some(name)
                && field_content(vals, parts[k]) == w && forall|m: int|
                i <= m < k ==> field_name(vals, #[trigger] parts[m]) != Some(name),
        field_value(vals, parts, name, i) is None ==> forall|k: int|
            i <= k < parts.len() ==> field_name(vals, #[trigger] parts[k]) != Some(name),
    decreases parts.len() - i,
{
    if i < parts.len() {
        lemma_field_value(vals, parts, name, i + 1);
        if field_name(vals, parts[i]) == Some(name) {
            assert(field_value(vals, parts, name, i) == Some(field_content(vals, parts[i])));
        } else {
            match field_value(vals, parts, name, i) {
                Some(w) => {
                    let k = choose|k: int|
                        i + 1 <= k < parts.len() && field_name(vals, #[trigger] parts[k]) == Some(
                            name,
                        ) && field_content(vals, parts[k]) == w && forall|m: int|
                            i + 1 <= m < k ==> field_name(vals, #[trigger] parts[m]) != Some(name);
                    assert forall|m: int| i <= m < k implies field_name(
                        vals,
                        #[trigger] parts[m],
                    ) != Some(name) by {}
                },
                None => {},
            }
        }
    }
}

/// A name that a field of the representation has is the name of one of
/// its fields.
proof fn lemma_names_field(fields: Seq<FieldRepr>, name: Seq<char>, j: int)
    requires
        0 <= j <= fields.len(),
        names_field(fields, name, j),
    ensures
        exists|k: int| j <= k < fields.len() && (#[trigger] fields[k]).name@ == name,
    decreases fields.len() - j,
{
    if fields[j].name@ != name {
        lemma_names_field(fields, name, j + 1);
    }
}

/// The printable values of data stand at the indices of the data.
proof fn lemma_values_of(data: Seq<Datum>, reprs: Seq<Repr>, table: Table, i: int)
    requires
        0 <= i <= data.len() <= reprs.len(),
    ensures
        values_of(data, reprs, table, i).len() == data.len() - i,
        forall|k: int|
            i <= k < data.len() ==> #[trigger] values_of(data, reprs, table, i)[k - i] == value_of(
                data[k],
                reprs[k],
                table,
            ),
    decreases data.len() - i,
{
    if i < data.len() {
        lemma_values_of(data, reprs, table, i + 1);
        let all = values_of(data, reprs, table, i);
        let rest = values_of(data, reprs, table, i + 1);
        assert forall|k: int| i <= k < data.len() implies #[trigger] all[k - i] == value_of(
            data[k],
            reprs[k],
            table,
        ) by {
            if k > i {
                assert(all[k - i] == rest[k - (i + 1)]);
            }
        }
    }
}

/// The field that a record value shows at index `i` of its parts: its name
/// and its value.
pub open spec fn entry(vals: ValuesModel, parts: Seq<usize>, i: int, fuel: nat) -> FieldModel {
    FieldModel {
        name: field_name(vals, parts[i]).unwrap(),
        value: shown(vals, field_content(vals, parts[i]), fuel).unwrap(),
    }
}

/// The fields that a record value shows, of its first `k` parts, in the
/// order of their names.
pub open spec fn sorted_entries(vals: ValuesModel, parts: Seq<usize>, k: int, fuel: nat) -> Seq<
    FieldModel,
> {
    shown_fields(vals, parts, k, fuel).unwrap()
}

/// The fields that a record shows are the fields of its parts, each shown
/// once, in the order of their names.
proof fn lemma_sorted_entries(
    vals: ValuesModel,
    parts: Seq<usize>,
    k: int,
    fuel: nat,
)
    requires
        0 <= k <= parts.len(),
        forall|i: int| 0 <= i < parts.len() ==> field_name(vals, #[trigger] parts[i]) is Some,
        forall|i: int, m: int|
            0 <= i < parts.len() && 0 <= m < parts.len() && i != m ==> field_name(
                vals,
                #[trigger] parts[i],
            ) != field_name(vals, #[trigger] parts[m]),
        shown_fields(vals, parts, k, fuel) is Some,
    ensures
        ({
            let s = sorted_entries(vals, parts, k, fuel);
            let key = |f: FieldModel| f.name;
            &&& s.len() == k
            &&& ordered(s, key)
            &&& distinct(s, key)
            &&& forall|x: FieldModel|
                s.contains(x) <==> exists|i: int|
                    0 <= i < k && x == #[trigger] entry(vals, parts, i, fuel)
            &&& forall|i: int|
                0 <= i < k ==> shown(vals, field_content(vals, #[trigger] parts[i]), fuel) is Some
        }),
    decreases k,
{
    let key = |f: FieldModel| f.name;
    if k > 0 {
        assert(field_name(vals, parts[k - 1]) is Some);
        lemma_sorted_entries(vals, parts, k - 1, fuel);
        let before = sorted_entries(vals, parts, k - 1, fuel);
        let e = entry(vals, parts, k - 1, fuel);
        let s = sorted_entries(vals, parts, k, fuel);
        assert(s == inserted(before, e, key));
        lemma_inserted_holds(before, e, key);
        lemma_inserted_ordered(before, e, key);
        assert forall|m: int| 0 <= m < before.len() implies key(#[trigger] before[m]) != key(e) by {
            assert(before.contains(before[m]));
            let i = choose|i: int|
                0 <= i < k - 1 && before[m] == #[trigger] entry(vals, parts, i, fuel);
            assert(field_name(vals, parts[i]) != field_name(vals, parts[k - 1]));
        }
        lemma_inserted_distinct(before, e, key);
        assert forall|x: FieldModel|
            s.contains(x) <==> exists|i: int|
                0 <= i < k && x == #[trigger] entry(vals, parts, i, fuel) by {
            if s.contains(x) {
                if x == e {
                    assert(x == entry(vals, parts, k - 1, fuel));
                } else {
                    assert(before.contains(x));
                    let i = choose|i: int|
                        0 <= i < k - 1 && x == #[trigger] entry(vals, parts, i, fuel);
                    assert(x == entry(vals, parts, i, fuel));
                }
            }
            if exists|i: int| 0 <= i < k && x == #[trigger] entry(vals, parts, i, fuel) {
                let i = choose|i: int|
                    0 <= i < k && x == #[trigger] entry(vals, parts, i, fuel);
                if i < k - 1 {
                    assert(before.contains(x));
                }
            }
        }
    } else {
        let s = sorted_entries(vals, parts, k, fuel);
        assert(s.len() == 0);
    }
}

/// What evaluation made is what comes back from memory: the printable
/// value of a datum that holds a value is the value as it is shown.
pub proof fn lemma_transparent(
    vals: ValuesModel,
    v: usize,
    repr: Repr,
    table: Table,
    d: Datum,
    fuel: nat,
)
    requires
        holds(vals, v, repr, table, d),
        shown(vals, v, fuel) is Some,
    ensures
        value_of(d, repr, table) == shown(vals, v, fuel).unwrap(),
    decreases d, 1int,
{
    match (d, repr) {
        (Datum::Frac(x), Repr::Frac) => {
            match vals.node_at(v) {
                Some(ValNode::Int(n)) => {
                    lemma_whole_fraction(n as int);
                },
                _ => {},
            }
        },
        (Datum::List(items), Repr::List(item)) => {
            let span = vals.node_at(v).unwrap()->List_0;
            lemma_transparent_all(
                vals,
                vals.parts(span),
                repeated(*item, items@.len()),
                table,
                items@,
                0,
                (fuel - 1) as nat,
            );
        },
        (Datum::Tag(k, args), Repr::Union(index)) => {
            let span = vals.node_at(v).unwrap()->Tag_1;
            lemma_transparent_all(
                vals,
                vals.parts(span),
                table.unions@[index as int].variants@[k as int].fields@,
                table,
                args@,
                0,
                (fuel - 1) as nat,
            );
        },
        (Datum::Record(values), Repr::Record(fields)) => {
            let span = vals.node_at(v).unwrap()->Record_0;
            let parts = vals.parts(span);
            let key = |f: FieldModel| f.name;
            let n = parts.len() as int;
            let s = sorted_entries(vals, parts, n, (fuel - 1) as nat);
            let a = named(fields@, values_of(values@, field_reprs(fields@), table, 0));
            lemma_sorted_entries(vals, parts, n, (fuel - 1) as nat);
            lemma_values_of(values@, field_reprs(fields@), table, 0);
            assert(a.len() == n);
            assert forall|j: int| 0 <= j < n implies (#[trigger] a[j]).name == fields@[j].name@
                && a[j].value == value_of(values@[j], fields@[j].repr, table) by {
                assert(values_of(values@, field_reprs(fields@), table, 0)[j - 0] == value_of(
                    values@[j],
                    field_reprs(fields@)[j],
                    table,
                ));
            }
            assert(ordered(a, key) && distinct(a, key)) by {
                assert forall|i: int, j: int| 0 <= i < j < a.len() implies precedes(
                    key(#[trigger] a[i]),
                    key(#[trigger] a[j]),
                ) by {
                    assert(precedes(fields@[i].name@, fields@[j].name@));
                }
                assert forall|i: int, j: int|
                    0 <= i < a.len() && 0 <= j < a.len() && i != j implies key(#[trigger] a[i])
                    != key(#[trigger] a[j]) by {
                    if i < j {
                        assert(fields@[i].name@ != fields@[j].name@);
                    } else {
                        assert(fields@[j].name@ != fields@[i].name@);
                    }
                }
            }
            // Each field of the representation is the field of one part.
            assert forall|j: int| 0 <= j < n implies exists|i: int|
                0 <= i < n && #[trigger] a[j] == #[trigger] entry(
                    vals,
                    parts,
                    i,
                    (fuel - 1) as nat,
                ) by {
                lemma_holds_fields_at(vals, parts, fields@, table, values@, 0, j);
                let w = field_value(vals, parts, fields@[j].name@, 0).unwrap();
                lemma_field_value(vals, parts, fields@[j].name@, 0);
                let i = choose|i: int|
                    0 <= i < parts.len() && field_name(vals, #[trigger] parts[i]) == Some(
                        fields@[j].name@,
                    ) && field_content(vals, parts[i]) == w && forall|m: int|
                        0 <= m < i ==> field_name(vals, #[trigger] parts[m]) != Some(
                            fields@[j].name@,
                        );
                assert(shown(vals, field_content(vals, parts[i]), (fuel - 1) as nat) is Some);
                lemma_transparent(vals, w, fields@[j].repr, table, values@[j], (fuel - 1) as nat);
                assert(a[j] == entry(vals, parts, i, (fuel - 1) as nat));
            }
            assert forall|x: FieldModel| a.contains(x) <==> s.contains(x) by {
                if a.contains(x) {
                    let j = choose|j: int| 0 <= j < a.len() && a[j] == x;
                    let i = choose|i: int|
                        0 <= i < n && #[trigger] a[j] == #[trigger] entry(
                            vals,
                            parts,
                            i,
                            (fuel - 1) as nat,
                        );
                    assert(x == entry(vals, parts, i, (fuel - 1) as nat));
                }
                if s.contains(x) {
                    let i = choose|i: int|
                        0 <= i < n && x == #[trigger] entry(vals, parts, i, (fuel - 1) as nat);
                    let name = field_name(vals, parts[i]).unwrap();
                    assert(names_field(fields@, name, 0));
                    lemma_names_field(fields@, name, 0);
                    let j = choose|j: int| 0 <= j < fields@.len() && (#[trigger] fields@[j]).name@ == name;
                    let i2 = choose|i2: int|
                        0 <= i2 < n && #[trigger] a[j] == #[trigger] entry(
                            vals,
                            parts,
                            i2,
                            (fuel - 1) as nat,
                        );
                    assert(field_name(vals, parts[i2]) == field_name(vals, parts[i]));
                    assert(i2 == i);
                    assert(a[j] == x);
                }
            }
            lemma_order_unique(a, s, key);
        },
        _ => {},
    }
}

/// The data of a record hold its fields at every index.
proof fn lemma_holds_fields_at(
    vals: ValuesModel,
    parts: Seq<usize>,
    fields: Seq<FieldRepr>,
    table: Table,
    data: Seq<Datum>,
    from: int,
    j: int,
)
    requires
        holds_fields(vals, parts, fields, table, data, from),
        0 <= from <= j < data.len(),
    ensures
        j < fields.len(),
        field_value(vals, parts, fields[j].name@, 0) matches Some(w) && holds(
            vals,
            w,
            fields[j].repr,
            table,
            data[j],
        ),
    decreases j - from,
{
    if from < j {
        lemma_holds_fields_at(vals, parts, fields, table, data, from + 1, j);
    } else {
        assert(holds_field(vals, parts, fields, table, data, j));
    }
}

/// What comes back from memory for the parts of a block is what evaluation
/// made of them.
proof fn lemma_transparent_all(
    vals: ValuesModel,
    parts: Seq<usize>,
    reprs: Seq<Repr>,
    table: Table,
    data: Seq<Datum>,
    i: int,
    fuel: nat,
)
    requires
        0 <= i <= data.len(),
        parts.len() == data.len(),
        holds_all(vals, parts, reprs, table, data, i),
        shown_all(vals, parts, i, fuel) is Some,
    ensures
        values_of(data, reprs, table, i) == shown_all(vals, parts, i, fuel).unwrap(),
    decreases data, data.len() - i,
{
    if i < data.len() {
        lemma_transparent(vals, parts[i], reprs[i], table, data[i], fuel);
        lemma_transparent_all(vals, parts, reprs, table, data, i + 1, fuel);
    }
}

/// Whether the fields of a representation stand in the order of their
/// names, no name twice.
pub open spec fn sorted_fields(fields: Seq<FieldReprModel>) -> bool {
    forall|i: int, j: int|
        0 <= i < j < fields.len() ==> precedes((#[trigger] fields[i]).name, (#[trigger] fields[j]).name)
            && fields[i].name != fields[j].name
}

/// Whether a field of the representation from index `j` on has the name.
pub open spec fn has_field(fields: Seq<FieldReprModel>, name: Seq<char>, j: int) -> bool
    decreases fields.len() - j,
{
    if 0 <= j < fields.len() {
        fields[j].name == name || has_field(fields, name, j + 1)
    } else {
        false
    }
}

/// Whether the parts of a record value are fields, no name twice, each
/// with a name that the representation has.
pub open spec fn record_parts(vals: ValuesModel, parts: Seq<usize>, fields: Seq<FieldReprModel>) -> bool {
    &&& forall|i: int| 0 <= i < parts.len() ==> field_name(vals, #[trigger] parts[i]) is Some
    &&& forall|i: int, k: int|
        0 <= i < parts.len() && 0 <= k < parts.len() && i != k ==> field_name(
            vals,
            #[trigger] parts[i],
        ) != field_name(vals, #[trigger] parts[k])
    &&& forall|i: int|
        0 <= i < parts.len() ==> has_field(fields, field_name(vals, #[trigger] parts[i]).unwrap(), 0)
}

/// The index of the first variant from index `k` on that has the name; the
/// number of variants where none has.
pub open spec fn variant_index(variants: Seq<VariantReprModel>, name: Seq<char>, k: int) -> int
    decreases variants.len() - k,
{
    if 0 <= k < variants.len() && variants[k].name != name {
        variant_index(variants, name, k + 1)
    } else {
        k
    }
}

/// The datum that holds the value at `v` in the form that the
/// representation describes: a number as a whole number or a fraction, a
/// string by its characters, a list by its items, a record by the values
/// of its fields in the order of the representation, a tag by the index of
/// its variant and its payload, a function as a function. `None` where the
/// value does not have the form of the representation.
pub open spec fn converted(
    vals: ValuesModel,
    v: usize,
    repr: ReprModel,
    table: Seq<Seq<VariantReprModel>>,
    fuel: nat,
) -> Option<DatumModel>
    decreases fuel, 0int,
{
    if fuel == 0 {
        None
    } else {
        match repr {
            ReprModel::Int => match vals.node_at(v) {
                Some(ValNode::Int(x)) => Some(DatumModel::Int(x)),
                _ => None,
            },
            ReprModel::Frac => match vals.node_at(v) {
                Some(ValNode::Frac(x)) => Some(DatumModel::Frac(x)),
                Some(ValNode::Int(n)) => if i128::MIN <= n * UNIT <= i128::MAX {
                    Some(DatumModel::Frac((n * UNIT) as i128))
                } else {
                    None
                },
                _ => None,
            },
            ReprModel::Str => match vals.node_at(v) {
                Some(ValNode::Str(span)) => Some(DatumModel::Str(vals.text(span))),
                _ => None,
            },
            ReprModel::Function => if is_function(vals, v) {
                Some(DatumModel::Function)
            } else {
                None
            },
            ReprModel::List(item) => match vals.node_at(v) {
                Some(ValNode::List(span)) => match converted_all(
                    vals,
                    vals.parts(span),
                    Seq::new(vals.parts(span).len(), |i: int| *item),
                    table,
                    0,
                    (fuel - 1) as nat,
                ) {
                    Some(items) => Some(DatumModel::List(items)),
                    None => None,
                },
                _ => None,
            },
            ReprModel::Union(index) => match vals.node_at(v) {
                Some(ValNode::Tag(name, span)) => if index < table.len() {
                    let variants = table[index as int];
                    let k = variant_index(variants, vals.text(name), 0);
                    if k < variants.len() && vals.parts(span).len() == variants[k].fields.len() {
                        match converted_all(
                            vals,
                            vals.parts(span),
                            variants[k].fields,
                            table,
                            0,
                            (fuel - 1) as nat,
                        ) {
                            Some(args) => Some(DatumModel::Tag(k as usize, args)),
                            None => None,
                        }
                    } else {
                        None
                    }
                } else {
                    None
                },
                _ => None,
            },
            ReprModel::Record(fields) => match vals.node_at(v) {
                Some(ValNode::Record(span)) => if vals.parts(span).len() == fields.len()
                    && sorted_fields(fields) && record_parts(vals, vals.parts(span), fields) {
                    match converted_fields(
                        vals,
                        vals.parts(span),
                        fields,
                        table,
                        0,
                        (fuel - 1) as nat,
                    ) {
                        Some(values) => Some(DatumModel::Record(values)),
                        None => None,
                    }
                } else {
                    None
                },
                _ => None,
            },
        }
    }
}

/// The data that hold the values at `parts` from index `i` on in the forms
/// of the representations at their indices.
pub open spec fn converted_all(
    vals: ValuesModel,
    parts: Seq<usize>,
    reprs: Seq<ReprModel>,
    table: Seq<Seq<VariantReprModel>>,
    i: int,
    fuel: nat,
) -> Option<Seq<DatumModel>>
    decreases fuel, 1 + parts.len() - i,
{
    if 0 <= i < parts.len() {
        if i < reprs.len() {
            match converted(vals, parts[i], reprs[i], table, fuel) {
                Some(first) => match converted_all(vals, parts, reprs, table, i + 1, fuel) {
                    Some(rest) => Some(seq![first] + rest),
                    None => None,
                },
                None => None,
            }
        } else {
            None
        }
    } else {
        Some(Seq::empty())
    }
}

/// The data that hold the values of the fields that the representation
/// names from index `j` on.
pub open spec fn converted_fields(
    vals: ValuesModel,
    parts: Seq<usize>,
    fields: Seq<FieldReprModel>,
    table: Seq<Seq<VariantReprModel>>,
    j: int,
    fuel: nat,
) -> Option<Seq<DatumModel>>
    decreases fuel, 1 + fields.len() - j,
{
    if 0 <= j < fields.len() {
        match field_value(vals, parts, fields[j].name, 0) {
            Some(w) => match converted(vals, w, fields[j].repr, table, fuel) {
                Some(first) => match converted_fields(
                    vals,
                    parts,
                    fields,
                    table,
                    j + 1,
                    fuel,
                ) {
                    Some(rest) => Some(seq![first] + rest),
                    None => None,
                },
                None => None,
            },
            None => None,
        }
    } else {
        Some(Seq::empty())
    }
}

/// The order of the fields of a representation is the order of their models.
proof fn lemma_sorted_models(fields: Seq<FieldRepr>)
    ensures
        sorted_reprs(fields) == sorted_fields(fields_model(fields)),
{
    let models = fields_model(fields);
    if sorted_reprs(fields) {
        assert forall|i: int, j: int| 0 <= i < j < models.len() implies precedes(
            (#[trigger] models[i]).name,
            (#[trigger] models[j]).name,
        ) && models[i].name != models[j].name by {
            assert(precedes(fields[i].name@, fields[j].name@) && fields[i].name@ != fields[j].name@);
        }
    }
    if sorted_fields(models) {
        assert forall|i: int, j: int| 0 <= i < j < fields.len() implies precedes(
            (#[trigger] fields[i]).name@,
            (#[trigger] fields[j]).name@,
        ) && fields[i].name@ != fields[j].name@ by {
            assert(precedes(models[i].name, models[j].name) && models[i].name != models[j].name);
        }
    }
}

/// A representation has a name among its fields as its model has.
proof fn lemma_has_field(fields: Seq<FieldRepr>, name: Seq<char>, j: int)
    requires
        0 <= j,
    ensures
        names_field(fields, name, j) == has_field(fields_model(fields), name, j),
    decreases fields.len() - j,
{
    if j < fields.len() {
        lemma_has_field(fields, name, j + 1);
    }
}

/// The parts of a record value fit a representation as they fit its model.
proof fn lemma_record_parts(vals: ValuesModel, parts: Seq<usize>, fields: Seq<FieldRepr>)
    ensures
        field_parts(vals, parts, fields) == record_parts(vals, parts, fields_model(fields)),
{
    assert forall|i: int| 0 <= i < parts.len() && field_name(vals, parts[i]) is Some implies (
    names_field(fields, field_name(vals, #[trigger] parts[i]).unwrap(), 0) == has_field(
        fields_model(fields),
        field_name(vals, parts[i]).unwrap(),
        0,
    )) by {
        lemma_has_field(fields, field_name(vals, parts[i]).unwrap(), 0);
    }
}

/// Whether the fields of a representation stand in the order of their
/// names, no name twice.
fn reprs_sorted(fields: &Vec<FieldRepr>) -> (r: bool)
    ensures
        r == sorted_reprs(fields@),
{
    let mut j: usize = 0;
    while j < fields.len()
        invariant
            j <= fields@.len(),
            forall|a: int, b: int|
                0 <= a < b < j ==> precedes(
                    (#[trigger] fields@[a]).name@,
                    (#[trigger] fields@[b]).name@,
                ) && fields@[a].name@ != fields@[b].name@,
        decreases fields.len() - j,
    {
        let mut i: usize = 0;
        while i < j
            invariant
                i <= j < fields@.len(),
                forall|a: int|
                    0 <= a < i ==> precedes((#[trigger] fields@[a]).name@, fields@[j as int].name@)
                        && fields@[a].name@ != fields@[j as int].name@,
            decreases j - i,
        {
            if !le(&fields[i].name, &fields[j].name) || same(&fields[i].name, &fields[j].name) {
                return false;
            }
            i = i + 1;
        }
        j = j + 1;
    }
    true
}

/// The name of the field at `node`.
fn name_of_field(vals: &Values, node: usize) -> (r: Option<Vec<char>>)
    ensures
        match r {
            Some(name) => field_name(vals@, node) == Some(name@),
            None => field_name(vals@, node) is None,
        },
{
    match vals.node(node) {
        Some(ValNode::Field(name, _)) => Some(vals.text(name)),
        _ => None,
    }
}

/// Whether a field of the representation has the name.
fn repr_names(fields: &Vec<FieldRepr>, name: &Vec<char>) -> (r: bool)
    ensures
        r == names_field(fields@, name@, 0),
{
    let mut j: usize = 0;
    while j < fields.len()
        invariant
            j <= fields@.len(),
            names_field(fields@, name@, 0) == names_field(fields@, name@, j as int),
        decreases fields.len() - j,
    {
        if same(&fields[j].name, name) {
            return true;
        }
        j = j + 1;
    }
    false
}

/// Whether the parts of a record value are fields, no name twice, each
/// with a name that the representation has.
fn parts_are_fields(vals: &Values, parts: &Vec<usize>, fields: &Vec<FieldRepr>) -> (r: bool)
    ensures
        r == field_parts(vals@, parts@, fields@),
{
    let mut names: Vec<Vec<char>> = Vec::new();
    let mut i: usize = 0;
    while i < parts.len()
        invariant
            i <= parts@.len(),
            names@.len() == i,
            forall|a: int|
                0 <= a < i ==> field_name(vals@, #[trigger] parts@[a]) == Some(names@[a]@),
            forall|a: int|
                0 <= a < i ==> names_field(
                    fields@,
                    field_name(vals@, #[trigger] parts@[a]).unwrap(),
                    0,
                ),
        decreases parts.len() - i,
    {
        match name_of_field(vals, parts[i]) {
            Some(name) => {
                if !repr_names(fields, &name) {
                    assert(!names_field(
                        fields@,
                        field_name(vals@, parts@[i as int]).unwrap(),
                        0,
                    ));
                    return false;
                }
                names.push(name);
            },
            None => {
                assert(field_name(vals@, parts@[i as int]) is None);
                return false;
            },
        }
        i = i + 1;
    }
    let mut a: usize = 0;
    while a < names.len()
        invariant
            a <= names@.len(),
            names@.len() == parts@.len(),
            forall|x: int|
                0 <= x < parts@.len() ==> field_name(vals@, #[trigger] parts@[x]) == Some(
                    names@[x]@,
                ),
            forall|x: int|
                0 <= x < parts@.len() ==> names_field(
                    fields@,
                    field_name(vals@, #[trigger] parts@[x]).unwrap(),
                    0,
                ),
            forall|x: int, y: int|
                0 <= x < a && 0 <= y < names@.len() && x != y ==> (#[trigger] names@[x])@ != (
                #[trigger] names@[y])@,
        decreases names.len() - a,
    {
        let mut b: usize = 0;
        while b < names.len()
            invariant
                a < names@.len(),
                b <= names@.len(),
                names@.len() == parts@.len(),
                forall|x: int|
                    0 <= x < parts@.len() ==> field_name(vals@, #[trigger] parts@[x]) == Some(
                        names@[x]@,
                    ),
                forall|y: int| 0 <= y < b && y != a ==> names@[a as int]@ != (#[trigger] names@[y])@,
            decreases names.len() - b,
        {
            if b != a && same(&names[a], &names[b]) {
                assert(field_name(vals@, parts@[a as int]) == field_name(vals@, parts@[b as int]));
                return false;
            }
            b = b + 1;
        }
        a = a + 1;
    }
    assert forall|x: int, y: int|
        0 <= x < parts@.len() && 0 <= y < parts@.len() && x != y implies field_name(
        vals@,
        #[trigger] parts@[x],
    ) != field_name(vals@, #[trigger] parts@[y]) by {
        assert(names@[x]@ != names@[y]@);
    }
    true
}

/// Data that hold the parts at their indices hold them all.
proof fn lemma_holds_all_from(
    vals: ValuesModel,
    parts: Seq<usize>,
    reprs: Seq<Repr>,
    table: Table,
    data: Seq<Datum>,
    i: int,
)
    requires
        0 <= i <= data.len(),
        data.len() <= parts.len(),
        data.len() <= reprs.len(),
        forall|k: int|
            i <= k < data.len() ==> holds(vals, parts[k], reprs[k], table, #[trigger] data[k]),
    ensures
        holds_all(vals, parts, reprs, table, data, i),
    decreases data.len() - i,
{
    if i < data.len() {
        lemma_holds_all_from(vals, parts, reprs, table, data, i + 1);
    }
}

/// Data that hold the fields of their indices hold them all.
proof fn lemma_holds_fields_from(
    vals: ValuesModel,
    parts: Seq<usize>,
    fields: Seq<FieldRepr>,
    table: Table,
    data: Seq<Datum>,
    j: int,
)
    requires
        0 <= j <= data.len(),
        data.len() <= fields.len(),
        forall|k: int|
            j <= k < data.len() ==> #[trigger] holds_field(
                vals,
                parts,
                fields,
                table,
                data,
                k,
            ),
    ensures
        holds_fields(vals, parts, fields, table, data, j),
    decreases data.len() - j,
{
    if j < data.len() {
        lemma_holds_fields_from(vals, parts, fields, table, data, j + 1);
        assert(holds_field(vals, parts, fields, table, data, j));
    }
}

/// Where the representations of the parts of a block come from.
pub enum Reprs<'a> {
    /// Every part has the one representation.
    Same(&'a Repr),
    /// Each part has a representation of its own.
    Each(&'a Vec<Repr>),
}

impl<'a> Reprs<'a> {
    /// The representations of `n` parts.
    pub open spec fn all(self, n: nat) -> Seq<Repr> {
        match self {
            Reprs::Same(item) => repeated(*item, n),
            Reprs::Each(reprs) => reprs@,
        }
    }

    /// The models of the representations of `n` parts.
    pub open spec fn models(self, n: nat) -> Seq<ReprModel> {
        match self {
            Reprs::Same(item) => Seq::new(n, |i: int| repr_model(*item)),
            Reprs::Each(reprs) => reprs_model(reprs@),
        }
    }
}

/// The index of the first variant that has the name.
fn find_variant(variants: &Vec<VariantRepr>, name: &Vec<char>) -> (r: usize)
    ensures
        r == variant_index(variants_model(variants@), name@, 0),
        r <= variants@.len(),
        r < variants@.len() ==> variants@[r as int].name@ == name@,
{
    let mut k: usize = 0;
    while k < variants.len() && !same(&variants[k].name, name)
        invariant
            k <= variants@.len(),
            variant_index(variants_model(variants@), name@, 0) == variant_index(
                variants_model(variants@),
                name@,
                k as int,
            ),
        decreases variants.len() - k,
    {
        k = k + 1;
    }
    k
}

/// Converts the values at `parts` from index `i` on and appends the data
/// to `out`. Returns whether every value has the form of its
/// representation.
fn convert_all(
    vals: &Values,
    parts: &Vec<usize>,
    reprs: Reprs<'_>,
    table: &Table,
    i: usize,
    out: &mut Vec<Datum>,
    fuel: usize,
) -> (r: bool)
    requires
        reprs.all(parts@.len()).len() == parts@.len(),
        old(out)@.len() == i <= parts@.len(),
    ensures
        match converted_all(
            vals@,
            parts@,
            reprs.models(parts@.len()),
            table_model(*table),
            i as int,
            fuel as nat,
        ) {
            Some(ms) => r && data_model(final(out)@) == data_model(old(out)@) + ms,
            None => !r,
        },
        r ==> final(out)@.len() == parts@.len() && forall|k: int|
            0 <= k < i ==> final(out)@[k] == old(out)@[k],
        r ==> forall|k: int|
            i <= k < parts@.len() ==> holds(
                vals@,
                parts@[k],
                reprs.all(parts@.len())[k],
                *table,
                #[trigger] final(out)@[k],
            ),
    decreases fuel, 1 + parts@.len() - i,
{
    if i < parts.len() {
        let repr: &Repr = match reprs {
            Reprs::Same(item) => item,
            Reprs::Each(each) => &each[i],
        };
        assert(repr@ == reprs.models(parts@.len())[i as int]);
        match convert(vals, parts[i], repr, table, fuel) {
            Some(d) => {
                let ghost model = d@;
                let ghost before = data_model(out@);
                out.push(d);
                assert(data_model(out@) =~= before.push(model));
                let ghost mid = out@;
                let r = convert_all(vals, parts, reprs, table, i + 1, out, fuel);
                proof {
                    match converted_all(
                        vals@,
                        parts@,
                        reprs.models(parts@.len()),
                        table_model(*table),
                        i + 1,
                        fuel as nat,
                    ) {
                        Some(rest) => {
                            assert(before.push(model) + rest =~= before + (seq![model] + rest));
                        },
                        None => {},
                    }
                    if r {
                        assert(out@[i as int] == mid[i as int]);
                    }
                }
                r
            },
            None => false,
        }
    } else {
        assert(data_model(out@) + Seq::<DatumModel>::empty() =~= data_model(out@));
        true
    }
}

/// Whether the datum is the value of the field that the representation
/// names at index `k`.
pub open spec fn holds_named(
    vals: ValuesModel,
    parts: Seq<usize>,
    fields: Seq<FieldRepr>,
    table: Table,
    d: Datum,
    k: int,
) -> bool {
    0 <= k < fields.len() && match field_value(vals, parts, fields[k].name@, 0) {
        Some(w) => holds(vals, w, fields[k].repr, table, d),
        None => false,
    }
}

/// Converts the values of the fields that the representation names from
/// index `j` on and appends the data to `out`.
fn convert_fields(
    vals: &Values,
    parts: &Vec<usize>,
    fields: &Vec<FieldRepr>,
    table: &Table,
    j: usize,
    out: &mut Vec<Datum>,
    fuel: usize,
) -> (r: bool)
    requires
        old(out)@.len() == j <= fields@.len(),
    ensures
        match converted_fields(
            vals@,
            parts@,
            fields_model(fields@),
            table_model(*table),
            j as int,
            fuel as nat,
        ) {
            Some(ms) => r && data_model(final(out)@) == data_model(old(out)@) + ms,
            None => !r,
        },
        r ==> final(out)@.len() == fields@.len() && forall|k: int|
            0 <= k < j ==> final(out)@[k] == old(out)@[k],
        r ==> forall|k: int|
            j <= k < fields@.len() ==> #[trigger] holds_named(
                vals@,
                parts@,
                fields@,
                *table,
                final(out)@[k],
                k,
            ),
    decreases fuel, 1 + fields@.len() - j,
{
    if j < fields.len() {
        assert(fields_model(fields@)[j as int].name == fields@[j as int].name@);
        assert(fields_model(fields@)[j as int].repr == fields@[j as int].repr@);
        match find_field(vals, parts, &fields[j].name) {
            Some(w) => match convert(vals, w, &fields[j].repr, table, fuel) {
                Some(d) => {
                    let ghost model = d@;
                    let ghost before = data_model(out@);
                    out.push(d);
                    assert(data_model(out@) =~= before.push(model));
                    let ghost mid = out@;
                    let r = convert_fields(vals, parts, fields, table, j + 1, out, fuel);
                    proof {
                        match converted_fields(
                            vals@,
                            parts@,
                            fields_model(fields@),
                            table_model(*table),
                            j + 1,
                            fuel as nat,
                        ) {
                            Some(rest) => {
                                assert(before.push(model) + rest =~= before + (seq![model] + rest));
                            },
                            None => {},
                        }
                        if r {
                            assert(out@[j as int] == mid[j as int]);
                            assert(holds_named(
                                vals@,
                                parts@,
                                fields@,
                                *table,
                                out@[j as int],
                                j as int,
                            ));
                        }
                    }
                    r
                },
                None => false,
            },
            None => false,
        }
    } else {
        assert(data_model(out@) + Seq::<DatumModel>::empty() =~= data_model(out@));
        true
    }
}

/// Whether the outcome of a conversion is the specified one.
pub open spec fn converted_as(r: Option<Datum>, expected: Option<DatumModel>) -> bool {
    match expected {
        Some(m) => r matches Some(d) && d@ == m,
        None => r is None,
    }
}

/// Converts the value at `v` to the datum that holds it in the form that
/// the representation describes.
pub fn convert(vals: &Values, v: usize, repr: &Repr, table: &Table, fuel: usize) -> (r:
    Option<Datum>)
    ensures
        converted_as(r, converted(vals@, v, repr@, table_model(*table), fuel as nat)),
        r matches Some(d) ==> holds(vals@, v, *repr, *table, d),
    decreases fuel, 0int,
{
    if fuel == 0 {
        return None;
    }
    match repr {
        Repr::Int => match vals.node(v) {
            Some(ValNode::Int(x)) => Some(Datum::Int(x)),
            _ => None,
        },
        Repr::Frac => match vals.node(v) {
            Some(ValNode::Frac(x)) => Some(Datum::Frac(x)),
            Some(ValNode::Int(n)) => match n.checked_mul(UNIT) {
                Some(x) => Some(Datum::Frac(x)),
                None => None,
            },
            _ => None,
        },
        Repr::Str => match vals.node(v) {
            Some(ValNode::Str(span)) => Some(Datum::Str(vals.text(span))),
            _ => None,
        },
        Repr::Function => match vals.node(v) {
            Some(ValNode::Closure(_, _)) => Some(Datum::Function),
            Some(ValNode::Builtin(_)) => Some(Datum::Function),
            _ => None,
        },
        Repr::List(item) => match vals.node(v) {
            Some(ValNode::List(span)) => {
                let parts = vals.parts(span);
                let mut items: Vec<Datum> = Vec::new();
                assert(data_model(items@) =~= Seq::empty());
                assert(repr@ == ReprModel::List(Box::new(repr_model(**item))));
                if convert_all(vals, &parts, Reprs::Same(item), table, 0, &mut items, fuel - 1) {
                    assert(data_model(items@) =~= Seq::<DatumModel>::empty() + data_model(items@));
                    proof {
                        lemma_holds_all_from(
                            vals@,
                            parts@,
                            repeated(**item, parts@.len()),
                            *table,
                            items@,
                            0,
                        );
                    }
                    Some(Datum::List(items))
                } else {
                    None
                }
            },
            _ => None,
        },
        Repr::Union(index) => match vals.node(v) {
            Some(ValNode::Tag(name, span)) => {
                if *index >= table.unions.len() {
                    return None;
                }
                let u = &table.unions[*index];
                assert(table_model(*table)[*index as int] == variants_model(u.variants@));
                let text = vals.text(name);
                let k = find_variant(&u.variants, &text);
                if k >= u.variants.len() {
                    return None;
                }
                let parts = vals.parts(span);
                assert(variants_model(u.variants@)[k as int].fields == reprs_model(
                    u.variants@[k as int].fields@,
                ));
                if parts.len() != u.variants[k].fields.len() {
                    return None;
                }
                let mut args: Vec<Datum> = Vec::new();
                assert(data_model(args@) =~= Seq::empty());
                if convert_all(
                    vals,
                    &parts,
                    Reprs::Each(&u.variants[k].fields),
                    table,
                    0,
                    &mut args,
                    fuel - 1,
                ) {
                    assert(data_model(args@) =~= Seq::<DatumModel>::empty() + data_model(args@));
                    proof {
                        lemma_holds_all_from(
                            vals@,
                            parts@,
                            u.variants@[k as int].fields@,
                            *table,
                            args@,
                            0,
                        );
                    }
                    Some(Datum::Tag(k, args))
                } else {
                    None
                }
            },
            _ => None,
        },
        Repr::Record(fields) => match vals.node(v) {
            Some(ValNode::Record(span)) => {
                let parts = vals.parts(span);
                assert(repr@ == ReprModel::Record(fields_model(fields@))) by {
                    assert(repr_model(*repr)->Record_0 =~= fields_model(fields@));
                }
                proof {
                    lemma_sorted_models(fields@);
                    lemma_record_parts(vals@, parts@, fields@);
                }
                if parts.len() != fields.len() || !reprs_sorted(fields) || !parts_are_fields(
                    vals,
                    &parts,
                    fields,
                ) {
                    return None;
                }
                let mut values: Vec<Datum> = Vec::new();
                assert(data_model(values@) =~= Seq::empty());
                if convert_fields(vals, &parts, fields, table, 0, &mut values, fuel - 1) {
                    assert(data_model(values@) =~= Seq::<DatumModel>::empty() + data_model(
                        values@,
                    ));
                    proof {
                        assert forall|k: int| 0 <= k < values@.len() implies #[trigger] holds_field(
                            vals@,
                            parts@,
                            fields@,
                            *table,
                            values@,
                            k,
                        ) by {
                            assert(holds_named(
                                vals@,
                                parts@,
                                fields@,
                                *table,
                                values@[k],
                                k,
                            ));
                        }
                        lemma_holds_fields_from(vals@, parts@, fields@, *table, values@, 0);
                    }
                    Some(Datum::Record(values))
                } else {
                    None
                }
            },
            _ => None,
        },
    }
}

/// Whether the value at `v` can be laid out as a value of the type at
/// `ty`: the type has a representation, and the value the form of it.
pub open spec fn lays_out(
    types: TypesModel,
    chars: Seq<char>,
    aliases: Seq<AliasDef>,
    ty: usize,
    vals: ValuesModel,
    v: usize,
) -> bool {
    match planned_type(
        PlanModel { types, table: Seq::empty(), memo: Seq::empty() },
        chars,
        aliases,
        ty,
        FUEL as nat,
    ) {
        Some((st, repr)) => converted(vals, v, repr, st.table, FUEL as nat) is Some,
        None => false,
    }
}

/// Lays the value at `v` out in memory, under the layouts that the planner
/// gives the unions of its type, and rebuilds the printable value from the
/// cells. What is rebuilt is the value as it is shown. Returns `None`
/// where the type has no representation, or the value not the form of it.
/// The planner works on a copy of the types, which stay as they are.
pub fn through_memory(
    types: &Types,
    chars: &Vec<char>,
    aliases: &Vec<AliasDef>,
    ty: usize,
    vals: &Values,
    v: usize,
    fuel: usize,
) -> (r: Option<Value>)
    ensures
        r is Some <==> lays_out(types@, chars@, aliases@, ty, vals@, v),
        r matches Some(value) ==> (shown(vals@, v, fuel as nat) matches Some(m) ==> value@ == m),
{
    let mut table = Table::new();
    let mut memo: Vec<Planned> = Vec::new();
    assert(crate::plan::memo_model(memo@) =~= Seq::empty());
    let mut work = snapshot(types);
    let repr = match plan_type(&mut work, chars, aliases, ty, &mut table, &mut memo, FUEL) {
        Some(repr) => repr,
        None => {
            return None;
        },
    };
    let d = match convert(vals, v, &repr, &table, FUEL) {
        Some(d) => d,
        None => {
            return None;
        },
    };
    let mut mem: Vec<i128> = Vec::new();
    mem.push(0);
    proof {
        lemma_holds_conforms(vals@, v, repr, table, d);
    }
    let ghost before = mem@;
    let cell = store(&mut mem, &d, &repr, &table);
    let bound = mem.len();
    proof {
        lemma_round_trip(before, d, repr, table);
        if shown(vals@, v, fuel as nat) is Some {
            lemma_transparent(vals@, v, repr, table, d, fuel as nat);
        }
    }
    rebuild(&mem, cell, &repr, &table, bound)
}

} // verus!
