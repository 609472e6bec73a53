//! Printable values and their canonical text.

use vstd::prelude::*;
use crate::text::{
    append, append_str, arranged, copy, distinct, inserted, le, lemma_arranged,
    lemma_inserted_at, lemma_order_unique, ordered, precedes,
};

verus! {

/// A value as it is printed: a tree rebuilt from evaluated memory.
#[derive(Debug, PartialEq, Eq)]
pub enum Value {
    /// A number, by its numeral.
    Num(Vec<char>),
    /// A string, by its characters.
    Str(Vec<char>),
    /// A list, by its items in order.
    List(Vec<Value>),
    /// A record, by its fields in any order.
    Record(Vec<Field>),
    /// A tag applied to its arguments.
    Tag(Vec<char>, Vec<Value>),
    /// A function, of which nothing is shown.
    Function,
}

/// One field of a record value.
#[derive(Debug, PartialEq, Eq)]
pub struct Field {
    pub name: Vec<char>,
    pub value: Value,
}

/// The mathematical model of a [`Value`].
pub enum ValueModel {
    Num(Seq<char>),
    Str(Seq<char>),
    List(Seq<ValueModel>),
    Record(Seq<FieldModel>),
    Tag(Seq<char>, Seq<ValueModel>),
    Function,
}

/// The mathematical model of a [`Field`].
pub struct FieldModel {
    pub name: Seq<char>,
    pub value: ValueModel,
}

/// The model of `v`.
pub open spec fn value_model(v: Value) -> ValueModel
    decreases v,
{
    match v {
        Value::Num(text) => ValueModel::Num(text@),
        Value::Str(text) => ValueModel::Str(text@),
        Value::List(items) => ValueModel::List(values_model(items@)),
        Value::Record(fields) => ValueModel::Record(
            Seq::new(
                fields@.len(),
                |i: int|
                    if 0 <= i < fields@.len() {
                        FieldModel { name: fields@[i].name@, value: value_model(fields@[i].value) }
                    } else {
                        FieldModel { name: Seq::empty(), value: ValueModel::Function }
                    },
            ),
        ),
        Value::Tag(name, args) => ValueModel::Tag(name@, values_model(args@)),
        Value::Function => ValueModel::Function,
    }
}

/// The models of `items`, in order.
pub open spec fn values_model(items: Seq<Value>) -> Seq<ValueModel>
    decreases items,
{
    Seq::new(
        items.len(),
        |i: int|
            if 0 <= i < items.len() {
                value_model(items[i])
            } else {
                ValueModel::Function
            },
    )
}

impl View for Value {
    type V = ValueModel;

    open spec fn view(&self) -> ValueModel {
        value_model(*self)
    }
}

/// A record field ready for print: its name and the text of its value.
pub struct Entry {
    pub name: Vec<char>,
    pub text: Vec<char>,
}

/// The mathematical model of an [`Entry`].
pub struct EntryModel {
    pub name: Seq<char>,
    pub text: Seq<char>,
}

impl View for Entry {
    type V = EntryModel;

    open spec fn view(&self) -> EntryModel {
        EntryModel { name: self.name@, text: self.text@ }
    }
}

/// The models of `entries`, in order.
pub open spec fn entries_model(entries: Seq<Entry>) -> Seq<EntryModel> {
    entries.map_values(|e: Entry| e@)
}

/// The characters of `text` as they stand between double quotes: a quote or
/// a backslash gets a backslash in front, every other character stands as it is.
pub open spec fn escaped(text: Seq<char>) -> Seq<char>
    decreases text.len(),
{
    if text.len() == 0 {
        Seq::empty()
    } else {
        let c = text.last();
        if c == '"' || c == '\\' {
            escaped(text.drop_last()).push('\\').push(c)
        } else {
            escaped(text.drop_last()).push(c)
        }
    }
}

/// The entries in the order in which a record prints them: by name,
/// lexicographically.
pub open spec fn canonical(entries: Seq<EntryModel>) -> Seq<EntryModel> {
    arranged(entries, |e: EntryModel| e.name)
}

/// Whether a value stands in parentheses as the argument of a tag.
pub open spec fn needs_parens(v: ValueModel) -> bool {
    v matches ValueModel::Tag(_, args) && args.len() > 0
}

/// The canonical text of a value.
pub open spec fn rendered(v: ValueModel) -> Seq<char>
    decreases v,
{
    match v {
        ValueModel::Num(text) => text,
        ValueModel::Str(text) => seq!['"'] + escaped(text) + seq!['"'],
        ValueModel::List(items) => if items.len() == 0 {
            "[]"@
        } else {
            "[ "@ + rendered_items(items, 0) + " ]"@
        },
        ValueModel::Record(fields) => if fields.len() == 0 {
            "{}"@
        } else {
            "{ "@ + joined(canonical(rendered_fields(fields)), 0) + " }"@
        },
        ValueModel::Tag(name, args) => name + rendered_args(args, 0),
        ValueModel::Function => "<function>"@,
    }
}

/// The texts of the items from index `i` on, separated by commas.
pub open spec fn rendered_items(items: Seq<ValueModel>, i: int) -> Seq<char>
    decreases items, items.len() - i,
{
    if 0 <= i < items.len() {
        (if i == 0 {
            Seq::empty()
        } else {
            ", "@
        }) + rendered(items[i]) + rendered_items(items, i + 1)
    } else {
        Seq::empty()
    }
}

/// The texts of a tag's arguments from index `i` on, each after a space, and
/// in parentheses where it is itself a tag with arguments.
pub open spec fn rendered_args(args: Seq<ValueModel>, i: int) -> Seq<char>
    decreases args, args.len() - i,
{
    if 0 <= i < args.len() {
        (if needs_parens(args[i]) {
            " ("@ + rendered(args[i]) + ")"@
        } else {
            " "@ + rendered(args[i])
        }) + rendered_args(args, i + 1)
    } else {
        Seq::empty()
    }
}

/// The fields, each with the text of its value, in the order in which they
/// stand.
pub open spec fn rendered_fields(fields: Seq<FieldModel>) -> Seq<EntryModel>
    decreases fields,
{
    Seq::new(
        fields.len(),
        |i: int|
            if 0 <= i < fields.len() {
                EntryModel { name: fields[i].name, text: rendered(fields[i].value) }
            } else {
                EntryModel { name: Seq::empty(), text: Seq::empty() }
            },
    )
}

/// The entries from index `i` on as `name: text`, separated by commas.
pub open spec fn joined(entries: Seq<EntryModel>, i: int) -> Seq<char>
    decreases entries.len() - i,
{
    if 0 <= i < entries.len() {
        (if i == 0 {
            Seq::empty()
        } else {
            ", "@
        }) + entries[i].name + ": "@ + entries[i].text + joined(entries, i + 1)
    } else {
        Seq::empty()
    }
}

/// Appends the escaped form of `text` to `out`.
fn escape_into(out: &mut Vec<char>, text: &Vec<char>)
    ensures
        final(out)@ == old(out)@ + escaped(text@),
{
    let mut i: usize = 0;
    while i < text.len()
        invariant
            i <= text.len(),
            out@ == old(out)@ + escaped(text@.take(i as int)),
        decreases text.len() - i,
    {
        let c = text[i];
        assert(text@.take(i + 1).drop_last() =~= text@.take(i as int));
        assert(text@.take(i + 1).last() == c);
        if c == '"' || c == '\\' {
            out.push('\\');
        }
        out.push(c);
        assert(out@ =~= old(out)@ + escaped(text@.take(i + 1)));
        i = i + 1;
    }
    assert(text@.take(i as int) =~= text@);
}

/// Puts `e` into `sorted` at its place in the order of names.
fn insert_entry(sorted: &mut Vec<Entry>, e: Entry)
    ensures
        entries_model(final(sorted)@) == inserted(
            entries_model(old(sorted)@),
            e@,
            |x: EntryModel| x.name,
        ),
{
    let ghost key = |x: EntryModel| x.name;
    let mut p: usize = 0;
    while p < sorted.len() && !le(&e.name, &sorted[p].name)
        invariant
            p <= sorted.len(),
            sorted@ == old(sorted)@,
            forall|j: int| 0 <= j < p ==> !precedes(e.name@, (#[trigger] sorted@[j]).name@),
        decreases sorted.len() - p,
    {
        p = p + 1;
    }
    proof {
        assert forall|j: int| 0 <= j < p implies !precedes(
            key(e@),
            key(#[trigger] entries_model(sorted@)[j]),
        ) by {
            assert(entries_model(sorted@)[j].name == sorted@[j].name@);
        }
        lemma_inserted_at(entries_model(sorted@), e@, key, p as int);
        assert(entries_model(sorted@.insert(p as int, e)) =~= entries_model(sorted@).insert(
            p as int,
            e@,
        ));
    }
    sorted.insert(p, e);
}

/// Appends the entries as `name: text`, separated by commas.
fn join_into(out: &mut Vec<char>, entries: &Vec<Entry>)
    ensures
        final(out)@ == old(out)@ + joined(entries_model(entries@), 0),
{
    let ghost model = entries_model(entries@);
    let mut i: usize = 0;
    while i < entries.len()
        invariant
            i <= entries.len(),
            model == entries_model(entries@),
            out@ + joined(model, i as int) == old(out)@ + joined(model, 0),
        decreases entries.len() - i,
    {
        let ghost before = out@;
        if i > 0 {
            append_str(out, ", ");
        }
        append(out, &entries[i].name);
        append_str(out, ": ");
        append(out, &entries[i].text);
        assert(out@ + joined(model, i + 1) =~= before + joined(model, i as int));
        i = i + 1;
    }
    assert(out@ + joined(model, i as int) =~= out@);
}

/// Appends the canonical text of `v` to `out`.
pub fn render_into(out: &mut Vec<char>, v: &Value)
    ensures
        final(out)@ == old(out)@ + rendered(v@),
    decreases v,
{
    match v {
        Value::Num(text) => {
            append(out, text);
            assert(v@ == ValueModel::Num(text@));
        },
        Value::Str(text) => {
            out.push('"');
            escape_into(out, text);
            out.push('"');
            assert(out@ =~= old(out)@ + rendered(v@));
        },
        Value::List(items) => {
            assert(v@ == ValueModel::List(values_model(items@)));
            if items.len() == 0 {
                append_str(out, "[]");
            } else {
                append_str(out, "[ ");
                render_items_into(out, items);
                append_str(out, " ]");
                assert(out@ =~= old(out)@ + rendered(v@));
            }
        },
        Value::Record(fields) => {
            assert(v@ matches ValueModel::Record(f) && f.len() == fields.len());
            if fields.len() == 0 {
                append_str(out, "{}");
            } else {
                let sorted = sorted_entries(fields);
                append_str(out, "{ ");
                join_into(out, &sorted);
                append_str(out, " }");
                assert(out@ =~= old(out)@ + rendered(v@));
            }
        },
        Value::Tag(name, args) => {
            append(out, name);
            render_args_into(out, args);
            assert(out@ =~= old(out)@ + rendered(v@));
        },
        Value::Function => {
            append_str(out, "<function>");
            assert(v@ == ValueModel::Function);
        },
    }
}

/// Appends the texts of `items`, separated by commas.
fn render_items_into(out: &mut Vec<char>, items: &Vec<Value>)
    ensures
        final(out)@ == old(out)@ + rendered_items(values_model(items@), 0),
    decreases items@,
{
    let ghost model = values_model(items@);
    let mut i: usize = 0;
    while i < items.len()
        invariant
            i <= items.len(),
            model == values_model(items@),
            out@ + rendered_items(model, i as int) == old(out)@ + rendered_items(model, 0),
        decreases items.len() - i,
    {
        let ghost before = out@;
        if i > 0 {
            append_str(out, ", ");
        }
        render_into(out, &items[i]);
        assert(out@ + rendered_items(model, i + 1) =~= before + rendered_items(model, i as int));
        i = i + 1;
    }
    assert(out@ + rendered_items(model, i as int) =~= out@);
}

/// Appends the texts of a tag's arguments, each after a space.
fn render_args_into(out: &mut Vec<char>, args: &Vec<Value>)
    ensures
        final(out)@ == old(out)@ + rendered_args(values_model(args@), 0),
    decreases args@,
{
    let ghost model = values_model(args@);
    let mut i: usize = 0;
    while i < args.len()
        invariant
            i <= args.len(),
            model == values_model(args@),
            out@ + rendered_args(model, i as int) == old(out)@ + rendered_args(model, 0),
        decreases args.len() - i,
    {
        let ghost before = out@;
        assert(model[i as int] == value_model(args@[i as int]));
        let parens = match &args[i] {
            Value::Tag(name, inner) => {
                assert(model[i as int] == ValueModel::Tag(name@, values_model(inner@)));
                inner.len() > 0
            },
            _ => {
                assert(!(model[i as int] is Tag));
                false
            },
        };
        if parens {
            append_str(out, " (");
            render_into(out, &args[i]);
            append_str(out, ")");
        } else {
            append_str(out, " ");
            render_into(out, &args[i]);
        }
        assert(out@ + rendered_args(model, i + 1) =~= before + rendered_args(model, i as int));
        i = i + 1;
    }
    assert(out@ + rendered_args(model, i as int) =~= out@);
}

/// The fields with the texts of their values, in the order of their names.
fn sorted_entries(fields: &Vec<Field>) -> (r: Vec<Entry>)
    ensures
        entries_model(r@) == canonical(rendered_fields(value_model(Value::Record(*fields))->Record_0)),
    decreases fields@,
{
    let ghost model = rendered_fields(value_model(Value::Record(*fields))->Record_0);
    let mut sorted: Vec<Entry> = Vec::new();
    let mut i: usize = 0;
    assert(entries_model(sorted@) =~= canonical(model.take(0)));
    while i < fields.len()
        invariant
            i <= fields.len(),
            model == rendered_fields(value_model(Value::Record(*fields))->Record_0),
            entries_model(sorted@) == canonical(model.take(i as int)),
        decreases fields.len() - i,
    {
        let mut text: Vec<char> = Vec::new();
        render_into(&mut text, &fields[i].value);
        let entry = Entry { name: copy(&fields[i].name), text };
        assert(text@ =~= rendered(value_model(fields@[i as int].value)));
        assert(model.take(i + 1).drop_last() =~= model.take(i as int));
        assert(model.take(i + 1).last() == entry@);
        insert_entry(&mut sorted, entry);
        i = i + 1;
    }
    assert(model.take(i as int) =~= model);
    sorted
}

/// The canonical text of `v`.
pub fn render(v: &Value) -> (r: Vec<char>)
    ensures
        r@ == rendered(v@),
{
    let mut out: Vec<char> = Vec::new();
    render_into(&mut out, v);
    assert(out@ =~= rendered(v@));
    out
}

/// Whether no two fields have the same name.
pub open spec fn distinct_fields(fields: Seq<FieldModel>) -> bool {
    forall|i: int, j: int|
        0 <= i < fields.len() && 0 <= j < fields.len() && i != j ==> (#[trigger] fields[i]).name
            != (#[trigger] fields[j]).name
}

/// The canonical order does not depend on the order in which the entries are
/// given: two sequences of distinct names that hold the same entries have the
/// same canonical order.
pub proof fn lemma_canonical_ignores_order(a: Seq<EntryModel>, b: Seq<EntryModel>)
    requires
        distinct(a, |e: EntryModel| e.name),
        distinct(b, |e: EntryModel| e.name),
        forall|x: EntryModel| a.contains(x) <==> b.contains(x),
    ensures
        canonical(a) == canonical(b),
{
    let key = |e: EntryModel| e.name;
    lemma_arranged(a, key);
    lemma_arranged(b, key);
    lemma_order_unique(canonical(a), canonical(b), key);
}

/// A record prints its fields in the lexicographic order of their names,
/// whatever order they were written in: two records of distinct field names
/// that hold the same fields have the same text.
pub proof fn lemma_record_ignores_order(f: Seq<FieldModel>, g: Seq<FieldModel>)
    requires
        distinct_fields(f),
        distinct_fields(g),
        forall|x: FieldModel| f.contains(x) <==> g.contains(x),
    ensures
        rendered(ValueModel::Record(f)) == rendered(ValueModel::Record(g)),
        ordered(canonical(rendered_fields(f)), |e: EntryModel| e.name),
{
    let key = |e: EntryModel| e.name;
    let a = rendered_fields(f);
    let b = rendered_fields(g);
    lemma_arranged(a, key);
    if f.len() > 0 {
        assert(f.contains(f[0]));
    }
    if g.len() > 0 {
        assert(g.contains(g[0]));
    }
    assert forall|x: EntryModel| a.contains(x) <==> b.contains(x) by {
        if a.contains(x) {
            let i = choose|i: int| 0 <= i < a.len() && a[i] == x;
            assert(f.contains(f[i]));
            let j = choose|j: int| 0 <= j < g.len() && g[j] == f[i];
            assert(b[j] == x);
        }
        if b.contains(x) {
            let i = choose|i: int| 0 <= i < b.len() && b[i] == x;
            assert(g.contains(g[i]));
            let j = choose|j: int| 0 <= j < f.len() && f[j] == g[i];
            assert(a[j] == x);
        }
    }
    assert(distinct(a, key)) by {
        assert forall|i: int, j: int|
            0 <= i < a.len() && 0 <= j < a.len() && i != j implies key(#[trigger] a[i]) != key(
            #[trigger] a[j],
        ) by {
            assert(a[i].name == f[i].name && a[j].name == f[j].name);
        }
    }
    assert(distinct(b, key)) by {
        assert forall|i: int, j: int|
            0 <= i < b.len() && 0 <= j < b.len() && i != j implies key(#[trigger] b[i]) != key(
            #[trigger] b[j],
        ) by {
            assert(b[i].name == g[i].name && b[j].name == g[j].name);
        }
    }
    lemma_canonical_ignores_order(a, b);
}

} // verus!
