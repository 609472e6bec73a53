//! Evaluated memory: how values are laid out in an arena of cells, and how
//! a printable value is rebuilt from the cells, the value's representation
//! and the table of union layouts.
//!
//! A value is one cell. A number is the cell itself. A string, a list, a
//! record of several fields and a boxed union variant are the address of a
//! block: a header cell followed by one cell for each part. A block is
//! allocated after the blocks of its parts, so every address in a block is
//! below the block's own address.

use vstd::prelude::*;
use crate::layout::{
    empties, is_empty, lemma_count_all, lemma_no_empty, lemma_null_name, null_name, plan, planned,
    shape_model, tag_storage, Layout, LayoutModel, TagStorage, Variant, VariantModel,
};
use crate::text::{fraction_text, numeral};
use crate::text::copy;
use crate::value::{value_model, values_model, Field, FieldModel, Value, ValueModel};
use vstd::utf8::is_scalar;

verus! {

/// How many variants the spare bits of a pointer can tell apart.
pub const POINTER_TAGS: usize = 8;

/// The representation of a value of some type.
#[derive(Debug, PartialEq, Eq)]
pub enum Repr {
    /// A whole number.
    Int,
    /// A fraction, in units of its last decimal place.
    Frac,
    /// A string.
    Str,
    /// A list whose items all have one representation.
    List(Box<Repr>),
    /// A record, with its fields in the order of their names.
    Record(Vec<FieldRepr>),
    /// The tag union at this index of the table.
    Union(usize),
    /// A function; its cell is never looked into.
    Function,
}

/// One field of a record's representation.
#[derive(Debug, PartialEq, Eq)]
pub struct FieldRepr {
    pub name: Vec<char>,
    pub repr: Repr,
}

/// One variant of a tag union, with the representations of its payload.
#[derive(Debug, PartialEq, Eq)]
pub struct VariantRepr {
    pub name: Vec<char>,
    pub fields: Vec<Repr>,
}

/// A tag union with the layout that was planned for it.
#[derive(Debug, PartialEq, Eq)]
pub struct UnionRepr {
    /// The variants, in the order of their names.
    pub variants: Vec<VariantRepr>,
    pub layout: Layout,
}

/// The layout table: every tag union that the evaluated types mention.
#[derive(Debug, PartialEq, Eq)]
pub struct Table {
    pub unions: Vec<UnionRepr>,
}

/// A value as the evaluator holds it before it is laid out.
#[derive(Debug, PartialEq, Eq)]
pub enum Datum {
    Int(i128),
    Frac(i128),
    Str(Vec<char>),
    List(Vec<Datum>),
    /// The values of a record's fields, in the order of the representation.
    Record(Vec<Datum>),
    /// The variant at this index of its union, with its payload.
    Tag(usize, Vec<Datum>),
    Function,
}

/// The mathematical model of a [`Repr`].
pub enum ReprModel {
    Int,
    Frac,
    Str,
    List(Box<ReprModel>),
    Record(Seq<FieldReprModel>),
    Union(usize),
    Function,
}

/// The mathematical model of a [`FieldRepr`].
pub struct FieldReprModel {
    pub name: Seq<char>,
    pub repr: ReprModel,
}

/// The mathematical model of a [`VariantRepr`].
pub struct VariantReprModel {
    pub name: Seq<char>,
    pub fields: Seq<ReprModel>,
}

/// The mathematical model of a [`Datum`].
pub enum DatumModel {
    Int(i128),
    Frac(i128),
    Str(Seq<char>),
    List(Seq<DatumModel>),
    Record(Seq<DatumModel>),
    Tag(usize, Seq<DatumModel>),
    Function,
}

/// The model of a representation.
pub open spec fn repr_model(repr: Repr) -> ReprModel
    decreases repr,
{
    match repr {
        Repr::Int => ReprModel::Int,
        Repr::Frac => ReprModel::Frac,
        Repr::Str => ReprModel::Str,
        Repr::List(item) => ReprModel::List(Box::new(repr_model(*item))),
        Repr::Record(fields) => ReprModel::Record(
            Seq::new(
                fields@.len(),
                |i: int|
                    if 0 <= i < fields@.len() {
                        FieldReprModel { name: fields@[i].name@, repr: repr_model(fields@[i].repr) }
                    } else {
                        FieldReprModel { name: Seq::empty(), repr: ReprModel::Int }
                    },
            ),
        ),
        Repr::Union(index) => ReprModel::Union(index),
        Repr::Function => ReprModel::Function,
    }
}

/// The models of representations, in order.
pub open spec fn reprs_model(reprs: Seq<Repr>) -> Seq<ReprModel> {
    Seq::new(reprs.len(), |i: int| repr_model(reprs[i]))
}

/// The models of the fields of a representation, in order.
pub open spec fn fields_model(fields: Seq<FieldRepr>) -> Seq<FieldReprModel> {
    Seq::new(fields.len(), |i: int| FieldReprModel { name: fields[i].name@, repr: repr_model(fields[i].repr) })
}

/// The models of variants, in order.
pub open spec fn variants_model(variants: Seq<VariantRepr>) -> Seq<VariantReprModel> {
    Seq::new(
        variants.len(),
        |i: int| VariantReprModel { name: variants[i].name@, fields: reprs_model(variants[i].fields@) },
    )
}

/// The model of a table: the variants of its unions. The layouts are not
/// part of it; the planner gives them.
pub open spec fn table_model(table: Table) -> Seq<Seq<VariantReprModel>> {
    Seq::new(table.unions@.len(), |k: int| variants_model(table.unions@[k].variants@))
}

/// The model of a datum.
pub open spec fn datum_model(d: Datum) -> DatumModel
    decreases d,
{
    match d {
        Datum::Int(x) => DatumModel::Int(x),
        Datum::Frac(x) => DatumModel::Frac(x),
        Datum::Str(text) => DatumModel::Str(text@),
        Datum::List(items) => DatumModel::List(data_model(items@)),
        Datum::Record(values) => DatumModel::Record(data_model(values@)),
        Datum::Tag(k, args) => DatumModel::Tag(k, data_model(args@)),
        Datum::Function => DatumModel::Function,
    }
}

/// The models of data, in order.
pub open spec fn data_model(data: Seq<Datum>) -> Seq<DatumModel>
    decreases data,
{
    Seq::new(
        data.len(),
        |i: int|
            if 0 <= i < data.len() {
                datum_model(data[i])
            } else {
                DatumModel::Function
            },
    )
}

impl View for Repr {
    type V = ReprModel;

    open spec fn view(&self) -> ReprModel {
        repr_model(*self)
    }
}

impl View for Datum {
    type V = DatumModel;

    open spec fn view(&self) -> DatumModel {
        datum_model(*self)
    }
}

/// The first index that holds a variant named `name`, or the number of
/// variants where none is.
pub open spec fn index_of_name(variants: Seq<VariantRepr>, name: Seq<char>) -> int
    decreases variants.len(),
{
    if variants.len() == 0 || variants[0].name@ == name {
        0
    } else {
        1 + index_of_name(variants.skip(1), name)
    }
}

/// The variant that the null marker stands for, where the layout has one.
pub open spec fn null_index(u: UnionRepr) -> Option<int> {
    match u.layout@ {
        LayoutModel::NullableUnwrapped { null } => Some(index_of_name(u.variants@, null)),
        LayoutModel::NullableWrapped { null, tag } => Some(index_of_name(u.variants@, null)),
        _ => None,
    }
}

/// Whether the number of the variant is folded into the pointer.
pub open spec fn tag_in_pointer(layout: LayoutModel) -> bool {
    match layout {
        LayoutModel::NullableWrapped { null, tag } => tag == TagStorage::InPointer,
        LayoutModel::Boxed { tag } => tag == TagStorage::InPointer,
        _ => false,
    }
}

/// Whether the layout can encode the variants: the conditions under which
/// the box of a variant can be told from the box of every other one.
pub open spec fn fits(u: UnionRepr) -> bool {
    let n = u.variants@.len();
    &&& forall|i: int, j: int|
        0 <= i < n && 0 <= j < n && i != j ==> (#[trigger] u.variants@[i]).name@ != (
        #[trigger] u.variants@[j]).name@
    &&& tag_in_pointer(u.layout@) ==> n <= POINTER_TAGS
    &&& match u.layout@ {
        LayoutModel::Direct => forall|i: int|
            0 <= i < n ==> (#[trigger] u.variants@[i]).fields@.len() == 0,
        LayoutModel::NonNullableUnwrapped => n == 1,
        LayoutModel::NullableUnwrapped { null } => n == 2 && index_of_name(u.variants@, null) < n
            && u.variants@[index_of_name(u.variants@, null)].fields@.len() == 0,
        LayoutModel::NullableWrapped { null, tag } => index_of_name(u.variants@, null) < n
            && u.variants@[index_of_name(u.variants@, null)].fields@.len() == 0,
        LayoutModel::Boxed { tag } => true,
    }
}

/// Whether every layout in the table fits its union.
pub open spec fn table_ok(table: Table) -> bool {
    forall|k: int| 0 <= k < table.unions@.len() ==> fits(#[trigger] table.unions@[k])
}

/// The representations of a record's fields, in order.
pub open spec fn field_reprs(fields: Seq<FieldRepr>) -> Seq<Repr> {
    Seq::new(fields.len(), |i: int| fields[i].repr)
}

/// `n` times the representation `item`.
pub open spec fn repeated(item: Repr, n: nat) -> Seq<Repr> {
    Seq::new(n, |i: int| item)
}

/// Whether the datum has the form that the representation describes.
pub open spec fn conforms(d: Datum, repr: Repr, table: Table) -> bool
    decreases d,
{
    match (d, repr) {
        (Datum::Int(_), Repr::Int) => true,
        (Datum::Frac(_), Repr::Frac) => true,
        (Datum::Str(_), Repr::Str) => true,
        (Datum::Function, Repr::Function) => true,
        (Datum::List(items), Repr::List(item)) => conform_all(
            items@,
            repeated(*item, items@.len()),
            table,
            0,
        ),
        (Datum::Record(values), Repr::Record(fields)) => values@.len() == fields@.len()
            && conform_all(values@, field_reprs(fields@), table, 0),
        (Datum::Tag(i, args), Repr::Union(index)) => index < table.unions@.len() && i
            < table.unions@[index as int].variants@.len() && args@.len()
            == table.unions@[index as int].variants@[i as int].fields@.len() && conform_all(
            args@,
            table.unions@[index as int].variants@[i as int].fields@,
            table,
            0,
        ),
        _ => false,
    }
}

/// Whether the data from index `i` on have the forms that the
/// representations at their indices describe.
pub open spec fn conform_all(data: Seq<Datum>, reprs: Seq<Repr>, table: Table, i: int) -> bool
    decreases data, data.len() - i,
{
    if 0 <= i < data.len() {
        i < reprs.len() && conforms(data[i], reprs[i], table) && conform_all(
            data,
            reprs,
            table,
            i + 1,
        )
    } else {
        true
    }
}

/// The printable value of a datum.
pub open spec fn value_of(d: Datum, repr: Repr, table: Table) -> ValueModel
    recommends
        conforms(d, repr, table),
    decreases d,
{
    match (d, repr) {
        (Datum::Int(x), _) => ValueModel::Num(numeral(x as int)),
        (Datum::Frac(x), _) => ValueModel::Num(fraction_text(x as int)),
        (Datum::Str(text), _) => ValueModel::Str(text@),
        (Datum::List(items), Repr::List(item)) => ValueModel::List(
            values_of(items@, repeated(*item, items@.len()), table, 0),
        ),
        (Datum::Record(values), Repr::Record(fields)) => ValueModel::Record(
            named(fields@, values_of(values@, field_reprs(fields@), table, 0)),
        ),
        (Datum::Tag(i, args), Repr::Union(index)) => ValueModel::Tag(
            table.unions@[index as int].variants@[i as int].name@,
            values_of(args@, table.unions@[index as int].variants@[i as int].fields@, table, 0),
        ),
        _ => ValueModel::Function,
    }
}

/// The printable values of the data from index `i` on.
pub open spec fn values_of(data: Seq<Datum>, reprs: Seq<Repr>, table: Table, i: int) -> Seq<
    ValueModel,
>
    decreases data, data.len() - i,
{
    if 0 <= i < data.len() && i < reprs.len() {
        seq![value_of(data[i], reprs[i], table)] + values_of(data, reprs, table, i + 1)
    } else {
        Seq::empty()
    }
}

/// The values as the fields of a record, each under the name at its index.
pub open spec fn named(fields: Seq<FieldRepr>, values: Seq<ValueModel>) -> Seq<FieldModel> {
    Seq::new(values.len(), |i: int| FieldModel { name: fields[i].name@, value: values[i] })
}

/// The cells of a string's characters.
pub open spec fn codes(text: Seq<char>) -> Seq<i128> {
    Seq::new(text.len(), |i: int| (text[i] as u32) as i128)
}

/// The block of a header and its parts.
pub open spec fn block(header: int, cells: Seq<i128>) -> Seq<i128> {
    seq![header as i128] + cells
}

/// The memory after `d` is laid out at its end, and the cell that stands
/// for `d`.
pub open spec fn stored(mem: Seq<i128>, d: Datum, repr: Repr, table: Table) -> (Seq<i128>, i128)
    recommends
        conforms(d, repr, table),
    decreases d,
{
    match (d, repr) {
        (Datum::Int(x), _) => (mem, x),
        (Datum::Frac(x), _) => (mem, x),
        (Datum::Str(text), _) => (mem + block(text@.len() as int, codes(text@)), mem.len() as i128),
        (Datum::List(items), Repr::List(item)) => {
            let (m, cells) = stored_all(mem, items@, repeated(*item, items@.len()), table, 0);
            (m + block(items@.len() as int, cells), m.len() as i128)
        },
        (Datum::Record(values), Repr::Record(fields)) => if values@.len() == 0 {
            (mem, 0i128)
        } else if values@.len() == 1 {
            stored(mem, values@[0], fields@[0].repr, table)
        } else {
            let (m, cells) = stored_all(mem, values@, field_reprs(fields@), table, 0);
            (m + block(values@.len() as int, cells), m.len() as i128)
        },
        (Datum::Tag(i, args), Repr::Union(index)) => {
            let u = table.unions@[index as int];
            if u.layout@ is Direct {
                (mem, i as i128)
            } else if null_index(u) == Some(i as int) {
                (mem, 0i128)
            } else {
                let (m, cells) = stored_all(mem, args@, u.variants@[i as int].fields@, table, 0);
                (
                    m + block(i as int, cells),
                    if tag_in_pointer(u.layout@) {
                        (m.len() * POINTER_TAGS + i) as i128
                    } else {
                        m.len() as i128
                    },
                )
            }
        },
        _ => (mem, 0i128),
    }
}

/// The memory after the data from index `i` on are laid out at its end, one
/// after the other, and their cells.
pub open spec fn stored_all(
    mem: Seq<i128>,
    data: Seq<Datum>,
    reprs: Seq<Repr>,
    table: Table,
    i: int,
) -> (Seq<i128>, Seq<i128>)
    decreases data, data.len() - i,
{
    if 0 <= i < data.len() && i < reprs.len() {
        let (m, cell) = stored(mem, data[i], reprs[i], table);
        let (rest, cells) = stored_all(m, data, reprs, table, i + 1);
        (rest, seq![cell] + cells)
    } else {
        (mem, Seq::empty())
    }
}

/// How much of a representation can be looked into without following an
/// address: a record of one field is the field itself.
pub open spec fn depth(repr: Repr) -> nat
    decreases repr,
{
    match repr {
        Repr::Record(fields) => if fields@.len() == 1 {
            1 + depth(fields@[0].repr)
        } else {
            1
        },
        _ => 1,
    }
}

/// Whether a cell holds the code of a character.
pub open spec fn is_code(cell: i128) -> bool {
    0 <= cell <= 0xD7FF || 0xE000 <= cell <= 0x10FFFF
}

/// Whether the cell is the address of a block of `parts` parts that lies
/// whole below `bound`.
pub open spec fn is_block(mem: Seq<i128>, at: int, parts: int, bound: int) -> bool {
    1 <= at && 0 <= parts && at + 1 + parts <= bound <= mem.len()
}

/// The address and the number of the variant that a cell of a boxed union
/// holds, where it holds them.
pub open spec fn boxed(mem: Seq<i128>, cell: i128, u: UnionRepr, bound: int) -> Option<(int, int)> {
    if tag_in_pointer(u.layout@) {
        Some((cell as int / POINTER_TAGS as int, cell as int % POINTER_TAGS as int))
    } else if u.layout@ is NonNullableUnwrapped {
        Some((cell as int, 0int))
    } else if u.layout@ is NullableUnwrapped {
        Some((cell as int, 1 - null_index(u).unwrap()))
    } else if 1 <= cell < bound <= mem.len() {
        Some((cell as int, mem[cell as int] as int))
    } else {
        None
    }
}

/// The printable value that the cell stands for, rebuilt from the memory
/// below `bound`; `None` where the cells do not hold a value of the
/// representation.
pub open spec fn rebuilt(mem: Seq<i128>, cell: i128, repr: Repr, table: Table, bound: int) -> Option<
    ValueModel,
>
    decreases bound, depth(repr), 0int,
{
    match repr {
        Repr::Int => Some(ValueModel::Num(numeral(cell as int))),
        Repr::Frac => Some(ValueModel::Num(fraction_text(cell as int))),
        Repr::Function => Some(ValueModel::Function),
        Repr::Str => if 1 <= cell < bound <= mem.len() && is_block(
            mem,
            cell as int,
            mem[cell as int] as int,
            bound,
        ) {
            rebuilt_text(mem, cell as int + 1, mem[cell as int] as int)
        } else {
            None
        },
        Repr::List(item) => if 1 <= cell < bound <= mem.len() && is_block(
            mem,
            cell as int,
            mem[cell as int] as int,
            bound,
        ) {
            match rebuilt_all(
                mem,
                cell as int + 1,
                repeated(*item, mem[cell as int] as nat),
                table,
                cell as int,
                0,
            ) {
                Some(items) => Some(ValueModel::List(items)),
                None => None,
            }
        } else {
            None
        },
        Repr::Record(fields) => if fields@.len() == 0 {
            Some(ValueModel::Record(Seq::empty()))
        } else if fields@.len() == 1 {
            match rebuilt(mem, cell, fields@[0].repr, table, bound) {
                Some(v) => Some(ValueModel::Record(named(fields@, seq![v]))),
                None => None,
            }
        } else if 1 <= cell < bound <= mem.len() && mem[cell as int] == fields@.len() && is_block(
            mem,
            cell as int,
            fields@.len() as int,
            bound,
        ) {
            match rebuilt_all(mem, cell as int + 1, field_reprs(fields@), table, cell as int, 0) {
                Some(values) => Some(ValueModel::Record(named(fields@, values))),
                None => None,
            }
        } else {
            None
        },
        Repr::Union(index) => if index < table.unions@.len() {
            let u = table.unions@[index as int];
            if u.layout@ is Direct {
                if 0 <= cell < u.variants@.len() {
                    Some(ValueModel::Tag(u.variants@[cell as int].name@, Seq::empty()))
                } else {
                    None
                }
            } else if null_index(u) is Some && cell == 0 {
                if 0 <= null_index(u).unwrap() < u.variants@.len() {
                    Some(ValueModel::Tag(u.variants@[null_index(u).unwrap()].name@, Seq::empty()))
                } else {
                    None
                }
            } else {
                match boxed(mem, cell, u, bound) {
                    Some((at, i)) => if 0 <= i < u.variants@.len() && is_block(
                        mem,
                        at,
                        u.variants@[i].fields@.len() as int,
                        bound,
                    ) {
                        match rebuilt_all(mem, at + 1, u.variants@[i].fields@, table, at, 0) {
                            Some(args) => Some(ValueModel::Tag(u.variants@[i].name@, args)),
                            None => None,
                        }
                    } else {
                        None
                    },
                    None => None,
                }
            }
        } else {
            None
        },
    }
}

/// The printable values of the cells from `first + i` on, one for each
/// representation from index `i` on, rebuilt from the memory below `bound`.
pub open spec fn rebuilt_all(
    mem: Seq<i128>,
    first: int,
    reprs: Seq<Repr>,
    table: Table,
    bound: int,
    i: int,
) -> Option<Seq<ValueModel>>
    decreases bound + 1, 0int, reprs.len() - i,
{
    if 0 <= i < reprs.len() {
        if 0 <= first + i < mem.len() && 0 <= bound {
            match rebuilt(mem, mem[first + i], reprs[i], table, bound) {
                Some(v) => match rebuilt_all(mem, first, reprs, table, bound, i + 1) {
                    Some(rest) => Some(seq![v] + rest),
                    None => None,
                },
                None => None,
            }
        } else {
            None
        }
    } else {
        Some(Seq::empty())
    }
}

/// The string of `n` characters whose codes the cells from `first` on hold.
pub open spec fn rebuilt_text(mem: Seq<i128>, first: int, n: int) -> Option<ValueModel> {
    if forall|k: int| 0 <= k < n ==> 0 <= first + k < mem.len() && is_code(#[trigger] mem[first + k]) {
        Some(ValueModel::Str(Seq::new(n as nat, |k: int| (mem[first + k] as u32) as char)))
    } else {
        None
    }
}

/// Where the representations of a block's parts come from.
pub enum Parts<'a> {
    /// Every part has the one representation: the items of a list.
    Same(&'a Repr),
    /// The fields of a record.
    Fields(&'a Vec<FieldRepr>),
    /// The payload of a variant.
    Each(&'a Vec<Repr>),
}

impl<'a> Parts<'a> {
    /// The representations of `n` parts, in order.
    pub open spec fn reprs(self, n: nat) -> Seq<Repr> {
        match self {
            Parts::Same(item) => repeated(*item, n),
            Parts::Fields(fields) => field_reprs(fields@),
            Parts::Each(reprs) => reprs@,
        }
    }

    /// How many parts there are, where `n` items are at hand.
    pub open spec fn count(self, n: nat) -> nat {
        self.reprs(n).len()
    }

    /// The representation of the part at index `i`.
    fn part(&self, i: usize, n: Ghost<nat>) -> (r: &'a Repr)
        requires
            i < self.count(n@),
        ensures
            *r == self.reprs(n@)[i as int],
    {
        match self {
            Parts::Same(item) => item,
            Parts::Fields(fields) => &fields[i].repr,
            Parts::Each(reprs) => &reprs[i],
        }
    }
}

/// Unfolds how the parts from index `i` on conform.
proof fn lemma_conform_at(data: Seq<Datum>, reprs: Seq<Repr>, table: Table, i: int, k: int)
    requires
        conform_all(data, reprs, table, i),
        0 <= i <= k < data.len(),
    ensures
        k < reprs.len(),
        conforms(data[k], reprs[k], table),
        conform_all(data, reprs, table, k),
    decreases k - i,
{
    if i < k {
        lemma_conform_at(data, reprs, table, i + 1, k);
    }
}

/// Lays out the parts of a block, one after the other, and returns their cells.
fn store_parts(mem: &mut Vec<i128>, data: &Vec<Datum>, parts: Parts<'_>, table: &Table) -> (cells:
    Vec<i128>)
    requires
        conform_all(data@, parts.reprs(data@.len()), *table, 0),
    ensures
        (final(mem)@, cells@) == stored_all(
            old(mem)@,
            data@,
            parts.reprs(data@.len()),
            *table,
            0,
        ),
        cells@.len() == data@.len(),
    decreases data@,
{
    let ghost reprs = parts.reprs(data@.len());
    let ghost total = stored_all(mem@, data@, reprs, *table, 0);
    let mut cells: Vec<i128> = Vec::new();
    let mut i: usize = 0;
    assert(cells@ + total.1 =~= total.1);
    while i < data.len()
        invariant
            i <= data.len(),
            reprs == parts.reprs(data@.len()),
            conform_all(data@, reprs, *table, 0),
            stored_all(mem@, data@, reprs, *table, i as int).0 == total.0,
            cells@ + stored_all(mem@, data@, reprs, *table, i as int).1 == total.1,
            cells@.len() == i,
        decreases data.len() - i,
    {
        proof {
            lemma_conform_at(data@, reprs, *table, 0, i as int);
        }
        let ghost before = mem@;
        let ghost rest = stored_all(before, data@, reprs, *table, i as int).1;
        let repr = parts.part(i, Ghost(data@.len()));
        let cell = store(mem, &data[i], repr, table);
        cells.push(cell);
        assert(cells@ + stored_all(mem@, data@, reprs, *table, i + 1).1 =~= cells@.drop_last()
            + rest);
        i = i + 1;
    }
    assert(cells@ + Seq::<i128>::empty() =~= cells@);
    cells
}

/// Appends a block to the memory and returns its address.
fn push_block(mem: &mut Vec<i128>, header: i128, cells: &Vec<i128>) -> (at: usize)
    ensures
        at == old(mem)@.len(),
        final(mem)@ == old(mem)@ + block(header as int, cells@),
{
    let at = mem.len();
    mem.push(header);
    let mut i: usize = 0;
    while i < cells.len()
        invariant
            i <= cells.len(),
            mem@ == old(mem)@ + block(header as int, cells@.take(i as int)),
        decreases cells.len() - i,
    {
        mem.push(cells[i]);
        assert(mem@ =~= old(mem)@ + block(header as int, cells@.take(i + 1)));
        i = i + 1;
    }
    assert(cells@.take(i as int) =~= cells@);
    at
}

/// The first index that holds a variant named `name`.
fn find_variant(variants: &Vec<VariantRepr>, name: &Vec<char>) -> (r: usize)
    ensures
        r == index_of_name(variants@, name@),
        r <= variants@.len(),
{
    let mut i: usize = 0;
    assert(variants@.skip(0) =~= variants@);
    while i < variants.len() && !crate::text::same(&variants[i].name, name)
        invariant
            i <= variants.len(),
            index_of_name(variants@, name@) == i + index_of_name(variants@.skip(i as int), name@),
        decreases variants.len() - i,
    {
        assert(variants@.skip(i as int).skip(1) =~= variants@.skip(i + 1));
        i = i + 1;
    }
    i
}

/// The variant that the null marker stands for, where the layout has one.
fn null_variant(u: &UnionRepr) -> (r: Option<usize>)
    ensures
        match r {
            Some(n) => null_index(*u) == Some(n as int),
            None => null_index(*u) is None,
        },
{
    match &u.layout {
        Layout::NullableUnwrapped { null } => Some(find_variant(&u.variants, null)),
        Layout::NullableWrapped { null, tag } => Some(find_variant(&u.variants, null)),
        _ => None,
    }
}

/// Whether the number of the variant is folded into the pointer.
fn pointer_tagged(layout: &Layout) -> (r: bool)
    ensures
        r == tag_in_pointer(layout@),
{
    match layout {
        Layout::NullableWrapped { null, tag } => match tag {
            TagStorage::InPointer => true,
            TagStorage::BesidePayload => false,
        },
        Layout::Boxed { tag } => match tag {
            TagStorage::InPointer => true,
            TagStorage::BesidePayload => false,
        },
        _ => false,
    }
}

/// Whether the layout is the direct one.
fn is_direct(layout: &Layout) -> (r: bool)
    ensures
        r == (layout@ is Direct),
{
    match layout {
        Layout::Direct => true,
        _ => false,
    }
}

/// Lays out `d` at the end of the memory and returns the cell that stands
/// for it. The blocks of the parts come before the block of the whole.
pub fn store(mem: &mut Vec<i128>, d: &Datum, repr: &Repr, table: &Table) -> (cell: i128)
    requires
        conforms(*d, *repr, *table),
    ensures
        (final(mem)@, cell) == stored(old(mem)@, *d, *repr, *table),
    decreases d,
{
    match (d, repr) {
        (Datum::Int(x), _) => *x,
        (Datum::Frac(x), _) => *x,
        (Datum::Str(text), _) => {
            let mut cells: Vec<i128> = Vec::new();
            let mut i: usize = 0;
            while i < text.len()
                invariant
                    i <= text.len(),
                    cells@ == codes(text@).take(i as int),
                decreases text.len() - i,
            {
                cells.push(text[i] as u32 as i128);
                assert(cells@ =~= codes(text@).take(i + 1));
                i = i + 1;
            }
            assert(codes(text@).take(i as int) =~= codes(text@));
            let at = push_block(mem, text.len() as i128, &cells);
            at as i128
        },
        (Datum::List(items), Repr::List(item)) => {
            let cells = store_parts(mem, items, Parts::Same(item), table);
            let at = push_block(mem, items.len() as i128, &cells);
            at as i128
        },
        (Datum::Record(values), Repr::Record(fields)) => {
            if values.len() == 0 {
                0
            } else if values.len() == 1 {
                store(mem, &values[0], &fields[0].repr, table)
            } else {
                let cells = store_parts(mem, values, Parts::Fields(fields), table);
                let at = push_block(mem, values.len() as i128, &cells);
                at as i128
            }
        },
        (Datum::Tag(i, args), Repr::Union(index)) => {
            let u = &table.unions[*index];
            if is_direct(&u.layout) {
                return *i as i128;
            }
            match null_variant(u) {
                Some(n) => {
                    if n == *i {
                        return 0;
                    }
                },
                None => {},
            }
            let cells = store_parts(mem, args, Parts::Each(&u.variants[*i].fields), table);
            let at = push_block(mem, *i as i128, &cells);
            if pointer_tagged(&u.layout) {
                (at as i128) * (POINTER_TAGS as i128) + (*i as i128)
            } else {
                at as i128
            }
        },
        _ => 0,
    }
}

/// `char::from_u32` returns the character of a code that is a Unicode
/// scalar value, and nothing for any other number.
pub assume_specification[ char::from_u32 ](i: u32) -> (r: Option<char>)
    ensures
        r == if is_scalar(i) {
            Some(i as char)
        } else {
            None::<char>
        },
;

/// The header of the block at `cell`, where `cell` is an address below `bound`.
fn header(mem: &Vec<i128>, cell: i128, bound: usize) -> (r: Option<(usize, i128)>)
    ensures
        match r {
            Some((at, h)) => 1 <= cell < bound <= mem@.len() && at == cell && h == mem@[cell as int],
            None => !(1 <= cell < bound <= mem@.len()),
        },
{
    if 1 <= cell && bound <= mem.len() && cell < bound as i128 {
        let at = cell as usize;
        Some((at, mem[at]))
    } else {
        None
    }
}

/// Whether `at` is the address of a block of `parts` parts below `bound`.
fn check_block(mem: &Vec<i128>, at: i128, parts: i128, bound: usize) -> (r: bool)
    requires
        parts <= usize::MAX,
        at <= usize::MAX,
    ensures
        r == is_block(mem@, at as int, parts as int, bound as int),
{
    1 <= at && 0 <= parts && at + 1 + parts <= bound as i128 && bound <= mem.len()
}

/// The string of `n` characters whose codes the cells from `first` on hold.
fn rebuild_text(mem: &Vec<i128>, first: usize, n: usize) -> (r: Option<Value>)
    requires
        first + n <= mem@.len(),
    ensures
        match r {
            Some(v) => rebuilt_text(mem@, first as int, n as int) == Some(v@),
            None => rebuilt_text(mem@, first as int, n as int) is None,
        },
{
    let mut text: Vec<char> = Vec::new();
    let len = mem.len();
    let mut k: usize = 0;
    while k < n
        invariant
            k <= n,
            first + n <= mem@.len() == len,
            text@.len() == k,
            forall|j: int| 0 <= j < k ==> is_code(#[trigger] mem@[first + j]),
            forall|j: int| 0 <= j < k ==> text@[j] == (mem@[first + j] as u32) as char,
        decreases n - k,
    {
        let code = mem[first + k];
        if !(0 <= code && code <= 0x10FFFF) {
            assert(!is_code(mem@[first + k]));
            return None;
        }
        match char::from_u32(code as u32) {
            Some(c) => {
                text.push(c);
            },
            None => {
                assert(!is_code(mem@[first + k]));
                return None;
            },
        }
        k = k + 1;
    }
    assert(text@ =~= Seq::new(n as nat, |k: int| (mem@[first + k] as u32) as char));
    Some(Value::Str(text))
}

/// The fields of a record with the given values, in order.
fn name_fields(fields: &Vec<FieldRepr>, values: Vec<Value>) -> (r: Vec<Field>)
    requires
        values@.len() <= fields@.len(),
    ensures
        value_model(Value::Record(r)) == ValueModel::Record(
            named(fields@, values_model(values@)),
        ),
{
    let mut out: Vec<Field> = Vec::new();
    let mut values = values;
    let ghost all = values@;
    let n = values.len();
    // The values are taken from the end, so the fields are built in reverse
    // and turned round afterwards.
    let mut rev: Vec<Field> = Vec::new();
    let mut k: usize = n;
    while k > 0
        invariant
            k <= n,
            n == all.len(),
            n <= fields@.len(),
            values@ == all.take(k as int),
            rev@.len() == n - k,
            forall|j: int|
                0 <= j < n - k ==> (#[trigger] rev@[j]).name@ == fields@[n - 1 - j].name@
                    && rev@[j].value == all[n - 1 - j],
        decreases k,
    {
        let v = values.pop().unwrap();
        rev.push(Field { name: copy(&fields[k - 1].name), value: v });
        assert(values@ =~= all.take(k - 1));
        k = k - 1;
    }
    let mut j: usize = n;
    while j > 0
        invariant
            j <= n,
            rev@.len() == j,
            out@.len() == n - j,
            n == all.len(),
            n <= fields@.len(),
            forall|i: int|
                0 <= i < j ==> (#[trigger] rev@[i]).name@ == fields@[n - 1 - i].name@
                    && rev@[i].value == all[n - 1 - i],
            forall|i: int|
                0 <= i < n - j ==> (#[trigger] out@[i]).name@ == fields@[i].name@ && out@[i].value
                    == all[i],
        decreases j,
    {
        let f = rev.pop().unwrap();
        out.push(f);
        j = j - 1;
    }
    assert(value_model(Value::Record(out))->Record_0 =~= named(fields@, values_model(all)));
    out
}

/// The printable values of the cells from `first` on, one for each part.
fn rebuild_parts(
    mem: &Vec<i128>,
    first: usize,
    n: usize,
    parts: Parts<'_>,
    table: &Table,
    bound: usize,
) -> (r: Option<Vec<Value>>)
    requires
        parts.count(n as nat) == n,
        first + n <= mem@.len(),
    ensures
        match r {
            Some(values) => rebuilt_all(
                mem@,
                first as int,
                parts.reprs(n as nat),
                *table,
                bound as int,
                0,
            ) == Some(values_model(values@)),
            None => rebuilt_all(mem@, first as int, parts.reprs(n as nat), *table, bound as int, 0)
                is None,
        },
        r matches Some(values) ==> values@.len() == n,
    decreases bound + 1, 0int, n,
{
    let ghost reprs = parts.reprs(n as nat);
    let ghost total = rebuilt_all(mem@, first as int, reprs, *table, bound as int, 0);
    let mut values: Vec<Value> = Vec::new();
    let len = mem.len();
    let mut i: usize = 0;
    assert(values_model(values@) =~= Seq::empty());
    while i < n
        invariant
            i <= n,
            values@.len() == i,
            reprs == parts.reprs(n as nat),
            reprs.len() == n,
            first + n <= mem@.len() == len,
            total == rebuilt_all(mem@, first as int, reprs, *table, bound as int, 0),
            total == match rebuilt_all(mem@, first as int, reprs, *table, bound as int, i as int) {
                Some(rest) => Some(values_model(values@) + rest),
                None => None,
            },
        decreases n - i,
    {
        let ghost before = values_model(values@);
        let repr = parts.part(i, Ghost(n as nat));
        match rebuild(mem, mem[first + i], repr, table, bound) {
            Some(v) => {
                values.push(v);
                assert(values_model(values@) =~= before.push(v@));
                proof {
                    match rebuilt_all(mem@, first as int, reprs, *table, bound as int, i + 1) {
                        Some(rest) => {
                            assert(before.push(v@) + rest =~= before + (seq![v@] + rest));
                        },
                        None => {},
                    }
                }
            },
            None => {
                assert(rebuilt(mem@, mem@[first + i], reprs[i as int], *table, bound as int)
                    is None);
                assert(rebuilt_all(mem@, first as int, reprs, *table, bound as int, i as int)
                    is None);
                return None;
            },
        }
        i = i + 1;
    }
    assert(values_model(values@) + Seq::<ValueModel>::empty() =~= values_model(values@));
    Some(values)
}

/// Rebuilds the printable value that `cell` stands for from the memory
/// below `bound`, without evaluating anything. A function's cell is not
/// looked into. Returns `None` where the cells do not hold a value of the
/// representation.
pub fn rebuild(mem: &Vec<i128>, cell: i128, repr: &Repr, table: &Table, bound: usize) -> (r: Option<
    Value,
>)
    ensures
        match r {
            Some(v) => rebuilt(mem@, cell, *repr, *table, bound as int) == Some(v@),
            None => rebuilt(mem@, cell, *repr, *table, bound as int) is None,
        },
    decreases bound, depth(*repr), 0int,
{
    match repr {
        Repr::Int => {
            let mut text: Vec<char> = Vec::new();
            crate::text::append_numeral(&mut text, cell);
            assert(text@ =~= numeral(cell as int));
            Some(Value::Num(text))
        },
        Repr::Frac => {
            let mut text: Vec<char> = Vec::new();
            crate::text::append_fraction(&mut text, cell);
            assert(text@ =~= fraction_text(cell as int));
            Some(Value::Num(text))
        },
        Repr::Function => Some(Value::Function),
        Repr::Str => match header(mem, cell, bound) {
            Some((at, n)) => {
                if n <= usize::MAX as i128 && check_block(mem, cell, n, bound) {
                    rebuild_text(mem, at + 1, n as usize)
                } else {
                    None
                }
            },
            None => None,
        },
        Repr::List(item) => match header(mem, cell, bound) {
            Some((at, n)) => {
                if n <= usize::MAX as i128 && check_block(mem, cell, n, bound) {
                    match rebuild_parts(mem, at + 1, n as usize, Parts::Same(item), table, at) {
                        Some(items) => Some(Value::List(items)),
                        None => None,
                    }
                } else {
                    None
                }
            },
            None => None,
        },
        Repr::Record(fields) => {
            if fields.len() == 0 {
                let empty: Vec<Field> = Vec::new();
                assert(value_model(Value::Record(empty))->Record_0 =~= Seq::empty());
                Some(Value::Record(empty))
            } else if fields.len() == 1 {
                match rebuild(mem, cell, &fields[0].repr, table, bound) {
                    Some(v) => {
                        let ghost model = v@;
                        let mut values: Vec<Value> = Vec::new();
                        values.push(v);
                        assert(values_model(values@) =~= seq![model]);
                        Some(Value::Record(name_fields(fields, values)))
                    },
                    None => None,
                }
            } else {
                match header(mem, cell, bound) {
                    Some((at, n)) => {
                        if n == fields.len() as i128 && check_block(mem, cell, n, bound) {
                            match rebuild_parts(
                                mem,
                                at + 1,
                                fields.len(),
                                Parts::Fields(fields),
                                table,
                                at,
                            ) {
                                Some(values) => Some(Value::Record(name_fields(fields, values))),
                                None => None,
                            }
                        } else {
                            None
                        }
                    },
                    None => None,
                }
            }
        },
        Repr::Union(index) => {
            if *index >= table.unions.len() {
                return None;
            }
            let u = &table.unions[*index];
            if is_direct(&u.layout) {
                if 0 <= cell && cell < u.variants.len() as i128 {
                    let args: Vec<Value> = Vec::new();
                    assert(values_model(args@) =~= Seq::empty());
                    return Some(Value::Tag(copy(&u.variants[cell as usize].name), args));
                } else {
                    return None;
                }
            }
            let null = null_variant(u);
            match null {
                Some(n) => {
                    if cell == 0 {
                        if n < u.variants.len() {
                            let args: Vec<Value> = Vec::new();
                            assert(values_model(args@) =~= Seq::empty());
                            return Some(Value::Tag(copy(&u.variants[n].name), args));
                        } else {
                            return None;
                        }
                    }
                },
                None => {},
            }
            let (at, i): (i128, i128) = if pointer_tagged(&u.layout) {
                if cell < POINTER_TAGS as i128 {
                    assert(cell as int / POINTER_TAGS as int <= 0);
                    return None;
                }
                (cell / (POINTER_TAGS as i128), cell % (POINTER_TAGS as i128))
            } else {
                match &u.layout {
                    Layout::NonNullableUnwrapped => (cell, 0),
                    Layout::NullableUnwrapped { null } => match null_variant(u) {
                        Some(n) => (cell, 1 - n as i128),
                        None => (cell, 0),
                    },
                    _ => match header(mem, cell, bound) {
                        Some((_, h)) => (cell, h),
                        None => {
                            return None;
                        },
                    },
                }
            };
            assert(boxed(mem@, cell, *u, bound as int) == Some((at as int, i as int)));
            if !(0 <= i && i < u.variants.len() as i128) {
                return None;
            }
            let variant = &u.variants[i as usize];
            if at > usize::MAX as i128 || !check_block(
                mem,
                at,
                variant.fields.len() as i128,
                bound,
            ) {
                return None;
            }
            let at = at as usize;
            match rebuild_parts(
                mem,
                at + 1,
                variant.fields.len(),
                Parts::Each(&variant.fields),
                table,
                at,
            ) {
                Some(args) => Some(Value::Tag(copy(&variant.name), args)),
                None => None,
            }
        },
    }
}

/// Whether `a` is the beginning of `b`.
pub open spec fn extends(a: Seq<i128>, b: Seq<i128>) -> bool {
    a.len() <= b.len() && forall|k: int| 0 <= k < a.len() ==> a[k] == b[k]
}

/// Laying out a datum only appends to the memory.
proof fn lemma_stored_extends(mem: Seq<i128>, d: Datum, repr: Repr, table: Table)
    ensures
        extends(mem, stored(mem, d, repr, table).0),
    decreases d,
{
    match (d, repr) {
        (Datum::List(items), Repr::List(item)) => {
            lemma_stored_all_extends(mem, items@, repeated(*item, items@.len()), table, 0);
        },
        (Datum::Record(values), Repr::Record(fields)) => {
            if values@.len() == 1 {
                lemma_stored_extends(mem, values@[0], fields@[0].repr, table);
            } else if values@.len() > 1 {
                lemma_stored_all_extends(mem, values@, field_reprs(fields@), table, 0);
            }
        },
        (Datum::Tag(i, args), Repr::Union(index)) => {
            let u = table.unions@[index as int];
            lemma_stored_all_extends(mem, args@, u.variants@[i as int].fields@, table, 0);
        },
        _ => {},
    }
}

/// Laying out the parts of a block only appends to the memory, and yields
/// one cell for each part.
proof fn lemma_stored_all_extends(
    mem: Seq<i128>,
    data: Seq<Datum>,
    reprs: Seq<Repr>,
    table: Table,
    i: int,
)
    ensures
        extends(mem, stored_all(mem, data, reprs, table, i).0),
        0 <= i <= data.len() <= reprs.len() ==> stored_all(mem, data, reprs, table, i).1.len()
            == data.len() - i,
    decreases data, data.len() - i,
{
    if 0 <= i < data.len() && i < reprs.len() {
        let (m, cell) = stored(mem, data[i], reprs[i], table);
        lemma_stored_extends(mem, data[i], reprs[i], table);
        lemma_stored_all_extends(m, data, reprs, table, i + 1);
    }
}

/// A value that was rebuilt from the memory below a bound is rebuilt the
/// same from any memory that begins with those cells, below any bound that
/// is not lower.
proof fn lemma_rebuilt_stable(
    m1: Seq<i128>,
    m2: Seq<i128>,
    cell: i128,
    repr: Repr,
    table: Table,
    b1: int,
    b2: int,
)
    requires
        extends(m1, m2),
        b1 <= b2 <= m2.len(),
        rebuilt(m1, cell, repr, table, b1) is Some,
    ensures
        rebuilt(m2, cell, repr, table, b2) == rebuilt(m1, cell, repr, table, b1),
    decreases b1, depth(repr), 0int,
{
    match repr {
        Repr::Str => {
            let n = m1[cell as int] as int;
            assert(m2[cell as int] == m1[cell as int]);
            assert forall|k: int| 0 <= k < n implies 0 <= cell as int + 1 + k < m2.len() && is_code(
                #[trigger] m2[cell as int + 1 + k],
            ) by {
                assert(is_code(m1[cell as int + 1 + k]));
            }
            assert(Seq::new(n as nat, |k: int| (m1[cell as int + 1 + k] as u32) as char)
                =~= Seq::new(n as nat, |k: int| (m2[cell as int + 1 + k] as u32) as char));
        },
        Repr::List(item) => {
            assert(m2[cell as int] == m1[cell as int]);
            lemma_rebuilt_all_stable(
                m1,
                m2,
                cell as int + 1,
                repeated(*item, m1[cell as int] as nat),
                table,
                cell as int,
                0,
            );
        },
        Repr::Record(fields) => {
            if fields@.len() == 0 {
            } else if fields@.len() == 1 {
                lemma_rebuilt_stable(m1, m2, cell, fields@[0].repr, table, b1, b2);
            } else {
                assert(m2[cell as int] == m1[cell as int]);
                lemma_rebuilt_all_stable(
                    m1,
                    m2,
                    cell as int + 1,
                    field_reprs(fields@),
                    table,
                    cell as int,
                    0,
                );
            }
        },
        Repr::Union(index) => {
            let u = table.unions@[index as int];
            if u.layout@ is Direct {
            } else if null_index(u) is Some && cell == 0 {
            } else {
                let (at, i) = boxed(m1, cell, u, b1).unwrap();
                if !tag_in_pointer(u.layout@) && !(u.layout@ is NonNullableUnwrapped) && !(
                u.layout@ is NullableUnwrapped) {
                    assert(m2[cell as int] == m1[cell as int]);
                }
                assert(boxed(m2, cell, u, b2) == Some((at, i)));
                lemma_rebuilt_all_stable(m1, m2, at + 1, u.variants@[i].fields@, table, at, 0);
            }
        },
        _ => {},
    }
}

/// The parts of a block that were rebuilt from a memory are rebuilt the
/// same from any memory that begins with the same cells.
proof fn lemma_rebuilt_all_stable(
    m1: Seq<i128>,
    m2: Seq<i128>,
    first: int,
    reprs: Seq<Repr>,
    table: Table,
    bound: int,
    i: int,
)
    requires
        extends(m1, m2),
        bound <= m1.len(),
        rebuilt_all(m1, first, reprs, table, bound, i) is Some,
    ensures
        rebuilt_all(m2, first, reprs, table, bound, i) == rebuilt_all(
            m1,
            first,
            reprs,
            table,
            bound,
            i,
        ),
    decreases bound + 1, 0int, reprs.len() - i,
{
    if 0 <= i < reprs.len() {
        assert(m2[first + i] == m1[first + i]);
        lemma_rebuilt_stable(m1, m2, m1[first + i], reprs[i], table, bound, bound);
        lemma_rebuilt_all_stable(m1, m2, first, reprs, table, bound, i + 1);
    }
}

/// The index of a name lies between zero and the number of variants.
proof fn lemma_index_of_name(variants: Seq<VariantRepr>, name: Seq<char>)
    ensures
        0 <= index_of_name(variants, name) <= variants.len(),
    decreases variants.len(),
{
    if !(variants.len() == 0 || variants[0].name@ == name) {
        lemma_index_of_name(variants.skip(1), name);
    }
}

/// Values that are rebuilt one by one are rebuilt as the parts of a block.
proof fn lemma_assemble(
    m: Seq<i128>,
    first: int,
    data: Seq<Datum>,
    reprs: Seq<Repr>,
    table: Table,
    bound: int,
    i: int,
)
    requires
        0 <= i <= data.len() == reprs.len(),
        0 <= bound,
        forall|j: int|
            i <= j < data.len() ==> 0 <= first + j < m.len() && rebuilt(
                m,
                #[trigger] m[first + j],
                reprs[j],
                table,
                bound,
            ) == Some(value_of(data[j], reprs[j], table)),
    ensures
        rebuilt_all(m, first, reprs, table, bound, i) == Some(values_of(data, reprs, table, i)),
    decreases data.len() - i,
{
    if i < data.len() {
        lemma_assemble(m, first, data, reprs, table, bound, i + 1);
        assert(rebuilt(m, m[first + i], reprs[i], table, bound) == Some(
            value_of(data[i], reprs[i], table),
        ));
    }
}

/// The cells of a block that is laid out after its parts hold the parts
/// that were stored: rebuilding the block's parts below the block's address
/// gives back their values.
proof fn lemma_block_round_trip(
    mem: Seq<i128>,
    data: Seq<Datum>,
    reprs: Seq<Repr>,
    table: Table,
    header: int,
)
    requires
        mem.len() >= 1,
        table_ok(table),
        data.len() == reprs.len(),
        conform_all(data, reprs, table, 0),
        stored_all(mem, data, reprs, table, 0).0.len() + 1 + data.len() <= usize::MAX,
        0 <= header <= usize::MAX,
    ensures
        ({
            let (m, cells) = stored_all(mem, data, reprs, table, 0);
            let whole = m + block(header, cells);
            &&& extends(mem, whole)
            &&& is_block(whole, m.len() as int, data.len() as int, whole.len() as int)
            &&& whole[m.len() as int] == header as i128
            &&& rebuilt_all(whole, m.len() as int + 1, reprs, table, m.len() as int, 0) == Some(
                values_of(data, reprs, table, 0),
            )
        }),
    decreases data, 2int, 0int,
{
    let (m, cells) = stored_all(mem, data, reprs, table, 0);
    let whole = m + block(header, cells);
    lemma_stored_all_extends(mem, data, reprs, table, 0);
    lemma_round_trip_all(mem, data, reprs, table, 0);
    assert forall|j: int| 0 <= j < data.len() implies 0 <= m.len() + 1 + j < whole.len()
        && rebuilt(whole, #[trigger] whole[m.len() + 1 + j], reprs[j], table, m.len() as int)
        == Some(value_of(data[j], reprs[j], table)) by {
        assert(whole[m.len() + 1 + j] == cells[j]);
        assert(rebuilt(m, cells[j - 0], reprs[j], table, m.len() as int) == Some(
            value_of(data[j], reprs[j], table),
        ));
        lemma_rebuilt_stable(m, whole, cells[j], reprs[j], table, m.len() as int, m.len() as int);
    }
    lemma_assemble(whole, m.len() as int + 1, data, reprs, table, m.len() as int, 0);
}

/// Each part that is laid out is rebuilt from the memory that holds all of
/// them.
proof fn lemma_round_trip_all(
    mem: Seq<i128>,
    data: Seq<Datum>,
    reprs: Seq<Repr>,
    table: Table,
    i: int,
)
    requires
        mem.len() >= 1,
        table_ok(table),
        0 <= i <= data.len() == reprs.len(),
        conform_all(data, reprs, table, i),
        stored_all(mem, data, reprs, table, i).0.len() <= usize::MAX,
    ensures
        ({
            let (m, cells) = stored_all(mem, data, reprs, table, i);
            forall|j: int|
                i <= j < data.len() ==> rebuilt(
                    m,
                    #[trigger] cells[j - i],
                    reprs[j],
                    table,
                    m.len() as int,
                ) == Some(value_of(data[j], reprs[j], table))
        }),
    decreases data, 1int, data.len() - i,
{
    if i < data.len() {
        let (m1, cell) = stored(mem, data[i], reprs[i], table);
        let (m, cells) = stored_all(mem, data, reprs, table, i);
        let (m2, rest) = stored_all(m1, data, reprs, table, i + 1);
        lemma_stored_extends(mem, data[i], reprs[i], table);
        lemma_stored_all_extends(m1, data, reprs, table, i + 1);
        lemma_round_trip(mem, data[i], reprs[i], table);
        lemma_round_trip_all(m1, data, reprs, table, i + 1);
        lemma_rebuilt_stable(m1, m, cell, reprs[i], table, m1.len() as int, m.len() as int);
        assert forall|j: int| i <= j < data.len() implies rebuilt(
            m,
            #[trigger] cells[j - i],
            reprs[j],
            table,
            m.len() as int,
        ) == Some(value_of(data[j], reprs[j], table)) by {
            if j > i {
                assert(cells[j - i] == rest[j - (i + 1)]);
            }
        }
    }
}

/// A value that is laid out in memory is rebuilt from the memory as the
/// value that it is, under every layout: what the evaluator stores and what
/// the printer is given never differ.
pub proof fn lemma_round_trip(mem: Seq<i128>, d: Datum, repr: Repr, table: Table)
    requires
        mem.len() >= 1,
        table_ok(table),
        conforms(d, repr, table),
        stored(mem, d, repr, table).0.len() <= usize::MAX,
    ensures
        ({
            let (m, cell) = stored(mem, d, repr, table);
            rebuilt(m, cell, repr, table, m.len() as int) == Some(value_of(d, repr, table))
        }),
    decreases d, 0int, 0int,
{
    let (m, cell) = stored(mem, d, repr, table);
    match (d, repr) {
        (Datum::Str(text), Repr::Str) => {
            let at = mem.len() as int;
            let n = text@.len() as int;
            assert(m[at] == n);
            assert forall|k: int| 0 <= k < n implies 0 <= at + 1 + k < m.len() && is_code(
                #[trigger] m[at + 1 + k],
            ) by {
                assert(m[at + 1 + k] == (text@[k] as u32) as i128);
                vstd::utf8::char_is_scalar(text@[k]);
            }
            assert(Seq::new(n as nat, |k: int| (m[at + 1 + k] as u32) as char) =~= text@) by {
                assert forall|k: int| 0 <= k < n implies (m[at + 1 + k] as u32) as char
                    == text@[k] by {
                    assert(m[at + 1 + k] == (text@[k] as u32) as i128);
                    vstd::utf8::char_u32_cast(text@[k], text@[k] as u32);
                }
            }
        },
        (Datum::List(items), Repr::List(item)) => {
            let reprs = repeated(*item, items@.len());
            lemma_stored_all_extends(mem, items@, reprs, table, 0);
            lemma_block_round_trip(mem, items@, reprs, table, items@.len() as int);
        },
        (Datum::Record(values), Repr::Record(fields)) => {
            let reprs = field_reprs(fields@);
            if values@.len() == 0 {
                assert(named(fields@, values_of(values@, reprs, table, 0)) =~= Seq::empty());
            } else if values@.len() == 1 {
                lemma_round_trip(mem, values@[0], fields@[0].repr, table);
                assert(values_of(values@, reprs, table, 1) =~= Seq::empty());
                assert(values_of(values@, reprs, table, 0) =~= seq![
                    value_of(values@[0], fields@[0].repr, table),
                ]);
            } else {
                lemma_stored_all_extends(mem, values@, reprs, table, 0);
                lemma_block_round_trip(mem, values@, reprs, table, values@.len() as int);
            }
        },
        (Datum::Tag(i, args), Repr::Union(index)) => {
            let u = table.unions@[index as int];
            let reprs = u.variants@[i as int].fields@;
            assert(fits(u));
            if u.layout@ is Direct {
                assert(values_of(args@, reprs, table, 0) =~= Seq::empty());
            } else if null_index(u) == Some(i as int) {
                assert(values_of(args@, reprs, table, 0) =~= Seq::empty());
            } else {
                lemma_stored_all_extends(mem, args@, reprs, table, 0);
                lemma_block_round_trip(mem, args@, reprs, table, i as int);
                let at = stored_all(mem, args@, reprs, table, 0).0.len() as int;
                assert(m[at] == i as i128);
                if tag_in_pointer(u.layout@) {
                    assert(cell == at * 8 + i);
                    assert((at * 8 + i) / 8 == at && (at * 8 + i) % 8 == i as int);
                } else {
                    assert(cell == at);
                    match u.layout@ {
                        LayoutModel::NonNullableUnwrapped => {
                            assert(i == 0);
                        },
                        LayoutModel::NullableUnwrapped { null } => {
                            assert(u.variants@.len() == 2);
                            assert(null_index(u) == Some(index_of_name(u.variants@, null)));
                            assert(index_of_name(u.variants@, null) != i);
                            lemma_index_of_name(u.variants@, null);
                            assert(i as int == 1 - index_of_name(u.variants@, null));
                        },
                        _ => {
                            assert(1 <= cell < m.len());
                        },
                    }
                }
                assert(boxed(m, cell, u, m.len() as int) == Some((at, i as int)));
            }
        },
        _ => {},
    }
}

/// Whether the representation mentions the union at `index`.
pub open spec fn mentions(repr: Repr, index: usize) -> bool
    decreases repr,
{
    match repr {
        Repr::List(item) => mentions(*item, index),
        Repr::Record(fields) => exists|i: int|
            0 <= i < fields@.len() && mentions((#[trigger] fields@[i]).repr, index),
        Repr::Union(k) => k == index,
        _ => false,
    }
}

/// How many of the first `n` fields mention the union at `index`.
pub open spec fn recursive_fields(fields: Seq<Repr>, index: usize, n: int) -> nat
    decreases n,
{
    if n <= 0 || n > fields.len() {
        0
    } else {
        recursive_fields(fields, index, n - 1) + if mentions(fields[n - 1], index) {
            1nat
        } else {
            0nat
        }
    }
}

/// What the planner looks at in the variants of the union at `index`.
pub open spec fn shape_of(variants: Seq<VariantRepr>, index: usize) -> Seq<VariantModel> {
    Seq::new(
        variants.len(),
        |i: int|
            VariantModel {
                name: variants[i].name@,
                arity: variants[i].fields@.len(),
                recursive: recursive_fields(
                    variants[i].fields@,
                    index,
                    variants[i].fields@.len() as int,
                ),
            },
    )
}

/// Whether no two variants have the same name.
pub open spec fn distinct_names(variants: Seq<VariantRepr>) -> bool {
    forall|i: int, j: int|
        0 <= i < variants.len() && 0 <= j < variants.len() && i != j ==> (
        #[trigger] variants[i]).name@ != (#[trigger] variants[j]).name@
}

/// The index of a name is the index of the variant that has it, where the
/// names are distinct.
proof fn lemma_index_of_own_name(variants: Seq<VariantRepr>, k: int)
    requires
        distinct_names(variants),
        0 <= k < variants.len(),
    ensures
        index_of_name(variants, variants[k].name@) == k,
    decreases k,
{
    if k > 0 {
        let rest = variants.skip(1);
        assert forall|i: int, j: int|
            0 <= i < rest.len() && 0 <= j < rest.len() && i != j implies (#[trigger] rest[i]).name@
            != (#[trigger] rest[j]).name@ by {
            assert(rest[i] == variants[i + 1] && rest[j] == variants[j + 1]);
        }
        assert(rest[k - 1] == variants[k]);
        lemma_index_of_own_name(rest, k - 1);
        assert(variants[0].name@ != variants[k].name@);
    }
}

/// The layout that the planner gives a union fits it: a union of distinct
/// names can be laid out and rebuilt under its planned layout.
pub proof fn lemma_planned_fits(u: UnionRepr, index: usize)
    requires
        distinct_names(u.variants@),
        u.layout@ == planned(shape_of(u.variants@, index)),
    ensures
        fits(u),
{
    let shape = shape_of(u.variants@, index);
    let n = u.variants@.len();
    let p = |v: VariantModel| is_empty(v);
    lemma_count_all(shape, p);
    lemma_no_empty(shape);
    if empties(shape) == n {
        assert forall|i: int| 0 <= i < n implies (#[trigger] u.variants@[i]).fields@.len() == 0 by {
            assert(p(shape[i]));
        }
    } else if empties(shape) == 1 {
        lemma_null_name(shape);
        let k = choose|k: int|
            0 <= k < shape.len() && is_empty(#[trigger] shape[k]) && null_name(shape)
                == shape[k].name;
        lemma_index_of_own_name(u.variants@, k);
    }
}

/// Whether every union of the table has distinct names, and the layout
/// that the planner gives its shape.
pub open spec fn table_planned(table: Table) -> bool {
    forall|k: int|
        0 <= k < table.unions@.len() ==> distinct_names((#[trigger] table.unions@[k]).variants@)
            && table.unions@[k].layout@ == planned(shape_of(table.unions@[k].variants@, k as usize))
}

/// A table whose layouts are the planned ones can be laid out by.
pub proof fn lemma_planned_table(table: Table)
    requires
        table_planned(table),
        table.unions@.len() <= usize::MAX,
    ensures
        table_ok(table),
{
    assert forall|k: int| 0 <= k < table.unions@.len() implies fits(
        #[trigger] table.unions@[k],
    ) by {
        lemma_planned_fits(table.unions@[k], k as usize);
    }
}

/// Whether a representation mentions the union at `index`.
fn mentions_union(repr: &Repr, index: usize) -> (r: bool)
    ensures
        r == mentions(*repr, index),
    decreases repr,
{
    match repr {
        Repr::List(item) => mentions_union(item, index),
        Repr::Record(fields) => any_mentions(fields, index),
        Repr::Union(k) => *k == index,
        _ => false,
    }
}

/// Whether the representation of some field mentions the union at `index`.
fn any_mentions(fields: &Vec<FieldRepr>, index: usize) -> (r: bool)
    ensures
        r == exists|i: int|
            0 <= i < fields@.len() && mentions((#[trigger] fields@[i]).repr, index),
    decreases fields@,
{
    let mut i: usize = 0;
    while i < fields.len()
        invariant
            i <= fields.len(),
            forall|k: int| 0 <= k < i ==> !mentions((#[trigger] fields@[k]).repr, index),
        decreases fields.len() - i,
    {
        if mentions_union(&fields[i].repr, index) {
            return true;
        }
        i = i + 1;
    }
    false
}

/// What the planner looks at in the variants of the union at `index`.
fn shape(variants: &Vec<VariantRepr>, index: usize) -> (r: Vec<Variant>)
    ensures
        shape_model(r@) == shape_of(variants@, index),
{
    let mut out: Vec<Variant> = Vec::new();
    let mut i: usize = 0;
    while i < variants.len()
        invariant
            i <= variants.len(),
            out@.len() == i,
            forall|k: int| 0 <= k < i ==> (#[trigger] out@[k])@ == shape_of(variants@, index)[k],
        decreases variants.len() - i,
    {
        let fields = &variants[i].fields;
        let mut recursive: usize = 0;
        let mut j: usize = 0;
        while j < fields.len()
            invariant
                j <= fields.len(),
                recursive == recursive_fields(fields@, index, j as int),
                recursive <= j,
            decreases fields.len() - j,
        {
            if mentions_union(&fields[j], index) {
                recursive = recursive + 1;
            }
            j = j + 1;
        }
        out.push(Variant { name: copy(&variants[i].name), arity: fields.len(), recursive });
        i = i + 1;
    }
    assert(shape_model(out@) =~= shape_of(variants@, index));
    out
}

impl Table {
    /// A table without unions.
    pub fn new() -> (r: Table)
        ensures
            r.unions@.len() == 0,
            table_model(r) == Seq::<Seq<VariantReprModel>>::empty(),
            table_ok(r),
            table_planned(r),
    {
        let r = Table { unions: Vec::new() };
        assert(table_model(r) =~= Seq::<Seq<VariantReprModel>>::empty());
        r
    }

    /// Adds a union to the table, with the layout that the planner gives
    /// its shape, and returns its index. The payloads of the variants refer
    /// to the union itself by that index.
    pub fn add(&mut self, variants: Vec<VariantRepr>) -> (index: usize)
        requires
            distinct_names(variants@),
            table_ok(*old(self)),
        ensures
            index == old(self).unions@.len(),
            final(self).unions@.len() == index + 1,
            forall|k: int| 0 <= k < index ==> final(self).unions@[k] == old(self).unions@[k],
            final(self).unions@[index as int].variants == variants,
            final(self).unions@[index as int].layout@ == planned(shape_of(variants@, index)),
            table_ok(*final(self)),
            table_planned(*old(self)) ==> table_planned(*final(self)),
    {
        let index = self.unions.len();
        let layout = plan(&shape(&variants, index));
        let u = UnionRepr { variants, layout };
        proof {
            lemma_planned_fits(u, index);
        }
        self.unions.push(u);
        index
    }

    /// Keeps a place in the table for a union whose variants are not known
    /// yet, and returns its index. Until it is filled the place holds a
    /// union without variants.
    pub fn reserve(&mut self) -> (index: usize)
        requires
            table_ok(*old(self)),
        ensures
            index == old(self).unions@.len(),
            final(self).unions@.len() == index + 1,
            forall|k: int| 0 <= k < index ==> final(self).unions@[k] == old(self).unions@[k],
            final(self).unions@[index as int].variants@.len() == 0,
            table_model(*final(self)) == table_model(*old(self)).push(Seq::empty()),
            table_ok(*final(self)),
            table_planned(*old(self)) ==> table_planned(*final(self)),
    {
        let index = self.unions.len();
        let u = UnionRepr { variants: Vec::new(), layout: Layout::Direct };
        assert(fits(u));
        assert(shape_of(u.variants@, index) =~= Seq::empty());
        assert(u.layout@ == planned(shape_of(u.variants@, index))) by {
            reveal_with_fuel(crate::layout::count, 1);
        }
        assert(variants_model(u.variants@) =~= Seq::<VariantReprModel>::empty());
        self.unions.push(u);
        assert(table_model(*self) =~= table_model(*old(self)).push(Seq::empty()));
        index
    }

    /// Fills the place at `index` with a union of the given variants, with
    /// the layout that the planner gives its shape. The payloads of the
    /// variants refer to the union itself by that index.
    pub fn fill(&mut self, index: usize, variants: Vec<VariantRepr>)
        requires
            index < old(self).unions@.len(),
            distinct_names(variants@),
            table_ok(*old(self)),
        ensures
            final(self).unions@.len() == old(self).unions@.len(),
            forall|k: int|
                0 <= k < old(self).unions@.len() && k != index ==> final(self).unions@[k] == old(
                    self,
                ).unions@[k],
            final(self).unions@[index as int].variants == variants,
            final(self).unions@[index as int].layout@ == planned(shape_of(variants@, index)),
            table_model(*final(self)) == table_model(*old(self)).update(
                index as int,
                variants_model(variants@),
            ),
            table_ok(*final(self)),
            table_planned(*old(self)) ==> table_planned(*final(self)),
    {
        let layout = plan(&shape(&variants, index));
        let u = UnionRepr { variants, layout };
        proof {
            lemma_planned_fits(u, index);
        }
        self.unions.set(index, u);
        assert(table_model(*self) =~= table_model(*old(self)).update(
            index as int,
            variants_model(variants@),
        ));
    }
}

/// Whether no two variants have the same name.
pub fn names_distinct(variants: &Vec<VariantRepr>) -> (r: bool)
    ensures
        r == distinct_names(variants@),
{
    let mut i: usize = 0;
    while i < variants.len()
        invariant
            i <= variants@.len(),
            forall|a: int, b: int|
                0 <= a < i && 0 <= b < variants@.len() && a != b ==> (#[trigger] variants@[a]).name@
                    != (#[trigger] variants@[b]).name@,
        decreases variants.len() - i,
    {
        let mut j: usize = 0;
        while j < variants.len()
            invariant
                i < variants@.len(),
                j <= variants@.len(),
                forall|b: int|
                    0 <= b < j && b != i ==> variants@[i as int].name@ != (
                    #[trigger] variants@[b]).name@,
            decreases variants.len() - j,
        {
            if j != i && crate::text::same(&variants[i].name, &variants[j].name) {
                return false;
            }
            j = j + 1;
        }
        i = i + 1;
    }
    true
}

} // verus!
