//! The layout planner: which runtime encoding a tag union gets, decided from
//! the union's shape alone.

use vstd::prelude::*;
use crate::text::copy;

verus! {

/// The most non-empty variants that a pointer's spare bits can tell apart.
pub const MAX_POINTER_TAGS: usize = 7;

/// What the planner looks at in one variant of a tag union.
#[derive(Debug, PartialEq, Eq)]
pub struct Variant {
    /// The tag's name.
    pub name: Vec<char>,
    /// How many fields the payload has.
    pub arity: usize,
    /// How many of those fields refer back to the union itself.
    pub recursive: usize,
}

/// The mathematical model of a [`Variant`].
pub struct VariantModel {
    pub name: Seq<char>,
    pub arity: nat,
    pub recursive: nat,
}

impl View for Variant {
    type V = VariantModel;

    open spec fn view(&self) -> VariantModel {
        VariantModel { name: self.name@, arity: self.arity as nat, recursive: self.recursive as nat }
    }
}

/// The models of the variants, in order.
pub open spec fn shape_model(shape: Seq<Variant>) -> Seq<VariantModel> {
    shape.map_values(|v: Variant| v@)
}

/// Where a boxed union keeps the number of its variant.
#[derive(Clone, Copy, Debug, PartialEq, Eq, Structural)]
pub enum TagStorage {
    /// Folded into the spare bits of the pointer.
    InPointer,
    /// Stored beside the payload.
    BesidePayload,
}

/// The runtime encoding of one tag union.
#[derive(Debug, PartialEq, Eq)]
pub enum Layout {
    /// No variant has a payload: the value is the number of its variant.
    Direct,
    /// The single variant's box stands for the whole value.
    NonNullableUnwrapped,
    /// The variant `null` is a null marker; the other one is the pointer to
    /// its box, without a number.
    NullableUnwrapped { null: Vec<char> },
    /// The variant `null` is a null marker; the others share one boxed
    /// encoding with a number.
    NullableWrapped { null: Vec<char>, tag: TagStorage },
    /// Every variant is boxed, with a number.
    Boxed { tag: TagStorage },
}

/// The mathematical model of a [`Layout`].
pub enum LayoutModel {
    Direct,
    NonNullableUnwrapped,
    NullableUnwrapped { null: Seq<char> },
    NullableWrapped { null: Seq<char>, tag: TagStorage },
    Boxed { tag: TagStorage },
}

impl View for Layout {
    type V = LayoutModel;

    open spec fn view(&self) -> LayoutModel {
        match self {
            Layout::Direct => LayoutModel::Direct,
            Layout::NonNullableUnwrapped => LayoutModel::NonNullableUnwrapped,
            Layout::NullableUnwrapped { null } => LayoutModel::NullableUnwrapped { null: null@ },
            Layout::NullableWrapped { null, tag } => LayoutModel::NullableWrapped {
                null: null@,
                tag: *tag,
            },
            Layout::Boxed { tag } => LayoutModel::Boxed { tag: *tag },
        }
    }
}

/// Whether the variant has no payload.
pub open spec fn is_empty(v: VariantModel) -> bool {
    v.arity == 0
}

/// Whether exactly one field of the variant refers back to the union.
pub open spec fn is_single_recursive(v: VariantModel) -> bool {
    v.arity > 0 && v.recursive == 1
}

/// How many of the variants satisfy `p`.
pub open spec fn count(shape: Seq<VariantModel>, p: spec_fn(VariantModel) -> bool) -> nat
    decreases shape.len(),
{
    if shape.len() == 0 {
        0
    } else {
        count(shape.drop_last(), p) + if p(shape.last()) {
            1nat
        } else {
            0nat
        }
    }
}

/// The number of variants without a payload.
pub open spec fn empties(shape: Seq<VariantModel>) -> nat {
    count(shape, |v: VariantModel| is_empty(v))
}

/// The number of variants with exactly one field that refers back to the union.
pub open spec fn single_recursives(shape: Seq<VariantModel>) -> nat {
    count(shape, |v: VariantModel| is_single_recursive(v))
}

/// The name of the first variant without a payload, or the empty name where
/// every variant has one.
pub open spec fn null_name(shape: Seq<VariantModel>) -> Seq<char>
    decreases shape.len(),
{
    if shape.len() == 0 {
        Seq::empty()
    } else if is_empty(shape[0]) {
        shape[0].name
    } else {
        null_name(shape.skip(1))
    }
}

/// Where the number of the variant is kept: beside the payload where there
/// are more non-empty variants than a pointer can tell apart, or where
/// several empty variants stand beside non-empty ones, else in the pointer.
pub open spec fn tag_storage(shape: Seq<VariantModel>) -> TagStorage {
    let empty = empties(shape);
    let full = shape.len() - empty;
    if full > MAX_POINTER_TAGS || (empty >= 2 && full >= 1) {
        TagStorage::BesidePayload
    } else {
        TagStorage::InPointer
    }
}

/// The layout of a union of the given shape, by the decision table.
pub open spec fn planned(shape: Seq<VariantModel>) -> LayoutModel {
    let empty = empties(shape);
    if empty == shape.len() {
        LayoutModel::Direct
    } else if shape.len() == 1 && single_recursives(shape) == 1 {
        LayoutModel::NonNullableUnwrapped
    } else if shape.len() == 2 && empty == 1 && single_recursives(shape) == 1 {
        LayoutModel::NullableUnwrapped { null: null_name(shape) }
    } else if empty == 1 {
        LayoutModel::NullableWrapped { null: null_name(shape), tag: tag_storage(shape) }
    } else {
        LayoutModel::Boxed { tag: tag_storage(shape) }
    }
}

/// Plans the layout of a union from its shape.
pub fn plan(shape: &Vec<Variant>) -> (r: Layout)
    ensures
        r@ == planned(shape_model(shape@)),
{
    let ghost model = shape_model(shape@);
    let ghost empty_p = |v: VariantModel| is_empty(v);
    let ghost single_p = |v: VariantModel| is_single_recursive(v);
    let mut empty: usize = 0;
    let mut single: usize = 0;
    let mut null: usize = shape.len();
    let mut i: usize = 0;
    assert(model.take(0) =~= Seq::empty());
    assert(model.skip(0) =~= model);
    while i < shape.len()
        invariant
            i <= shape.len(),
            model == shape_model(shape@),
            empty_p == |v: VariantModel| is_empty(v),
            single_p == |v: VariantModel| is_single_recursive(v),
            empty == count(model.take(i as int), empty_p),
            single == count(model.take(i as int), single_p),
            empty <= i,
            single <= i,
            null <= shape.len(),
            null < shape.len() ==> null_name(model) == model[null as int].name,
            null == shape.len() ==> null_name(model) == null_name(model.skip(i as int)),
            null == shape.len() ==> forall|k: int| 0 <= k < i ==> !is_empty(#[trigger] model[k]),
        decreases shape.len() - i,
    {
        assert(model.take(i + 1).drop_last() =~= model.take(i as int));
        assert(model.take(i + 1).last() == shape@[i as int]@);
        assert(model.skip(i as int)[0] == model[i as int]);
        assert(model.skip(i as int).skip(1) =~= model.skip(i + 1));
        if shape[i].arity == 0 {
            empty = empty + 1;
            if null == shape.len() {
                null = i;
            }
        } else if shape[i].recursive == 1 {
            single = single + 1;
        }
        i = i + 1;
    }
    assert(model.take(i as int) =~= model);
    assert(empty == empties(model));
    assert(single == single_recursives(model));
    let full: usize = shape.len() - empty;
    let tag = if full > MAX_POINTER_TAGS || (empty >= 2 && full >= 1) {
        TagStorage::BesidePayload
    } else {
        TagStorage::InPointer
    };
    if empty == shape.len() {
        Layout::Direct
    } else if shape.len() == 1 && single == 1 {
        Layout::NonNullableUnwrapped
    } else if shape.len() == 2 && empty == 1 && single == 1 {
        assert(null < shape.len()) by {
            lemma_no_empty(model);
        }
        Layout::NullableUnwrapped { null: copy(&shape[null].name) }
    } else if empty == 1 {
        assert(null < shape.len()) by {
            lemma_no_empty(model);
        }
        Layout::NullableWrapped { null: copy(&shape[null].name), tag }
    } else {
        Layout::Boxed { tag }
    }
}

/// A shape none of whose variants is empty counts no empty variant.
pub proof fn lemma_no_empty(shape: Seq<VariantModel>)
    ensures
        (forall|k: int| 0 <= k < shape.len() ==> !is_empty(#[trigger] shape[k])) ==> empties(shape)
            == 0,
    decreases shape.len(),
{
    if shape.len() > 0 {
        let front = shape.drop_last();
        lemma_no_empty(front);
        if forall|k: int| 0 <= k < shape.len() ==> !is_empty(#[trigger] shape[k]) {
            assert forall|k: int| 0 <= k < front.len() implies !is_empty(#[trigger] front[k]) by {
                assert(front[k] == shape[k]);
            }
            assert(!is_empty(shape[shape.len() - 1]));
        }
    }
}

/// Whether no two variants have the same name.
pub open spec fn distinct_variants(shape: Seq<VariantModel>) -> bool {
    forall|i: int, j: int|
        0 <= i < shape.len() && 0 <= j < shape.len() && i != j ==> (#[trigger] shape[i]).name != (
        #[trigger] shape[j]).name
}

/// Taking one variant out lowers the count by one where it satisfies `p`.
proof fn lemma_count_remove(shape: Seq<VariantModel>, p: spec_fn(VariantModel) -> bool, j: int)
    requires
        0 <= j < shape.len(),
    ensures
        count(shape, p) == count(shape.remove(j), p) + if p(shape[j]) {
            1nat
        } else {
            0nat
        },
    decreases shape.len(),
{
    if j == shape.len() - 1 {
        assert(shape.remove(j) =~= shape.drop_last());
    } else {
        lemma_count_remove(shape.drop_last(), p, j);
        assert(shape.remove(j).drop_last() =~= shape.drop_last().remove(j));
        assert(shape.remove(j).last() == shape.last());
    }
}

/// Two shapes of distinct names that hold the same variants have the same
/// number of variants, and as many that satisfy `p`.
proof fn lemma_count_ignores_order(
    a: Seq<VariantModel>,
    b: Seq<VariantModel>,
    p: spec_fn(VariantModel) -> bool,
)
    requires
        distinct_variants(a),
        distinct_variants(b),
        forall|x: VariantModel| a.contains(x) <==> b.contains(x),
    ensures
        a.len() == b.len(),
        count(a, p) == count(b, p),
    decreases a.len(),
{
    if a.len() == 0 {
        if b.len() > 0 {
            assert(b.contains(b[0]));
        }
    } else {
        let x = a.last();
        assert(a.contains(x));
        let j = choose|j: int| 0 <= j < b.len() && b[j] == x;
        let front = a.drop_last();
        let rest = b.remove(j);
        assert forall|i: int, k: int|
            0 <= i < front.len() && 0 <= k < front.len() && i != k implies (
        #[trigger] front[i]).name != (#[trigger] front[k]).name by {
            assert(front[i] == a[i] && front[k] == a[k]);
        }
        assert forall|i: int, k: int|
            0 <= i < rest.len() && 0 <= k < rest.len() && i != k implies (#[trigger] rest[i]).name
            != (#[trigger] rest[k]).name by {
            assert(rest[i] == b[if i < j { i } else { i + 1 }]);
            assert(rest[k] == b[if k < j { k } else { k + 1 }]);
        }
        assert forall|y: VariantModel| front.contains(y) <==> rest.contains(y) by {
            if front.contains(y) {
                let i = choose|i: int| 0 <= i < front.len() && front[i] == y;
                assert(a[i] == y);
                assert(a.contains(y));
                let k = choose|k: int| 0 <= k < b.len() && b[k] == y;
                assert(a[i].name != a[a.len() - 1].name);
                assert(k != j);
                assert(rest[if k < j { k } else { k - 1 }] == y);
            }
            if rest.contains(y) {
                let i = choose|i: int| 0 <= i < rest.len() && rest[i] == y;
                let bi = if i < j { i } else { i + 1 };
                assert(b[bi] == y);
                assert(b.contains(y));
                let k = choose|k: int| 0 <= k < a.len() && a[k] == y;
                assert(b[bi].name != b[j].name);
                assert(k != a.len() - 1);
                assert(front[k] == y);
            }
        }
        lemma_count_ignores_order(front, rest, p);
        lemma_count_remove(b, p, j);
    }
}

/// Where some variant is empty, the null name is the name of an empty variant.
pub proof fn lemma_null_name(shape: Seq<VariantModel>)
    requires
        exists|k: int| 0 <= k < shape.len() && is_empty(#[trigger] shape[k]),
    ensures
        exists|k: int| 0 <= k < shape.len() && is_empty(#[trigger] shape[k]) && null_name(shape)
            == shape[k].name,
    decreases shape.len(),
{
    if is_empty(shape[0]) {
    } else {
        let rest = shape.skip(1);
        let k = choose|k: int| 0 <= k < shape.len() && is_empty(#[trigger] shape[k]);
        assert(is_empty(rest[k - 1]));
        lemma_null_name(rest);
        let m = choose|m: int|
            0 <= m < rest.len() && is_empty(#[trigger] rest[m]) && null_name(rest) == rest[m].name;
        assert(shape[m + 1] == rest[m]);
    }
}

/// Two empty variants at different places make the count of empties two or more.
proof fn lemma_two_empties(shape: Seq<VariantModel>, i: int, j: int)
    requires
        0 <= i < j < shape.len(),
        is_empty(shape[i]),
        is_empty(shape[j]),
    ensures
        empties(shape) >= 2,
{
    let p = |v: VariantModel| is_empty(v);
    lemma_count_remove(shape, p, j);
    assert(shape.remove(j)[i] == shape[i]);
    lemma_count_remove(shape.remove(j), p, i);
}

/// The layout depends on the set of variants alone, not on the order in
/// which they were declared: two shapes of distinct names that hold the
/// same variants get the same layout.
pub proof fn lemma_plan_ignores_order(a: Seq<VariantModel>, b: Seq<VariantModel>)
    requires
        distinct_variants(a),
        distinct_variants(b),
        forall|x: VariantModel| a.contains(x) <==> b.contains(x),
    ensures
        planned(a) == planned(b),
{
    lemma_count_ignores_order(a, b, |v: VariantModel| is_empty(v));
    lemma_count_ignores_order(a, b, |v: VariantModel| is_single_recursive(v));
    if empties(a) == 1 {
        lemma_no_empty(a);
        lemma_no_empty(b);
        lemma_null_name(a);
        lemma_null_name(b);
        let i = choose|k: int|
            0 <= k < a.len() && is_empty(#[trigger] a[k]) && null_name(a) == a[k].name;
        let j = choose|k: int|
            0 <= k < b.len() && is_empty(#[trigger] b[k]) && null_name(b) == b[k].name;
        assert(b.contains(b[j]));
        let k = choose|k: int| 0 <= k < a.len() && a[k] == b[j];
        if k < i {
            lemma_two_empties(a, k, i);
        } else if i < k {
            lemma_two_empties(a, i, k);
        }
    }
}

/// No more variants satisfy `p` than there are, and where as many do as
/// there are, every one does.
pub proof fn lemma_count_all(shape: Seq<VariantModel>, p: spec_fn(VariantModel) -> bool)
    ensures
        count(shape, p) <= shape.len(),
        count(shape, p) == shape.len() ==> forall|k: int|
            0 <= k < shape.len() ==> p(#[trigger] shape[k]),
    decreases shape.len(),
{
    if shape.len() > 0 {
        let front = shape.drop_last();
        lemma_count_all(front, p);
        if count(shape, p) == shape.len() {
            assert forall|k: int| 0 <= k < shape.len() implies p(#[trigger] shape[k]) by {
                if k < front.len() {
                    assert(front[k] == shape[k]);
                }
            }
        }
    }
}

} // verus!
