//! From the type of a value to its representation: which cells stand for
//! the value, and which layout each of its tag unions gets.

use vstd::prelude::*;
use crate::memory::{
    distinct_names, fields_model, names_distinct, repr_model, reprs_model, table_model, table_ok,
    table_planned, variants_model, FieldRepr, FieldReprModel, Repr, ReprModel, Table, VariantRepr,
    VariantReprModel,
};
use crate::solve::{
    alias_of, expand, expanded, export, exported, extends, find_alias_of, name_text, row, row_of,
    snapshot, span_parts, text_of_name, AliasDef, Name, TyNode, Types, TypesModel, FUEL,
};
use crate::text::{inserted, is_text, le, lemma_inserted_at, precedes, same};
use crate::types::{render_type, type_text};

verus! {

/// A union that is planned already: the text of its type, and its index in
/// the table.
pub struct Planned {
    pub key: Vec<char>,
    pub index: usize,
}

/// The models of the unions that are planned already, in order.
pub open spec fn memo_model(memo: Seq<Planned>) -> Seq<(Seq<char>, usize)> {
    Seq::new(memo.len(), |i: int| (memo[i].key@, memo[i].index))
}

/// What planning has come to: the arena of types, the variants of the
/// unions in the table, and the unions that are planned already.
pub struct PlanModel {
    pub types: TypesModel,
    pub table: Seq<Seq<VariantReprModel>>,
    pub memo: Seq<(Seq<char>, usize)>,
}

/// Whether planning has only added on the way from `before` to `after`:
/// every type, every place of the table below the length that it had, and
/// every union that was planned already is what it was.
pub open spec fn grown(before: PlanModel, after: PlanModel) -> bool {
    &&& extends(before.types, after.types)
    &&& before.table.len() <= after.table.len()
    &&& before.memo.len() <= after.memo.len()
    &&& forall|i: int| 0 <= i < before.table.len() ==> #[trigger] after.table[i] == before.table[i]
    &&& forall|i: int| 0 <= i < before.memo.len() ==> #[trigger] after.memo[i] == before.memo[i]
}

/// The index of the first union from index `i` on whose type has the text
/// `key`.
pub open spec fn recalled(memo: Seq<(Seq<char>, usize)>, key: Seq<char>, i: int) -> Option<usize>
    decreases memo.len() - i,
{
    if 0 <= i < memo.len() {
        if memo[i].0 == key {
            Some(memo[i].1)
        } else {
            recalled(memo, key, i + 1)
        }
    } else {
        None
    }
}

/// The index of the union whose type has the text `key`, where it is
/// planned already.
fn recall(memo: &Vec<Planned>, key: &Vec<char>) -> (r: Option<usize>)
    ensures
        r == recalled(memo_model(memo@), key@, 0),
{
    let mut i: usize = 0;
    while i < memo.len()
        invariant
            i <= memo@.len(),
            recalled(memo_model(memo@), key@, 0) == recalled(memo_model(memo@), key@, i as int),
        decreases memo.len() - i,
    {
        if same(&memo[i].key, key) {
            return Some(memo[i].index);
        }
        i = i + 1;
    }
    None
}

/// The text of the type at `node`.
pub open spec fn key_at(types: TypesModel, chars: Seq<char>, node: usize) -> Option<Seq<char>> {
    match exported(types, chars, node, FUEL as nat) {
        Some(tree) => Some(type_text(tree)),
        None => None,
    }
}

/// The text of the type at `node`.
fn key_of(types: &Types, chars: &Vec<char>, node: usize) -> (r: Option<Vec<char>>)
    ensures
        match r {
            Some(key) => key_at(types@, chars@, node) == Some(key@),
            None => key_at(types@, chars@, node) is None,
        },
{
    match export(types, chars, node, FUEL) {
        Some(tree) => Some(render_type(&tree)),
        None => None,
    }
}

/// Whether no two variants have the same name.
pub open spec fn distinct_variants(variants: Seq<VariantReprModel>) -> bool {
    forall|i: int, j: int|
        0 <= i < variants.len() && 0 <= j < variants.len() && i != j ==> (
        #[trigger] variants[i]).name != (#[trigger] variants[j]).name
}

/// What planning one type gives: what planning has come to, and the
/// representation of the type.
pub type Plan = Option<(PlanModel, ReprModel)>;

/// The representation of the type at `node`. A number is a whole number
/// unless its type says that it is a fraction; a string, a list and a
/// function are themselves; a record has its fields in the order of their
/// names, each with the representation of its own type; a tag union has a
/// place in the table, which a type of the same text shares;
/// a named type is what it stands for. `None` where the type has no
/// representation or the walk runs out of fuel.
pub open spec fn planned_type(
    st: PlanModel,
    chars: Seq<char>,
    aliases: Seq<AliasDef>,
    node: usize,
    fuel: nat,
) -> Plan
    decreases fuel, 0int,
{
    if fuel == 0 {
        None
    } else {
        let r = st.types.resolved(node, FUEL as nat);
        match st.types.node_at(r) {
            Some(TyNode::Var) => Some((st, ReprModel::Int)),
            Some(TyNode::Function(_, _)) => Some((st, ReprModel::Function)),
            Some(TyNode::Apply(name, args)) => {
                let text = name_text(chars, name);
                let parts = st.types.parts(args);
                if text == "Str"@ && parts.len() == 0 {
                    Some((st, ReprModel::Str))
                } else if text == "List"@ && parts.len() == 1 {
                    match planned_type(st, chars, aliases, parts[0], (fuel - 1) as nat) {
                        Some((next, item)) => Some((next, ReprModel::List(Box::new(item)))),
                        None => None,
                    }
                } else if text == "Num"@ && parts.len() == 1 {
                    match st.types.node_at(st.types.resolved(parts[0], FUEL as nat)) {
                        Some(TyNode::Apply(inner, _)) => if name_text(chars, inner)
                            == "FloatingPoint"@ {
                            Some((st, ReprModel::Frac))
                        } else {
                            Some((st, ReprModel::Int))
                        },
                        _ => Some((st, ReprModel::Int)),
                    }
                } else {
                    match alias_of(st.types, chars, aliases, r) {
                        Some(alias) => match key_at(st.types, chars, r) {
                            Some(key) => match recalled(st.memo, key, 0) {
                                Some(index) => Some((st, ReprModel::Union(index))),
                                None => match expanded(st.types, alias, r, FUEL as nat) {
                                    Some((grown, e)) => {
                                        let target = grown.resolved(e, FUEL as nat);
                                        let next = PlanModel {
                                            types: grown,
                                            table: st.table,
                                            memo: st.memo,
                                        };
                                        match grown.node_at(target) {
                                            Some(TyNode::Union(_, _)) | Some(
                                                TyNode::Closed,
                                            ) => planned_union(
                                                next,
                                                chars,
                                                aliases,
                                                target,
                                                key,
                                                (fuel - 1) as nat,
                                            ),
                                            _ => planned_type(
                                                next,
                                                chars,
                                                aliases,
                                                target,
                                                (fuel - 1) as nat,
                                            ),
                                        }
                                    },
                                    None => None,
                                },
                            },
                            None => None,
                        },
                        None => None,
                    }
                }
            },
            Some(TyNode::Record(fields)) => {
                let parts = st.types.parts(fields);
                match planned_fields(
                    st,
                    chars,
                    aliases,
                    parts,
                    0,
                    Seq::empty(),
                    (fuel - 1) as nat,
                ) {
                    Some((next, sorted)) => Some((next, ReprModel::Record(sorted))),
                    None => None,
                }
            },
            Some(TyNode::Union(_, _)) | Some(TyNode::Closed) => match key_at(st.types, chars, r) {
                Some(key) => match recalled(st.memo, key, 0) {
                    Some(index) => Some((st, ReprModel::Union(index))),
                    None => planned_union(st, chars, aliases, r, key, (fuel - 1) as nat),
                },
                None => None,
            },
            _ => None,
        }
    }
}

/// The representations of the fields at `parts` from index `i` on, put
/// into `sorted` in the order of their names.
pub open spec fn planned_fields(
    st: PlanModel,
    chars: Seq<char>,
    aliases: Seq<AliasDef>,
    parts: Seq<usize>,
    i: int,
    sorted: Seq<FieldReprModel>,
    fuel: nat,
) -> Option<(PlanModel, Seq<FieldReprModel>)>
    decreases fuel, 1 + parts.len() - i,
{
    if 0 <= i < parts.len() {
        match st.types.node_at(parts[i]) {
            Some(TyNode::Field(name, ty)) => {
                match planned_type(st, chars, aliases, ty, fuel) {
                    Some((next, repr)) => planned_fields(
                        next,
                        chars,
                        aliases,
                        parts,
                        i + 1,
                        inserted(
                            sorted,
                            FieldReprModel { name: name_text(chars, name), repr },
                            |f: FieldReprModel| f.name,
                        ),
                        fuel,
                    ),
                    None => None,
                }
            },
            _ => None,
        }
    } else {
        Some((st, sorted))
    }
}

/// The representations of the types at `parts` from index `i` on.
pub open spec fn planned_payload(
    st: PlanModel,
    chars: Seq<char>,
    aliases: Seq<AliasDef>,
    parts: Seq<usize>,
    i: int,
    fuel: nat,
) -> Option<(PlanModel, Seq<ReprModel>)>
    decreases fuel, 1 + parts.len() - i,
{
    if 0 <= i < parts.len() {
        match planned_type(st, chars, aliases, parts[i], fuel) {
            Some((next, first)) => match planned_payload(next, chars, aliases, parts, i + 1, fuel) {
                Some((last, rest)) => Some((last, seq![first] + rest)),
                None => None,
            },
            None => None,
        }
    } else {
        Some((st, Seq::empty()))
    }
}

/// The variants of the tags at `tags` from index `i` on, put into `sorted`
/// in the order of their names.
pub open spec fn planned_variants(
    st: PlanModel,
    chars: Seq<char>,
    aliases: Seq<AliasDef>,
    tags: Seq<usize>,
    i: int,
    sorted: Seq<VariantReprModel>,
    fuel: nat,
) -> Option<(PlanModel, Seq<VariantReprModel>)>
    decreases fuel, 1 + tags.len() - i,
{
    if 0 <= i < tags.len() {
        match st.types.node_at(tags[i]) {
            Some(TyNode::Tag(name, args)) => if fuel == 0 {
                None
            } else {
                match planned_payload(
                    st,
                    chars,
                    aliases,
                    st.types.parts(args),
                    0,
                    (fuel - 1) as nat,
                ) {
                    Some((next, fields)) => planned_variants(
                        next,
                        chars,
                        aliases,
                        tags,
                        i + 1,
                        inserted(
                            sorted,
                            VariantReprModel { name: name_text(chars, name), fields },
                            |v: VariantReprModel| v.name,
                        ),
                        fuel,
                    ),
                    None => None,
                }
            },
            _ => None,
        }
    } else {
        Some((st, sorted))
    }
}

/// The place of the tag union at `node`, whose type has the text `key`: a
/// place is kept for it, so that its payloads can refer to it, the
/// payloads of its variants are planned, and the place is filled with the
/// variants in the order of their names. `None` where two variants have
/// one name.
pub open spec fn planned_union(
    st: PlanModel,
    chars: Seq<char>,
    aliases: Seq<AliasDef>,
    node: usize,
    key: Seq<char>,
    fuel: nat,
) -> Plan
    decreases fuel, 0int,
{
    if fuel == 0 {
        None
    } else {
        match row(st.types, node, FUEL as nat) {
            Some((tags, _)) => {
                let index = st.table.len() as usize;
                let kept = PlanModel {
                    types: st.types,
                    table: st.table.push(Seq::empty()),
                    memo: st.memo.push((key, index)),
                };
                match planned_variants(
                    kept,
                    chars,
                    aliases,
                    tags,
                    0,
                    Seq::empty(),
                    (fuel - 1) as nat,
                ) {
                    Some((next, variants)) => if distinct_variants(variants) && index
                        < next.table.len() {
                        Some(
                            (
                                PlanModel {
                                    types: next.types,
                                    table: next.table.update(index as int, variants),
                                    memo: next.memo,
                                },
                                ReprModel::Union(index),
                            ),
                        )
                    } else {
                        None
                    },
                    None => None,
                }
            },
            None => None,
        }
    }
}

/// What planning has come to, from the state of the planner.
pub open spec fn plan_model(types: Types, table: Table, memo: Seq<Planned>) -> PlanModel {
    PlanModel { types: types@, table: table_model(table), memo: memo_model(memo) }
}

/// Puts a field into its place among fields that stand in the order of
/// their names.
fn insert_field(out: &mut Vec<FieldRepr>, field: FieldRepr)
    ensures
        fields_model(final(out)@) == inserted(
            fields_model(old(out)@),
            FieldReprModel { name: field.name@, repr: field.repr@ },
            |f: FieldReprModel| f.name,
        ),
{
    let ghost key = |f: FieldReprModel| f.name;
    let ghost model = FieldReprModel { name: field.name@, repr: field.repr@ };
    let mut p: usize = 0;
    while p < out.len() && !le(&field.name, &out[p].name)
        invariant
            p <= out@.len(),
            out@ == old(out)@,
            forall|j: int| 0 <= j < p ==> !precedes(field.name@, (#[trigger] out@[j]).name@),
        decreases out.len() - p,
    {
        p = p + 1;
    }
    proof {
        assert forall|j: int| 0 <= j < p implies !precedes(
            key(model),
            key(#[trigger] fields_model(out@)[j]),
        ) by {
            assert(fields_model(out@)[j].name == out@[j].name@);
        }
        lemma_inserted_at(fields_model(out@), model, key, p as int);
        assert(fields_model(out@.insert(p as int, field)) =~= fields_model(out@).insert(
            p as int,
            model,
        ));
    }
    out.insert(p, field);
}

/// Puts a variant into its place among variants that stand in the order
/// of their names.
fn insert_variant(out: &mut Vec<VariantRepr>, variant: VariantRepr)
    ensures
        variants_model(final(out)@) == inserted(
            variants_model(old(out)@),
            VariantReprModel { name: variant.name@, fields: reprs_model(variant.fields@) },
            |v: VariantReprModel| v.name,
        ),
{
    let ghost key = |v: VariantReprModel| v.name;
    let ghost model = VariantReprModel {
        name: variant.name@,
        fields: reprs_model(variant.fields@),
    };
    let mut p: usize = 0;
    while p < out.len() && !le(&variant.name, &out[p].name)
        invariant
            p <= out@.len(),
            out@ == old(out)@,
            forall|j: int| 0 <= j < p ==> !precedes(variant.name@, (#[trigger] out@[j]).name@),
        decreases out.len() - p,
    {
        p = p + 1;
    }
    proof {
        assert forall|j: int| 0 <= j < p implies !precedes(
            key(model),
            key(#[trigger] variants_model(out@)[j]),
        ) by {
            assert(variants_model(out@)[j].name == out@[j].name@);
        }
        lemma_inserted_at(variants_model(out@), model, key, p as int);
        assert(variants_model(out@.insert(p as int, variant)) =~= variants_model(out@).insert(
            p as int,
            model,
        ));
    }
    out.insert(p, variant);
}

/// Whether the outcome of a planning function is the specified one.
pub open spec fn planned_as(
    r: Option<Repr>,
    types: Types,
    table: Table,
    memo: Seq<Planned>,
    expected: Plan,
) -> bool {
    match expected {
        Some((st, repr)) => r matches Some(got) && got@ == repr && plan_model(types, table, memo)
            == st,
        None => r is None,
    }
}

/// Plans the representation of the type at `node`. Every tag union that
/// the type mentions gets a place in the table, with the layout that the
/// planner gives its shape; a union that mentions itself refers to its own
/// place. Planning only adds to the types, the table and the planned
/// unions; where the type has no representation, nothing is added: the
/// three are what they were.
pub fn plan_type(
    types: &mut Types,
    chars: &Vec<char>,
    aliases: &Vec<AliasDef>,
    node: usize,
    table: &mut Table,
    memo: &mut Vec<Planned>,
    fuel: usize,
) -> (r: Option<Repr>)
    requires
        table_ok(*old(table)),
        table_planned(*old(table)),
    ensures
        table_ok(*final(table)),
        table_planned(*final(table)),
        grown(
            plan_model(*old(types), *old(table), old(memo)@),
            plan_model(*final(types), *final(table), final(memo)@),
        ),
        match planned_type(
            plan_model(*old(types), *old(table), old(memo)@),
            chars@,
            aliases@,
            node,
            fuel as nat,
        ) {
            Some((st, repr)) => r matches Some(got) && got@ == repr && plan_model(
                *final(types),
                *final(table),
                final(memo)@,
            ) == st,
            None => r is None && plan_model(*final(types), *final(table), final(memo)@)
                == plan_model(*old(types), *old(table), old(memo)@),
        },
{
    let saved = snapshot(types);
    let unions = table.unions.len();
    let planned = memo.len();
    match plan_in(types, chars, aliases, node, table, memo, fuel) {
        Some(repr) => Some(repr),
        None => {
            let ghost reached = *table;
            let ghost recalled = memo@;
            *types = saved;
            table.unions.truncate(unions);
            memo.truncate(planned);
            assert(table_model(*table) =~= table_model(*old(table))) by {
                assert forall|k: int| 0 <= k < unions implies table_model(*table)[k] == table_model(
                    *old(table),
                )[k] by {
                    assert(table.unions@[k] == reached.unions@[k]);
                    assert(table_model(reached)[k] == table_model(*old(table))[k]);
                }
            }
            assert(memo_model(memo@) =~= memo_model(old(memo)@)) by {
                assert forall|k: int| 0 <= k < planned implies memo_model(memo@)[k] == memo_model(
                    old(memo)@,
                )[k] by {
                    assert(memo@[k] == recalled[k]);
                    assert(memo_model(recalled)[k] == memo_model(old(memo)@)[k]);
                }
            }
            None
        },
    }
}

/// Plans the representation of the type at `node`, and leaves what was
/// planned on the way where the type has none.
fn plan_in(
    types: &mut Types,
    chars: &Vec<char>,
    aliases: &Vec<AliasDef>,
    node: usize,
    table: &mut Table,
    memo: &mut Vec<Planned>,
    fuel: usize,
) -> (r: Option<Repr>)
    requires
        table_ok(*old(table)),
        table_planned(*old(table)),
    ensures
        table_ok(*final(table)),
        table_planned(*final(table)),
        grown(
            plan_model(*old(types), *old(table), old(memo)@),
            plan_model(*final(types), *final(table), final(memo)@),
        ),
        planned_as(
            r,
            *final(types),
            *final(table),
            final(memo)@,
            planned_type(
                plan_model(*old(types), *old(table), old(memo)@),
                chars@,
                aliases@,
                node,
                fuel as nat,
            ),
        ),
    decreases fuel, 0int,
{
    if fuel == 0 {
        return None;
    }
    let r = types.resolve(node, FUEL);
    match types.node(r) {
        Some(TyNode::Var) => Some(Repr::Int),
        Some(TyNode::Function(_, _)) => Some(Repr::Function),
        Some(TyNode::Apply(name, args)) => {
            let text = text_of_name(chars, name);
            let parts = span_parts(types, args);
            if is_text(&text, "Str") && parts.len() == 0 {
                Some(Repr::Str)
            } else if is_text(&text, "List") && parts.len() == 1 {
                match plan_in(types, chars, aliases, parts[0], table, memo, fuel - 1) {
                    Some(item) => Some(Repr::List(Box::new(item))),
                    None => None,
                }
            } else if is_text(&text, "Num") && parts.len() == 1 {
                let kind = types.resolve(parts[0], FUEL);
                match types.node(kind) {
                    Some(TyNode::Apply(inner, _)) => {
                        let which = text_of_name(chars, inner);
                        if is_text(&which, "FloatingPoint") {
                            Some(Repr::Frac)
                        } else {
                            Some(Repr::Int)
                        }
                    },
                    _ => Some(Repr::Int),
                }
            } else {
                match find_alias_of(types, chars, aliases, r) {
                    Some(alias) => {
                        let key = match key_of(types, chars, r) {
                            Some(key) => key,
                            None => {
                                return None;
                            },
                        };
                        match recall(memo, &key) {
                            Some(index) => {
                                return Some(Repr::Union(index));
                            },
                            None => {},
                        }
                        match expand(types, alias, r, FUEL) {
                            Some(e) => {
                                let target = types.resolve(e, FUEL);
                                match types.node(target) {
                                    Some(TyNode::Union(_, _)) => plan_union(
                                        types,
                                        chars,
                                        aliases,
                                        target,
                                        key,
                                        table,
                                        memo,
                                        fuel - 1,
                                    ),
                                    Some(TyNode::Closed) => plan_union(
                                        types,
                                        chars,
                                        aliases,
                                        target,
                                        key,
                                        table,
                                        memo,
                                        fuel - 1,
                                    ),
                                    _ => plan_in(
                                        types,
                                        chars,
                                        aliases,
                                        target,
                                        table,
                                        memo,
                                        fuel - 1,
                                    ),
                                }
                            },
                            None => None,
                        }
                    },
                    None => None,
                }
            }
        },
        Some(TyNode::Record(fields)) => {
            let parts = span_parts(types, fields);
            let mut out: Vec<FieldRepr> = Vec::new();
            assert(fields_model(out@) =~= Seq::empty());
            if plan_fields(types, chars, aliases, &parts, 0, &mut out, table, memo, fuel - 1) {
                assert(repr_model(Repr::Record(out))->Record_0 =~= fields_model(out@));
                Some(Repr::Record(out))
            } else {
                None
            }
        },
        Some(TyNode::Union(_, _)) => match key_of(types, chars, r) {
            Some(key) => match recall(memo, &key) {
                Some(index) => Some(Repr::Union(index)),
                None => plan_union(types, chars, aliases, r, key, table, memo, fuel - 1),
            },
            None => None,
        },
        Some(TyNode::Closed) => match key_of(types, chars, r) {
            Some(key) => match recall(memo, &key) {
                Some(index) => Some(Repr::Union(index)),
                None => plan_union(types, chars, aliases, r, key, table, memo, fuel - 1),
            },
            None => None,
        },
        _ => None,
    }
}

/// Plans the fields at `parts` from index `i` on and puts them into `out`
/// in the order of their names. Returns whether every field has a
/// representation.
fn plan_fields(
    types: &mut Types,
    chars: &Vec<char>,
    aliases: &Vec<AliasDef>,
    parts: &Vec<usize>,
    i: usize,
    out: &mut Vec<FieldRepr>,
    table: &mut Table,
    memo: &mut Vec<Planned>,
    fuel: usize,
) -> (r: bool)
    requires
        table_ok(*old(table)),
        table_planned(*old(table)),
    ensures
        table_ok(*final(table)),
        table_planned(*final(table)),
        grown(
            plan_model(*old(types), *old(table), old(memo)@),
            plan_model(*final(types), *final(table), final(memo)@),
        ),
        match planned_fields(
            plan_model(*old(types), *old(table), old(memo)@),
            chars@,
            aliases@,
            parts@,
            i as int,
            fields_model(old(out)@),
            fuel as nat,
        ) {
            Some((st, sorted)) => r && plan_model(*final(types), *final(table), final(memo)@) == st
                && fields_model(final(out)@) == sorted,
            None => !r,
        },
    decreases fuel, 1 + parts@.len() - i,
{
    if i < parts.len() {
        match types.node(parts[i]) {
            Some(TyNode::Field(name, ty)) => {
                let repr = match plan_in(types, chars, aliases, ty, table, memo, fuel) {
                    Some(repr) => repr,
                    None => {
                        return false;
                    },
                };
                insert_field(out, FieldRepr { name: text_of_name(chars, name), repr });
                plan_fields(types, chars, aliases, parts, i + 1, out, table, memo, fuel)
            },
            _ => false,
        }
    } else {
        true
    }
}

/// Plans the types at `parts` from index `i` on and appends their
/// representations to `out`.
fn plan_payload(
    types: &mut Types,
    chars: &Vec<char>,
    aliases: &Vec<AliasDef>,
    parts: &Vec<usize>,
    i: usize,
    out: &mut Vec<Repr>,
    table: &mut Table,
    memo: &mut Vec<Planned>,
    fuel: usize,
) -> (r: bool)
    requires
        table_ok(*old(table)),
        table_planned(*old(table)),
    ensures
        table_ok(*final(table)),
        table_planned(*final(table)),
        grown(
            plan_model(*old(types), *old(table), old(memo)@),
            plan_model(*final(types), *final(table), final(memo)@),
        ),
        match planned_payload(
            plan_model(*old(types), *old(table), old(memo)@),
            chars@,
            aliases@,
            parts@,
            i as int,
            fuel as nat,
        ) {
            Some((st, reprs)) => r && plan_model(*final(types), *final(table), final(memo)@) == st
                && reprs_model(final(out)@) == reprs_model(old(out)@) + reprs,
            None => !r,
        },
    decreases fuel, 1 + parts@.len() - i,
{
    if i < parts.len() {
        match plan_in(types, chars, aliases, parts[i], table, memo, fuel) {
            Some(first) => {
                let ghost model = first@;
                let ghost before = reprs_model(out@);
                out.push(first);
                assert(reprs_model(out@) =~= before.push(model));
                let ghost mid = plan_model(*types, *table, memo@);
                let r = plan_payload(types, chars, aliases, parts, i + 1, out, table, memo, fuel);
                proof {
                    match planned_payload(mid, chars@, aliases@, parts@, i + 1, fuel as nat) {
                        Some((_, rest)) => {
                            assert(before.push(model) + rest =~= before + (seq![model] + rest));
                        },
                        None => {},
                    }
                }
                r
            },
            None => false,
        }
    } else {
        assert(reprs_model(out@) + Seq::<ReprModel>::empty() =~= reprs_model(out@));
        true
    }
}

/// Plans the variants of the tags at `tags` from index `i` on and puts
/// them into `out` in the order of their names.
fn plan_variants(
    types: &mut Types,
    chars: &Vec<char>,
    aliases: &Vec<AliasDef>,
    tags: &Vec<usize>,
    i: usize,
    out: &mut Vec<VariantRepr>,
    table: &mut Table,
    memo: &mut Vec<Planned>,
    fuel: usize,
) -> (r: bool)
    requires
        table_ok(*old(table)),
        table_planned(*old(table)),
    ensures
        table_ok(*final(table)),
        table_planned(*final(table)),
        grown(
            plan_model(*old(types), *old(table), old(memo)@),
            plan_model(*final(types), *final(table), final(memo)@),
        ),
        match planned_variants(
            plan_model(*old(types), *old(table), old(memo)@),
            chars@,
            aliases@,
            tags@,
            i as int,
            variants_model(old(out)@),
            fuel as nat,
        ) {
            Some((st, sorted)) => r && plan_model(*final(types), *final(table), final(memo)@) == st
                && variants_model(final(out)@) == sorted,
            None => !r,
        },
    decreases fuel, 1 + tags@.len() - i,
{
    if i < tags.len() {
        match types.node(tags[i]) {
            Some(TyNode::Tag(name, args)) => {
                if fuel == 0 {
                    return false;
                }
                let parts = span_parts(types, args);
                let mut fields: Vec<Repr> = Vec::new();
                assert(reprs_model(fields@) =~= Seq::empty());
                if !plan_payload(types, chars, aliases, &parts, 0, &mut fields, table, memo, fuel - 1) {
                    return false;
                }
                assert(reprs_model(fields@) =~= Seq::<ReprModel>::empty() + reprs_model(fields@));
                insert_variant(out, VariantRepr { name: text_of_name(chars, name), fields });
                plan_variants(types, chars, aliases, tags, i + 1, out, table, memo, fuel)
            },
            _ => false,
        }
    } else {
        true
    }
}

/// Whether no two variants have the same name, in the models as in the
/// variants themselves.
proof fn lemma_distinct_models(variants: Seq<VariantRepr>)
    ensures
        distinct_names(variants) == distinct_variants(variants_model(variants)),
{
    let models = variants_model(variants);
    if distinct_names(variants) {
        assert forall|i: int, j: int|
            0 <= i < models.len() && 0 <= j < models.len() && i != j implies (
        #[trigger] models[i]).name != (#[trigger] models[j]).name by {
            assert(variants[i].name@ != variants[j].name@);
        }
    }
    if distinct_variants(models) {
        assert forall|i: int, j: int|
            0 <= i < variants.len() && 0 <= j < variants.len() && i != j implies (
        #[trigger] variants[i]).name@ != (#[trigger] variants[j]).name@ by {
            assert(models[i].name != models[j].name);
        }
    }
}

/// Plans the tag union at `node`, whose type has the text `key`.
fn plan_union(
    types: &mut Types,
    chars: &Vec<char>,
    aliases: &Vec<AliasDef>,
    node: usize,
    key: Vec<char>,
    table: &mut Table,
    memo: &mut Vec<Planned>,
    fuel: usize,
) -> (r: Option<Repr>)
    requires
        table_ok(*old(table)),
        table_planned(*old(table)),
    ensures
        table_ok(*final(table)),
        table_planned(*final(table)),
        grown(
            plan_model(*old(types), *old(table), old(memo)@),
            plan_model(*final(types), *final(table), final(memo)@),
        ),
        planned_as(
            r,
            *final(types),
            *final(table),
            final(memo)@,
            planned_union(
                plan_model(*old(types), *old(table), old(memo)@),
                chars@,
                aliases@,
                node,
                key@,
                fuel as nat,
            ),
        ),
    decreases fuel, 0int,
{
    if fuel == 0 {
        return None;
    }
    let tags = match row_of(types, node, FUEL) {
        Some((tags, _)) => tags,
        None => {
            return None;
        },
    };
    let index = table.reserve();
    let ghost before = memo_model(memo@);
    let ghost text = key@;
    memo.push(Planned { key, index });
    assert(memo_model(memo@) =~= before.push((text, index)));
    let mut variants: Vec<VariantRepr> = Vec::new();
    assert(variants_model(variants@) =~= Seq::empty());
    if !plan_variants(types, chars, aliases, &tags, 0, &mut variants, table, memo, fuel - 1) {
        return None;
    }
    proof {
        lemma_distinct_models(variants@);
    }
    if !names_distinct(&variants) || index >= table.unions.len() {
        return None;
    }
    table.fill(index, variants);
    Some(Repr::Union(index))
}

} // verus!
