use repl_core::layout::{Layout, TagStorage};
use repl_core::memory::{
    names_distinct, rebuild, store, Datum, FieldRepr, Repr, Table, VariantRepr,
};
use repl_core::value::{render, Field, Value};

fn chars(s: &str) -> Vec<char> {
    s.chars().collect()
}

fn variant(name: &str, fields: Vec<Repr>) -> VariantRepr {
    VariantRepr { name: chars(name), fields }
}

fn text(v: &Value) -> String {
    render(v).into_iter().collect()
}

fn back(d: &Datum, repr: &Repr, table: &Table) -> Option<Value> {
    let mut mem = vec![0i128];
    let cell = store(&mut mem, d, repr, table);
    rebuild(&mem, cell, repr, table, mem.len())
}

#[test]
fn numbers_are_their_own_cells() {
    let table = Table::new();
    let mut mem = vec![0i128];
    assert_eq!(store(&mut mem, &Datum::Int(-7), &Repr::Int, &table), -7);
    assert_eq!(store(&mut mem, &Datum::Frac(1_500_000_000_000_000_000), &Repr::Frac, &table),
        1_500_000_000_000_000_000);
    assert_eq!(mem, vec![0]);
    assert_eq!(rebuild(&mem, -7, &Repr::Int, &table, 1), Some(Value::Num(chars("-7"))));
    assert_eq!(
        rebuild(&mem, 1_500_000_000_000_000_000, &Repr::Frac, &table, 1),
        Some(Value::Num(chars("1.5")))
    );
    assert_eq!(
        rebuild(&mem, -250_000_000_000_000_000, &Repr::Frac, &table, 1),
        Some(Value::Num(chars("-0.25")))
    );
    assert_eq!(
        rebuild(&mem, 3_000_000_000_000_000_000, &Repr::Frac, &table, 1),
        Some(Value::Num(chars("3")))
    );
    assert_eq!(rebuild(&mem, 1, &Repr::Frac, &table, 1),
        Some(Value::Num(chars("0.000000000000000001"))));
    assert_eq!(rebuild(&mem, i128::MIN, &Repr::Int, &table, 1),
        Some(Value::Num(chars("-170141183460469231731687303715884105728"))));
}

#[test]
fn a_string_is_a_block_of_its_codes() {
    let table = Table::new();
    let mut mem = vec![0i128];
    let cell = store(&mut mem, &Datum::Str(chars("h\u{e9}")), &Repr::Str, &table);
    assert_eq!(cell, 1);
    assert_eq!(mem, vec![0, 2, 0x68, 0xe9]);
    assert_eq!(rebuild(&mem, cell, &Repr::Str, &table, mem.len()), Some(Value::Str(chars("h\u{e9}"))));
}

#[test]
fn a_block_stands_after_the_blocks_of_its_parts() {
    let table = Table::new();
    let repr = Repr::List(Box::new(Repr::Str));
    let d = Datum::List(vec![Datum::Str(chars("a")), Datum::Str(chars(""))]);
    let mut mem = vec![0i128];
    let cell = store(&mut mem, &d, &repr, &table);
    assert_eq!(mem, vec![0, 1, 0x61, 0, 2, 1, 3]);
    assert_eq!(cell, 4);
    assert_eq!(text(&rebuild(&mem, cell, &repr, &table, mem.len()).unwrap()), "[ \"a\", \"\" ]");
}

#[test]
fn a_record_of_one_field_is_the_field_itself() {
    let table = Table::new();
    let one = Repr::Record(vec![FieldRepr { name: chars("foo"), repr: Repr::Int }]);
    let mut mem = vec![0i128];
    let cell = store(&mut mem, &Datum::Record(vec![Datum::Int(42)]), &one, &table);
    assert_eq!((cell, mem.len()), (42, 1));
    assert_eq!(text(&rebuild(&mem, cell, &one, &table, 1).unwrap()), "{ foo: 42 }");
    let none = Repr::Record(vec![]);
    assert_eq!(text(&back(&Datum::Record(vec![]), &none, &table).unwrap()), "{}");
    let two = Repr::Record(vec![
        FieldRepr { name: chars("a"), repr: Repr::Int },
        FieldRepr { name: chars("b"), repr: Repr::Function },
    ]);
    let d = Datum::Record(vec![Datum::Int(1), Datum::Function]);
    assert_eq!(
        back(&d, &two, &table),
        Some(Value::Record(vec![
            Field { name: chars("a"), value: Value::Num(chars("1")) },
            Field { name: chars("b"), value: Value::Function },
        ]))
    );
}

#[test]
fn every_layout_brings_its_values_back() {
    let mut table = Table::new();
    let colors = table.add(vec![variant("Blue", vec![]), variant("Green", vec![]), variant("Red", vec![])]);
    assert_eq!(table.unions[colors].layout, Layout::Direct);
    let rose = table.add(vec![variant("Tree", vec![Repr::Str, Repr::List(Box::new(Repr::Union(1)))])]);
    assert_eq!(table.unions[rose].layout, Layout::NonNullableUnwrapped);
    let list = table.add(vec![variant("Cons", vec![Repr::Str, Repr::Union(2)]), variant("Nil", vec![])]);
    assert_eq!(table.unions[list].layout, Layout::NullableUnwrapped { null: chars("Nil") });
    let cont = table.add(vec![
        variant("Empty", vec![]),
        variant("Halved", vec![Repr::Union(3), Repr::Union(3)]),
        variant("Whole", vec![Repr::Str]),
    ]);
    assert_eq!(
        table.unions[cont].layout,
        Layout::NullableWrapped { null: chars("Empty"), tag: TagStorage::InPointer }
    );
    let expr = table.add(vec![
        variant("Add", vec![Repr::Union(4), Repr::Union(4)]),
        variant("Sym", vec![Repr::Str]),
    ]);
    assert_eq!(table.unions[expr].layout, Layout::Boxed { tag: TagStorage::InPointer });
    let mut many: Vec<VariantRepr> = (0..9).map(|i| variant(&format!("V{}", i), vec![Repr::Int])).collect();
    many.push(variant("W", vec![Repr::Union(5)]));
    let big = table.add(many);
    assert_eq!(table.unions[big].layout, Layout::Boxed { tag: TagStorage::BesidePayload });

    assert_eq!(text(&back(&Datum::Tag(2, vec![]), &Repr::Union(colors), &table).unwrap()), "Red");
    let tree = Datum::Tag(0, vec![
        Datum::Str(chars("combo")),
        Datum::List(vec![Datum::Tag(0, vec![Datum::Str(chars("e1")), Datum::List(vec![])])]),
    ]);
    assert_eq!(text(&back(&tree, &Repr::Union(rose), &table).unwrap()), "Tree \"combo\" [ Tree \"e1\" [] ]");
    let cons = Datum::Tag(0, vec![Datum::Str(chars("Red")), Datum::Tag(1, vec![])]);
    assert_eq!(text(&back(&cons, &Repr::Union(list), &table).unwrap()), "Cons \"Red\" Nil");
    assert_eq!(text(&back(&Datum::Tag(1, vec![]), &Repr::Union(list), &table).unwrap()), "Nil");
    let halved = Datum::Tag(1, vec![Datum::Tag(2, vec![Datum::Str(chars("Ribs"))]), Datum::Tag(0, vec![])]);
    assert_eq!(
        text(&back(&halved, &Repr::Union(cont), &table).unwrap()),
        "Halved (Whole \"Ribs\") Empty"
    );
    let sum = Datum::Tag(0, vec![
        Datum::Tag(1, vec![Datum::Str(chars("one"))]),
        Datum::Tag(1, vec![Datum::Str(chars("two"))]),
    ]);
    assert_eq!(text(&back(&sum, &Repr::Union(expr), &table).unwrap()), "Add (Sym \"one\") (Sym \"two\")");
    let deep = Datum::Tag(9, vec![Datum::Tag(4, vec![Datum::Int(7)])]);
    assert_eq!(text(&back(&deep, &Repr::Union(big), &table).unwrap()), "W (V4 7)");
}

#[test]
fn the_number_of_a_variant_is_where_the_layout_puts_it() {
    let mut table = Table::new();
    let expr = table.add(vec![variant("Add", vec![Repr::Int]), variant("Sym", vec![Repr::Int])]);
    let mut mem = vec![0i128];
    let cell = store(&mut mem, &Datum::Tag(1, vec![Datum::Int(5)]), &Repr::Union(expr), &table);
    // The block stands at 1; the pointer carries the number of the variant.
    assert_eq!(mem, vec![0, 1, 5]);
    assert_eq!(cell, 1 * 8 + 1);
    let many: Vec<VariantRepr> = (0..8).map(|i| variant(&format!("V{}", i), vec![Repr::Int])).collect();
    let big = table.add(many);
    let mut mem = vec![0i128];
    let cell = store(&mut mem, &Datum::Tag(3, vec![Datum::Int(5)]), &Repr::Union(big), &table);
    // The number of the variant stands beside the payload.
    assert_eq!(mem, vec![0, 3, 5]);
    assert_eq!(cell, 1);
}

#[test]
fn cells_that_hold_no_value_are_refused() {
    let mut table = Table::new();
    let list = table.add(vec![variant("Cons", vec![Repr::Str, Repr::Union(0)]), variant("Nil", vec![])]);
    // An address outside the memory.
    assert_eq!(rebuild(&vec![0], 5, &Repr::Str, &table, 1), None);
    // An address that is not below the bound.
    assert_eq!(rebuild(&vec![0, 0], 1, &Repr::Str, &table, 1), None);
    // A length that runs past the memory.
    assert_eq!(rebuild(&vec![0, 3, 0x61], 1, &Repr::Str, &table, 3), None);
    // A cell that is no character.
    assert_eq!(rebuild(&vec![0, 1, 0xD800], 1, &Repr::Str, &table, 3), None);
    assert_eq!(rebuild(&vec![0, 1, -1], 1, &Repr::Str, &table, 3), None);
    // A block that points at itself.
    assert_eq!(rebuild(&vec![0, 0, 0, 1], 1, &Repr::Union(list), &table, 4), None);
    // A union that the table does not have.
    assert_eq!(rebuild(&vec![0], 0, &Repr::Union(7), &table, 1), None);
    // A direct union with no such variant.
    let colors = table.add(vec![variant("Red", vec![])]);
    assert_eq!(rebuild(&vec![0], 1, &Repr::Union(colors), &table, 1), None);
    assert_eq!(rebuild(&vec![0], -1, &Repr::Union(colors), &table, 1), None);
    // A function's cell is never looked into.
    assert_eq!(rebuild(&vec![0], 12345, &Repr::Function, &table, 1), Some(Value::Function));
}

#[test]
fn a_place_is_kept_and_filled() {
    let mut table = Table::new();
    let index = table.reserve();
    assert_eq!(index, 0);
    assert_eq!(table.unions[0].variants.len(), 0);
    table.fill(index, vec![variant("Cons", vec![Repr::Int, Repr::Union(0)]), variant("Nil", vec![])]);
    assert_eq!(table.unions[0].layout, Layout::NullableUnwrapped { null: chars("Nil") });
    assert!(names_distinct(&table.unions[0].variants));
    assert!(!names_distinct(&vec![variant("A", vec![]), variant("B", vec![]), variant("A", vec![])]));
}
