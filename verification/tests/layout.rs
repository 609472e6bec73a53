use repl_core::layout::{plan, Layout, TagStorage, Variant};

fn chars(s: &str) -> Vec<char> {
    s.chars().collect()
}

fn variant(name: &str, arity: usize, recursive: usize) -> Variant {
    Variant { name: chars(name), arity, recursive }
}

#[test]
fn enumerations_are_direct() {
    let shape = vec![variant("A", 0, 0), variant("B", 0, 0), variant("C", 0, 0)];
    assert_eq!(plan(&shape), Layout::Direct);
    assert_eq!(plan(&vec![]), Layout::Direct);
}

#[test]
fn single_recursive_variant_is_unwrapped() {
    let shape = vec![variant("Tree", 2, 1)];
    assert_eq!(plan(&shape), Layout::NonNullableUnwrapped);
}

#[test]
fn list_like_union_is_nullable_unwrapped() {
    let shape = vec![variant("Cons", 2, 1), variant("Nil", 0, 0)];
    assert_eq!(plan(&shape), Layout::NullableUnwrapped { null: chars("Nil") });
    let other = vec![variant("Nil", 0, 0), variant("Cons", 2, 1)];
    assert_eq!(plan(&other), Layout::NullableUnwrapped { null: chars("Nil") });
}

#[test]
fn one_empty_variant_is_nullable_wrapped() {
    let shape = vec![variant("Empty", 0, 0), variant("Halved", 2, 2), variant("Whole", 1, 0)];
    assert_eq!(
        plan(&shape),
        Layout::NullableWrapped { null: chars("Empty"), tag: TagStorage::InPointer }
    );
}

#[test]
fn more_than_seven_full_variants_store_the_tag() {
    let mut shape = vec![variant("Empty", 0, 0)];
    for name in ["S1", "S2", "S3", "S4", "S5", "S6", "S7"] {
        shape.push(variant(name, 1, 0));
    }
    assert_eq!(
        plan(&shape),
        Layout::NullableWrapped { null: chars("Empty"), tag: TagStorage::InPointer }
    );
    shape.push(variant("Tup", 2, 2));
    assert_eq!(
        plan(&shape),
        Layout::NullableWrapped { null: chars("Empty"), tag: TagStorage::BesidePayload }
    );
    let seven: Vec<Variant> = (0..7).map(|i| variant(&format!("V{}", i), 1, 0)).collect();
    assert_eq!(plan(&seven), Layout::Boxed { tag: TagStorage::InPointer });
    let eight: Vec<Variant> = (0..8).map(|i| variant(&format!("V{}", i), 1, 0)).collect();
    assert_eq!(plan(&eight), Layout::Boxed { tag: TagStorage::BesidePayload });
}

#[test]
fn other_unions_are_boxed() {
    let shape = vec![variant("Add", 2, 2), variant("Sym", 1, 0)];
    assert_eq!(plan(&shape), Layout::Boxed { tag: TagStorage::InPointer });
    let mixed = vec![variant("A", 0, 0), variant("B", 0, 0), variant("C", 1, 0)];
    assert_eq!(plan(&mixed), Layout::Boxed { tag: TagStorage::BesidePayload });
    let two = vec![variant("Node", 2, 2)];
    assert_eq!(plan(&two), Layout::Boxed { tag: TagStorage::InPointer });
}
