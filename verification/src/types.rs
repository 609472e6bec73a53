//! Types of the evaluated language and their canonical text.
//!
//! A named type is a name applied to arguments: `Str`, `List a`, `Num a`,
//! the alias `Int a` for `Num (Integer a)`, a width such as `Signed64`, or an
//! alias that a submission declared. Records and tag unions are structural.

use vstd::prelude::*;
use crate::text::{append, append_digits, append_str, chars_of, digits, is_text};

verus! {

/// Whether a tag union may still grow.
#[derive(Clone, Copy, Debug, PartialEq, Eq, Structural)]
pub enum Ext {
    /// The union has exactly the tags listed.
    Closed,
    /// The union has at least the tags listed; the variable stands for the rest.
    Open(usize),
}

/// A type.
#[derive(Debug, PartialEq, Eq)]
pub enum Type {
    /// A type variable.
    Var(usize),
    /// A named type applied to its arguments.
    Apply(Vec<char>, Vec<Type>),
    /// A record, with its fields in the order of their names.
    Record(Vec<FieldType>),
    /// A tag union, with its tags in the order of their names.
    TagUnion(Vec<TagType>, Ext),
    /// A function from arguments to a result.
    Function(Vec<Type>, Box<Type>),
}

/// One field of a record type.
#[derive(Debug, PartialEq, Eq)]
pub struct FieldType {
    pub name: Vec<char>,
    pub ty: Type,
}

/// One tag of a tag union, with the types of its payload.
#[derive(Debug, PartialEq, Eq)]
pub struct TagType {
    pub name: Vec<char>,
    pub args: Vec<Type>,
}

/// The mathematical model of a [`Type`].
pub enum TypeModel {
    Var(usize),
    Apply(Seq<char>, Seq<TypeModel>),
    Record(Seq<FieldTypeModel>),
    TagUnion(Seq<TagTypeModel>, Ext),
    Function(Seq<TypeModel>, Box<TypeModel>),
}

/// The mathematical model of a [`FieldType`].
pub struct FieldTypeModel {
    pub name: Seq<char>,
    pub ty: TypeModel,
}

/// The mathematical model of a [`TagType`].
pub struct TagTypeModel {
    pub name: Seq<char>,
    pub args: Seq<TypeModel>,
}

/// The model of `t`.
pub open spec fn type_model(t: Type) -> TypeModel
    decreases t,
{
    match t {
        Type::Var(v) => TypeModel::Var(v),
        Type::Apply(name, args) => TypeModel::Apply(name@, types_model(args@)),
        Type::Record(fields) => TypeModel::Record(
            Seq::new(
                fields@.len(),
                |i: int|
                    if 0 <= i < fields@.len() {
                        FieldTypeModel { name: fields@[i].name@, ty: type_model(fields@[i].ty) }
                    } else {
                        FieldTypeModel { name: Seq::empty(), ty: TypeModel::Var(0) }
                    },
            ),
        ),
        Type::TagUnion(tags, ext) => TypeModel::TagUnion(
            Seq::new(
                tags@.len(),
                |i: int|
                    if 0 <= i < tags@.len() {
                        TagTypeModel { name: tags@[i].name@, args: types_model(tags@[i].args@) }
                    } else {
                        TagTypeModel { name: Seq::empty(), args: Seq::empty() }
                    },
            ),
            ext,
        ),
        Type::Function(args, ret) => TypeModel::Function(
            types_model(args@),
            Box::new(type_model(*ret)),
        ),
    }
}

/// The models of `types`, in order.
pub open spec fn types_model(types: Seq<Type>) -> Seq<TypeModel>
    decreases types,
{
    Seq::new(
        types.len(),
        |i: int|
            if 0 <= i < types.len() {
                type_model(types[i])
            } else {
                TypeModel::Var(0)
            },
    )
}

impl View for Type {
    type V = TypeModel;

    open spec fn view(&self) -> TypeModel {
        type_model(*self)
    }
}

/// The variables of `t`, one entry for each place where one stands, in the
/// order in which the text of `t` shows them.
pub open spec fn occurrences(t: TypeModel) -> Seq<usize>
    decreases t,
{
    match t {
        TypeModel::Var(v) => seq![v],
        TypeModel::Apply(_, args) => occurrences_all(args, 0),
        TypeModel::Record(fields) => occurrences_fields(fields, 0),
        TypeModel::TagUnion(tags, ext) => occurrences_tags(tags, 0) + match ext {
            Ext::Closed => Seq::empty(),
            Ext::Open(v) => seq![v],
        },
        TypeModel::Function(args, ret) => occurrences_all(args, 0) + occurrences(*ret),
    }
}

/// The variables of the types from index `i` on.
pub open spec fn occurrences_all(types: Seq<TypeModel>, i: int) -> Seq<usize>
    decreases types, types.len() - i,
{
    if 0 <= i < types.len() {
        occurrences(types[i]) + occurrences_all(types, i + 1)
    } else {
        Seq::empty()
    }
}

/// The variables of the fields from index `i` on.
pub open spec fn occurrences_fields(fields: Seq<FieldTypeModel>, i: int) -> Seq<usize>
    decreases fields, fields.len() - i,
{
    if 0 <= i < fields.len() {
        occurrences(fields[i].ty) + occurrences_fields(fields, i + 1)
    } else {
        Seq::empty()
    }
}

/// The variables of the tags from index `i` on.
pub open spec fn occurrences_tags(tags: Seq<TagTypeModel>, i: int) -> Seq<usize>
    decreases tags, tags.len() - i,
{
    if 0 <= i < tags.len() {
        occurrences_all(tags[i].args, 0) + occurrences_tags(tags, i + 1)
    } else {
        Seq::empty()
    }
}

/// The variables that get a letter, in the order of their letters: those
/// that stand in more than one place, by their first place. `n` is how many
/// places of `places` have been looked at.
pub open spec fn lettered(places: Seq<usize>, n: int) -> Seq<usize>
    decreases n,
{
    if n <= 0 || n > places.len() {
        Seq::empty()
    } else {
        let v = places[n - 1];
        if !places.subrange(0, n - 1).contains(v) && places.subrange(n, places.len() as int).contains(
            v,
        ) {
            lettered(places, n - 1).push(v)
        } else {
            lettered(places, n - 1)
        }
    }
}

/// The name of the `i`-th lettered variable: `a` to `z`, then `a` with a number.
pub open spec fn letter(i: nat) -> Seq<char> {
    if i < 26 {
        seq![((0x61 + i) as u8) as char]
    } else {
        seq!['a'] + digits(i)
    }
}

/// The first index of `letters` that holds `v`, or the length of `letters`
/// where none does.
pub open spec fn position(letters: Seq<usize>, v: usize) -> int
    decreases letters.len(),
{
    if letters.len() == 0 || letters[0] == v {
        0
    } else {
        1 + position(letters.skip(1), v)
    }
}

/// How a variable prints: by its letter where it has one, else as `*`.
pub open spec fn var_name(v: usize, letters: Seq<usize>) -> Seq<char> {
    if position(letters, v) < letters.len() {
        letter(position(letters, v) as nat)
    } else {
        seq!['*']
    }
}

/// The name under which an integer of width `w` prints; an open width
/// prints as the default, `I64`.
pub open spec fn int_name(w: TypeModel) -> Seq<char> {
    match w {
        TypeModel::Apply(n, _) => if n == "Signed8"@ {
            "I8"@
        } else if n == "Signed16"@ {
            "I16"@
        } else if n == "Signed32"@ {
            "I32"@
        } else if n == "Unsigned8"@ {
            "U8"@
        } else if n == "Unsigned16"@ {
            "U16"@
        } else if n == "Unsigned32"@ {
            "U32"@
        } else if n == "Unsigned64"@ {
            "U64"@
        } else if n == "Natural"@ {
            "Nat"@
        } else {
            "I64"@
        },
        _ => "I64"@,
    }
}

/// The name under which a fraction of width `w` prints; an open width
/// prints as the default, `F64`.
pub open spec fn float_name(w: TypeModel) -> Seq<char> {
    match w {
        TypeModel::Apply(n, _) => if n == "Binary32"@ {
            "F32"@
        } else {
            "F64"@
        },
        _ => "F64"@,
    }
}

/// The one argument of `t` where `t` is `name` applied to one argument.
pub open spec fn argument_of(t: TypeModel, name: Seq<char>) -> Option<TypeModel> {
    match t {
        TypeModel::Apply(n, args) => if n == name && args.len() == 1 {
            Some(args[0])
        } else {
            None
        },
        _ => None,
    }
}

/// The short name of a number type that has lost its alias: `Num (Integer w)`
/// and `Num (FloatingPoint w)` print as the sized type that they resolve to.
pub open spec fn number_name(t: TypeModel) -> Option<Seq<char>> {
    match argument_of(t, "Num"@) {
        Some(kind) => match argument_of(kind, "Integer"@) {
            Some(w) => Some(int_name(w)),
            None => match argument_of(kind, "FloatingPoint"@) {
                Some(w) => Some(float_name(w)),
                None => None,
            },
        },
        None => None,
    }
}

/// Whether a type stands in parentheses as an argument.
pub open spec fn is_compound(t: TypeModel) -> bool {
    match t {
        TypeModel::Apply(_, args) => args.len() > 0 && number_name(t) is None,
        TypeModel::Function(_, _) => true,
        _ => false,
    }
}

/// How the rest of a tag union prints: nothing where it is closed, else the
/// name of its variable.
pub open spec fn ext_name(ext: Ext, letters: Seq<usize>) -> Seq<char> {
    match ext {
        Ext::Closed => Seq::empty(),
        Ext::Open(v) => var_name(v, letters),
    }
}

/// The text of a type, with the variables in `letters` printed by letter.
pub open spec fn rendered_type(t: TypeModel, letters: Seq<usize>) -> Seq<char>
    decreases t,
{
    match number_name(t) {
        Some(name) => name,
        None => match t {
            TypeModel::Var(v) => var_name(v, letters),
            TypeModel::Apply(name, args) => name + rendered_arguments(args, 0, letters),
            TypeModel::Record(fields) => if fields.len() == 0 {
                "{}"@
            } else {
                "{ "@ + rendered_field_types(fields, 0, letters) + " }"@
            },
            TypeModel::TagUnion(tags, ext) => (if tags.len() == 0 {
                "[]"@
            } else {
                "[ "@ + rendered_tag_types(tags, 0, letters) + " ]"@
            }) + ext_name(ext, letters),
            TypeModel::Function(args, ret) => rendered_params(args, 0, letters) + " -> "@
                + rendered_type(*ret, letters),
        },
    }
}

/// The arguments from index `i` on, each after a space, and in parentheses
/// where it is compound.
pub open spec fn rendered_arguments(args: Seq<TypeModel>, i: int, letters: Seq<usize>) -> Seq<char>
    decreases args, args.len() - i,
{
    if 0 <= i < args.len() {
        (if is_compound(args[i]) {
            " ("@ + rendered_type(args[i], letters) + ")"@
        } else {
            " "@ + rendered_type(args[i], letters)
        }) + rendered_arguments(args, i + 1, letters)
    } else {
        Seq::empty()
    }
}

/// The parameters from index `i` on, separated by commas; a function among
/// them stands in parentheses.
pub open spec fn rendered_params(args: Seq<TypeModel>, i: int, letters: Seq<usize>) -> Seq<char>
    decreases args, args.len() - i,
{
    if 0 <= i < args.len() {
        (if i == 0 {
            Seq::empty()
        } else {
            ", "@
        }) + (if args[i] is Function {
            "("@ + rendered_type(args[i], letters) + ")"@
        } else {
            rendered_type(args[i], letters)
        }) + rendered_params(args, i + 1, letters)
    } else {
        Seq::empty()
    }
}

/// The fields from index `i` on as `name : type`, separated by commas.
pub open spec fn rendered_field_types(
    fields: Seq<FieldTypeModel>,
    i: int,
    letters: Seq<usize>,
) -> Seq<char>
    decreases fields, fields.len() - i,
{
    if 0 <= i < fields.len() {
        (if i == 0 {
            Seq::empty()
        } else {
            ", "@
        }) + fields[i].name + " : "@ + rendered_type(fields[i].ty, letters) + rendered_field_types(
            fields,
            i + 1,
            letters,
        )
    } else {
        Seq::empty()
    }
}

/// The tags from index `i` on, each with its arguments, separated by commas.
pub open spec fn rendered_tag_types(tags: Seq<TagTypeModel>, i: int, letters: Seq<usize>) -> Seq<
    char,
>
    decreases tags, tags.len() - i,
{
    if 0 <= i < tags.len() {
        (if i == 0 {
            Seq::empty()
        } else {
            ", "@
        }) + tags[i].name + rendered_arguments(tags[i].args, 0, letters) + rendered_tag_types(
            tags,
            i + 1,
            letters,
        )
    } else {
        Seq::empty()
    }
}

/// The canonical text of a type: a variable that stands in one place prints
/// as `*`, the others by letters in the order of their first places.
pub open spec fn type_text(t: TypeModel) -> Seq<char> {
    rendered_type(t, lettered(occurrences(t), occurrences(t).len() as int))
}

/// Appends the variables of `t` to `out`, in the order of their places.
fn collect(out: &mut Vec<usize>, t: &Type)
    ensures
        final(out)@ == old(out)@ + occurrences(t@),
    decreases t,
{
    match t {
        Type::Var(v) => {
            out.push(*v);
            assert(out@ =~= old(out)@ + occurrences(t@));
        },
        Type::Apply(_, args) => {
            collect_all(out, args);
        },
        Type::Record(fields) => {
            let ghost model = t@->Record_0;
            let mut i: usize = 0;
            assert(out@ + occurrences_fields(model, 0) =~= old(out)@ + occurrences(t@));
            while i < fields.len()
                invariant
                    i <= fields.len(),
                    t@ == TypeModel::Record(model),
                    *t == Type::Record(*fields),
                    out@ + occurrences_fields(model, i as int) == old(out)@ + occurrences(t@),
                decreases fields.len() - i,
            {
                let ghost before = out@;
                collect(out, &fields[i].ty);
                assert(out@ + occurrences_fields(model, i + 1) =~= before + occurrences_fields(
                    model,
                    i as int,
                ));
                i = i + 1;
            }
            assert(out@ + occurrences_fields(model, i as int) =~= out@);
        },
        Type::TagUnion(tags, ext) => {
            let ghost model = t@->TagUnion_0;
            let ghost tail = match ext {
                Ext::Closed => Seq::<usize>::empty(),
                Ext::Open(v) => seq![*v],
            };
            let mut i: usize = 0;
            assert(out@ + occurrences_tags(model, 0) + tail =~= old(out)@ + occurrences(t@));
            while i < tags.len()
                invariant
                    i <= tags.len(),
                    t@ == TypeModel::TagUnion(model, *ext),
                    *t == Type::TagUnion(*tags, *ext),
                    out@ + occurrences_tags(model, i as int) + tail == old(out)@ + occurrences(t@),
                decreases tags.len() - i,
            {
                let ghost before = out@;
                collect_all(out, &tags[i].args);
                assert(out@ + occurrences_tags(model, i + 1) =~= before + occurrences_tags(
                    model,
                    i as int,
                ));
                i = i + 1;
            }
            assert(out@ + occurrences_tags(model, i as int) =~= out@);
            match ext {
                Ext::Closed => {
                    assert(out@ + tail =~= out@);
                },
                Ext::Open(v) => {
                    out.push(*v);
                },
            }
        },
        Type::Function(args, ret) => {
            collect_all(out, args);
            collect(out, ret);
            assert(out@ =~= old(out)@ + occurrences(t@));
        },
    }
}

/// Appends the variables of `types` to `out`.
fn collect_all(out: &mut Vec<usize>, types: &Vec<Type>)
    ensures
        final(out)@ == old(out)@ + occurrences_all(types_model(types@), 0),
    decreases types@,
{
    let ghost model = types_model(types@);
    let mut i: usize = 0;
    while i < types.len()
        invariant
            i <= types.len(),
            model == types_model(types@),
            out@ + occurrences_all(model, i as int) == old(out)@ + occurrences_all(model, 0),
        decreases types.len() - i,
    {
        let ghost before = out@;
        collect(out, &types[i]);
        assert(out@ + occurrences_all(model, i + 1) =~= before + occurrences_all(model, i as int));
        i = i + 1;
    }
    assert(out@ + occurrences_all(model, i as int) =~= out@);
}

/// Whether `v` stands in `places` between `from` and `to`.
fn occurs(places: &Vec<usize>, from: usize, to: usize, v: usize) -> (r: bool)
    requires
        from <= to <= places.len(),
    ensures
        r == places@.subrange(from as int, to as int).contains(v),
{
    let ghost part = places@.subrange(from as int, to as int);
    let mut j: usize = from;
    while j < to
        invariant
            from <= j <= to <= places.len(),
            part == places@.subrange(from as int, to as int),
            forall|k: int| 0 <= k < j - from ==> part[k] != v,
        decreases to - j,
    {
        if places[j] == v {
            assert(part[j - from] == v);
            return true;
        }
        j = j + 1;
    }
    false
}

/// The variables of `places` that get a letter, in the order of their letters.
fn letters_of(places: &Vec<usize>) -> (r: Vec<usize>)
    ensures
        r@ == lettered(places@, places@.len() as int),
{
    let mut out: Vec<usize> = Vec::new();
    let mut n: usize = 0;
    while n < places.len()
        invariant
            n <= places.len(),
            out@ == lettered(places@, n as int),
        decreases places.len() - n,
    {
        let v = places[n];
        if !occurs(places, 0, n, v) && occurs(places, n + 1, places.len(), v) {
            out.push(v);
        }
        n = n + 1;
    }
    out
}

/// Appends the name of the variable `v`.
fn var_name_into(out: &mut Vec<char>, v: usize, letters: &Vec<usize>)
    ensures
        final(out)@ == old(out)@ + var_name(v, letters@),
{
    let mut i: usize = 0;
    assert(letters@.skip(0) =~= letters@);
    while i < letters.len() && letters[i] != v
        invariant
            i <= letters.len(),
            position(letters@, v) == i + position(letters@.skip(i as int), v),
        decreases letters.len() - i,
    {
        assert(letters@.skip(i as int).skip(1) =~= letters@.skip(i + 1));
        i = i + 1;
    }
    if i < letters.len() {
        assert(letters@.skip(i as int)[0] == v);
        if i < 26 {
            out.push((0x61u8 + i as u8) as char);
        } else {
            out.push('a');
            append_digits(out, i as u128);
        }
        assert(out@ =~= old(out)@ + var_name(v, letters@));
    } else {
        out.push('*');
        assert(out@ =~= old(out)@ + var_name(v, letters@));
    }
}

/// The one argument of `t` where `t` is `name` applied to one argument.
fn argument<'a>(t: &'a Type, name: &str) -> (r: Option<&'a Type>)
    ensures
        match r {
            Some(a) => argument_of(t@, name@) == Some(a@),
            None => argument_of(t@, name@) is None,
        },
{
    match t {
        Type::Apply(n, args) => {
            assert(t@ == TypeModel::Apply(n@, types_model(args@)));
            if is_text(n, name) && args.len() == 1 {
                Some(&args[0])
            } else {
                None
            }
        },
        _ => {
            assert(!(t@ is Apply));
            None
        },
    }
}

/// The name under which an integer of width `w` prints.
fn int_name_of(w: &Type) -> (r: &'static str)
    ensures
        r@ == int_name(w@),
{
    match w {
        Type::Apply(n, args) => {
            assert(w@ == TypeModel::Apply(n@, types_model(args@)));
            if is_text(n, "Signed8") {
                "I8"
            } else if is_text(n, "Signed16") {
                "I16"
            } else if is_text(n, "Signed32") {
                "I32"
            } else if is_text(n, "Unsigned8") {
                "U8"
            } else if is_text(n, "Unsigned16") {
                "U16"
            } else if is_text(n, "Unsigned32") {
                "U32"
            } else if is_text(n, "Unsigned64") {
                "U64"
            } else if is_text(n, "Natural") {
                "Nat"
            } else {
                "I64"
            }
        },
        _ => {
            assert(!(w@ is Apply));
            "I64"
        },
    }
}

/// The name under which a fraction of width `w` prints.
fn float_name_of(w: &Type) -> (r: &'static str)
    ensures
        r@ == float_name(w@),
{
    match w {
        Type::Apply(n, args) => {
            assert(w@ == TypeModel::Apply(n@, types_model(args@)));
            if is_text(n, "Binary32") {
                "F32"
            } else {
                "F64"
            }
        },
        _ => {
            assert(!(w@ is Apply));
            "F64"
        },
    }
}

/// The short name of a number type that has lost its alias.
fn number_name_of(t: &Type) -> (r: Option<&'static str>)
    ensures
        match r {
            Some(name) => number_name(t@) == Some(name@),
            None => number_name(t@) is None,
        },
{
    match argument(t, "Num") {
        Some(kind) => match argument(kind, "Integer") {
            Some(w) => Some(int_name_of(w)),
            None => match argument(kind, "FloatingPoint") {
                Some(w) => Some(float_name_of(w)),
                None => None,
            },
        },
        None => None,
    }
}

/// Whether `t` stands in parentheses as an argument.
fn compound(t: &Type) -> (r: bool)
    ensures
        r == is_compound(t@),
{
    match t {
        Type::Apply(n, args) => {
            assert(t@ == TypeModel::Apply(n@, types_model(args@)));
            args.len() > 0 && number_name_of(t).is_none()
        },
        Type::Function(args, ret) => {
            assert(t@ is Function);
            true
        },
        _ => {
            assert(!(t@ is Apply) && !(t@ is Function));
            false
        },
    }
}

/// Appends the text of `t`, with the variables in `letters` printed by letter.
fn render_type_into(out: &mut Vec<char>, t: &Type, letters: &Vec<usize>)
    ensures
        final(out)@ == old(out)@ + rendered_type(t@, letters@),
    decreases t,
{
    match number_name_of(t) {
        Some(name) => {
            append_str(out, name);
            return ;
        },
        None => {},
    }
    match t {
        Type::Var(v) => {
            assert(t@ == TypeModel::Var(*v));
            var_name_into(out, *v, letters);
        },
        Type::Apply(name, args) => {
            assert(t@ == TypeModel::Apply(name@, types_model(args@)));
            append(out, name);
            render_arguments_into(out, args, letters);
            assert(out@ =~= old(out)@ + rendered_type(t@, letters@));
        },
        Type::Record(fields) => {
            let ghost model = t@->Record_0;
            assert(model.len() == fields.len());
            if fields.len() == 0 {
                append_str(out, "{}");
            } else {
                append_str(out, "{ ");
                let ghost start = out@;
                let mut i: usize = 0;
                while i < fields.len()
                    invariant
                        i <= fields.len(),
                        t@ == TypeModel::Record(model),
                        *t == Type::Record(*fields),
                        out@ + rendered_field_types(model, i as int, letters@) == start
                            + rendered_field_types(model, 0, letters@),
                    decreases fields.len() - i,
                {
                    let ghost before = out@;
                    if i > 0 {
                        append_str(out, ", ");
                    }
                    append(out, &fields[i].name);
                    append_str(out, " : ");
                    render_type_into(out, &fields[i].ty, letters);
                    assert(out@ + rendered_field_types(model, i + 1, letters@) =~= before
                        + rendered_field_types(model, i as int, letters@));
                    i = i + 1;
                }
                assert(out@ + rendered_field_types(model, i as int, letters@) =~= out@);
                append_str(out, " }");
                assert(out@ =~= old(out)@ + rendered_type(t@, letters@));
            }
        },
        Type::TagUnion(tags, ext) => {
            let ghost model = t@->TagUnion_0;
            assert(model.len() == tags.len());
            assert(t@ == TypeModel::TagUnion(model, *ext));
            if tags.len() == 0 {
                append_str(out, "[]");
            } else {
                append_str(out, "[ ");
                let ghost start = out@;
                let mut i: usize = 0;
                while i < tags.len()
                    invariant
                        i <= tags.len(),
                        t@ == TypeModel::TagUnion(model, *ext),
                        *t == Type::TagUnion(*tags, *ext),
                        out@ + rendered_tag_types(model, i as int, letters@) == start
                            + rendered_tag_types(model, 0, letters@),
                    decreases tags.len() - i,
                {
                    let ghost before = out@;
                    if i > 0 {
                        append_str(out, ", ");
                    }
                    append(out, &tags[i].name);
                    render_arguments_into(out, &tags[i].args, letters);
                    assert(out@ + rendered_tag_types(model, i + 1, letters@) =~= before
                        + rendered_tag_types(model, i as int, letters@));
                    i = i + 1;
                }
                assert(out@ + rendered_tag_types(model, i as int, letters@) =~= out@);
                append_str(out, " ]");
            }
            match ext {
                Ext::Closed => {},
                Ext::Open(v) => {
                    var_name_into(out, *v, letters);
                },
            }
            assert(out@ =~= old(out)@ + rendered_type(t@, letters@));
        },
        Type::Function(args, ret) => {
            assert(t@ == TypeModel::Function(types_model(args@), Box::new(type_model(**ret))));
            render_params_into(out, args, letters);
            append_str(out, " -> ");
            render_type_into(out, ret, letters);
            assert(out@ =~= old(out)@ + rendered_type(t@, letters@));
        },
    }
}

/// Appends the parameters, separated by commas.
fn render_params_into(out: &mut Vec<char>, args: &Vec<Type>, letters: &Vec<usize>)
    ensures
        final(out)@ == old(out)@ + rendered_params(types_model(args@), 0, letters@),
    decreases args@,
{
    let ghost model = types_model(args@);
    let mut i: usize = 0;
    while i < args.len()
        invariant
            i <= args.len(),
            model == types_model(args@),
            out@ + rendered_params(model, i as int, letters@) == old(out)@ + rendered_params(
                model,
                0,
                letters@,
            ),
        decreases args.len() - i,
    {
        let ghost before = out@;
        if i > 0 {
            append_str(out, ", ");
        }
        let parens = match &args[i] {
            Type::Function(_, _) => true,
            _ => false,
        };
        assert(parens == (model[i as int] is Function));
        if parens {
            append_str(out, "(");
            render_type_into(out, &args[i], letters);
            append_str(out, ")");
        } else {
            render_type_into(out, &args[i], letters);
        }
        assert(out@ + rendered_params(model, i + 1, letters@) =~= before + rendered_params(
            model,
            i as int,
            letters@,
        ));
        i = i + 1;
    }
    assert(out@ + rendered_params(model, i as int, letters@) =~= out@);
}

/// Appends the arguments, each after a space.
fn render_arguments_into(out: &mut Vec<char>, args: &Vec<Type>, letters: &Vec<usize>)
    ensures
        final(out)@ == old(out)@ + rendered_arguments(types_model(args@), 0, letters@),
    decreases args@,
{
    let ghost model = types_model(args@);
    let mut i: usize = 0;
    while i < args.len()
        invariant
            i <= args.len(),
            model == types_model(args@),
            out@ + rendered_arguments(model, i as int, letters@) == old(out)@ + rendered_arguments(
                model,
                0,
                letters@,
            ),
        decreases args.len() - i,
    {
        let ghost before = out@;
        if compound(&args[i]) {
            append_str(out, " (");
            render_type_into(out, &args[i], letters);
            append_str(out, ")");
        } else {
            append_str(out, " ");
            render_type_into(out, &args[i], letters);
        }
        assert(out@ + rendered_arguments(model, i + 1, letters@) =~= before + rendered_arguments(
            model,
            i as int,
            letters@,
        ));
        i = i + 1;
    }
    assert(out@ + rendered_arguments(model, i as int, letters@) =~= out@);
}

/// The canonical text of `t`.
pub fn render_type(t: &Type) -> (r: Vec<char>)
    ensures
        r@ == type_text(t@),
{
    let mut places: Vec<usize> = Vec::new();
    collect(&mut places, t);
    assert(places@ =~= occurrences(t@));
    let letters = letters_of(&places);
    let mut out: Vec<char> = Vec::new();
    render_type_into(&mut out, t, &letters);
    assert(out@ =~= type_text(t@));
    out
}

/// The text of `t` as a part of the type `whole`: the variables print as
/// they do in the text of `whole`.
pub fn render_type_in(t: &Type, whole: &Type) -> (r: Vec<char>)
    ensures
        r@ == rendered_type(t@, lettered(occurrences(whole@), occurrences(whole@).len() as int)),
{
    let mut places: Vec<usize> = Vec::new();
    collect(&mut places, whole);
    assert(places@ =~= occurrences(whole@));
    let letters = letters_of(&places);
    let mut out: Vec<char> = Vec::new();
    render_type_into(&mut out, t, &letters);
    assert(out@ =~= rendered_type(t@, letters@));
    out
}

} // verus!
