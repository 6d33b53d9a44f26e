//! A sample of types, small enough to know by heart, and the description of
//! them that the walkers of this crate are tried on.

use crate::model::text;
use crate::model::Crate;
use crate::model::CrateView;
use crate::model::Id;
use crate::model::ItemEnum;
use crate::model::ItemKind;
use crate::model::ItemSummary;
use crate::model::PathText;
use crate::model::StructKind;
use crate::model::Type;
use crate::primitive::is_primitive;
use crate::primitive::primitive_names;
use crate::primitive::primitive_path;
use crate::seqs::lemma_distinct_unique;
use crate::structy::gather;
use crate::structy::segments_text;
use vstd::prelude::*;
use vstd::string::StringExecFns;

pub mod nested;

verus! {

/// A struct without fields, written without brackets.
pub struct UnitStruct;

/// A struct with named fields, of which it has none.
pub struct EmptyPlainStruct {}

/// A struct with one field of each sort that matters: one that mentions
/// nothing, built-in types bare and inside an array and a slice, a type
/// beside it, a type below it, and a private field.
pub struct PlainStruct {
    pub unit_field: (),
    pub bool_field: bool,
    pub i8_array_field: [i8; 1],
    pub sibling_field: EmptyPlainStruct,
    pub child_field: nested::UnitStruct,
    _private_char_field: char,
    pub u8_slice_field: [u8],
}

/// The identifier of [`UnitStruct`] in the description.
pub const UNIT_STRUCT: Id = 1;

/// The identifier of [`EmptyPlainStruct`] in the description.
pub const EMPTY_PLAIN_STRUCT: Id = 2;

/// The identifier of [`PlainStruct`] in the description.
pub const PLAIN_STRUCT: Id = 3;

/// The identifier of [`nested::UnitStruct`] in the description.
pub const NESTED_UNIT_STRUCT: Id = 5;

/// A path of the given segments.
fn path_of(segments: &[&str]) -> (path: Vec<String>)
    ensures
        path@.len() == segments@.len(),
        forall|i: int| 0 <= i < path@.len() ==> (#[trigger] path@[i])@ == segments@[i]@,
{
    let mut path: Vec<String> = Vec::new();
    let mut i: usize = 0;
    while i < segments.len()
        invariant
            i <= segments@.len(),
            path@.len() == i,
            forall|j: int| 0 <= j < i ==> (#[trigger] path@[j])@ == segments@[j]@,
        decreases segments@.len() - i,
    {
        path.push(String::from_str(segments[i]));
        i += 1;
    }
    path
}

/// The paths that the fields of [`PlainStruct`] mention, field by field.
pub open spec fn plain_struct_children() -> Seq<PathText> {
    seq![
        primitive_path("bool"@),
        primitive_path("i8"@),
        seq!["minimal"@, "EmptyPlainStruct"@],
        seq!["minimal"@, "nested"@, "UnitStruct"@],
        primitive_path("char"@),
        primitive_path("u8"@),
    ]
}

/// Enters a struct, enum or union with its path and what it is.
fn enter(krate: &mut Crate, id: Id, segments: &[&str], item: ItemEnum)
    requires
        old(krate).wf(),
    ensures
        final(krate).wf(),
        final(krate)@.paths.dom() == old(krate)@.paths.dom().insert(id),
        final(krate)@.paths[id].kind == ItemKind::Struct,
        text(final(krate)@.paths[id].path) == segments_text(segments@),
        forall|other: Id|
            other != id && old(krate)@.paths.contains_key(other) ==> final(krate)@.paths[other]
                == old(krate)@.paths[other],
        final(krate)@.index == old(krate)@.index.insert(id, item),
{
    let path = path_of(segments);
    assert(text(path) =~= segments_text(segments@));
    krate.insert_path(id, ItemSummary { kind: ItemKind::Struct, path });
    krate.insert_item(id, item);
}

/// The description of the sample.
pub fn describe() -> (krate: Crate)
    ensures
        krate.wf(),
        krate@.parent(PLAIN_STRUCT) == Some(seq!["minimal"@, "PlainStruct"@]),
        krate@.children(PLAIN_STRUCT) == Some(plain_struct_children()),
        krate@.children(UNIT_STRUCT) == Some(Seq::<PathText>::empty()),
        krate@.children(EMPTY_PLAIN_STRUCT) == Some(Seq::<PathText>::empty()),
        krate@.children(NESTED_UNIT_STRUCT) == Some(Seq::<PathText>::empty()),
{
    let mut krate = Crate::new();
    enter(&mut krate, UNIT_STRUCT, &["minimal", "UnitStruct"], ItemEnum::Struct(StructKind::Unit));
    enter(
        &mut krate,
        EMPTY_PLAIN_STRUCT,
        &["minimal", "EmptyPlainStruct"],
        ItemEnum::Struct(StructKind::Plain(Vec::new())),
    );
    enter(
        &mut krate,
        NESTED_UNIT_STRUCT,
        &["minimal", "nested", "UnitStruct"],
        ItemEnum::Struct(StructKind::Unit),
    );
    let mut fields: Vec<Id> = Vec::new();
    fields.push(10);
    fields.push(11);
    fields.push(12);
    fields.push(13);
    fields.push(14);
    fields.push(15);
    fields.push(16);
    enter(
        &mut krate,
        PLAIN_STRUCT,
        &["minimal", "PlainStruct"],
        ItemEnum::Struct(StructKind::Plain(fields)),
    );
    let unit = Type::Tuple(Vec::new());
    let flag = Type::Primitive(String::from_str("bool"));
    let small = Type::Primitive(String::from_str("i8"));
    let ghost small_seen = small;
    let bytes = Type::Array(Box::new(small));
    let sibling = Type::ResolvedPath(EMPTY_PLAIN_STRUCT);
    let child = Type::ResolvedPath(NESTED_UNIT_STRUCT);
    let letter = Type::Primitive(String::from_str("char"));
    let byte = Type::Primitive(String::from_str("u8"));
    let ghost byte_seen = byte;
    let slice = Type::Slice(Box::new(byte));
    let ghost types = seq![unit, flag, bytes, sibling, child, letter, slice];
    krate.insert_item(10, ItemEnum::StructField(unit));
    krate.insert_item(11, ItemEnum::StructField(flag));
    krate.insert_item(12, ItemEnum::StructField(bytes));
    krate.insert_item(13, ItemEnum::StructField(sibling));
    krate.insert_item(14, ItemEnum::StructField(child));
    krate.insert_item(15, ItemEnum::StructField(letter));
    krate.insert_item(16, ItemEnum::StructField(slice));
    proof {
        let k = krate@;
        let ids = fields@;
        assert(ids =~= seq![10u32, 11u32, 12u32, 13u32, 14u32, 15u32, 16u32]);
        assert(k.index[PLAIN_STRUCT] == ItemEnum::Struct(StructKind::Plain(fields)));
        lemma_gather_singles(ids, k.named(), types);
        assert(k.field_types(PLAIN_STRUCT) == Some(types));
        assert(is_primitive("bool"@)) by {
            assert(primitive_names()[0] == "bool"@);
        }
        assert(is_primitive("i8"@)) by {
            assert(primitive_names()[4] == "i8"@);
        }
        assert(is_primitive("char"@)) by {
            assert(primitive_names()[1] == "char"@);
        }
        assert(is_primitive("u8"@)) by {
            assert(primitive_names()[10] == "u8"@);
        }
        let none = Seq::<Type>::empty();
        assert(k.resolved_each(none) == Some(Seq::<PathText>::empty()));
        assert(k.resolved(unit) == Some(Seq::<PathText>::empty()));
        assert(k.resolved(flag) == Some(seq![primitive_path("bool"@)]));
        assert(k.resolved(small_seen) == Some(seq![primitive_path("i8"@)]));
        assert(k.resolved(bytes) == Some(seq![primitive_path("i8"@)]));
        assert(text(k.paths[EMPTY_PLAIN_STRUCT].path) =~= seq!["minimal"@, "EmptyPlainStruct"@]);
        assert(text(k.paths[NESTED_UNIT_STRUCT].path) =~= seq![
            "minimal"@,
            "nested"@,
            "UnitStruct"@,
        ]);
        assert(text(k.paths[PLAIN_STRUCT].path) =~= seq!["minimal"@, "PlainStruct"@]);
        assert(k.resolved(sibling) == Some(seq![seq!["minimal"@, "EmptyPlainStruct"@]]));
        assert(k.resolved(child) == Some(seq![seq!["minimal"@, "nested"@, "UnitStruct"@]]));
        assert(k.resolved(letter) == Some(seq![primitive_path("char"@)]));
        assert(k.resolved(byte_seen) == Some(seq![primitive_path("u8"@)]));
        assert(k.resolved(slice) == Some(seq![primitive_path("u8"@)]));
        let parts = seq![
            Seq::<PathText>::empty(),
            seq![primitive_path("bool"@)],
            seq![primitive_path("i8"@)],
            seq![seq!["minimal"@, "EmptyPlainStruct"@]],
            seq![seq!["minimal"@, "nested"@, "UnitStruct"@]],
            seq![primitive_path("char"@)],
            seq![primitive_path("u8"@)],
        ];
        lemma_resolved_parts(k, types, parts);
        assert(laid_out(parts) =~= plain_struct_children()) by {
            let six = parts.drop_last();
            let five = six.drop_last();
            let four = five.drop_last();
            let three = four.drop_last();
            let two = three.drop_last();
            let one = two.drop_last();
            let zero = one.drop_last();
            assert(laid_out(zero) =~= Seq::<PathText>::empty());
            assert(laid_out(one) =~= Seq::<PathText>::empty());
            assert(laid_out(two) =~= plain_struct_children().take(1));
            assert(laid_out(three) =~= plain_struct_children().take(2));
            assert(laid_out(four) =~= plain_struct_children().take(3));
            assert(laid_out(five) =~= plain_struct_children().take(4));
            assert(laid_out(six) =~= plain_struct_children().take(5));
        }
        let all = plain_struct_children();
        assert(k.mentions(PLAIN_STRUCT) == Some(all));
        assert(all.no_duplicates()) by {
            reveal_strlit("core");
            reveal_strlit("minimal");
            reveal_strlit("bool");
            reveal_strlit("i8");
            reveal_strlit("char");
            reveal_strlit("u8");
            assert(all[2].len() == 2);
            assert(all[3][0].len() == 7);
            assert(all[0][0].len() == 4 && all[0][2].len() == 4 && all[0][2][0] == 'b');
            assert(all[1][0].len() == 4 && all[1][2].len() == 2 && all[1][2][0] == 'i');
            assert(all[4][0].len() == 4 && all[4][2].len() == 4 && all[4][2][0] == 'c');
            assert(all[5][0].len() == 4 && all[5][2].len() == 2 && all[5][2][0] == 'u');
        }
        lemma_distinct_unique(all);
        let empty = Seq::<Id>::empty();
        assert(gather(empty, k.named()) == Some(Seq::<Type>::empty()));
        assert(k.index[EMPTY_PLAIN_STRUCT]->Struct_0->Plain_0@ =~= empty);
    }
    krate
}

/// The sequences of `parts`, one after the other.
pub open spec fn laid_out(parts: Seq<Seq<PathText>>) -> Seq<PathText>
    decreases parts.len(),
{
    if parts.len() == 0 {
        Seq::empty()
    } else {
        laid_out(parts.drop_last()) + parts.last()
    }
}

/// Types that each mention what stands beside them mention, together, all
/// of it in order.
proof fn lemma_resolved_parts(krate: CrateView, types: Seq<Type>, parts: Seq<Seq<PathText>>)
    requires
        types.len() == parts.len(),
        forall|i: int| 0 <= i < types.len() ==> krate.resolved(#[trigger] types[i]) == Some(parts[i]),
    ensures
        krate.resolved_each(types) == Some(laid_out(parts)),
    decreases types.len(),
{
    if types.len() > 0 {
        lemma_resolved_parts(krate, types.drop_last(), parts.drop_last());
        assert(krate.resolved(types[types.len() - 1]) == Some(parts[parts.len() - 1]));
    }
}

/// Gathering over fields that each have a type gives those types.
proof fn lemma_gather_singles(ids: Seq<Id>, each: spec_fn(Id) -> Option<Seq<Type>>, types: Seq<Type>)
    requires
        ids.len() == types.len(),
        forall|i: int| 0 <= i < ids.len() ==> each(#[trigger] ids[i]) == Some(seq![types[i]]),
    ensures
        gather(ids, each) == Some(types),
    decreases ids.len(),
{
    if ids.len() > 0 {
        lemma_gather_singles(ids.drop_last(), each, types.drop_last());
        assert(each(ids[ids.len() - 1]) == Some(seq![types[types.len() - 1]]));
        assert(types.drop_last() + seq![types.last()] =~= types);
    } else {
        assert(types =~= Seq::<Type>::empty());
    }
}

} // verus!
