//! Structs, enums and unions, and the types that their fields mention.

use crate::model::text;
use crate::model::Crate;
use crate::model::CrateView;
use crate::model::Id;
use crate::model::ItemEnum;
use crate::model::PathText;
use crate::model::StructKind;
use crate::model::Type;
use crate::model::VariantKind;
use crate::primitive::is_primitive;
use crate::primitive::primitive_path;
use crate::seqs::distinct;
use crate::seqs::lemma_distinct;
use crate::seqs::lemma_distinct_push;
use vstd::prelude::*;
use vstd::string::StringExecFns;

verus! {

/// The path of a struct, an enum, a union or a built-in type.
#[derive(Debug, Clone, Copy, Hash, PartialEq, Eq, PartialOrd, Ord)]
pub struct StructyPath<'a>(pub &'a Vec<String>);

/// The segments of `path`, each followed by `::` but the last.
pub open spec fn joined(path: PathText) -> Seq<char>
    decreases path.len(),
{
    if path.len() == 0 {
        Seq::empty()
    } else if path.len() == 1 {
        path[0]
    } else {
        joined(path.drop_last()) + "::"@ + path.last()
    }
}

/// The text of each of `segments`.
pub open spec fn segments_text(segments: Seq<&str>) -> PathText {
    Seq::new(segments.len(), |i: int| segments[i]@)
}

impl<'a> StructyPath<'a> {
    /// The path as text.
    pub open spec fn text(self) -> PathText {
        text(*self.0)
    }

    /// Whether the path is made of exactly the given segments.
    pub fn matches(&self, segments: &[&str]) -> (b: bool)
        ensures
            b == (self.text() == segments_text(segments@)),
    {
        if self.0.len() != segments.len() {
            return false;
        }
        let mut i: usize = 0;
        while i < segments.len()
            invariant
                i <= segments@.len(),
                self.0@.len() == segments@.len(),
                forall|j: int| 0 <= j < i ==> self.0@[j]@ == segments@[j]@,
            decreases segments@.len() - i,
        {
            if self.0[i] != String::from_str(segments[i]) {
                assert(self.text()[i as int] != segments_text(segments@)[i as int]);
                return false;
            }
            i += 1;
        }
        assert(self.text() =~= segments_text(segments@));
        true
    }

    /// The path as it is written: its segments joined by `::`.
    pub fn to_string(&self) -> (s: String)
        ensures
            s@ == joined(self.text()),
    {
        let mut s = String::new();
        let mut i: usize = 0;
        while i < self.0.len()
            invariant
                i <= self.0@.len(),
                s@ == joined(self.text().take(i as int)),
            decreases self.0@.len() - i,
        {
            proof {
                let now = self.text().take(i + 1);
                assert(now.drop_last() == self.text().take(i as int));
                assert(now.last() == self.0@[i as int]@);
                if i == 1 {
                    assert(self.text().take(1).len() == 1);
                    assert(joined(self.text().take(1)) == self.text()[0]);
                }
            }
            if i > 0 {
                s.append("::");
            }
            s.append(self.0[i].as_str());
            proof {
                if i == 0 {
                    assert(joined(self.text().take(0)) == Seq::<char>::empty());
                    assert(s@ =~= self.0@[0]@);
                }
            }
            i += 1;
        }
        assert(self.text().take(self.0@.len() as int) == self.text());
        s
    }
}

/// The results of `each` for the items of `items`, one after the other:
/// nothing if `each` gives nothing for some item.
pub open spec fn gather<A, B>(items: Seq<A>, each: spec_fn(A) -> Option<Seq<B>>) -> Option<Seq<B>>
    decreases items.len(),
{
    if items.len() == 0 {
        Some(Seq::empty())
    } else {
        match (gather(items.drop_last(), each), each(items.last())) {
            (Some(head), Some(tail)) => Some(head + tail),
            _ => None,
        }
    }
}

/// Gathering up to and with item `i` is gathering up to it, and then it.
pub proof fn lemma_gather_step<A, B>(items: Seq<A>, each: spec_fn(A) -> Option<Seq<B>>, i: int)
    requires
        0 <= i < items.len(),
    ensures
        gather(items.take(i + 1), each) == match (gather(items.take(i), each), each(items[i])) {
            (Some(head), Some(tail)) => Some(head + tail),
            _ => None,
        },
        gather(items.take(i), each) is None ==> gather(items, each) is None,
        each(items[i]) is None ==> gather(items, each) is None,
    decreases items.len(),
{
    assert(items.take(i + 1).drop_last() == items.take(i));
    if i == items.len() - 1 {
        assert(items.take(i + 1) == items);
    } else {
        let init = items.drop_last();
        lemma_gather_step(init, each, i);
        assert(init.take(i) == items.take(i));
    }
}

/// What is gathered holds exactly what `each` gives for some item.
pub proof fn lemma_gather_contains<A, B>(items: Seq<A>, each: spec_fn(A) -> Option<Seq<B>>, x: B)
    requires
        gather(items, each) is Some,
    ensures
        forall|k: int| 0 <= k < items.len() ==> (#[trigger] each(items[k])) is Some,
        gather(items, each)->Some_0.contains(x) <==> exists|k: int|
            0 <= k < items.len() && (#[trigger] each(items[k]))->Some_0.contains(x),
    decreases items.len(),
{
    if items.len() > 0 {
        let init = items.drop_last();
        lemma_gather_contains(init, each, x);
        let head = gather(init, each)->Some_0;
        let tail = each(items.last())->Some_0;
        let all = gather(items, each)->Some_0;
        assert forall|k: int| 0 <= k < items.len() implies (#[trigger] each(items[k])) is Some by {
            if k < init.len() {
                assert(each(init[k]) is Some);
            }
        }
        if head.contains(x) {
            let i = choose|i: int| 0 <= i < head.len() && head[i] == x;
            assert(all[i] == x);
            let k = choose|k: int|
                0 <= k < init.len() && (#[trigger] each(init[k]))->Some_0.contains(x);
            assert(each(items[k])->Some_0.contains(x));
        }
        if tail.contains(x) {
            let i = choose|i: int| 0 <= i < tail.len() && tail[i] == x;
            assert(all[head.len() + i] == x);
            assert(each(items[items.len() - 1])->Some_0.contains(x));
        }
        if all.contains(x) {
            let i = choose|i: int| 0 <= i < all.len() && all[i] == x;
            if i < head.len() {
                assert(head[i] == x);
            } else {
                assert(tail[i - head.len()] == x);
            }
        }
        if exists|k: int|
            0 <= k < items.len() && (#[trigger] each(items[k]))->Some_0.contains(x) {
            let k = choose|k: int|
                0 <= k < items.len() && (#[trigger] each(items[k]))->Some_0.contains(x);
            if k < init.len() {
                assert(each(init[k])->Some_0.contains(x));
            }
        }
    }
}

impl CrateView {
    /// The type of the field `id`: nothing if `id` is not described, or is
    /// no field.
    pub open spec fn field_type(self, id: Id) -> Option<Type> {
        if self.index.contains_key(id) {
            match self.index[id] {
                ItemEnum::StructField(ty) => Some(ty),
                _ => None,
            }
        } else {
            None
        }
    }

    /// For a named field, its type.
    pub open spec fn named(self) -> spec_fn(Id) -> Option<Seq<Type>> {
        |id: Id|
            match self.field_type(id) {
                Some(ty) => Some(seq![ty]),
                None => None,
            }
    }

    /// For a positional field, its type; a hidden field has none to show.
    pub open spec fn positional(self) -> spec_fn(Option<Id>) -> Option<Seq<Type>> {
        |field: Option<Id>|
            match field {
                Some(id) => self.named()(id),
                None => Some(Seq::empty()),
            }
    }

    /// For a variant, the types of its fields: nothing if `id` is not
    /// described, or is no variant.
    pub open spec fn variant(self) -> spec_fn(Id) -> Option<Seq<Type>> {
        |id: Id|
            if self.index.contains_key(id) {
                match self.index[id] {
                    ItemEnum::Variant(VariantKind::Plain) => Some(Seq::empty()),
                    ItemEnum::Variant(VariantKind::Tuple(fields)) => gather(
                        fields@,
                        self.positional(),
                    ),
                    ItemEnum::Variant(VariantKind::Struct(fields)) => gather(fields@, self.named()),
                    _ => None,
                }
            } else {
                None
            }
    }

    /// The types of the fields of the struct, enum or union `id`, in the
    /// order in which they are declared, an enum's variant by variant:
    /// nothing if `id` is not described or is none of the three, or if one
    /// of its fields or variants is not what it should be.
    pub open spec fn field_types(self, id: Id) -> Option<Seq<Type>> {
        if self.index.contains_key(id) {
            match self.index[id] {
                ItemEnum::Struct(StructKind::Unit) => Some(Seq::empty()),
                ItemEnum::Struct(StructKind::Tuple(fields)) => gather(fields@, self.positional()),
                ItemEnum::Struct(StructKind::Plain(fields)) => gather(fields@, self.named()),
                ItemEnum::Enum(variants) => gather(variants@, self.variant()),
                ItemEnum::Union(fields) => gather(fields@, self.named()),
                _ => None,
            }
        } else {
            None
        }
    }

    /// The paths that the type `ty` mentions, from left to right: the path
    /// of a struct, enum or union, the path of a built-in type, and what
    /// the parts of a tuple, slice, array, pointer or reference mention.
    /// Nothing if it mentions an item without a summary, or a built-in type
    /// without a path.
    pub open spec fn resolved(self, ty: Type) -> Option<Seq<PathText>>
        decreases ty,
    {
        match ty {
            Type::ResolvedPath(id) => if self.paths.contains_key(id) {
                Some(seq![text(self.paths[id].path)])
            } else {
                None
            },
            Type::Primitive(name) => if is_primitive(name@) {
                Some(seq![primitive_path(name@)])
            } else {
                None
            },
            Type::Tuple(types) => self.resolved_each(types@),
            Type::Slice(inner) => self.resolved(*inner),
            Type::Array(inner) => self.resolved(*inner),
            Type::RawPointer(inner) => self.resolved(*inner),
            Type::BorrowedRef(inner) => self.resolved(*inner),
            _ => Some(Seq::empty()),
        }
    }

    /// The paths that the types `types` mention, one type after the other.
    pub open spec fn resolved_each(self, types: Seq<Type>) -> Option<Seq<PathText>>
        decreases types,
    {
        if types.len() == 0 {
            Some(Seq::empty())
        } else {
            match (self.resolved_each(types.drop_last()), self.resolved(types.last())) {
                (Some(head), Some(tail)) => Some(head + tail),
                _ => None,
            }
        }
    }

    /// The path of `id` as a parent: nothing unless `id` has a summary and
    /// is a struct, an enum or a union.
    pub open spec fn parent(self, id: Id) -> Option<PathText> {
        if self.paths.contains_key(id) && self.paths[id].kind.structy() {
            Some(text(self.paths[id].path))
        } else {
            None
        }
    }

    /// The paths that the fields of `id` mention, field by field, a path as
    /// often as it is mentioned. An item that is not described mentions
    /// nothing; one that is described amiss gives nothing.
    pub open spec fn mentions(self, id: Id) -> Option<Seq<PathText>> {
        if self.index.contains_key(id) {
            match self.field_types(id) {
                Some(types) => self.resolved_each(types),
                None => None,
            }
        } else {
            Some(Seq::empty())
        }
    }

    /// The children of `id`: the paths that its fields mention, each once,
    /// in the order in which they are first mentioned.
    pub open spec fn children(self, id: Id) -> Option<Seq<PathText>> {
        match self.mentions(id) {
            Some(mentioned) => Some(distinct(mentioned)),
            None => None,
        }
    }
}

/// The types behind the references of `found`.
pub open spec fn types_of<'a>(found: Seq<&'a Type>) -> Seq<Type> {
    Seq::new(found.len(), |i: int| *found[i])
}

/// The text of each path of `found`.
pub open spec fn texts_of<'a>(found: Seq<StructyPath<'a>>) -> Seq<PathText> {
    Seq::new(found.len(), |i: int| found[i].text())
}

/// The text of each path of `found`.
pub open spec fn path_texts<'a>(found: Seq<&'a Vec<String>>) -> Seq<PathText> {
    Seq::new(found.len(), |i: int| text(*found[i]))
}

/// The type of the field `id`: nothing if `id` is not described, or is no
/// field.
pub fn struct_field<'a>(krate: &'a Crate, id: Id) -> (r: Option<&'a Type>)
    ensures
        match r {
            Some(ty) => krate@.field_type(id) == Some(*ty),
            None => krate@.field_type(id) is None,
        },
{
    match krate.item(id) {
        Some(ItemEnum::StructField(ty)) => Some(ty),
        _ => None,
    }
}

/// The type of the field `id`.
pub fn unwrap_struct_field<'a>(krate: &'a Crate, id: Id) -> (ty: &'a Type)
    requires
        krate@.field_type(id) is Some,
    ensures
        krate@.field_type(id) == Some(*ty),
{
    struct_field(krate, id).unwrap()
}

/// Adds the types of the named fields `fields` to `out`, and says whether
/// each of them is a field.
fn named_fields<'a>(krate: &'a Crate, fields: &Vec<Id>, out: &mut Vec<&'a Type>) -> (ok: bool)
    ensures
        ok == gather(fields@, krate@.named()) is Some,
        ok ==> types_of(final(out)@) == types_of(old(out)@) + gather(
            fields@,
            krate@.named(),
        )->Some_0,
{
    let ghost each = krate@.named();
    let mut i: usize = 0;
    assert(types_of(out@) =~= types_of(old(out)@) + Seq::<Type>::empty());
    while i < fields.len()
        invariant
            i <= fields@.len(),
            each == krate@.named(),
            gather(fields@.take(i as int), each) is Some,
            types_of(out@) == types_of(old(out)@) + gather(fields@.take(i as int), each)->Some_0,
        decreases fields@.len() - i,
    {
        proof {
            lemma_gather_step(fields@, each, i as int);
        }
        match struct_field(krate, fields[i]) {
            Some(ty) => {
                let ghost before = types_of(out@);
                out.push(ty);
                assert(each(fields@[i as int]) == Some(seq![*ty]));
                assert(types_of(out@) =~= before + seq![*ty]);
                assert(types_of(out@) =~= types_of(old(out)@) + gather(
                    fields@.take(i + 1),
                    each,
                )->Some_0);
            },
            None => {
                return false;
            },
        }
        i += 1;
    }
    assert(fields@.take(fields@.len() as int) == fields@);
    true
}

/// Adds the types of the positional fields `fields` that are shown to
/// `out`, and says whether each of them is a field.
fn positional_fields<'a>(krate: &'a Crate, fields: &Vec<Option<Id>>, out: &mut Vec<&'a Type>) -> (ok:
    bool)
    ensures
        ok == gather(fields@, krate@.positional()) is Some,
        ok ==> types_of(final(out)@) == types_of(old(out)@) + gather(
            fields@,
            krate@.positional(),
        )->Some_0,
{
    let ghost each = krate@.positional();
    let mut i: usize = 0;
    assert(types_of(out@) =~= types_of(old(out)@) + Seq::<Type>::empty());
    while i < fields.len()
        invariant
            i <= fields@.len(),
            each == krate@.positional(),
            gather(fields@.take(i as int), each) is Some,
            types_of(out@) == types_of(old(out)@) + gather(fields@.take(i as int), each)->Some_0,
        decreases fields@.len() - i,
    {
        proof {
            lemma_gather_step(fields@, each, i as int);
        }
        let ghost before = types_of(out@);
        if let Some(id) = fields[i] {
            assert(each(fields@[i as int]) == krate@.named()(id));
            match struct_field(krate, id) {
                Some(ty) => {
                    out.push(ty);
                    assert(each(fields@[i as int]) == Some(seq![*ty]));
                    assert(types_of(out@) =~= before + seq![*ty]);
                },
                None => {
                    return false;
                },
            }
        } else {
            assert(each(fields@[i as int]) == Some(Seq::<Type>::empty()));
            assert(types_of(out@) =~= before + Seq::<Type>::empty());
        }
        assert(types_of(out@) =~= types_of(old(out)@) + gather(fields@.take(i + 1), each)->Some_0);
        i += 1;
    }
    assert(fields@.take(fields@.len() as int) == fields@);
    true
}

/// Adds the types of the fields of the variant `id` to `out`, and says
/// whether `id` is a variant with proper fields.
fn variant_fields<'a>(krate: &'a Crate, id: Id, out: &mut Vec<&'a Type>) -> (ok: bool)
    ensures
        ok == krate@.variant()(id) is Some,
        ok ==> types_of(final(out)@) == types_of(old(out)@) + krate@.variant()(id)->Some_0,
{
    match krate.item(id) {
        Some(ItemEnum::Variant(kind)) => match kind {
            VariantKind::Plain => {
                assert(types_of(out@) =~= types_of(old(out)@) + Seq::<Type>::empty());
                true
            },
            VariantKind::Tuple(fields) => positional_fields(krate, fields, out),
            VariantKind::Struct(fields) => named_fields(krate, fields, out),
        },
        _ => false,
    }
}

/// The types of the fields of the struct, enum or union `id`, in the order
/// in which they are declared: nothing if `id` is not described or is none
/// of the three, or if one of its fields or variants is not what it should
/// be.
pub fn field_types<'a>(krate: &'a Crate, id: Id) -> (r: Option<Vec<&'a Type>>)
    ensures
        match r {
            Some(found) => krate@.field_types(id) == Some(types_of(found@)),
            None => krate@.field_types(id) is None,
        },
{
    let mut out: Vec<&'a Type> = Vec::new();
    assert(types_of(out@) =~= Seq::<Type>::empty());
    let ok = match krate.item(id) {
        Some(ItemEnum::Struct(kind)) => match kind {
            StructKind::Unit => true,
            StructKind::Tuple(fields) => positional_fields(krate, fields, &mut out),
            StructKind::Plain(fields) => named_fields(krate, fields, &mut out),
        },
        Some(ItemEnum::Enum(variants)) => {
            let ghost each = krate@.variant();
            let mut all = true;
            let mut i: usize = 0;
            while all && i < variants.len()
                invariant
                    i <= variants@.len(),
                    each == krate@.variant(),
                    !all ==> gather(variants@, each) is None,
                    all ==> gather(variants@.take(i as int), each) is Some,
                    all ==> types_of(out@) == gather(variants@.take(i as int), each)->Some_0,
                decreases variants@.len() - i + if all { 1int } else { 0int },
            {
                proof {
                    lemma_gather_step(variants@, each, i as int);
                }
                if variant_fields(krate, variants[i], &mut out) {
                    i += 1;
                } else {
                    all = false;
                }
            }
            assert(variants@.take(variants@.len() as int) == variants@);
            all
        },
        Some(ItemEnum::Union(fields)) => named_fields(krate, fields, &mut out),
        _ => false,
    };
    if ok {
        assert(types_of(out@) =~= Seq::<Type>::empty() + types_of(out@));
        Some(out)
    } else {
        None
    }
}

/// Adds the paths that the type `ty` mentions to `out`, and says whether
/// each of them could be found.
fn resolve_into<'a>(krate: &'a Crate, ty: &Type, out: &mut Vec<StructyPath<'a>>) -> (ok: bool)
    requires
        krate.wf(),
    ensures
        ok == krate@.resolved(*ty) is Some,
        ok ==> texts_of(final(out)@) == texts_of(old(out)@) + krate@.resolved(*ty)->Some_0,
    decreases ty,
{
    match ty {
        Type::ResolvedPath(id) => match krate.summary(*id) {
            Some(summary) => {
                out.push(StructyPath(&summary.path));
                assert(texts_of(out@) =~= texts_of(old(out)@) + seq![text(summary.path)]);
                true
            },
            None => false,
        },
        Type::Primitive(name) => match krate.primitives().get(name) {
            Some(path) => {
                out.push(StructyPath(path));
                assert(texts_of(out@) =~= texts_of(old(out)@) + seq![primitive_path(name@)]);
                true
            },
            None => false,
        },
        Type::Tuple(types) => {
            let mut i: usize = 0;
            assert(texts_of(out@) =~= texts_of(old(out)@) + Seq::<PathText>::empty());
            assert(types@.take(0) =~= Seq::<Type>::empty());
            while i < types.len()
                invariant
                    krate.wf(),
                    i <= types@.len(),
                    *ty == Type::Tuple(*types),
                    krate@.resolved_each(types@.take(i as int)) is Some,
                    texts_of(out@) == texts_of(old(out)@) + krate@.resolved_each(
                        types@.take(i as int),
                    )->Some_0,
                decreases types@.len() - i,
            {
                proof {
                    lemma_resolved_step(krate@, types@, i as int);
                }
                if !resolve_into(krate, &types[i], out) {
                    return false;
                }
                i += 1;
            }
            assert(types@.take(types@.len() as int) == types@);
            true
        },
        Type::Slice(inner) => resolve_into(krate, inner, out),
        Type::Array(inner) => resolve_into(krate, inner, out),
        Type::RawPointer(inner) => resolve_into(krate, inner, out),
        Type::BorrowedRef(inner) => resolve_into(krate, inner, out),
        _ => {
            assert(texts_of(out@) =~= texts_of(old(out)@) + Seq::<PathText>::empty());
            true
        },
    }
}

/// What the types up to and with type `i` mention is what the types up to
/// it mention, and then what it mentions.
pub proof fn lemma_resolved_step(krate: CrateView, types: Seq<Type>, i: int)
    requires
        0 <= i < types.len(),
    ensures
        krate.resolved_each(types.take(i + 1)) == match (
            krate.resolved_each(types.take(i)),
            krate.resolved(types[i]),
        ) {
            (Some(head), Some(tail)) => Some(head + tail),
            _ => None,
        },
        krate.resolved_each(types.take(i)) is None ==> krate.resolved_each(types) is None,
        krate.resolved(types[i]) is None ==> krate.resolved_each(types) is None,
    decreases types.len(),
{
    assert(types.take(i + 1).drop_last() == types.take(i));
    if i == types.len() - 1 {
        assert(types.take(i + 1) == types);
    } else {
        let init = types.drop_last();
        lemma_resolved_step(krate, init, i);
        assert(init.take(i) == types.take(i));
    }
}

/// The paths that the type `ty` mentions, from left to right: nothing if it
/// mentions an item without a summary, or a built-in type without a path.
pub fn resolved_paths<'a>(krate: &'a Crate, ty: &Type) -> (r: Option<Vec<StructyPath<'a>>>)
    requires
        krate.wf(),
    ensures
        match r {
            Some(found) => krate@.resolved(*ty) == Some(texts_of(found@)),
            None => krate@.resolved(*ty) is None,
        },
{
    let mut out: Vec<StructyPath<'a>> = Vec::new();
    assert(texts_of(out@) =~= Seq::<PathText>::empty());
    if resolve_into(krate, ty, &mut out) {
        assert(texts_of(out@) =~= Seq::<PathText>::empty() + texts_of(out@));
        Some(out)
    } else {
        None
    }
}

/// The paths that the type `ty` mentions, from left to right.
pub fn get_resolved_paths<'a>(krate: &'a Crate, ty: &Type) -> (found: Vec<StructyPath<'a>>)
    requires
        krate.wf(),
        krate@.resolved(*ty) is Some,
    ensures
        krate@.resolved(*ty) == Some(texts_of(found@)),
{
    resolved_paths(krate, ty).unwrap()
}

/// The paths that the fields of `id` mention, field by field, a path as
/// often as it is mentioned: none for an item that is not described,
/// nothing for one that is no struct, enum or union, or whose fields
/// mention something that cannot be found.
pub fn mentions<'a>(krate: &'a Crate, id: Id) -> (r: Option<Vec<StructyPath<'a>>>)
    requires
        krate.wf(),
    ensures
        match r {
            Some(found) => krate@.mentions(id) == Some(texts_of(found@)),
            None => krate@.mentions(id) is None,
        },
{
    let mut found: Vec<StructyPath<'a>> = Vec::new();
    assert(texts_of(found@) =~= Seq::<PathText>::empty());
    if krate.item(id).is_none() {
        return Some(found);
    }
    let types = match field_types(krate, id) {
        Some(types) => types,
        None => {
            return None;
        },
    };
    let mut i: usize = 0;
    assert(types_of(types@).take(0) =~= Seq::<Type>::empty());
    while i < types.len()
        invariant
            krate.wf(),
            i <= types@.len(),
            krate@.index.contains_key(id),
            krate@.field_types(id) == Some(types_of(types@)),
            krate@.resolved_each(types_of(types@).take(i as int)) == Some(texts_of(found@)),
        decreases types@.len() - i,
    {
        proof {
            lemma_resolved_step(krate@, types_of(types@), i as int);
        }
        assert(types_of(types@)[i as int] == *types@[i as int]);
        if !resolve_into(krate, types[i], &mut found) {
            return None;
        }
        i += 1;
    }
    assert(types_of(types@).take(types@.len() as int) == types_of(types@));
    Some(found)
}

/// Whether two paths read the same.
pub fn same_text(a: &Vec<String>, b: &Vec<String>) -> (same: bool)
    ensures
        same == (text(*a) == text(*b)),
{
    if a.len() != b.len() {
        assert(text(*a).len() != text(*b).len());
        return false;
    }
    let mut i: usize = 0;
    while i < a.len()
        invariant
            i <= a@.len(),
            a@.len() == b@.len(),
            forall|j: int| 0 <= j < i ==> a@[j]@ == b@[j]@,
        decreases a@.len() - i,
    {
        if a[i] != b[i] {
            assert(text(*a)[i as int] != text(*b)[i as int]);
            return false;
        }
        i += 1;
    }
    assert(text(*a) =~= text(*b));
    true
}

/// The position of `path` among `nodes`, where it is entered as the last if
/// no path among them reads the same.
pub fn intern<'a>(nodes: &mut Vec<StructyPath<'a>>, path: StructyPath<'a>) -> (at: usize)
    requires
        texts_of(old(nodes)@).no_duplicates(),
    ensures
        texts_of(final(nodes)@).no_duplicates(),
        at < final(nodes)@.len(),
        texts_of(final(nodes)@)[at as int] == path.text(),
        texts_of(final(nodes)@) == if texts_of(old(nodes)@).contains(path.text()) {
            texts_of(old(nodes)@)
        } else {
            texts_of(old(nodes)@).push(path.text())
        },
        at < old(nodes)@.len() <==> texts_of(old(nodes)@).contains(path.text()),
{
    let mut i: usize = 0;
    while i < nodes.len()
        invariant
            i <= nodes@.len(),
            nodes@ == old(nodes)@,
            texts_of(old(nodes)@).no_duplicates(),
            forall|j: int| 0 <= j < i ==> texts_of(nodes@)[j] != path.text(),
        decreases nodes@.len() - i,
    {
        if same_text(nodes[i].0, path.0) {
            assert(texts_of(nodes@)[i as int] == path.text());
            assert(texts_of(nodes@).contains(path.text()));
            return i;
        }
        i += 1;
    }
    nodes.push(path);
    proof {
        let before = texts_of(old(nodes)@);
        let after = texts_of(nodes@);
        assert(after =~= before.push(path.text()));
        assert(!before.contains(path.text())) by {
            if before.contains(path.text()) {
                let j = choose|j: int| 0 <= j < before.len() && before[j] == path.text();
                assert(texts_of(old(nodes)@)[j] != path.text());
            }
        }
        assert forall|x: int, y: int|
            0 <= x < after.len() && 0 <= y < after.len() && x != y implies after[x] != after[y] by {
            if x < before.len() && y < before.len() {
                assert(before[x] != before[y]);
            } else if x < before.len() {
                assert(before[x] == after[x]);
                assert(before.contains(after[x]));
            } else {
                assert(before[y] == after[y]);
                assert(before.contains(after[y]));
            }
        }
    }
    i
}

/// The children of `id`: the paths that its fields mention, each once, in
/// the order in which they are first mentioned. None for an item that is
/// not described; nothing for one that is no struct, enum or union, or
/// whose fields mention something that cannot be found.
pub fn children<'a>(krate: &'a Crate, id: Id) -> (r: Option<Vec<StructyPath<'a>>>)
    requires
        krate.wf(),
    ensures
        match r {
            Some(found) => krate@.children(id) == Some(texts_of(found@)),
            None => krate@.children(id) is None,
        },
{
    let mentioned = match mentions(krate, id) {
        Some(mentioned) => mentioned,
        None => {
            return None;
        },
    };
    let ghost all = texts_of(mentioned@);
    let mut found: Vec<StructyPath<'a>> = Vec::new();
    let mut i: usize = 0;
    proof {
        assert(texts_of(found@) =~= Seq::<PathText>::empty());
        assert(all.take(0) =~= Seq::<PathText>::empty());
    }
    while i < mentioned.len()
        invariant
            i <= mentioned@.len(),
            all == texts_of(mentioned@),
            texts_of(found@) == distinct(all.take(i as int)),
        decreases mentioned@.len() - i,
    {
        proof {
            lemma_distinct(all.take(i as int));
            assert(all.take(i + 1) == all.take(i as int).push(all[i as int]));
            lemma_distinct_push(all.take(i as int), all[i as int]);
        }
        intern(&mut found, mentioned[i]);
        i += 1;
    }
    assert(all.take(mentioned@.len() as int) == all);
    Some(found)
}

/// The path of the struct, enum or union `id`, and its children: the paths
/// that its fields mention, each once, in the order in which they are first
/// mentioned. Nothing if `id` has no summary or is no such item, or if
/// something that its fields mention cannot be found.
pub fn parent_and_children<'a>(krate: &'a Crate, id: Id) -> (r: Option<
    (&'a Vec<String>, Vec<&'a Vec<String>>),
>)
    requires
        krate.wf(),
    ensures
        match r {
            Some((parent, children)) => krate@.parent(id) == Some(text(*parent))
                && krate@.children(id) == Some(path_texts(children@)),
            None => krate@.parent(id) is None || krate@.children(id) is None,
        },
{
    let parent = match krate.summary(id) {
        Some(summary) => {
            if !summary.kind.is_structy() {
                return None;
            }
            &summary.path
        },
        None => {
            return None;
        },
    };
    let found = match children(krate, id) {
        Some(found) => found,
        None => {
            return None;
        },
    };
    let mut paths: Vec<&'a Vec<String>> = Vec::new();
    let mut k: usize = 0;
    while k < found.len()
        invariant
            k <= found@.len(),
            paths@.len() == k,
            forall|j: int| 0 <= j < k ==> text(*#[trigger] paths@[j]) == found@[j].text(),
        decreases found@.len() - k,
    {
        paths.push(found[k].0);
        k += 1;
    }
    assert(path_texts(paths@) =~= texts_of(found@));
    Some((parent, paths))
}

/// The path of the struct, enum or union `id`, and its children: the paths
/// that its fields mention, each once, in the order in which they are first
/// mentioned. An item that has a summary and is not described has no
/// children.
pub fn struct_parent_and_children<'a>(krate: &'a Crate, id: Id) -> (r: (
    &'a Vec<String>,
    Vec<&'a Vec<String>>,
))
    requires
        krate.wf(),
        krate@.parent(id) is Some,
        krate@.children(id) is Some,
    ensures
        krate@.parent(id) == Some(text(*r.0)),
        krate@.children(id) == Some(path_texts(r.1@)),
{
    parent_and_children(krate, id).unwrap()
}

/// Why no struct, enum or union was found at a path.
#[derive(Debug, Clone, Copy, PartialEq, Eq, Structural)]
pub enum LocateError {
    /// No item has the path.
    NotFound,
    /// The first item with the path is no struct, enum or union.
    NotStructy,
}

impl CrateView {
    /// The position, in the order of the summaries, of the first item whose
    /// path reads `needle`, if there is one.
    pub open spec fn first_at(self, needle: PathText) -> Option<int> {
        if exists|k: int| self.leads(k, needle) {
            Some(choose|k: int| self.leads(k, needle) && forall|j: int| 0 <= j < k ==> !self.leads(j, needle))
        } else {
            None
        }
    }

    /// Whether the item at position `k` has the path `needle`.
    pub open spec fn leads(self, k: int, needle: PathText) -> bool {
        0 <= k < self.order.len() && self.paths.contains_key(self.order[k]) && text(
            self.paths[self.order[k]].path,
        ) == needle
    }

    /// The struct, enum or union at the path `needle`: the first item with
    /// that path, if it is one of the three.
    pub open spec fn locate(self, needle: PathText) -> Result<Id, LocateError> {
        match self.first_at(needle) {
            Some(k) => if self.paths[self.order[k]].kind.structy() {
                Ok(self.order[k])
            } else {
                Err(LocateError::NotStructy)
            },
            None => Err(LocateError::NotFound),
        }
    }
}

/// The struct, enum or union at the path `needle`: the first item with that
/// path in the order of the summaries, if it is one of the three.
pub fn locate(krate: &Crate, needle: &[&str]) -> (r: Result<Id, LocateError>)
    requires
        krate.wf(),
    ensures
        r == krate@.locate(segments_text(needle@)),
{
    let ghost wanted = segments_text(needle@);
    let mut k: usize = 0;
    while k < krate.path_count()
        invariant
            krate.wf(),
            k <= krate@.order.len(),
            wanted == segments_text(needle@),
            forall|j: int| 0 <= j < k ==> !krate@.leads(j, wanted),
        decreases krate@.order.len() - k,
    {
        if let Some(id) = krate.path_id(k) {
            if let Some(summary) = krate.summary(id) {
                if StructyPath(&summary.path).matches(needle) {
                    proof {
                        assert(krate@.leads(k as int, wanted));
                        let first = krate@.first_at(wanted)->Some_0;
                        assert(krate@.leads(first, wanted) && forall|j: int|
                            0 <= j < first ==> !krate@.leads(j, wanted));
                        assert(first == k);
                    }
                    return if summary.kind.is_structy() {
                        Ok(id)
                    } else {
                        Err(LocateError::NotStructy)
                    };
                }
            }
        }
        k += 1;
    }
    Err(LocateError::NotFound)
}

} // verus!
