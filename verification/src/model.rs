//! A plain description of the items of a crate: what kind each item is,
//! where it lives, which fields it has, and of which type each field is.

use crate::primitive::Primitives;
use std::collections::HashMap;
use vstd::prelude::*;

verus! {

/// The identifier of an item within one description.
pub type Id = u32;

/// A path as text: the view of each of its segments.
pub type PathText = Seq<Seq<char>>;

/// The text of a path.
pub open spec fn text(path: Vec<String>) -> PathText {
    Seq::new(path@.len(), |i: int| path@[i]@)
}

/// What sort of item a path leads to.
#[derive(Debug, Clone, Copy, PartialEq, Eq, Structural)]
pub enum ItemKind {
    /// A `struct`.
    Struct,
    /// An `enum`.
    Enum,
    /// A `union`.
    Union,
    /// Any other item.
    Other,
}

impl ItemKind {
    /// Whether items of this kind have fields: structs, enums and unions.
    pub open spec fn structy(self) -> bool {
        self is Struct || self is Enum || self is Union
    }

    /// Whether items of this kind have fields: structs, enums and unions.
    pub fn is_structy(&self) -> (b: bool)
        ensures
            b == self.structy(),
    {
        match self {
            ItemKind::Struct | ItemKind::Enum | ItemKind::Union => true,
            ItemKind::Other => false,
        }
    }
}

/// Where an item lives, and of which kind it is.
#[derive(Debug, Clone, PartialEq, Eq)]
pub struct ItemSummary {
    /// The kind of the item.
    pub kind: ItemKind,
    /// The path of the item, from its crate's name down to its own.
    pub path: Vec<String>,
}

/// The type of a field.
#[derive(Debug, PartialEq, Eq)]
pub enum Type {
    /// A struct, enum or union, by the identifier of its item.
    ResolvedPath(Id),
    /// A trait object.
    DynTrait,
    /// A type parameter.
    Generic,
    /// A built-in type, by its name.
    Primitive(String),
    /// A function pointer.
    FunctionPointer,
    /// A tuple of types.
    Tuple(Vec<Type>),
    /// A slice of a type.
    Slice(Box<Type>),
    /// An array of a type.
    Array(Box<Type>),
    /// An opaque type that implements some traits.
    ImplTrait,
    /// A type left to be inferred.
    Infer,
    /// A raw pointer to a type.
    RawPointer(Box<Type>),
    /// A reference to a type.
    BorrowedRef(Box<Type>),
    /// An associated type of a trait.
    QualifiedPath,
}

/// The shape of a struct.
#[derive(Debug, Clone, PartialEq, Eq)]
pub enum StructKind {
    /// A struct without fields, written without brackets.
    Unit,
    /// A struct with positional fields; a field that is hidden holds `None`.
    Tuple(Vec<Option<Id>>),
    /// A struct with named fields.
    Plain(Vec<Id>),
}

/// The shape of a variant of an enum.
#[derive(Debug, Clone, PartialEq, Eq)]
pub enum VariantKind {
    /// A variant without fields.
    Plain,
    /// A variant with positional fields; a field that is hidden holds
    /// `None`.
    Tuple(Vec<Option<Id>>),
    /// A variant with named fields.
    Struct(Vec<Id>),
}

/// What an item is, as far as its fields go.
#[derive(Debug, PartialEq, Eq)]
pub enum ItemEnum {
    /// A struct of the given shape.
    Struct(StructKind),
    /// An enum with the given variants.
    Enum(Vec<Id>),
    /// A union with the given fields.
    Union(Vec<Id>),
    /// A variant of the given shape.
    Variant(VariantKind),
    /// A field of the given type.
    StructField(Type),
    /// Any other item.
    Other,
}

/// The mathematical content of a [`Crate`].
pub struct CrateView {
    /// The identifiers that have a summary, in the order in which they
    /// were first given one.
    pub order: Seq<Id>,
    /// The summary of each item that has a path.
    pub paths: Map<Id, ItemSummary>,
    /// What each described item is.
    pub index: Map<Id, ItemEnum>,
}

/// The description of a crate: the summaries of the items that have a path,
/// and the items themselves. It carries the table of the built-in types, so
/// that their paths live as long as the description does.
pub struct Crate {
    order: Vec<Id>,
    paths: HashMap<Id, ItemSummary>,
    index: HashMap<Id, ItemEnum>,
    primitives: Primitives,
}

impl View for Crate {
    type V = CrateView;

    closed spec fn view(&self) -> CrateView {
        CrateView { order: self.order@, paths: self.paths@, index: self.index@ }
    }
}

impl CrateView {
    /// The invariant of a description: the order lists exactly the
    /// identifiers that have a summary, each once.
    pub open spec fn wf(self) -> bool {
        &&& self.order.no_duplicates()
        &&& forall|id: Id| self.order.contains(id) <==> self.paths.contains_key(id)
    }
}

impl Crate {
    /// The invariant of a description: its content is well formed, and its
    /// table of built-in types is complete.
    pub closed spec fn wf(&self) -> bool {
        self@.wf() && self.primitives.wf()
    }

    /// A well-formed description has well-formed content.
    pub proof fn lemma_wf(&self)
        requires
            self.wf(),
        ensures
            self@.wf(),
    {
    }

    /// An empty description.
    pub fn new() -> (krate: Self)
        ensures
            krate.wf(),
            krate@.order == Seq::<Id>::empty(),
            krate@.paths == Map::<Id, ItemSummary>::empty(),
            krate@.index == Map::<Id, ItemEnum>::empty(),
    {
        Crate {
            order: Vec::new(),
            paths: HashMap::new(),
            index: HashMap::new(),
            primitives: Primitives::new(),
        }
    }

    /// Gives the item `id` the summary `summary`, in place of the one it
    /// had, if any.
    pub fn insert_path(&mut self, id: Id, summary: ItemSummary)
        requires
            old(self).wf(),
        ensures
            final(self).wf(),
            final(self)@.paths == old(self)@.paths.insert(id, summary),
            final(self)@.index == old(self)@.index,
            final(self)@.order == if old(self)@.paths.contains_key(id) {
                old(self)@.order
            } else {
                old(self)@.order.push(id)
            },
    {
        broadcast use vstd::std_specs::hash::group_hash_axioms;

        if !self.paths.contains_key(&id) {
            assert(!old(self)@.order.contains(id));
            self.order.push(id);
            assert(self.order@[self.order@.len() - 1] == id);
        }
        self.paths.insert(id, summary);
        proof {
            assert forall|other: Id| self@.order.contains(other) <==> self@.paths.contains_key(
                other,
            ) by {
                if old(self)@.order.contains(other) {
                    let i = choose|i: int|
                        0 <= i < old(self)@.order.len() && old(self)@.order[i] == other;
                    assert(self@.order[i] == other);
                }
                if self@.order.contains(other) && other != id {
                    let i = choose|i: int| 0 <= i < self@.order.len() && self@.order[i] == other;
                    assert(old(self)@.order[i] == other);
                }
                if other == id && old(self)@.paths.contains_key(id) {
                    assert(old(self)@.order.contains(id));
                }
            }
        }
    }

    /// Describes the item `id` as `item`, in place of what it was described
    /// as, if anything.
    pub fn insert_item(&mut self, id: Id, item: ItemEnum)
        requires
            old(self).wf(),
        ensures
            final(self).wf(),
            final(self)@.paths == old(self)@.paths,
            final(self)@.order == old(self)@.order,
            final(self)@.index == old(self)@.index.insert(id, item),
    {
        broadcast use vstd::std_specs::hash::group_hash_axioms;

        self.index.insert(id, item);
    }

    /// The summary of the item `id`, if it has one.
    pub fn summary(&self, id: Id) -> (r: Option<&ItemSummary>)
        ensures
            match r {
                Some(summary) => self@.paths.contains_key(id) && self@.paths[id] == *summary,
                None => !self@.paths.contains_key(id),
            },
    {
        broadcast use vstd::std_specs::hash::group_hash_axioms;

        self.paths.get(&id)
    }

    /// What the item `id` is, if it is described.
    pub fn item(&self, id: Id) -> (r: Option<&ItemEnum>)
        ensures
            match r {
                Some(item) => self@.index.contains_key(id) && self@.index[id] == *item,
                None => !self@.index.contains_key(id),
            },
    {
        broadcast use vstd::std_specs::hash::group_hash_axioms;

        self.index.get(&id)
    }

    /// The table of the built-in types.
    pub fn primitives(&self) -> (table: &Primitives)
        requires
            self.wf(),
        ensures
            table.wf(),
    {
        &self.primitives
    }

    /// How many items have a summary.
    pub fn path_count(&self) -> (n: usize)
        ensures
            n == self@.order.len(),
    {
        self.order.len()
    }

    /// The identifier that was given a summary as the `k`-th, if there are
    /// that many.
    pub fn path_id(&self, k: usize) -> (r: Option<Id>)
        ensures
            r == if k < self@.order.len() {
                Some(self@.order[k as int])
            } else {
                None
            },
    {
        if k < self.order.len() {
            Some(self.order[k])
        } else {
            None
        }
    }
}

impl Default for Crate {
    fn default() -> (krate: Self)
        ensures
            krate.wf(),
            krate@.order == Seq::<Id>::empty(),
            krate@.paths == Map::<Id, ItemSummary>::empty(),
            krate@.index == Map::<Id, ItemEnum>::empty(),
    {
        Crate::new()
    }
}

} // verus!
