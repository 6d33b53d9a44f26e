//! The paths under which the built-in types are known.

use crate::model::text;
use crate::model::PathText;
use vstd::prelude::*;
use vstd::string::StringExecFns;

verus! {

/// The names of the built-in types that have a path.
pub open spec fn primitive_names() -> Seq<Seq<char>> {
    seq![
        "bool"@,
        "char"@,
        "f32"@,
        "f64"@,
        "i8"@,
        "i16"@,
        "i32"@,
        "i64"@,
        "i128"@,
        "isize"@,
        "u8"@,
        "u16"@,
        "u32"@,
        "u64"@,
        "u128"@,
        "usize"@,
    ]
}

/// Whether `name` is the name of a built-in type that has a path.
pub open spec fn is_primitive(name: Seq<char>) -> bool {
    primitive_names().contains(name)
}

/// The path of the built-in type `name`: `core::primitive::` and the name.
pub open spec fn primitive_path(name: Seq<char>) -> PathText {
    seq!["core"@, "primitive"@, name]
}

/// The table of the built-in types: for each name its path, made once and
/// read from then on.
pub struct Primitives {
    names: Vec<String>,
    paths: Vec<Vec<String>>,
}

impl Primitives {
    /// The names in the table, in the order in which they were entered.
    pub closed spec fn names(&self) -> Seq<Seq<char>> {
        Seq::new(self.names@.len(), |i: int| self.names@[i]@)
    }

    /// The invariant of the table while it is filled: beside each name
    /// stands its path.
    pub closed spec fn paired(&self) -> bool {
        &&& self.names@.len() == self.paths@.len()
        &&& forall|i: int|
            0 <= i < self.paths@.len() ==> text(#[trigger] self.paths@[i]) == primitive_path(
                self.names@[i]@,
            )
    }

    /// The invariant of the finished table: it holds exactly the built-in
    /// types, each with its path.
    pub open spec fn wf(&self) -> bool {
        self.paired() && self.names() == primitive_names()
    }

    fn intern(&mut self, name: &str)
        requires
            old(self).paired(),
        ensures
            final(self).paired(),
            final(self).names() == old(self).names().push(name@),
    {
        let mut path: Vec<String> = Vec::new();
        path.push(String::from_str("core"));
        path.push(String::from_str("primitive"));
        path.push(String::from_str(name));
        assert(text(path) =~= primitive_path(name@));
        self.names.push(String::from_str(name));
        self.paths.push(path);
        assert(self.names() =~= old(self).names().push(name@));
    }

    /// The table of the built-in types.
    pub fn new() -> (table: Self)
        ensures
            table.wf(),
    {
        let mut table = Primitives { names: Vec::new(), paths: Vec::new() };
        assert(table.names() =~= Seq::<Seq<char>>::empty());
        table.intern("bool");
        table.intern("char");
        table.intern("f32");
        table.intern("f64");
        table.intern("i8");
        table.intern("i16");
        table.intern("i32");
        table.intern("i64");
        table.intern("i128");
        table.intern("isize");
        table.intern("u8");
        table.intern("u16");
        table.intern("u32");
        table.intern("u64");
        table.intern("u128");
        table.intern("usize");
        assert(table.names() =~= primitive_names());
        table
    }

    /// The path of the built-in type `name`, if it is one that has a path.
    pub fn get(&self, name: &String) -> (r: Option<&Vec<String>>)
        requires
            self.wf(),
        ensures
            match r {
                Some(path) => is_primitive(name@) && text(*path) == primitive_path(name@),
                None => !is_primitive(name@),
            },
    {
        let mut i: usize = 0;
        while i < self.names.len()
            invariant
                self.wf(),
                i <= self.names@.len(),
                forall|j: int| 0 <= j < i ==> self.names()[j] != name@,
            decreases self.names@.len() - i,
        {
            if self.names[i] == *name {
                assert(self.names()[i as int] == name@);
                return Some(&self.paths[i]);
            }
            i += 1;
        }
        proof {
            if is_primitive(name@) {
                let j = choose|j: int|
                    0 <= j < primitive_names().len() && primitive_names()[j] == name@;
                assert(self.names()[j] != name@);
            }
        }
        None
    }
}

impl Default for Primitives {
    fn default() -> (table: Self)
        ensures
            table.wf(),
    {
        Primitives::new()
    }
}

} // verus!
