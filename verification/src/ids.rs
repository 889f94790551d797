//! Identifiers: files, projects, source roots, and the name-and-arity pairs
//! by which declarations are found.

use crate::seqs::views;
use vstd::prelude::*;

verus! {

/// One source or header file.
#[derive(Clone, Copy, Debug, PartialEq, Eq, Hash, Structural)]
pub struct FileId(pub u32);

/// One project; stubs and overrides never cross projects.
#[derive(Clone, Copy, Debug, PartialEq, Eq, Hash, Structural)]
pub struct ProjectId(pub u32);

/// Position of a source root in the table of source roots.
#[derive(Clone, Copy, Debug, PartialEq, Eq, Hash, Structural)]
pub struct SourceRootId(pub u32);

/// Name and arity of a type or function.
#[derive(Debug, PartialEq, Eq)]
pub struct Id {
    pub name: String,
    pub arity: u32,
}

pub struct IdV {
    pub name: Seq<char>,
    pub arity: u32,
}

impl View for Id {
    type V = IdV;

    open spec fn view(&self) -> IdV {
        IdV { name: self.name@, arity: self.arity }
    }
}

impl Id {
    pub fn new(name: String, arity: u32) -> (id: Id)
        ensures
            id@ == (IdV { name: name@, arity }),
    {
        Id { name, arity }
    }

    pub fn clone(&self) -> (id: Id)
        ensures
            id@ == self@,
    {
        Id { name: self.name.clone(), arity: self.arity }
    }

    /// Same name and same arity.
    pub fn same(&self, other: &Id) -> (eq: bool)
        ensures
            eq == (self@ == other@),
    {
        self.arity == other.arity && self.name == other.name
    }
}

/// A type of a named module.
#[derive(Debug, PartialEq, Eq)]
pub struct RemoteId {
    pub module: String,
    pub name: String,
    pub arity: u32,
}

pub struct RemoteIdV {
    pub module: Seq<char>,
    pub name: Seq<char>,
    pub arity: u32,
}

impl RemoteIdV {
    /// The name and arity, without the module.
    pub open spec fn id(self) -> IdV {
        IdV { name: self.name, arity: self.arity }
    }
}

impl View for RemoteId {
    type V = RemoteIdV;

    open spec fn view(&self) -> RemoteIdV {
        RemoteIdV { module: self.module@, name: self.name@, arity: self.arity }
    }
}

impl RemoteId {
    pub fn clone(&self) -> (id: RemoteId)
        ensures
            id@ == self@,
    {
        RemoteId { module: self.module.clone(), name: self.name.clone(), arity: self.arity }
    }

    pub fn same(&self, other: &RemoteId) -> (eq: bool)
        ensures
            eq == (self@ == other@),
    {
        self.arity == other.arity && self.name == other.name && self.module == other.module
    }
}

/// Views of the strings of a list.
pub open spec fn strings_view(v: Seq<String>) -> Seq<Seq<char>> {
    views(v)
}

/// Views of the identifiers of a list.
pub open spec fn ids_view(v: Seq<Id>) -> Seq<IdV> {
    views(v)
}

pub fn clone_strings(v: &Vec<String>) -> (r: Vec<String>)
    ensures
        strings_view(r@) == strings_view(v@),
{
    let mut r: Vec<String> = Vec::new();
    let mut i: usize = 0;
    while i < v.len()
        invariant
            i <= v.len(),
            r@.len() == i,
            forall|j: int| 0 <= j < i ==> r@[j]@ == v@[j]@,
        decreases v.len() - i,
    {
        r.push(v[i].clone());
        i = i + 1;
    }
    proof {
        assert(strings_view(r@) =~= strings_view(v@));
    }
    r
}

pub fn clone_ids(v: &Vec<Id>) -> (r: Vec<Id>)
    ensures
        ids_view(r@) == ids_view(v@),
{
    let mut r: Vec<Id> = Vec::new();
    let mut i: usize = 0;
    while i < v.len()
        invariant
            i <= v.len(),
            r@.len() == i,
            forall|j: int| 0 <= j < i ==> r@[j]@ == v@[j]@,
        decreases v.len() - i,
    {
        r.push(v[i].clone());
        i = i + 1;
    }
    proof {
        assert(ids_view(r@) =~= ids_view(v@));
    }
    r
}

/// Whether `id` is among `ids`.
pub fn contains_id(ids: &Vec<Id>, id: &Id) -> (found: bool)
    ensures
        found == ids_view(ids@).contains(id@),
{
    let mut i: usize = 0;
    while i < ids.len()
        invariant
            i <= ids.len(),
            forall|j: int| 0 <= j < i ==> ids@[j]@ != id@,
        decreases ids.len() - i,
    {
        if ids[i].same(id) {
            proof {
                assert(ids_view(ids@)[i as int] == id@);
            }
            return true;
        }
        i = i + 1;
    }
    false
}

} // verus!
