use crate::error::Error;
use crate::index::{Index, IndexView};
use vstd::prelude::*;
use vstd::std_specs::cmp::PartialEqSpecImpl;

verus! {

/// A reference from one file to another, by the index of the file referred to.
#[derive(Debug)]
pub struct Relation(pub Index);

impl View for Relation {
    type V = IndexView;

    open spec fn view(&self) -> IndexView {
        self.0@
    }
}

impl Clone for Relation {
    fn clone(&self) -> (copy: Self)
        ensures
            copy@ == self@,
    {
        Relation(self.0.clone())
    }
}

impl PartialEq for Relation {
    fn eq(&self, other: &Self) -> (r: bool) {
        self.0 == other.0
    }
}

impl Eq for Relation {

}

impl PartialEqSpecImpl for Relation {
    open spec fn obeys_eq_spec() -> bool {
        true
    }

    open spec fn eq_spec(&self, other: &Self) -> bool {
        self@ == other@
    }
}

impl Relation {
    pub fn new(depend: Index) -> (relation: Self)
        ensures
            relation@ == depend@,
    {
        Self(depend)
    }

    pub fn index(self) -> (index: Index)
        ensures
            index@ == self@,
    {
        self.0
    }
}

/// The indexes that a list of relations refers to, in the list's order.
pub open spec fn targets(relations: Seq<Relation>) -> Seq<IndexView> {
    relations.map_values(|r: Relation| r@)
}

/// `targets` with every `from` turned into `to`.
pub open spec fn redirected(targets: Seq<IndexView>, from: IndexView, to: IndexView) -> Seq<
    IndexView,
> {
    targets.map_values(
        |t: IndexView|
            if t == from {
                to
            } else {
                t
            },
    )
}

/// One file of a project, read into memory. The host implements this for its
/// file types.
///
/// The spec functions name what each method gives, so that the library's
/// contracts can speak of it. A verified implementation says what they are; one
/// in plain Rust leaves them as they stand here. What the methods ensure is what
/// the library relies on: an implementation that does otherwise gets a merge
/// that does otherwise.
pub trait File: Sized {
    /// The targets of the references that the file declares, in the file's own
    /// stable order.
    open spec fn relations(&self) -> Seq<IndexView> {
        arbitrary()
    }

    /// The bytes that the file is committed as.
    open spec fn bytes(self) -> Seq<u8> {
        arbitrary()
    }

    /// The file with its references to `from` pointed at `to`.
    open spec fn modified(self, from: IndexView, to: IndexView) -> Self {
        arbitrary()
    }

    /// The file combined with the newer `other`, or the host's refusal.
    open spec fn merged(self, other: Self) -> Result<Self, Error> {
        arbitrary()
    }

    /// The references that the file declares.
    fn relation(&self) -> (relations: Vec<Relation>)
        ensures
            targets(relations@) == self.relations(),
    ;

    /// Commits to the file's bytes: no rewriting can follow.
    fn data(self) -> (bytes: Vec<u8>)
        ensures
            bytes@ == self.bytes(),
    ;

    /// Follows the renaming of `from` to `to`: references to `from` refer to `to`
    /// afterwards, the other references stay, and a file that does not refer to
    /// `from` is handed back as it is.
    fn modify_relation(self, from: &Index, to: &Index) -> (file: Self)
        ensures
            file == self.modified(from@, to@),
            file.relations() == redirected(self.relations(), from@, to@),
            !self.relations().contains(from@) ==> file == self,
    ;

    /// Combines two files that met at one path. `other` is the newer one and
    /// wins where both say something different.
    fn merge(self, other: Self) -> (file: Result<Self, Error>)
        ensures
            file == self.merged(other),
    ;
}

} // verus!
