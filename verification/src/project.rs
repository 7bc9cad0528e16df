use crate::index::{IndexList, IndexView};
use crate::text::{decimal, decimal_digits};
use vstd::prelude::*;
use vstd::string::*;

verus! {

/// Identifier of one project of a workspace, cheap to copy.
#[derive(Debug, Clone, Copy, PartialEq, Eq, Hash, Structural)]
pub struct Pid(usize);

impl Pid {
    /// The number that the identifier wraps.
    pub closed spec fn id(self) -> nat {
        self.0 as nat
    }

    /// The identifier that wraps the number `id`.
    pub closed spec fn numbered(id: nat) -> Pid {
        Pid(id as usize)
    }

    pub fn new(id: usize) -> (pid: Self)
        ensures
            pid.id() == id,
            pid == Pid::numbered(id as nat),
    {
        Self(id)
    }

    pub fn value(&self) -> (id: usize)
        ensures
            id == self.id(),
    {
        self.0
    }

    /// How the identifier is shown: `#` and its number.
    pub open spec fn label(self) -> Seq<char> {
        seq!['#'] + decimal_digits(self.id())
    }

    /// The identifier as text: `#` and its number.
    pub fn display(&self) -> (text: String)
        ensures
            text@ == self.label(),
    {
        proof {
            reveal_strlit("#");
        }
        let mut text = "#".to_owned();
        text.append(decimal(self.0).as_str());
        assert(text@ =~= self.label());
        text
    }

    /// `numbered` and `id` undo each other, as far as identifiers go.
    pub proof fn lemma_numbered(id: nat)
        requires
            id <= usize::MAX,
        ensures
            Pid::numbered(id).id() == id,
    {
    }

    /// Two identifiers with the same number are the same identifier.
    pub proof fn lemma_id_injective(a: Pid, b: Pid)
        requires
            a.id() == b.id(),
        ensures
            a == b,
    {
    }
}

/// How a path that several projects share is brought into the output.
#[derive(Debug, Clone, Copy, PartialEq, Eq, Structural)]
pub enum Strategy {
    /// The files are combined by `File::merge`, in plan order.
    Merge,
    /// Every copy is kept under a name of its own, and references follow.
    Rename,
    /// The last copy in plan order replaces the others.
    Replace,
}

/// One input tree. The host implements this.
///
/// The spec functions name what the methods give, which has to stay the same
/// for the whole run. A verified implementation says what they are; one in plain
/// Rust leaves them as they stand here.
pub trait Project {
    /// The project's root directory, as text.
    open spec fn location(&self) -> Seq<char> {
        arbitrary()
    }

    /// The project's identifier.
    open spec fn ident(&self) -> Pid {
        arbitrary()
    }

    /// The files of the project.
    open spec fn listing(&self) -> Seq<IndexView> {
        arbitrary()
    }

    /// The path of the project's root directory.
    fn root(&self) -> (root: &str)
        ensures
            root@ == self.location(),
    ;

    /// The identifier of this project, which no other project of the workspace has.
    fn pid(&self) -> (pid: Pid)
        ensures
            pid == self.ident(),
    ;

    /// All the files of this project.
    fn indexes(&self) -> (list: IndexList)
        ensures
            list@ == self.listing(),
    ;
}

} // verus!
