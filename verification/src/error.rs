use vstd::prelude::*;

verus! {

/// `std::io::Error`, the error of a failed filesystem call. The library carries
/// such a value from where the host met it to where the host reads it, and
/// looks at nothing in it.
#[verifier::external_type_specification]
#[verifier::external_body]
pub struct ExIoError(std::io::Error);

/// What can stop an export.
#[derive(Debug)]
pub enum Error {
    /// The bytes could not be written at `path`.
    Write { path: String, source: std::io::Error },
    /// `path` has no parent, so a renamed file cannot be placed beside it.
    Parent { path: String },
    /// `path` has no file name to derive a new name from.
    NoFileName { path: String },
    /// The directories leading to `path` could not be created.
    CreateDirAll { path: String, source: std::io::Error },
    /// A failure reported by the host's file type, by its message.
    Custom(String),
}

impl Error {
    /// The error is `Parent`, and names `path`.
    pub open spec fn is_parent(self, path: Seq<char>) -> bool {
        self matches Error::Parent { path: at } && at@ == path
    }

    /// The error is `NoFileName`, and names `path`.
    pub open spec fn is_no_file_name(self, path: Seq<char>) -> bool {
        self matches Error::NoFileName { path: at } && at@ == path
    }

    pub fn write(path: String, source: std::io::Error) -> (e: Self)
        ensures
            e == (Error::Write { path, source }),
    {
        Error::Write { path, source }
    }

    pub fn parent(path: String) -> (e: Self)
        ensures
            e == (Error::Parent { path }),
    {
        Error::Parent { path }
    }

    pub fn filename(path: String) -> (e: Self)
        ensures
            e == (Error::NoFileName { path }),
    {
        Error::NoFileName { path }
    }

    pub fn dir_all(path: String, source: std::io::Error) -> (e: Self)
        ensures
            e == (Error::CreateDirAll { path, source }),
    {
        Error::CreateDirAll { path, source }
    }

    pub fn custom(message: String) -> (e: Self)
        ensures
            e == Error::Custom(message),
    {
        Error::Custom(message)
    }
}

} // verus!
