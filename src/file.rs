//! Errors of file operations, each tagged with the action and the path that
//! failed.
use std::io::Error as IOError;
use std::path::PathBuf;
use vstd::prelude::*;

verus! {

#[verifier::external_type_specification]
#[verifier::external_body]
pub struct ExIOError(IOError);

#[verifier::external_type_specification]
#[verifier::external_body]
pub struct ExPathBuf(PathBuf);

/// What was being done to a file when an error came.
#[derive(Debug, Clone, Copy, PartialEq, Eq, Structural)]
pub enum Action {
    Close,
    Create,
    Open,
    Read,
    Seek,
    Write,
}

/// The word that names an action in a message.
pub open spec fn action_word(a: Action) -> Seq<char> {
    match a {
        Action::Close => "closing"@,
        Action::Create => "creating"@,
        Action::Open => "opening"@,
        Action::Read => "reading"@,
        Action::Seek => "seeking"@,
        Action::Write => "writing"@,
    }
}

impl Action {
    /// The word that names this action in a message ("opening", ...).
    pub fn as_str(&self) -> (r: &'static str)
        ensures
            r@ == action_word(*self),
    {
        match self {
            Action::Close => "closing",
            Action::Create => "creating",
            Action::Open => "opening",
            Action::Read => "reading",
            Action::Seek => "seeking",
            Action::Write => "writing",
        }
    }
}

/// An I/O error on a file, with the action and the path.
#[derive(Debug)]
pub struct Error {
    action: Action,
    path: PathBuf,
    error: IOError,
}

impl Error {
    pub closed spec fn spec_action(&self) -> Action {
        self.action
    }

    pub closed spec fn spec_path(&self) -> PathBuf {
        self.path
    }

    pub closed spec fn spec_error(&self) -> IOError {
        self.error
    }

    pub fn new(action: Action, path: PathBuf, error: IOError) -> (r: Self)
        ensures
            r.spec_action() == action,
            r.spec_path() == path,
            r.spec_error() == error,
    {
        Error { action, path, error }
    }

    pub fn action(&self) -> (r: &Action)
        ensures
            *r == self.spec_action(),
    {
        &self.action
    }

    pub fn path(&self) -> (r: &PathBuf)
        ensures
            *r == self.spec_path(),
    {
        &self.path
    }

    pub fn error(&self) -> (r: &IOError)
        ensures
            *r == self.spec_error(),
    {
        &self.error
    }
}

/// An error of making a hard link from `link_path` to `original_path`.
#[derive(Debug)]
pub struct HardLinkError {
    original_path: PathBuf,
    link_path: PathBuf,
    error: IOError,
}

impl HardLinkError {
    pub closed spec fn spec_original_path(&self) -> PathBuf {
        self.original_path
    }

    pub closed spec fn spec_link_path(&self) -> PathBuf {
        self.link_path
    }

    pub closed spec fn spec_error(&self) -> IOError {
        self.error
    }

    pub fn new(original_path: PathBuf, link_path: PathBuf, error: IOError) -> (r: Self)
        ensures
            r.spec_original_path() == original_path,
            r.spec_link_path() == link_path,
            r.spec_error() == error,
    {
        HardLinkError { original_path, link_path, error }
    }

    pub fn original_path(&self) -> (r: &PathBuf)
        ensures
            *r == self.spec_original_path(),
    {
        &self.original_path
    }

    pub fn link_path(&self) -> (r: &PathBuf)
        ensures
            *r == self.spec_link_path(),
    {
        &self.link_path
    }

    pub fn error(&self) -> (r: &IOError)
        ensures
            *r == self.spec_error(),
    {
        &self.error
    }
}

/// An error of making a symbolic link from `link_path` to `original_path`.
#[derive(Debug)]
pub struct SymlinkError {
    original_path: PathBuf,
    link_path: PathBuf,
    error: IOError,
}

impl SymlinkError {
    pub closed spec fn spec_original_path(&self) -> PathBuf {
        self.original_path
    }

    pub closed spec fn spec_link_path(&self) -> PathBuf {
        self.link_path
    }

    pub closed spec fn spec_error(&self) -> IOError {
        self.error
    }

    pub fn new(original_path: PathBuf, link_path: PathBuf, error: IOError) -> (r: Self)
        ensures
            r.spec_original_path() == original_path,
            r.spec_link_path() == link_path,
            r.spec_error() == error,
    {
        SymlinkError { original_path, link_path, error }
    }

    pub fn original_path(&self) -> (r: &PathBuf)
        ensures
            *r == self.spec_original_path(),
    {
        &self.original_path
    }

    pub fn link_path(&self) -> (r: &PathBuf)
        ensures
            *r == self.spec_link_path(),
    {
        &self.link_path
    }

    pub fn error(&self) -> (r: &IOError)
        ensures
            *r == self.spec_error(),
    {
        &self.error
    }
}

} // verus!
