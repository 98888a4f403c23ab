use vstd::prelude::*;

use relative_path::RelativePath;

use crate::compiled::CompileError;

verus! {

/// The path that `rel` names when read from directory `base`, with `.` and
/// `..` resolved.
pub uninterp spec fn logical_path_of(rel: Seq<char>, base: Seq<char>) -> Seq<char>;

/// `rel` with its extension replaced by `ext`.
pub uninterp spec fn with_extension_of(rel: Seq<char>, ext: Seq<char>) -> Seq<char>;

/// Relies on relative_path's `RelativePath::to_logical_path`: `rel` read
/// from `base`, with `.` and `..` resolved.
#[verifier::external_body]
pub(crate) fn logical_path_text(rel: &str, base: &str) -> (r: String)
    ensures
        r@ == logical_path_of(rel@, base@),
{
    RelativePath::new(rel).to_logical_path(base).to_string_lossy().into_owned()
}

/// Relies on relative_path's `RelativePath::with_extension`.
#[verifier::external_body]
pub(crate) fn with_extension_text(rel: &str, ext: &str) -> (r: String)
    ensures
        r@ == with_extension_of(rel@, ext@),
{
    RelativePath::new(rel).with_extension(ext).into_string()
}

/// A file reference that is either relative to a document's directory or absolute.
pub enum PathReference {
    Relative(String),
    Absolute(String),
}

impl PathReference {
    pub open spec fn text(&self) -> Seq<char> {
        match self {
            PathReference::Relative(p) => p@,
            PathReference::Absolute(p) => p@,
        }
    }

    pub open spec fn spec_logical_path(&self, base: Seq<char>) -> Seq<char> {
        match self {
            PathReference::Relative(p) => logical_path_of(p@, base),
            PathReference::Absolute(p) => p@,
        }
    }

    /// The reference read as a path of its own.
    pub fn as_absolute(&self) -> (r: String)
        ensures
            r@ == self.text(),
    {
        match self {
            PathReference::Relative(path) => path.clone(),
            PathReference::Absolute(path) => path.clone(),
        }
    }

    /// The path the reference names from directory `base`.
    pub fn logical_path(&self, base: &str) -> (r: String)
        ensures
            r@ == self.spec_logical_path(base@),
    {
        match self {
            PathReference::Relative(path) => logical_path_text(path.as_str(), base),
            PathReference::Absolute(path) => path.clone(),
        }
    }

    /// The path a reference resolves to: its logical path where something
    /// exists there, else the reference read as a path of its own where
    /// something exists there, else an invalid-path error.
    pub fn resolve(&self, base: &str, logical_exists: bool, absolute_exists: bool) -> (r: Result<String, CompileError>)
        ensures
            logical_exists ==> (r matches Ok(p) && p@ == self.spec_logical_path(base@)),
            !logical_exists && absolute_exists ==> (r matches Ok(p) && p@ == self.text()),
            !logical_exists && !absolute_exists ==> (r matches Err(CompileError::InvalidPath(p)) && p@ == self.text()),
    {
        if logical_exists {
            Ok(self.logical_path(base))
        } else if absolute_exists {
            Ok(self.as_absolute())
        } else {
            Err(CompileError::InvalidPath(self.as_absolute()))
        }
    }

    /// A copy naming the same path.
    pub fn duplicate(&self) -> (r: PathReference)
        ensures
            r == *self,
    {
        match self {
            PathReference::Relative(p) => PathReference::Relative(p.clone()),
            PathReference::Absolute(p) => PathReference::Absolute(p.clone()),
        }
    }
}

} // verus!
