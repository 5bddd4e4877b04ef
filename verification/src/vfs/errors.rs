//! Error values reported by the virtual file system layer.

use vstd::prelude::*;

use crate::vfs::path::VfsPath;

verus! {

/// The cause of a failed virtual file system operation.
#[derive(Debug, Clone, Copy, PartialEq, Eq, Structural)]
pub enum VfsError {
    /// A candidate path does not exist or could not be canonicalized.
    ResolveFailed,
    /// An anchored path, once normalized, does not lie under the root.
    OutOfScope,
    /// An operation that needs an anchored path received one that is not.
    NotAbsoluteInput,
    /// The underlying filesystem primitive reported an error.
    FilesystemOperationFailed,
}

/// An operation that requires an absolute path received a relative one.
#[derive(Debug, Clone)]
pub struct NotAbsolutePathError {
    pub message: String,
}

impl NotAbsolutePathError {
    pub fn new() -> (e: NotAbsolutePathError)
        ensures
            e.message@ == "Argument is not absolute path."@,
    {
        NotAbsolutePathError { message: "Argument is not absolute path.".to_owned() }
    }
}

/// An operation that requires a relative path received an absolute one.
#[derive(Debug, Clone)]
pub struct NotRelativePathError {
    pub message: String,
}

impl NotRelativePathError {
    pub fn new() -> (e: NotRelativePathError)
        ensures
            e.message@ == "Argument is not relative path."@,
    {
        NotRelativePathError { message: "Argument is not relative path.".to_owned() }
    }
}

/// A path does not belong to the virtual file system.
#[derive(Debug, Clone)]
pub struct PathNotBelongsError {
    pub message: String,
}

impl PathNotBelongsError {
    pub fn new(path: &VfsPath) -> (e: PathNotBelongsError)
        ensures
            e.message@ == "File system don't contain this path: "@ + crate::vfs::path::spec_text(
                path@,
            ),
    {
        let mut message = "File system don't contain this path: ".to_owned();
        let text = path.to_text();
        message.append(text.as_str());
        PathNotBelongsError { message }
    }
}

} // verus!
