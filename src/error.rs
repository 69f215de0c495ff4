use vstd::prelude::*;

verus! {

/// The ways in which reading or writing an archive can fail.
#[derive(Debug, Clone, Copy, PartialEq, Eq, Structural)]
pub enum PatchError {
    /// The source file does not exist.
    NotFound,
    /// An underlying read, write, seek or create failed, or the data ended early.
    IoError,
    /// An entry's name bytes are not valid UTF-8.
    InvalidEncoding,
    /// A hardware name or an entry name does not fit its fixed-width field.
    NameTooLong,
    /// An input path has no file-name component.
    InvalidPath,
}

} // verus!
