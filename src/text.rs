//! Text conversions that rely on std.
use vstd::prelude::*;
use vstd::utf8::{decode_utf8, valid_utf8};

verus! {

/// Relies on std::str::from_utf8: it succeeds exactly on valid UTF-8, and the
/// text it returns is what those bytes encode.
#[verifier::external_body]
pub(crate) fn utf8_to_string(b: &[u8]) -> (r: Option<String>)
    ensures
        r is Some <==> valid_utf8(b@),
        r matches Some(s) ==> s@ == decode_utf8(b@),
{
    match std::str::from_utf8(b) {
        Ok(s) => Some(s.to_string()),
        Err(_) => None,
    }
}

/// What std::path::Path::file_name gives for a path, as text: the final
/// component, or none when the path ends in `..` or is a root or empty.
pub uninterp spec fn path_file_name(p: Seq<char>) -> Option<Seq<char>>;

/// Relies on std::path::Path::file_name, which depends on the path alone;
/// a name that came from UTF-8 text is itself UTF-8.
#[verifier::external_body]
fn file_name_of(path: &str) -> (r: Option<String>)
    ensures
        r matches Some(s) ==> path_file_name(path@) == Some(s@),
        r is None ==> path_file_name(path@) is None,
{
    std::path::Path::new(path).file_name().and_then(|n| n.to_str()).map(|n| n.to_string())
}

/// The base name of an input path, under which its entry is stored.
/// Fails with `InvalidPath` when the path has no file-name component.
pub fn base_name(path: &str) -> (r: Result<String, crate::error::PatchError>)
    ensures
        r matches Ok(s) ==> path_file_name(path@) == Some(s@),
        r is Err <==> path_file_name(path@) is None,
        r is Err ==> r == Err::<String, crate::error::PatchError>(crate::error::PatchError::InvalidPath),
{
    match file_name_of(path) {
        Some(s) => Ok(s),
        None => Err(crate::error::PatchError::InvalidPath),
    }
}

} // verus!
