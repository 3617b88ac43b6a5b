//! What the file system says of a path, through std.
use vstd::prelude::*;

verus! {

/// Relies on std's `Path::exists`: whether the path names something that
/// can be reached; the answer depends on the file system at the time.
#[verifier::external_body]
pub(crate) fn path_exists(path: &str) -> (r: bool) {
    std::path::Path::new(path).exists()
}

/// Relies on std's `Path::is_file`: whether the path, links followed, names
/// a regular file; the answer depends on the file system at the time.
#[verifier::external_body]
pub(crate) fn is_regular_file(path: &str) -> (r: bool) {
    std::path::Path::new(path).is_file()
}

/// Relies on std's `Path::is_dir`: whether the path, links followed, names
/// a directory; the answer depends on the file system at the time.
#[verifier::external_body]
pub(crate) fn is_directory(path: &str) -> (r: bool) {
    std::path::Path::new(path).is_dir()
}

/// The check that a file to read exists, from whether its path exists.
pub fn validate_file(exists: bool) -> (r: Result<(), String>)
    ensures
        !exists ==> (r matches Err(m) && m@ == "File not found"@),
        exists ==> r is Ok,
{
    if exists {
        Ok(())
    } else {
        Err(String::from_str("File not found"))
    }
}

} // verus!
