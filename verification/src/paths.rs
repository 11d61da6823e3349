use vstd::prelude::*;

verus! {

/// The last component of `path` as `std::path::Path::file_name` computes it
/// on this platform (`None` for a root, an empty path or one ending in
/// `..`).
pub uninterp spec fn path_file_name(path: Seq<char>) -> Option<Seq<char>>;

/// `base` joined with `part` as `std::path::Path::join` computes it on this
/// platform.
pub uninterp spec fn path_join(base: Seq<char>, part: Seq<char>) -> Seq<char>;

/// Calls `std::path::Path::file_name`.
///
/// Trusted: the result is the final component of `path` under the
/// platform's path rules, a function of `path` alone; the rules themselves
/// are left unstated. The input is UTF-8, so the conversion back is
/// lossless.
#[verifier::external_body]
pub(crate) fn file_name(path: &str) -> (name: Option<String>)
    ensures
        match name {
            Some(n) => path_file_name(path@) == Some(n@),
            None => path_file_name(path@) is None,
        },
{
    match std::path::Path::new(path).file_name() {
        Some(n) => Some(n.to_string_lossy().into_owned()),
        None => None,
    }
}

/// Calls `std::path::Path::join`.
///
/// Trusted: the result is `base` joined with `part` under the platform's
/// path rules, a function of the two arguments alone; the rules themselves
/// are left unstated. Both inputs are UTF-8, so the conversion back is
/// lossless.
#[verifier::external_body]
pub(crate) fn join(base: &str, part: &str) -> (joined: String)
    ensures
        joined@ == path_join(base@, part@),
{
    std::path::Path::new(base).join(part).to_string_lossy().into_owned()
}

} // verus!
