//! The last component of a path.
use vstd::prelude::*;

verus! {

/// What `std::path::Path::file_name` yields for a path, as text.
pub uninterp spec fn final_component(p: Seq<char>) -> Option<Seq<char>>;

/// Relies on `std::path::Path::file_name` (with `OsStr::to_str`): the final
/// component of the path, if it has one; it depends on the path text alone.
#[verifier::external_body]
fn path_file_name(p: &str) -> (r: Option<&str>)
    ensures
        match r {
            Some(f) => final_component(p@) == Some(f@),
            None => final_component(p@).is_none(),
        },
{
    match std::path::Path::new(p).file_name() {
        Some(f) => f.to_str(),
        None => None,
    }
}

/// The base name of a path: its final component, or the path itself when it
/// has none.
pub open spec fn base_name(p: Seq<char>) -> Seq<char> {
    match final_component(p) {
        Some(f) => f,
        None => p,
    }
}

/// The final component of `path`, or `path` itself when it has none.
pub fn basename(path: &str) -> (r: Option<&str>)
    ensures
        r is Some,
        r.unwrap()@ == base_name(path@),
{
    match path_file_name(path) {
        Some(name) => Some(name),
        None => Some(path),
    }
}

} // verus!
