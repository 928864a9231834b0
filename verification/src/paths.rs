//! Resolution of workflow-relative file paths against the input file.
use vstd::prelude::*;

verus! {

/// The parent that `std::path::Path::parent` gives for a path, under the
/// path rules of the target the library is built for.
pub uninterp spec fn path_parent_of(path: Seq<char>) -> Option<Seq<char>>;

/// The path that `std::path::Path::join` gives for a base and a relative
/// path, under the path rules of the target the library is built for.
pub uninterp spec fn path_join_of(base: Seq<char>, relative: Seq<char>) -> Seq<char>;

/// `std::path::Path::parent` of `path`, as a string.
///
/// Trusted: the result is [`path_parent_of`] of the path (a `&str` path
/// converts back to a string without loss), and, as the documentation of
/// `Path::parent` says, the empty path has no parent. Which parent a
/// nonempty path has is left to the platform's path rules and not stated.
#[verifier::external_body]
fn path_parent(path: &str) -> (r: Option<String>)
    ensures
        path_parent_of(path@) == (match r {
            Some(p) => Some(p@),
            None => None::<Seq<char>>,
        }),
        path@.len() == 0 ==> r is None,
{
    match std::path::Path::new(path).parent() {
        Some(parent) => Some(parent.to_string_lossy().into_owned()),
        None => None,
    }
}

/// `std::path::Path::join` of `base` and `relative`, as a string.
///
/// Trusted: the result is [`path_join_of`] of the two paths; how they are
/// joined (separators, absolute relative paths) is left to the platform's
/// path rules and not stated.
#[verifier::external_body]
fn path_join(base: &str, relative: &str) -> (r: String)
    ensures
        r@ == path_join_of(base@, relative@),
{
    std::path::Path::new(base).join(relative).to_string_lossy().into_owned()
}

/// The directory input-relative paths resolve against: the input file's
/// parent, or the current directory `.` when it has none.
pub fn input_base_directory(parent: Option<String>) -> (r: String)
    ensures
        parent matches Some(p) ==> r == p,
        parent is None ==> r@ == seq!['.'],
{
    match parent {
        Some(p) => p,
        None => {
            let dot = ".".to_owned();
            proof {
                reveal_strlit(".");
            }
            dot
        },
    }
}

/// The directory input-relative paths of the input file at `input_path`
/// resolve against: its parent, else `.`.
pub open spec fn input_base_of(input_path: Seq<char>) -> Seq<char> {
    match path_parent_of(input_path) {
        Some(p) => p,
        None => seq!['.'],
    }
}

/// Resolve `relative` against the directory of the input file at
/// `input_path` (see [`input_base_directory`]).
pub fn resolve_input_relative_path(input_path: &str, relative: &str) -> (r: String)
    ensures
        r@ == path_join_of(input_base_of(input_path@), relative@),
        input_path@.len() == 0 ==> r@ == path_join_of(seq!['.'], relative@),
{
    let base = input_base_directory(path_parent(input_path));
    path_join(base.as_str(), relative)
}

/// Resolve the checkpoint path named by an input file against the input
/// file's directory.
pub fn resolve_checkpoint_path(input_path: &str, checkpoint: &str) -> (r: String)
    ensures
        r@ == path_join_of(input_base_of(input_path@), checkpoint@),
{
    resolve_input_relative_path(input_path, checkpoint)
}

} // verus!
