//! Paths of assets that refer to one another.

use vstd::prelude::*;
use std::path::Path;

verus! {

/// The parent of a path, as `Path::parent` gives it.
pub uninterp spec fn path_parent(p: Seq<char>) -> Option<Seq<char>>;

/// A path with another one appended, as `Path::join` gives it.
pub uninterp spec fn path_join(base: Seq<char>, rel: Seq<char>) -> Seq<char>;

/// A path with its leading root `/` taken off, as `Path::strip_prefix("/")` gives it.
pub uninterp spec fn path_without_root(p: Seq<char>) -> Seq<char>;

/// `Path::parent`: the path without its final component; nothing for a path
/// that ends in a root, or for the empty path.
#[verifier::external_body]
fn parent_of(p: &str) -> (r: Option<String>)
    ensures
        match r {
            Some(s) => path_parent(p@) == Some(s@),
            None => path_parent(p@) is None,
        },
{
    Path::new(p).parent().map(|q| q.to_string_lossy().into_owned())
}

/// `Path::join`: `rel` appended to `base`.
#[verifier::external_body]
fn join_paths(base: &str, rel: &str) -> (r: String)
    ensures
        r@ == path_join(base@, rel@),
{
    Path::new(base).join(rel).to_string_lossy().into_owned()
}

/// A path that starts with a single separator `/`, not with two separators
/// (`/` or a backslash as the second character), which some platforms read as
/// the prefix of a network share.
pub open spec fn starts_with_single_root(p: Seq<char>) -> bool {
    &&& p.len() > 0
    &&& p[0] == '/'
    &&& !(p.len() > 1 && (p[1] == '/' || p[1] == '\\'))
}

/// `Path::strip_prefix("/")` on a path that starts with a single `/`: the
/// path then begins with the root `/` itself, so the prefix is there and the
/// call does not fail.
#[verifier::external_body]
fn strip_root(p: &str) -> (r: String)
    requires
        starts_with_single_root(p@),
    ensures
        r@ == path_without_root(p@),
{
    Path::new(p).strip_prefix("/").unwrap().to_string_lossy().into_owned()
}

/// Where the asset `relative_path`, named inside the asset at `asset_path`,
/// lies: a path starting with `/` counts from the asset root (the `/` is
/// dropped); any other counts from the folder of `asset_path` (the empty path
/// when it has none). A path that starts with two separators is not accepted:
/// removing the root from it can fail, as it names a network share on some
/// platforms.
pub fn relative_asset_path(asset_path: &str, relative_path: &str) -> (r: String)
    requires
        relative_path@.len() > 0 && relative_path@[0] == '/' ==> starts_with_single_root(relative_path@),
    ensures
        relative_path@.len() > 0 && relative_path@[0] == '/' ==> r@ == path_without_root(
            relative_path@,
        ),
        !(relative_path@.len() > 0 && relative_path@[0] == '/') ==> r@ == path_join(
            match path_parent(asset_path@) {
                Some(parent) => parent,
                None => Seq::<char>::empty(),
            },
            relative_path@,
        ),
{
    let mut chars = relative_path.chars();
    proof {
        broadcast use vstd::string::axiom_spec_iter, vstd::string::next_postcondition;
    }
    let first = chars.next();
    let is_relative = match first {
        Some(c) => c != '/',
        None => true,
    };
    if is_relative {
        match parent_of(asset_path) {
            Some(base) => join_paths(base.as_str(), relative_path),
            None => {
                proof {
                    reveal_strlit("");
                    assert(""@ =~= Seq::<char>::empty());
                }
                join_paths("", relative_path)
            },
        }
    } else {
        strip_root(relative_path)
    }
}

} // verus!
