//! Where this runner looks for a scene's assets: `assets/` beside the scene
//! file. A scene at `levels/one.ron` loads `levels/assets/`.
//!
//! Paths are handled by `std::path`, and this module only decides *which*
//! directory. Paths travel as text.

use vstd::prelude::*;

verus! {

/// The directory a scene's assets live in, relative to the scene file.
pub const ASSETS_DIRECTORY: &'static str = "assets";

/// What `std::path::Path::parent` gives for a path, as text.
pub uninterp spec fn parent_of(path: Seq<char>) -> Option<Seq<char>>;

/// What `std::path::Path::join` gives for a base and a child, as text.
pub uninterp spec fn joined_path(base: Seq<char>, child: Seq<char>) -> Seq<char>;

/// The parent of `path`, by `std::path::Path::parent`.
///
/// Claims only that the answer is a function of the path: the same text has
/// the same parent. A path's parent is valid text whenever the path is, since
/// it is a prefix of it ending at a separator.
#[verifier::external_body]
fn path_parent(path: &str) -> (parent: Option<String>)
    ensures
        match parent {
            Some(p) => parent_of(path@) == Some(p@),
            None => parent_of(path@) is None,
        },
{
    match std::path::Path::new(path).parent() {
        Some(p) => Some(p.to_string_lossy().into_owned()),
        None => None,
    }
}

/// `child` under `base`, by `std::path::Path::join`.
///
/// Claims only that the answer is a function of the two texts.
#[verifier::external_body]
fn path_join(base: &str, child: &str) -> (joined: String)
    ensures
        joined@ == joined_path(base@, child@),
{
    std::path::Path::new(base).join(child).to_string_lossy().into_owned()
}

/// The assets directory belonging to the scene at `scene`.
///
/// A bare filename's parent is the empty path rather than none, so `one.ron`
/// gives `assets` and not `./assets`. A path with no parent at all is treated
/// as if its parent were the empty path.
pub fn directory_for(scene: &str) -> (directory: String)
    ensures
        directory@ == joined_path(
            match parent_of(scene@) {
                Some(parent) => parent,
                None => Seq::empty(),
            },
            ASSETS_DIRECTORY@,
        ),
{
    match path_parent(scene) {
        Some(parent) => path_join(parent.as_str(), ASSETS_DIRECTORY),
        None => {
            let empty = String::new();
            path_join(empty.as_str(), ASSETS_DIRECTORY)
        },
    }
}

} // verus!
