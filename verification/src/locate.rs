//! Where the evaluator's binary lies, worked out from the place of the
//! running executable. A path is the sequence of its components, the first
//! of which may be its root.

use vstd::prelude::*;
use vstd::string::*;
use crate::text::same_text;

verus! {

/// A path as the sequence of its components. The first `anchored` of them
/// are the root of the path, with the prefix that some systems put before
/// it: they have no parent, and nothing takes them away.
#[derive(Debug, PartialEq, Eq)]
pub struct Route {
    pub anchored: usize,
    pub parts: Vec<String>,
}

/// A path as contracts see it: how many of its components are its root,
/// and the components, each as its characters.
pub struct RouteModel {
    pub anchored: nat,
    pub parts: Seq<Seq<char>>,
}

impl View for Route {
    type V = RouteModel;

    open spec fn view(&self) -> RouteModel {
        RouteModel { anchored: self.anchored as nat, parts: components(self.parts@) }
    }
}

/// The components of `path`, each as its characters.
pub open spec fn components(path: Seq<String>) -> Seq<Seq<char>> {
    path.map_values(|part: String| part@)
}

/// `path` without its last component. A path that ends in its root, and
/// the empty path, have no parent and stay as they are.
pub open spec fn parent(path: RouteModel) -> RouteModel {
    if path.parts.len() <= path.anchored {
        path
    } else {
        RouteModel { anchored: path.anchored, parts: path.parts.drop_last() }
    }
}

/// Whether the last component of `path` is a directory of the name `name`.
/// The root is no such directory, whatever its text.
pub open spec fn ends_in(path: RouteModel, name: Seq<char>) -> bool {
    path.parts.len() > path.anchored && path.parts.last() == name
}

/// The directory that holds the binaries, given the path of a running
/// executable: its directory, or the directory above where that one is the
/// build's `deps`.
pub open spec fn binary_dir(exe: RouteModel) -> RouteModel {
    let dir = parent(exe);
    if ends_in(dir, "deps"@) {
        parent(dir)
    } else {
        dir
    }
}

/// `dir` with one more component.
pub open spec fn joined(dir: RouteModel, name: Seq<char>) -> RouteModel {
    RouteModel { anchored: dir.anchored, parts: dir.parts.push(name) }
}

/// The path of the evaluator's binary: `roc` in the configured directory, or
/// else in the directory inferred from the running executable.
pub open spec fn binary_path(configured: Option<RouteModel>, exe: Option<RouteModel>) -> Option<
    RouteModel,
> {
    match configured {
        Some(dir) => Some(joined(dir, "roc"@)),
        None => match exe {
            Some(exe) => Some(joined(binary_dir(exe), "roc"@)),
            None => None,
        },
    }
}

/// The view of an optional path.
pub open spec fn optional_route(path: Option<Route>) -> Option<RouteModel> {
    match path {
        Some(p) => Some(p@),
        None => None,
    }
}

/// Takes the last component from `path`, unless the path ends in its root.
fn ascend(path: &mut Route)
    ensures
        final(path)@ == parent(old(path)@),
{
    if path.parts.len() > path.anchored {
        path.parts.pop();
        assert(components(path.parts@) =~= components(old(path).parts@).drop_last());
    }
}

/// Works out the path of the evaluator's binary. `configured` is the
/// directory that the caller was told to use, `exe` the path of the running
/// executable; with neither there is no answer.
pub fn path_to_roc_binary(configured: Option<Route>, exe: Option<Route>) -> (r: Option<Route>)
    ensures
        optional_route(r) == binary_path(optional_route(configured), optional_route(exe)),
{
    let mut path: Route = match configured {
        Some(dir) => dir,
        None => match exe {
            Some(exe) => {
                let mut dir = exe;
                ascend(&mut dir);
                let n = dir.parts.len();
                if n > dir.anchored && same_text(dir.parts[n - 1].as_str(), "deps") {
                    ascend(&mut dir);
                }
                dir
            },
            None => {
                return None;
            },
        },
    };
    let ghost dir = path@;
    path.parts.push(String::from_str("roc"));
    assert(components(path.parts@) =~= dir.parts.push("roc"@));
    Some(path)
}

} // verus!
