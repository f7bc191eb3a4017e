//! Discovered module directories.

use crate::paths::{components, is_relative, joined_path, strip_path_prefix, stripped_path};
use vstd::prelude::*;

verus! {

/// Classification of a module directory.
#[derive(Debug, Clone, Copy, PartialEq, Eq, Structural)]
pub enum ModuleKind {
    /// Has backend or state signals: deployable, shown by default.
    Root,
    /// Only has `.tf` files: a reusable library.
    Library,
}

/// A discovered module directory.
#[derive(Debug)]
pub struct Module {
    /// Absolute path to the module directory.
    pub path: String,
    /// Human-friendly name: the path relative to the discovery root.
    pub display_name: String,
    pub kind: ModuleKind,
}

/// The name shown for a module at `path`: what is left of the path below the
/// root, or the whole path where it does not lie below it.
pub open spec fn shown_name(path: Seq<char>, below_root: Option<Seq<char>>) -> Seq<char> {
    match below_root {
        Some(rest) => rest,
        None => path,
    }
}

impl Module {
    /// The module at `path`, named relative to `root`.
    pub fn new(path: String, root: &str, kind: ModuleKind) -> (r: Self)
        ensures
            r.path == path,
            r.display_name@ == shown_name(path@, stripped_path(path@, root@)),
            components(root@).is_prefix_of(components(path@)) ==> components(
                joined_path(root@, r.display_name@),
            ) == components(path@),
            components(root@).is_prefix_of(components(path@)) && components(root@).len() > 0
                ==> is_relative(r.display_name@),
            !components(root@).is_prefix_of(components(path@)) ==> r.display_name@ == path@,
            r.kind == kind,
    {
        let below = strip_path_prefix(path.as_str(), root);
        Module::named(path, below, kind)
    }

    /// The module at `path` whose part below the discovery root is `below`.
    pub fn named(path: String, below: Option<String>, kind: ModuleKind) -> (r: Self)
        ensures
            r.path == path,
            r.display_name@ == shown_name(
                path@,
                match below {
                    Some(t) => Some(t@),
                    None => None,
                },
            ),
            r.kind == kind,
    {
        let display_name = match below {
            Some(rest) => rest,
            None => path.clone(),
        };
        Module { path, display_name, kind }
    }

    /// Whether the module is deployable.
    pub fn is_root(&self) -> (r: bool)
        ensures
            r == (self.kind == ModuleKind::Root),
    {
        self.kind == ModuleKind::Root
    }
}

impl Clone for Module {
    fn clone(&self) -> (r: Self)
        ensures
            r == *self,
    {
        Module {
            path: self.path.clone(),
            display_name: self.display_name.clone(),
            kind: self.kind,
        }
    }
}

} // verus!
