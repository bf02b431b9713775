//! Directory paths, held as their sequence of components.
//!
//! The walker and the detector reason about path components only (the last
//! component decides the working-tree rule), so a path is modelled as the
//! vector of its component names; conversion to an on-disk path happens in
//! the trusted wrappers that touch the filesystem.

use vstd::prelude::*;

verus! {

/// A directory path as the sequence of its components, root first.
#[derive(Debug, PartialEq, Eq, Hash)]
pub struct DirPath {
    components: Vec<String>,
}

impl View for DirPath {
    type V = Seq<Seq<char>>;

    closed spec fn view(&self) -> Seq<Seq<char>> {
        self.components.deep_view()
    }
}

/// The conventional name of the version-control metadata directory.
pub open spec fn git_dir_name() -> Seq<char> {
    ".git"@
}

/// Whether a path's last component is the metadata-directory name.
pub open spec fn last_is_git_dir(p: Seq<Seq<char>>) -> bool {
    p.len() > 0 && p.last() == git_dir_name()
}

/// A component-wise copy of a component vector, proved view-preserving.
fn clone_components(v: &Vec<String>) -> (r: Vec<String>)
    ensures
        r.deep_view() == v.deep_view(),
{
    let mut r: Vec<String> = Vec::new();
    let mut i: usize = 0;
    while i < v.len()
        invariant
            i <= v.len(),
            r@.len() == i,
            forall|k: int| 0 <= k < i ==> r@[k]@ == v@[k]@,
        decreases v.len() - i,
    {
        let c = v[i].clone();
        r.push(c);
        i = i + 1;
    }
    proof {
        assert forall|k: int| 0 <= k < r.deep_view().len() implies r.deep_view()[k]
            == v.deep_view()[k] by {
            assert(r@[k]@ == v@[k]@);
        }
        assert(r.deep_view() =~= v.deep_view());
    }
    r
}

impl DirPath {
    /// The empty path, to be extended with `join`.
    pub fn new() -> (r: DirPath)
        ensures
            r@ == Seq::<Seq<char>>::empty(),
    {
        DirPath { components: Vec::new() }
    }

    pub fn from_components(components: Vec<String>) -> (r: DirPath)
        ensures
            r@ == components.deep_view(),
    {
        DirPath { components }
    }

    /// The path extended by one more component.
    pub fn join(&self, component: &str) -> (r: DirPath)
        ensures
            r@ == self@.push(component@),
    {
        let mut components = clone_components(&self.components);
        components.push(component.to_owned());
        proof {
            assert(components.deep_view() =~= self@.push(component@));
        }
        DirPath { components }
    }

    /// The components themselves, for the trusted wrappers that rebuild an
    /// on-disk path from them.
    pub fn components(&self) -> (r: &Vec<String>)
        ensures
            r.deep_view() == self@,
    {
        &self.components
    }

    /// Whether the last component of the path is the metadata-directory name.
    pub fn ends_with_git_dir(&self) -> (r: bool)
        ensures
            r == last_is_git_dir(self@),
    {
        if self.components.len() == 0 {
            return false;
        }
        let last = &self.components[self.components.len() - 1];
        let git: String = ".git".to_owned();
        let r = *last == git;
        proof {
            assert(self@.last() == last@);
        }
        r
    }
}

impl Clone for DirPath {
    fn clone(&self) -> (r: Self)
        ensures
            r@ == self@,
    {
        DirPath { components: clone_components(&self.components) }
    }
}

} // verus!
