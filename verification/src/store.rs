//! The repository store's resolution policy: where on disk the repository a
//! request names is expected, in single- and in multi-repository mode.

use vstd::prelude::*;

verus! {

/// The store policy that hands each request its repository. In
/// single-repository mode the one configured location serves every request
/// and the request's repository name is ignored; in multi-repository mode
/// the name is resolved against the configured root directory.
pub struct UnwrapRepo {
    pub root: String,
    pub single: bool,
}

/// The location the store opens for a request: the configured root itself in
/// single-repository mode, the name joined under the root otherwise.
pub open spec fn locate_spec(root: Seq<char>, single: bool, name: Seq<char>) -> Seq<char> {
    if single {
        root
    } else {
        root + "/"@ + name
    }
}

impl UnwrapRepo {
    /// A store over the given root directory.
    pub fn new(root: String, single: bool) -> (s: Self)
        ensures
            s.root == root,
            s.single == single,
    {
        UnwrapRepo { root, single }
    }

    /// The on-disk location to open for the repository a request names.
    /// Whether that location exists and opens as a repository is the host's
    /// to find out; a failure there is the request's `RepositoryNotFound`.
    pub fn locate(&self, name: &str) -> (r: String)
        ensures
            r@ == locate_spec(self.root@, self.single, name@),
    {
        if self.single {
            return self.root.clone();
        }
        let mut r = self.root.clone();
        r.append("/");
        r.append(name);
        r
    }
}

} // verus!
