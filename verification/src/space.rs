//! A lapse space: the directory that holds the requests, the environments and the
//! scripts, and the `.lapse` directory with the logs and the state.
use vstd::prelude::*;

verus! {

/// A lapse space, by the path of its directory.
#[derive(Clone, Debug)]
pub struct Lapse {
    path: String,
}

/// One step of looking for a space from a directory up.
pub enum OpenStep {
    /// The directory holds `.lapse`: this is the space.
    Found(Lapse),
    /// It does not: look in this parent directory.
    Climb(String),
    /// It does not, and it has no parent: there is no space.
    NotFound,
}

impl Lapse {
    /// The path of the space's directory.
    pub closed spec fn dir(&self) -> Seq<char> {
        self.path@
    }

    /// The space whose directory is `path`.
    pub fn at(path: String) -> (l: Lapse)
        ensures
            l.dir() == path@,
    {
        Lapse { path }
    }

    /// Opening a space from the directory `path`: it is the space when it holds a
    /// `.lapse` directory (`has_space_dir`); otherwise the search goes on in its
    /// parent (`parent`), and fails at a directory without one.
    pub fn open(path: String, has_space_dir: bool, parent: Option<String>) -> (s: OpenStep)
        ensures
            has_space_dir ==> (s matches OpenStep::Found(l) && l.dir() == path@),
            !has_space_dir && parent is Some ==> s == OpenStep::Climb(parent->0),
            !has_space_dir && parent is None ==> s is NotFound,
    {
        if has_space_dir {
            OpenStep::Found(Lapse { path })
        } else {
            match parent {
                Some(p) => OpenStep::Climb(p),
                None => OpenStep::NotFound,
            }
        }
    }

    /// The path of the space's directory.
    pub fn path(&self) -> (r: &String)
        ensures
            r@ == self.dir(),
    {
        &self.path
    }

    /// The same space.
    pub fn duplicate(&self) -> (r: Lapse)
        ensures
            r.dir() == self.dir(),
    {
        Lapse { path: self.path.clone() }
    }
}

} // verus!
