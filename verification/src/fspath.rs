//! File-system paths as sequences of components, and the platform they live on.
use vstd::prelude::*;

verus! {

/// The operating systems the desktop shell is built for.
#[derive(Clone, Copy, PartialEq, Eq, Structural)]
pub enum Os {
    MacOs,
    Windows,
    Linux,
}

/// The processor architectures the desktop shell is built for.
#[derive(Clone, Copy, PartialEq, Eq, Structural)]
pub enum Arch {
    Aarch64,
    X86_64,
}

/// A path, component by component (the root, when there is one, is the first
/// component).  Joining a relative name appends a component; the parent drops
/// the last one.
pub struct FsPath {
    pub parts: Vec<String>,
}

impl View for FsPath {
    type V = Seq<Seq<char>>;

    open spec fn view(&self) -> Seq<Seq<char>> {
        self.parts.deep_view()
    }
}

impl FsPath {
    /// A path from its components.
    pub fn from_parts(parts: Vec<String>) -> (r: FsPath)
        ensures
            r@ == parts.deep_view(),
    {
        FsPath { parts }
    }

    /// A copy of this path.
    pub fn duplicate(&self) -> (r: FsPath)
        ensures
            r@ == self@,
    {
        let parts = self.parts.clone();
        proof {
            assert(parts.deep_view() =~= self.parts.deep_view()) by {
                assert forall|k: int| 0 <= k < parts.len() implies parts.deep_view()[k]
                    == self.parts.deep_view()[k] by {
                    assert(parts@[k] == self.parts@[k]);
                }
            }
        }
        FsPath { parts }
    }

    /// `self` with the relative component `name` appended (`Path::join`).
    pub fn join(&self, name: &str) -> (r: FsPath)
        ensures
            r@ == self@.push(name@),
    {
        let mut p = self.duplicate();
        let ghost before = p@;
        p.parts.push(name.to_owned());
        proof {
            assert(p@ =~= before.push(name@));
        }
        p
    }

    /// The parent directory: all components but the last (`None` for an empty path).
    pub fn parent(&self) -> (r: Option<FsPath>)
        ensures
            self@.len() == 0 ==> r is None,
            self@.len() > 0 ==> (r matches Some(p) && p@ == self@.drop_last()),
    {
        if self.parts.len() == 0 {
            return None;
        }
        let mut p = self.duplicate();
        let ghost before = p@;
        p.parts.pop();
        proof {
            assert(p@ =~= before.drop_last());
        }
        Some(p)
    }

    /// Whether `prefix` is a leading run of this path's components (`Path::starts_with`).
    pub fn starts_with(&self, prefix: &FsPath) -> (r: bool)
        ensures
            r == (prefix@.len() <= self@.len() && self@.take(prefix@.len() as int) == prefix@),
    {
        if prefix.parts.len() > self.parts.len() {
            return false;
        }
        let mut i: usize = 0;
        while i < prefix.parts.len()
            invariant
                prefix@.len() <= self@.len(),
                i <= prefix@.len(),
                forall|k: int| 0 <= k < i ==> self@[k] == prefix@[k],
            decreases prefix.parts.len() - i,
        {
            if self.parts[i] != prefix.parts[i] {
                proof {
                    assert(self@.take(prefix@.len() as int)[i as int] != prefix@[i as int]);
                }
                return false;
            }
            proof {
                assert(self@[i as int] == self.parts@[i as int]@);
                assert(prefix@[i as int] == prefix.parts@[i as int]@);
            }
            i += 1;
        }
        proof {
            assert(self@.take(prefix@.len() as int) =~= prefix@);
        }
        true
    }
}

} // verus!
