//! Sets of safe paths.

use vstd::prelude::*;
use crate::bytes::to_vec;
use crate::parts::same_texts;
use crate::path::SafePath;

verus! {

/// The components of a safe path.
pub type Destination = Seq<Seq<u8>>;

/// The path behind an optional one.
pub open spec fn optional_path(path: Option<SafePath>) -> Option<Destination> {
    match path {
        Some(path) => Some(path@),
        None => None,
    }
}

/// A set of safe paths.
#[derive(Debug)]
pub struct PathSet {
    pub list: Vec<SafePath>,
}

impl View for PathSet {
    type V = Set<Destination>;

    open spec fn view(&self) -> Set<Destination> {
        Set::new(
            |path: Destination|
                exists|i: int| 0 <= i < self.list@.len() && #[trigger] self.list@[i]@ == path,
        )
    }
}

impl PathSet {
    /// The empty set.
    pub fn new() -> (set: Self)
        ensures
            set@ == Set::<Destination>::empty(),
    {
        let set = PathSet { list: Vec::new() };
        proof {
            assert(set@ =~= Set::<Destination>::empty());
        }
        set
    }

    /// Whether a path is in the set.
    pub fn contains(&self, path: &SafePath) -> (found: bool)
        ensures
            found == self@.contains(path@),
    {
        let mut i: usize = 0;
        while i < self.list.len()
            invariant
                i <= self.list@.len(),
                forall|j: int| 0 <= j < i ==> (#[trigger] self.list@[j])@ != path@,
            decreases self.list@.len() - i,
        {
            if same_texts(self.list[i].parts.as_slice(), path.parts.as_slice()) {
                proof {
                    assert(self.list@[i as int]@ == path@);
                }
                return true;
            }
            i += 1;
        }
        false
    }

    /// Puts a path into the set. The result tells whether it was not in it.
    pub fn insert(&mut self, path: SafePath) -> (added: bool)
        ensures
            final(self)@ == old(self)@.insert(path@),
            added == !old(self)@.contains(path@),
    {
        if self.contains(&path) {
            proof {
                assert(self@ =~= old(self)@.insert(path@));
            }
            return false;
        }
        let ghost before = self.list@;
        self.list.push(path);
        proof {
            let more = self.list@;
            assert forall|other: Destination| #[trigger] self@.contains(other) == old(
                self,
            )@.insert(path@).contains(other) by {
                if old(self)@.contains(other) {
                    let i = choose|i: int| 0 <= i < before.len() && #[trigger] before[i]@ == other;
                    assert(more[i]@ == other);
                }
                if other == path@ {
                    assert(more[before.len() as int]@ == other);
                }
                if self@.contains(other) {
                    let i = choose|i: int| 0 <= i < more.len() && #[trigger] more[i]@ == other;
                    if i < before.len() {
                        assert(before[i]@ == other);
                    }
                }
            }
            assert(self@ =~= old(self)@.insert(path@));
        }
        true
    }
}

/// The same path again.
pub fn copy_path(path: &SafePath) -> (copy: SafePath)
    ensures
        copy@ == path@,
{
    let mut parts: Vec<Vec<u8>> = Vec::new();
    let mut i: usize = 0;
    while i < path.parts.len()
        invariant
            i <= path.parts@.len(),
            parts@.len() == i,
            forall|j: int| 0 <= j < i ==> (#[trigger] parts@[j])@ == path.parts@[j]@,
        decreases path.parts@.len() - i,
    {
        parts.push(to_vec(path.parts[i].as_slice()));
        i += 1;
    }
    let copy = SafePath { parts };
    proof {
        assert(copy@ =~= path@);
    }
    copy
}

} // verus!
