//! Lock identities that this process owns or waits for.

use vstd::prelude::*;

use crate::path::LockPath;

verus! {

/// A set of lock identities, each held once.
#[derive(Debug)]
pub struct ReservedIdentities {
    paths: Vec<LockPath>,
}

/// Some path in the sequence has these bytes.
pub open spec fn holds_path(paths: Seq<LockPath>, identity: Seq<u8>) -> bool {
    exists|i: int| 0 <= i < paths.len() && (#[trigger] paths[i])@ == identity
}

impl View for ReservedIdentities {
    type V = Set<Seq<u8>>;

    closed spec fn view(&self) -> Set<Seq<u8>> {
        Set::new(|identity: Seq<u8>| holds_path(self.paths@, identity))
    }
}

impl ReservedIdentities {
    /// Nothing occurs twice.
    #[verifier::type_invariant]
    spec fn distinct(self) -> bool {
        forall|i: int, j: int|
            0 <= i < j < self.paths@.len() ==> (#[trigger] self.paths@[i])@ != (
            #[trigger] self.paths@[j])@
    }

    /// No identity is reserved.
    pub fn new() -> (reserved: ReservedIdentities)
        ensures
            reserved@ == Set::<Seq<u8>>::empty(),
    {
        let reserved = ReservedIdentities { paths: Vec::new() };
        assert(reserved@ =~= Set::<Seq<u8>>::empty());
        reserved
    }

    /// Position of an identity, where it is reserved.
    fn position(&self, identity: &LockPath) -> (found: Option<usize>)
        ensures
            match found {
                Some(at) => at < self.paths@.len() && self.paths@[at as int]@ == identity@,
                None => !holds_path(self.paths@, identity@),
            },
    {
        let mut i: usize = 0;
        while i < self.paths.len()
            invariant
                i <= self.paths.len(),
                forall|k: int| 0 <= k < i ==> (#[trigger] self.paths@[k])@ != identity@,
            decreases self.paths.len() - i,
        {
            if self.paths[i].same_as(identity) {
                return Some(i);
            }
            i += 1;
        }
        None
    }

    pub fn contains(&self, identity: &LockPath) -> (reserved: bool)
        ensures
            reserved == self@.contains(identity@),
    {
        match self.position(identity) {
            Some(at) => {
                assert(self.paths@[at as int]@ == identity@);
                true
            },
            None => false,
        }
    }

    /// Reserve an identity; `false` where it was reserved already.
    pub fn insert(&mut self, identity: LockPath) -> (fresh: bool)
        ensures
            fresh == !old(self)@.contains(identity@),
            final(self)@ == old(self)@.insert(identity@),
    {
        if self.contains(&identity) {
            assert(self@ =~= old(self)@.insert(identity@));
            return false;
        }
        proof {
            use_type_invariant(&*self);
        }
        let ghost before = self.paths@;
        let ghost bytes = identity@;
        let mut paths: Vec<LockPath> = Vec::new();
        std::mem::swap(&mut paths, &mut self.paths);
        paths.push(identity);
        self.paths = paths;
        proof {
            assert forall|other: Seq<u8>| holds_path(self.paths@, other) == (holds_path(
                before,
                other,
            ) || other == bytes) by {
                if holds_path(before, other) {
                    let i = choose|i: int| 0 <= i < before.len() && (#[trigger] before[i])@ == other;
                    assert(self.paths@[i]@ == other);
                }
                if other == bytes {
                    assert(self.paths@[before.len() as int]@ == other);
                }
                if holds_path(self.paths@, other) {
                    let i = choose|i: int|
                        0 <= i < self.paths@.len() && (#[trigger] self.paths@[i])@ == other;
                    if i < before.len() {
                        assert(before[i]@ == other);
                    }
                }
            }
            assert(self@ =~= old(self)@.insert(bytes));
        }
        true
    }

    /// Free an identity; nothing happens where it is not reserved.
    pub fn remove(&mut self, identity: &LockPath)
        ensures
            final(self)@ == old(self)@.remove(identity@),
    {
        match self.position(identity) {
            Some(at) => {
                proof {
                    use_type_invariant(&*self);
                }
                let ghost before = self.paths@;
                let mut paths: Vec<LockPath> = Vec::new();
                std::mem::swap(&mut paths, &mut self.paths);
                paths.remove(at);
                assert(paths@ == before.remove(at as int));
                assert(forall|i: int, j: int|
                    0 <= i < j < paths@.len() ==> (#[trigger] paths@[i])@ != (
                    #[trigger] paths@[j])@);
                self.paths = paths;
                proof {
                    assert forall|other: Seq<u8>| holds_path(self.paths@, other) == (holds_path(
                        before,
                        other,
                    ) && other != identity@) by {
                        if holds_path(before, other) && other != identity@ {
                            let i = choose|i: int|
                                0 <= i < before.len() && (#[trigger] before[i])@ == other;
                            if i < at {
                                assert(self.paths@[i]@ == other);
                            } else {
                                assert(self.paths@[i - 1]@ == other);
                            }
                        }
                        if holds_path(self.paths@, other) {
                            let i = choose|i: int|
                                0 <= i < self.paths@.len() && (#[trigger] self.paths@[i])@ == other;
                            if i < at {
                                assert(before[i]@ == other);
                            } else {
                                assert(before[i + 1]@ == other);
                            }
                        }
                    }
                    assert(self@ =~= old(self)@.remove(identity@));
                }
            },
            None => {
                assert(self@ =~= old(self)@.remove(identity@));
            },
        }
    }
}

} // verus!
