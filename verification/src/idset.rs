//! A set of application identities.

use crate::apps::AppId;
use vstd::prelude::*;

verus! {

/// A finite set of application identities.
#[derive(Debug)]
pub struct IdSet {
    pub ids: Vec<AppId>,
}

/// The identity `k` is among the first `n` of `ids`.
pub open spec fn among(ids: Seq<AppId>, n: int, k: Seq<char>) -> bool {
    exists|i: int| 0 <= i < n && i < ids.len() && #[trigger] ids[i]@ == k
}

impl View for IdSet {
    type V = Set<Seq<char>>;

    open spec fn view(&self) -> Set<Seq<char>> {
        Set::new(|k: Seq<char>| among(self.ids@, self.ids@.len() as int, k))
    }
}

pub proof fn lemma_among_step(ids: Seq<AppId>, n: int, k: Seq<char>)
    requires
        0 <= n < ids.len(),
    ensures
        among(ids, n + 1, k) == (among(ids, n, k) || ids[n]@ == k),
{
    if among(ids, n + 1, k) {
        let i = choose|i: int| 0 <= i < n + 1 && i < ids.len() && #[trigger] ids[i]@ == k;
        if i < n {
            assert(among(ids, n, k));
        }
    }
    if among(ids, n, k) {
        let i = choose|i: int| 0 <= i < n && i < ids.len() && #[trigger] ids[i]@ == k;
        assert(ids[i]@ == k);
    }
    if ids[n]@ == k {
        assert(among(ids, n + 1, k));
    }
}

pub proof fn lemma_among_push(ids: Seq<AppId>, id: AppId, k: Seq<char>)
    ensures
        among(ids.push(id), ids.len() as int + 1, k) == (among(ids, ids.len() as int, k) || id@ == k),
{
    let more = ids.push(id);
    lemma_among_step(more, ids.len() as int, k);
    if among(more, ids.len() as int, k) {
        let i = choose|i: int| 0 <= i < ids.len() && i < more.len() && #[trigger] more[i]@ == k;
        assert(ids[i]@ == k);
    }
    if among(ids, ids.len() as int, k) {
        let i = choose|i: int| 0 <= i < ids.len() && i < ids.len() && #[trigger] ids[i]@ == k;
        assert(more[i]@ == k);
    }
}

impl IdSet {
    /// The empty set.
    pub fn new() -> (r: IdSet)
        ensures
            r@ == Set::<Seq<char>>::empty(),
    {
        let r = IdSet { ids: Vec::new() };
        assert(r@ =~= Set::<Seq<char>>::empty());
        r
    }

    /// Whether an identity is in the set.
    pub fn contains(&self, id: &AppId) -> (r: bool)
        ensures
            r == self@.contains(id@),
    {
        let mut i: usize = 0;
        while i < self.ids.len()
            invariant
                i <= self.ids.len(),
                !among(self.ids@, i as int, id@),
            decreases self.ids.len() - i,
        {
            proof {
                lemma_among_step(self.ids@, i as int, id@);
            }
            if self.ids[i].same(id) {
                proof {
                    assert(among(self.ids@, self.ids@.len() as int, id@));
                }
                return true;
            }
            i += 1;
        }
        false
    }

    /// Puts an identity into the set.
    pub fn insert(&mut self, id: AppId)
        ensures
            final(self)@ == old(self)@.insert(id@),
    {
        let ghost before = self.ids@;
        let ghost key = id@;
        if !self.contains(&id) {
            self.ids.push(id);
            assert forall|k: Seq<char>| #[trigger] self@.contains(k) == old(self)@.insert(
                key,
            ).contains(k) by {
                lemma_among_push(before, id, k);
            }
        }
        assert(self@ =~= old(self)@.insert(key));
    }

    /// Takes an identity out of the set.
    pub fn remove(&mut self, id: &AppId)
        ensures
            final(self)@ == old(self)@.remove(id@),
    {
        let ghost before = self.ids@;
        let mut ids: Vec<AppId> = Vec::new();
        core::mem::swap(&mut ids, &mut self.ids);
        let mut kept: Vec<AppId> = Vec::new();
        for other in it: ids
            invariant
                it.seq() == before,
                forall|k: Seq<char>|
                    #[trigger] among(kept@, kept@.len() as int, k) == (among(before, it.index(), k)
                        && k != id@),
        {
            let ghost at = it.index();
            let ghost sofar = kept@;
            if !other.same(id) {
                kept.push(other);
                assert forall|k: Seq<char>| #[trigger] among(kept@, kept@.len() as int, k) == (among(
                    before,
                    at + 1,
                    k,
                ) && k != id@) by {
                    lemma_among_push(sofar, other, k);
                    lemma_among_step(before, at, k);
                    assert(among(sofar, sofar.len() as int, k) == (among(before, at, k) && k != id@));
                }
            } else {
                assert forall|k: Seq<char>| #[trigger] among(kept@, kept@.len() as int, k) == (among(
                    before,
                    at + 1,
                    k,
                ) && k != id@) by {
                    lemma_among_step(before, at, k);
                    assert(among(sofar, sofar.len() as int, k) == (among(before, at, k) && k != id@));
                }
            }
        }
        self.ids = kept;
        assert(self@ =~= old(self)@.remove(id@));
    }
}

} // verus!
