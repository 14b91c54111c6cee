//! The requests that are running, each with the handle of its task.

use crate::event::BluerRequest;
use vstd::prelude::*;

verus! {

/// The running requests. `H` is the handle of a task.
pub struct ActiveRequests<H> {
    entries: Vec<(BluerRequest, H)>,
}

impl<H> View for ActiveRequests<H> {
    type V = Map<BluerRequest, H>;

    closed spec fn view(&self) -> Map<BluerRequest, H> {
        Map::new(
            |request: BluerRequest| holds(self.entries@, request),
            |request: BluerRequest| self.entries@[place_of(self.entries@, request)].1,
        )
    }
}

spec fn holds<H>(entries: Seq<(BluerRequest, H)>, request: BluerRequest) -> bool {
    exists|i: int| 0 <= i < entries.len() && (#[trigger] entries[i]).0 == request
}

spec fn place_of<H>(entries: Seq<(BluerRequest, H)>, request: BluerRequest) -> int {
    choose|i: int| 0 <= i < entries.len() && (#[trigger] entries[i]).0 == request
}

impl<H> ActiveRequests<H> {
    /// No request is held twice.
    #[verifier::type_invariant]
    spec fn well_formed(self) -> bool {
        forall|i: int, j: int|
            0 <= i < j < self.entries@.len() ==> (#[trigger] self.entries@[i]).0 != (
            #[trigger] self.entries@[j]).0
    }

    proof fn lemma_entry(self, i: int)
        requires
            self.well_formed(),
            0 <= i < self.entries@.len(),
        ensures
            self@.dom().contains(self.entries@[i].0),
            self@[self.entries@[i].0] == self.entries@[i].1,
    {
        let j = place_of(self.entries@, self.entries@[i].0);
        assert(j == i);
    }

    /// No request is running.
    pub fn new() -> (active: Self)
        ensures
            active@ == Map::<BluerRequest, H>::empty(),
    {
        let active = ActiveRequests { entries: Vec::new() };
        assert(active@ =~= Map::<BluerRequest, H>::empty());
        active
    }

    fn position(&self, request: &BluerRequest) -> (at: Option<usize>)
        ensures
            match at {
                Some(i) => i < self.entries@.len() && self.entries@[i as int].0 == *request,
                None => !holds(self.entries@, *request),
            },
    {
        let mut i: usize = 0;
        while i < self.entries.len()
            invariant
                i <= self.entries@.len(),
                forall|j: int| 0 <= j < i ==> (#[trigger] self.entries@[j]).0 != *request,
            decreases self.entries@.len() - i,
        {
            if self.entries[i].0 == *request {
                return Some(i);
            }
            i += 1;
        }
        None
    }

    /// The handle of a running request.
    pub fn get(&self, request: &BluerRequest) -> (handle: Option<&H>)
        ensures
            match handle {
                Some(handle) => self@.dom().contains(*request) && self@[*request] == *handle,
                None => !self@.dom().contains(*request),
            },
    {
        match self.position(request) {
            Some(i) => {
                proof {
                    use_type_invariant(self);
                    self.lemma_entry(i as int);
                }
                Some(&self.entries[i].1)
            },
            None => None,
        }
    }

    /// Forgets a request, and gives back its handle.
    pub fn remove(&mut self, request: &BluerRequest) -> (handle: Option<H>)
        ensures
            final(self)@ == old(self)@.remove(*request),
            handle == if old(self)@.dom().contains(*request) {
                Some(old(self)@[*request])
            } else {
                None
            },
    {
        match self.position(request) {
            Some(i) => {
                let ghost before = *self;
                proof {
                    use_type_invariant(&*self);
                    before.lemma_entry(i as int);
                }
                let mut entries: Vec<(BluerRequest, H)> = Vec::new();
                std::mem::swap(&mut self.entries, &mut entries);
                let (_request, handle) = entries.remove(i);
                proof {
                    let at = i as int;
                    let now = entries@;
                    let was = before.entries@;
                    assert forall|j: int, k: int| 0 <= j < k < now.len() implies (
                    #[trigger] now[j]).0 != (#[trigger] now[k]).0 by {
                        assert(now[j] == was[if j < at { j } else { j + 1 }]);
                        assert(now[k] == was[if k < at { k } else { k + 1 }]);
                    }
                }
                self.entries = entries;
                proof {
                    let at = i as int;
                    let now = self.entries@;
                    let was = before.entries@;
                    assert forall|r: BluerRequest| self@.dom().contains(r) == before@.remove(
                        *request,
                    ).dom().contains(r) by {
                        if holds(now, r) {
                            let j = place_of(now, r);
                            assert(now[j] == was[if j < at { j } else { j + 1 }]);
                        }
                        if holds(was, r) && r != *request {
                            let j = place_of(was, r);
                            assert(was[j] == now[if j < at { j } else { j - 1 }]);
                        }
                    }
                    assert forall|r: BluerRequest| #[trigger] self@.dom().contains(
                        r,
                    ) implies self@[r] == before@.remove(*request)[r] by {
                        let j = place_of(now, r);
                        let k = if j < at { j } else { j + 1 };
                        assert(now[j] == was[k]);
                        self.lemma_entry(j);
                        before.lemma_entry(k);
                    }
                    assert(self@ =~= before@.remove(*request));
                }
                Some(handle)
            },
            None => {
                assert(self@ =~= old(self)@.remove(*request));
                None
            },
        }
    }

    /// Notes a running request. The handle that it had before is given back.
    pub fn insert(&mut self, request: BluerRequest, handle: H) -> (previous: Option<H>)
        ensures
            final(self)@ == old(self)@.insert(request, handle),
            previous == if old(self)@.dom().contains(request) {
                Some(old(self)@[request])
            } else {
                None
            },
    {
        let previous = self.remove(&request);
        let ghost before = *self;
        proof {
            use_type_invariant(&*self);
            assert(!before@.dom().contains(request));
            assert(!holds(before.entries@, request));
        }
        let mut entries: Vec<(BluerRequest, H)> = Vec::new();
        std::mem::swap(&mut self.entries, &mut entries);
        entries.push((request, handle));
        self.entries = entries;
        proof {
            let now = self.entries@;
            let was = before.entries@;
            let last: int = was.len() as int;
            assert(now[last] == (request, handle));
            assert forall|r: BluerRequest| self@.dom().contains(r) == before@.insert(
                request,
                handle,
            ).dom().contains(r) by {
                if holds(was, r) {
                    assert(now[place_of(was, r)].0 == r);
                }
                if holds(now, r) && r != request {
                    assert(was[place_of(now, r)].0 == r);
                }
            }
            assert forall|r: BluerRequest| #[trigger] self@.dom().contains(r) implies self@[r]
                == before@.insert(request, handle)[r] by {
                let j = place_of(now, r);
                self.lemma_entry(j);
                if j < last {
                    before.lemma_entry(j);
                }
            }
            assert(self@ =~= before@.insert(request, handle));
            assert(self@ =~= old(self)@.insert(request, handle));
        }
        previous
    }
}

/// A request that was noted and then forgotten is not found again, and every
/// other request is found as before.
pub proof fn law_forgotten_request<H>(
    active: Map<BluerRequest, H>,
    request: BluerRequest,
    handle: H,
    other: BluerRequest,
)
    ensures
        active.insert(request, handle)[request] == handle,
        ({
            let after = active.insert(request, handle).remove(request);
            &&& !after.dom().contains(request)
            &&& other != request ==> {
                &&& after.dom().contains(other) == active.dom().contains(other)
                &&& after[other] == active[other]
            }
        }),
{
}

} // verus!
