//! Portals: content handed in at one place of the tree and rendered at
//! another. The registry maps each open portal's id to its current content.
use vstd::prelude::*;
use std::collections::HashMap;

verus! {

broadcast use vstd::std_specs::hash::group_hash_axioms;

/// The id of a portal.
#[derive(Clone, Copy, Debug, PartialEq, Eq, Structural)]
pub struct PortalId(pub usize);

/// The open portals and their content, and the next id to hand out.
pub struct PortalRegistry<T> {
    next_id: usize,
    portals: HashMap<usize, T>,
}

impl<T> PortalRegistry<T> {
    /// The content of each open portal, by id.
    pub closed spec fn contents(&self) -> Map<usize, T> {
        self.portals@
    }

    /// The id the next portal gets.
    pub closed spec fn next(&self) -> usize {
        self.next_id
    }

    /// Every open portal's id was handed out before, so a new id is never
    /// one in use.
    #[verifier::type_invariant]
    closed spec fn wf(&self) -> bool {
        forall|id: usize| #[trigger] self.portals@.contains_key(id) ==> id < self.next_id
    }

    /// No portal yet.
    pub fn new() -> (registry: Self)
        ensures
            registry.contents() == Map::<usize, T>::empty(),
            registry.next() == 0,
    {
        PortalRegistry { next_id: 0, portals: HashMap::new() }
    }

    /// The id the next portal gets.
    pub fn next_id(&self) -> (id: usize)
        ensures
            id == self.next(),
    {
        self.next_id
    }

    /// Open a portal holding `empty`: it gets the next id, never one in use.
    pub fn open_portal(&mut self, empty: T) -> (id: PortalId)
        requires
            old(self).next() < usize::MAX,
        ensures
            id.0 == old(self).next(),
            !old(self).contents().contains_key(id.0),
            final(self).contents() == old(self).contents().insert(id.0, empty),
            final(self).next() == old(self).next() + 1,
    {
        proof {
            use_type_invariant(&*self);
        }
        let id = self.next_id;
        self.next_id = id + 1;
        let mut portals: HashMap<usize, T> = HashMap::new();
        std::mem::swap(&mut portals, &mut self.portals);
        portals.insert(id, empty);
        self.portals = portals;
        PortalId(id)
    }

    /// Close a portal: its content is gone.
    pub fn close_portal(&mut self, id: PortalId)
        ensures
            final(self).contents() == old(self).contents().remove(id.0),
            final(self).next() == old(self).next(),
    {
        proof {
            use_type_invariant(&*self);
        }
        let mut portals: HashMap<usize, T> = HashMap::new();
        std::mem::swap(&mut portals, &mut self.portals);
        portals.remove(&id.0);
        self.portals = portals;
    }

    /// Hand `content` in through an open portal; a closed or unknown
    /// portal takes nothing.
    pub fn fill(&mut self, id: PortalId, content: T)
        ensures
            final(self).contents() == if old(self).contents().contains_key(id.0) {
                old(self).contents().insert(id.0, content)
            } else {
                old(self).contents()
            },
            final(self).next() == old(self).next(),
    {
        proof {
            use_type_invariant(&*self);
        }
        if self.portals.contains_key(&id.0) {
            let mut portals: HashMap<usize, T> = HashMap::new();
            std::mem::swap(&mut portals, &mut self.portals);
            portals.insert(id.0, content);
            self.portals = portals;
        }
    }

    /// What a portal renders where it comes out: its current content, or
    /// nothing for a closed or unknown portal.
    pub fn content(&self, id: PortalId) -> (content: Option<&T>)
        ensures
            content == if self.contents().contains_key(id.0) {
                Some(&self.contents()[id.0])
            } else {
                None
            },
    {
        self.portals.get(&id.0)
    }
}

/// What comes out of a portal is what was last handed in through it, and
/// handing content in through one portal leaves every other portal as it
/// was. (`after` is `before` once `fill(id, content)` has run on it.)
pub proof fn lemma_fill_then_content<T>(
    before: PortalRegistry<T>,
    after: PortalRegistry<T>,
    id: PortalId,
    other: PortalId,
    content: T,
)
    requires
        before.contents().contains_key(id.0),
        after.contents() == (if before.contents().contains_key(id.0) {
            before.contents().insert(id.0, content)
        } else {
            before.contents()
        }),
        other.0 != id.0,
    ensures
        after.contents().contains_key(id.0) && after.contents()[id.0] == content,
        after.contents().contains_key(other.0) == before.contents().contains_key(other.0),
        before.contents().contains_key(other.0) ==> after.contents()[other.0] == before.contents()[other.0],
{
}

} // verus!
