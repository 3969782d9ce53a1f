//! The registry of active pointers (by pointer id) that drag interactions
//! read positions from.
use vstd::prelude::*;

use crate::seq_search::{first_index, lemma_first_index_is, lemma_first_index_props};

verus! {

/// One tracked pointer and its last known position.
#[derive(Clone, Copy, Debug, PartialEq)]
pub struct Pointer<P> {
    /// The pointer id reported by the platform.
    pub id: i32,
    /// The pointer's last known position.
    pub position: P,
}

/// The pointers currently down, each id at most once, in the order they
/// went down. `P` is the position type.
pub struct PointerRegistry<P> {
    pointers: Vec<Pointer<P>>,
}

/// The first pointer in `pointers` with id `id`, as a position.
pub open spec fn pointer_with_id<P>(pointers: Seq<Pointer<P>>, id: i32) -> int {
    first_index(pointers, |p: Pointer<P>| p.id == id)
}

/// No pointer id occurs twice.
pub open spec fn ids_distinct<P>(pointers: Seq<Pointer<P>>) -> bool {
    forall|i: int, j: int| 0 <= i < j < pointers.len() ==> pointers[i].id != pointers[j].id
}

/// The registry as a map from pointer id to position.
pub open spec fn positions_of<P>(pointers: Seq<Pointer<P>>) -> Map<i32, P> {
    Map::new(
        |id: i32| pointer_with_id(pointers, id) < pointers.len(),
        |id: i32| pointers[pointer_with_id(pointers, id)].position,
    )
}

/// The pointers after `upsert_pointer`: the entry with that id moves to
/// `position`, or a new entry is appended.
pub open spec fn upserted<P>(pointers: Seq<Pointer<P>>, id: i32, position: P) -> Seq<Pointer<P>> {
    let k = pointer_with_id(pointers, id);
    if k < pointers.len() {
        pointers.update(k, Pointer { id, position })
    } else {
        pointers.push(Pointer { id, position })
    }
}

/// The pointers after `update_pointer`: the entry with that id moves to
/// `position`; an unknown id changes nothing.
pub open spec fn updated<P>(pointers: Seq<Pointer<P>>, id: i32, position: P) -> Seq<Pointer<P>> {
    let k = pointer_with_id(pointers, id);
    if k < pointers.len() {
        pointers.update(k, Pointer { id, position })
    } else {
        pointers
    }
}

/// The pointers after `remove_pointer`: every entry with that id is gone.
pub open spec fn without<P>(pointers: Seq<Pointer<P>>, id: i32) -> Seq<Pointer<P>> {
    pointers.filter(|p: Pointer<P>| p.id != id)
}

/// In a registry with distinct ids, the entry at `k` is the one found for
/// its id.
proof fn lemma_found_at<P>(pointers: Seq<Pointer<P>>, k: int)
    requires
        ids_distinct(pointers),
        0 <= k < pointers.len(),
    ensures
        pointer_with_id(pointers, pointers[k].id) == k,
{
    lemma_first_index_is(pointers, |p: Pointer<P>| p.id == pointers[k].id, k);
}

/// An id that no entry has is not found.
proof fn lemma_not_found<P>(pointers: Seq<Pointer<P>>, id: i32)
    requires
        forall|j: int| 0 <= j < pointers.len() ==> (#[trigger] pointers[j]).id != id,
    ensures
        pointer_with_id(pointers, id) == pointers.len(),
{
    lemma_first_index_is(pointers, |p: Pointer<P>| p.id == id, pointers.len() as int);
}

/// Appending a pointer with a new id adds exactly that id.
proof fn lemma_push_positions<P>(pointers: Seq<Pointer<P>>, q: Pointer<P>)
    requires
        ids_distinct(pointers.push(q)),
    ensures
        positions_of(pointers.push(q)) == positions_of(pointers).insert(q.id, q.position),
{
    let r = pointers.push(q);
    assert(ids_distinct(pointers)) by {
        assert forall|a: int, b: int| 0 <= a < b < pointers.len() implies pointers[a].id != pointers[b].id by {
            assert(r[a] == pointers[a] && r[b] == pointers[b]);
        }
    }
    assert forall|x: i32| #![trigger positions_of(r).contains_key(x)]
        positions_of(r).contains_key(x) == positions_of(pointers).insert(q.id, q.position).contains_key(x)
        && (positions_of(r).contains_key(x) ==> positions_of(r)[x] == positions_of(pointers).insert(q.id, q.position)[x]) by {
        lemma_first_index_props(pointers, |p: Pointer<P>| p.id == x);
        let k = pointer_with_id(pointers, x);
        if x == q.id {
            lemma_found_at(r, pointers.len() as int);
        } else if k < pointers.len() {
            assert(r[k] == pointers[k]);
            lemma_found_at(r, k);
        } else {
            assert forall|j: int| 0 <= j < r.len() implies (#[trigger] r[j]).id != x by {
                if j < pointers.len() {
                    assert(r[j] == pointers[j]);
                }
            }
            lemma_not_found(r, x);
        }
    }
    assert(positions_of(r) =~= positions_of(pointers).insert(q.id, q.position));
}

/// Read-after-write: moving or starting the pointer `id` at `position` makes
/// `position` its position and leaves every other pointer as it was; ids
/// stay distinct.
pub proof fn lemma_upsert_positions<P>(pointers: Seq<Pointer<P>>, id: i32, position: P)
    requires
        ids_distinct(pointers),
    ensures
        ids_distinct(upserted(pointers, id, position)),
        positions_of(upserted(pointers, id, position)) == positions_of(pointers).insert(id, position),
{
    let k = pointer_with_id(pointers, id);
    lemma_first_index_props(pointers, |p: Pointer<P>| p.id == id);
    let r = upserted(pointers, id, position);
    assert(ids_distinct(r));
    assert forall|x: i32| #![trigger positions_of(r).contains_key(x)]
        positions_of(r).contains_key(x) == positions_of(pointers).insert(id, position).contains_key(x)
        && (positions_of(r).contains_key(x) ==> positions_of(r)[x] == positions_of(pointers).insert(id, position)[x]) by {
        lemma_first_index_props(pointers, |p: Pointer<P>| p.id == x);
        lemma_first_index_props(r, |p: Pointer<P>| p.id == x);
        let kx = pointer_with_id(pointers, x);
        if x == id {
            if k < pointers.len() {
                lemma_found_at(r, k);
            } else {
                lemma_found_at(r, pointers.len() as int);
            }
        } else if kx < pointers.len() {
            lemma_found_at(r, kx);
        } else {
            assert forall|j: int| 0 <= j < r.len() implies (#[trigger] r[j]).id != x by {
                if j < pointers.len() && j != k {
                    assert(r[j] == pointers[j]);
                }
            }
            lemma_not_found(r, x);
        }
    }
    assert(positions_of(r) =~= positions_of(pointers).insert(id, position));
}

/// Moving a tracked pointer changes only its position; an untracked id
/// changes nothing; ids stay distinct.
pub proof fn lemma_update_positions<P>(pointers: Seq<Pointer<P>>, id: i32, position: P)
    requires
        ids_distinct(pointers),
    ensures
        ids_distinct(updated(pointers, id, position)),
        positions_of(updated(pointers, id, position)) == (if positions_of(pointers).contains_key(id) {
            positions_of(pointers).insert(id, position)
        } else {
            positions_of(pointers)
        }),
{
    lemma_first_index_props(pointers, |p: Pointer<P>| p.id == id);
    if pointer_with_id(pointers, id) < pointers.len() {
        lemma_upsert_positions(pointers, id, position);
    }
}

/// Removing a pointer forgets exactly that pointer; ids stay distinct.
pub proof fn lemma_remove_positions<P>(pointers: Seq<Pointer<P>>, id: i32)
    requires
        ids_distinct(pointers),
    ensures
        ids_distinct(without(pointers, id)),
        positions_of(without(pointers, id)) == positions_of(pointers).remove(id),
    decreases pointers.len(),
{
    let r = without(pointers, id);
    if pointers.len() == 0 {
        reveal(Seq::filter);
        assert(positions_of(r) =~= positions_of(pointers).remove(id));
    } else {
        let init = pointers.drop_last();
        let last = pointers.last();
        assert(ids_distinct(init));
        lemma_remove_positions(init, id);
        reveal(Seq::filter);
        let ri = without(init, id);
        assert(r == if last.id != id { ri.push(last) } else { ri });
        assert forall|j: int| 0 <= j < init.len() implies (#[trigger] init[j]).id != last.id by {
            assert(init[j] == pointers[j]);
        }
        assert forall|j: int| 0 <= j < ri.len() implies (#[trigger] ri[j]).id != last.id by {
            assert(ri.contains(ri[j]));
            init.lemma_filter_contains_rev(|p: Pointer<P>| p.id != id, ri[j]);
        }
        assert(ids_distinct(r));
        assert(pointers == init.push(last));
        lemma_push_positions(init, last);
        if last.id != id {
            assert(ids_distinct(ri.push(last))) by {
                assert forall|a: int, b: int| 0 <= a < b < ri.push(last).len() implies ri.push(last)[a].id != ri.push(last)[b].id by {
                    if b == ri.len() {
                        assert(ri[a].id != last.id);
                    }
                }
            }
            lemma_push_positions(ri, last);
        }
        assert(positions_of(r) =~= positions_of(pointers).remove(id));
    }
}

/// Find the position of the pointer with `pointer_id`, or `pointers.len()`.
fn find_pointer<P>(pointers: &Vec<Pointer<P>>, pointer_id: i32) -> (k: usize)
    ensures
        k == pointer_with_id(pointers@, pointer_id),
{
    let mut k: usize = 0;
    while k < pointers.len() && pointers[k].id != pointer_id
        invariant
            0 <= k <= pointers@.len(),
            forall|j: int| 0 <= j < k ==> (#[trigger] pointers@[j]).id != pointer_id,
        decreases pointers@.len() - k,
    {
        k = k + 1;
    }
    proof {
        lemma_first_index_is(pointers@, |p: Pointer<P>| p.id == pointer_id, k as int);
    }
    k
}

/// Move the pointer with `pointer_id` to `position`, or start tracking it.
pub fn upsert_pointer<P>(pointers: &mut Vec<Pointer<P>>, pointer_id: i32, position: P)
    ensures
        final(pointers)@ == upserted(old(pointers)@, pointer_id, position),
{
    let k = find_pointer(pointers, pointer_id);
    if k < pointers.len() {
        pointers.set(k, Pointer { id: pointer_id, position });
    } else {
        pointers.push(Pointer { id: pointer_id, position });
    }
}

impl<P> PointerRegistry<P> {
    /// Every registry holds each pointer id at most once.
    #[verifier::type_invariant]
    closed spec fn wf(&self) -> bool {
        ids_distinct(self.pointers@)
    }
}

impl<P: Copy> PointerRegistry<P> {
    /// The registry's pointers, in the order they went down.
    pub closed spec fn pointers(&self) -> Seq<Pointer<P>> {
        self.pointers@
    }

    /// The registry as a map from pointer id to position.
    pub open spec fn view(&self) -> Map<i32, P> {
        positions_of(self.pointers())
    }

    /// An empty registry.
    pub fn new() -> (registry: Self)
        ensures
            registry.pointers() == Seq::<Pointer<P>>::empty(),
            registry@ == Map::<i32, P>::empty(),
    {
        let registry = PointerRegistry { pointers: Vec::new() };
        assert(registry@ =~= Map::<i32, P>::empty());
        registry
    }

    /// The last known position of the pointer with `pointer_id`, if it is down.
    pub fn pointer_position(&self, pointer_id: i32) -> (position: Option<P>)
        ensures
            position == (if self@.contains_key(pointer_id) { Some(self@[pointer_id]) } else { None::<P> }),
    {
        let k = find_pointer(&self.pointers, pointer_id);
        if k < self.pointers.len() {
            Some(self.pointers[k].position)
        } else {
            None
        }
    }

    /// Record a pointer going down (or moving, if it is already tracked).
    pub fn add_pointer(&mut self, pointer_id: i32, position: P)
        ensures
            final(self).pointers() == upserted(old(self).pointers(), pointer_id, position),
            final(self)@ == old(self)@.insert(pointer_id, position),
    {
        proof {
            use_type_invariant(&*self);
            lemma_upsert_positions(self.pointers@, pointer_id, position);
        }
        let mut pointers: Vec<Pointer<P>> = Vec::new();
        std::mem::swap(&mut pointers, &mut self.pointers);
        upsert_pointer(&mut pointers, pointer_id, position);
        self.pointers = pointers;
    }

    /// Record a pointer going down at `position`.
    pub fn track_pointer_down(&mut self, pointer_id: i32, position: P)
        ensures
            final(self).pointers() == upserted(old(self).pointers(), pointer_id, position),
            final(self)@ == old(self)@.insert(pointer_id, position),
    {
        self.add_pointer(pointer_id, position);
    }

    /// Move a tracked pointer; an unknown pointer id changes nothing.
    pub fn update_pointer(&mut self, pointer_id: i32, position: P)
        ensures
            final(self).pointers() == updated(old(self).pointers(), pointer_id, position),
            final(self)@ == (if old(self)@.contains_key(pointer_id) {
                old(self)@.insert(pointer_id, position)
            } else {
                old(self)@
            }),
    {
        proof {
            use_type_invariant(&*self);
            lemma_update_positions(self.pointers@, pointer_id, position);
        }
        let mut pointers: Vec<Pointer<P>> = Vec::new();
        std::mem::swap(&mut pointers, &mut self.pointers);
        let k = find_pointer(&pointers, pointer_id);
        if k < pointers.len() {
            pointers.set(k, Pointer { id: pointer_id, position });
        }
        self.pointers = pointers;
    }

    /// Stop tracking the pointer with `pointer_id`.
    pub fn remove_pointer(&mut self, pointer_id: i32)
        ensures
            final(self).pointers() == without(old(self).pointers(), pointer_id),
            final(self)@ == old(self)@.remove(pointer_id),
    {
        proof {
            use_type_invariant(&*self);
            lemma_remove_positions(self.pointers@, pointer_id);
        }
        let ghost original = self.pointers@;
        let mut kept: Vec<Pointer<P>> = Vec::new();
        let mut i: usize = 0;
        while i < self.pointers.len()
            invariant
                0 <= i <= self.pointers@.len(),
                self.pointers@ == original,
                kept@ == without(original.subrange(0, i as int), pointer_id),
            decreases self.pointers@.len() - i,
        {
            proof {
                reveal(Seq::filter);
                assert(original.subrange(0, i + 1).drop_last() == original.subrange(0, i as int));
                assert(original.subrange(0, i + 1).last() == original[i as int]);
            }
            if self.pointers[i].id != pointer_id {
                kept.push(self.pointers[i]);
            }
            i = i + 1;
        }
        assert(original.subrange(0, i as int) == original);
        self.pointers = kept;
    }
}

} // verus!
