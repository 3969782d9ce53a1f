//! The stack of mounted Escape listeners: only the most recently mounted
//! surface that is still mounted reacts to Escape.
use vstd::prelude::*;

verus! {

/// `stack` without any entry of `scope_id`, the others in order.
pub open spec fn without_scope(stack: Seq<usize>, scope_id: usize) -> Seq<usize> {
    stack.filter(|s: usize| s != scope_id)
}

/// The scopes listening for Escape, in mount order (the last one is on top).
pub struct EscapeListenerStack {
    scopes: Vec<usize>,
}

impl EscapeListenerStack {
    /// The listening scopes, in mount order.
    pub closed spec fn view(&self) -> Seq<usize> {
        self.scopes@
    }

    /// No listener.
    pub fn new() -> (stack: Self)
        ensures
            stack@ == Seq::<usize>::empty(),
    {
        EscapeListenerStack { scopes: Vec::new() }
    }

    /// A scope starts listening: it goes on top.
    pub fn push(&mut self, scope_id: usize)
        ensures
            final(self)@ == old(self)@.push(scope_id),
    {
        self.scopes.push(scope_id);
    }

    /// A scope stops listening: every entry of it is removed, the rest keep
    /// their order.
    pub fn remove(&mut self, scope_id: usize)
        ensures
            final(self)@ == without_scope(old(self)@, scope_id),
    {
        let ghost original = self.scopes@;
        let mut kept: Vec<usize> = Vec::new();
        let mut i: usize = 0;
        while i < self.scopes.len()
            invariant
                0 <= i <= self.scopes@.len(),
                self.scopes@ == original,
                kept@ == without_scope(original.subrange(0, i as int), scope_id),
            decreases self.scopes@.len() - i,
        {
            proof {
                reveal(Seq::filter);
                assert(original.subrange(0, i + 1).drop_last() == original.subrange(0, i as int));
            }
            if self.scopes[i] != scope_id {
                kept.push(self.scopes[i]);
            }
            i = i + 1;
        }
        assert(original.subrange(0, i as int) == original);
        self.scopes = kept;
    }

    /// Whether `scope_id` is on top, i.e. is the listener Escape goes to.
    pub fn is_top(&self, scope_id: usize) -> (top: bool)
        ensures
            top == (self@.len() > 0 && self@.last() == scope_id),
    {
        self.scopes.len() > 0 && self.scopes[self.scopes.len() - 1] == scope_id
    }
}

/// The most recently pushed scope is on top.
pub proof fn lemma_pushed_is_top(stack: Seq<usize>, scope_id: usize)
    ensures
        stack.push(scope_id).last() == scope_id,
{
}

/// When the top scope unmounts, the scope pushed just before it is back on
/// top.
pub proof fn lemma_remove_top_uncovers_previous(stack: Seq<usize>, below: usize, top: usize)
    requires
        below != top,
    ensures
        without_scope(stack.push(below).push(top), top).len() > 0,
        without_scope(stack.push(below).push(top), top).last() == below,
{
    reveal(Seq::filter);
    let s = stack.push(below).push(top);
    assert(s.drop_last() == stack.push(below));
    assert(stack.push(below).drop_last() == stack);
    assert(without_scope(s, top) == without_scope(stack.push(below), top));
    assert(without_scope(stack.push(below), top) == without_scope(stack, top).push(below));
}

/// Removing a scope takes out every entry of it and nothing else: no entry
/// of it is left, every other scope that was listening still is, and a
/// stack without that scope is left as it was.
pub proof fn lemma_remove_takes_out_only_that_scope(stack: Seq<usize>, scope_id: usize)
    ensures
        forall|i: int| 0 <= i < without_scope(stack, scope_id).len() ==> without_scope(stack, scope_id)[i] != scope_id,
        forall|x: usize| stack.contains(x) && x != scope_id ==> #[trigger] without_scope(stack, scope_id).contains(x),
        forall|x: usize| #[trigger] without_scope(stack, scope_id).contains(x) ==> stack.contains(x),
        !stack.contains(scope_id) ==> without_scope(stack, scope_id) == stack,
        without_scope(stack, scope_id).len() <= stack.len(),
    decreases stack.len(),
{
    broadcast use vstd::seq_lib::group_filter_ensures, Seq::lemma_filter_contains_rev;

    let r = without_scope(stack, scope_id);
    assert forall|i: int| 0 <= i < r.len() implies r[i] != scope_id by {
        assert(r[i] == r[i]);
    }
    assert forall|x: usize| stack.contains(x) && x != scope_id implies #[trigger] r.contains(x) by {
        let i = choose|i: int| 0 <= i < stack.len() && stack[i] == x;
        assert(stack[i] == x);
    }
    if stack.len() > 0 {
        lemma_remove_takes_out_only_that_scope(stack.drop_last(), scope_id);
        reveal(Seq::filter);
        if !stack.contains(scope_id) {
            assert(!stack.drop_last().contains(scope_id)) by {
                if stack.drop_last().contains(scope_id) {
                    let i = choose|i: int| 0 <= i < stack.drop_last().len() && stack.drop_last()[i] == scope_id;
                    assert(stack[i] == scope_id);
                }
            }
            assert(stack[stack.len() - 1] != scope_id);
            assert(stack.drop_last().push(stack.last()) =~= stack);
        }
    }
}

/// A scope that unmounts while another one is on top leaves that one on
/// top: only the most recently mounted scope still mounted gets Escape.
pub proof fn lemma_remove_below_keeps_top(stack: Seq<usize>, top: usize, scope_id: usize)
    requires
        top != scope_id,
    ensures
        without_scope(stack.push(top), scope_id).len() > 0,
        without_scope(stack.push(top), scope_id).last() == top,
{
    reveal(Seq::filter);
    assert(stack.push(top).drop_last() == stack);
}

} // verus!
