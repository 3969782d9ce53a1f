//! Reference counting for nested body scroll locks: only the outermost lock
//! blocks scrolling and captures the page's scroll position, and only the
//! release of the last lock unblocks scrolling and restores that position.
use vstd::prelude::*;

verus! {

/// The abstract state of the scroll locks of one nesting chain.
pub struct ScrollLockView<P> {
    /// How many locks are held.
    pub count: nat,
    /// The scroll position captured before the outermost lock engaged.
    pub original_scroll: Option<P>,
}

/// The state after recording a captured position: the first capture wins.
pub open spec fn captured<P>(v: ScrollLockView<P>, position: P) -> ScrollLockView<P> {
    ScrollLockView {
        count: v.count,
        original_scroll: match v.original_scroll {
            Some(p) => Some(p),
            None => Some(position),
        },
    }
}

/// The state after taking one more lock.
pub open spec fn acquired<P>(v: ScrollLockView<P>) -> ScrollLockView<P> {
    ScrollLockView { count: v.count + 1, original_scroll: v.original_scroll }
}

/// The state after releasing one lock, and what that release restores:
/// `Some(captured)` exactly when no lock is left.
pub open spec fn released<P>(v: ScrollLockView<P>) -> (ScrollLockView<P>, Option<Option<P>>) {
    let count: nat = if v.count == 0 { 0 } else { (v.count - 1) as nat };
    if count == 0 {
        (ScrollLockView { count: 0, original_scroll: None }, Some(v.original_scroll))
    } else {
        (ScrollLockView { count, original_scroll: v.original_scroll }, None)
    }
}

/// The lock count shared by every scroll lock in one nesting chain, and the
/// scroll position captured before the outermost lock engaged. `P` is the
/// position type.
pub struct ScrollLockState<P> {
    count: usize,
    original_scroll: Option<P>,
}

impl<P: Copy> ScrollLockState<P> {
    /// The abstract state.
    pub closed spec fn view(&self) -> ScrollLockView<P> {
        ScrollLockView { count: self.count as nat, original_scroll: self.original_scroll }
    }

    /// No lock held and nothing captured.
    pub fn new() -> (state: Self)
        ensures
            state@ == (ScrollLockView::<P> { count: 0, original_scroll: None }),
    {
        ScrollLockState { count: 0, original_scroll: None }
    }

    /// How many locks are currently held.
    pub fn lock_count(&self) -> (count: usize)
        ensures
            count == self@.count,
    {
        self.count
    }

    /// Whether an opening surface should capture the scroll position early:
    /// only while no lock is held and nothing has been captured yet.
    pub fn needs_early_capture(&self) -> (needed: bool)
        ensures
            needed == (self@.count == 0 && self@.original_scroll is None),
    {
        self.count == 0 && self.original_scroll.is_none()
    }

    /// Record a captured scroll position, unless one is already recorded.
    pub fn record_capture(&mut self, position: P)
        ensures
            final(self)@ == captured(old(self)@, position),
    {
        if self.original_scroll.is_none() {
            self.original_scroll = Some(position);
        }
    }

    /// Take one more lock. Returns whether it is the outermost one, which
    /// then blocks scrolling and captures the position to restore.
    pub fn acquire(&mut self) -> (outermost: bool)
        requires
            old(self)@.count < usize::MAX,
        ensures
            final(self)@ == acquired(old(self)@),
            outermost == (old(self)@.count == 0),
    {
        self.count = self.count + 1;
        self.count == 1
    }

    /// Release one lock (a release with none held leaves the count at zero).
    /// When no lock is left, scrolling is unblocked: returns `Some` with the
    /// captured position to restore (taken out of the state), else `None`.
    pub fn release(&mut self) -> (restore: Option<Option<P>>)
        ensures
            (final(self)@, restore) == released(old(self)@),
    {
        self.count = if self.count == 0 { 0 } else { self.count - 1 };
        if self.count == 0 {
            Some(self.original_scroll.take())
        } else {
            None
        }
    }
}

/// Taking a lock and releasing it returns the count to where it was, and
/// restores (and forgets) the captured position exactly when no other lock
/// is held.
pub proof fn lemma_acquire_then_release<P>(v: ScrollLockView<P>)
    ensures
        released(acquired(v)).0.count == v.count,
        released(acquired(v)).1 is Some <==> v.count == 0,
        v.count == 0 ==> released(acquired(v)).1 == Some(v.original_scroll),
        v.count != 0 ==> released(acquired(v)).0 == v,
{
}

/// Two nested locks: the outer lock's capture `outer` is kept over the inner
/// lock's capture `inner`, releasing the inner lock restores nothing, and
/// releasing the outer lock restores `outer`.
pub proof fn lemma_nested_locks_restore_outermost<P>(outer: P, inner: P)
    ensures
        ({
            let start = ScrollLockView::<P> { count: 0, original_scroll: None };
            let s1 = captured(acquired(start), outer);
            let s2 = captured(acquired(s1), inner);
            let (s3, r3) = released(s2);
            let (s4, r4) = released(s3);
            &&& r3 is None
            &&& r4 == Some(Some(outer))
            &&& s4 == start
        }),
{
}

/// A recorded position is never overwritten, whatever the lock count: the
/// first capture (such as an early one taken before anything moved the
/// page) is the one restored. Recording changes nothing else.
pub proof fn lemma_capture_keeps_first<P>(v: ScrollLockView<P>, position: P)
    ensures
        captured(v, position).count == v.count,
        v.original_scroll matches Some(p) ==> captured(v, position).original_scroll == Some(p),
        v.original_scroll is None ==> captured(v, position).original_scroll == Some(position),
{
}

/// An early capture taken before the outermost lock is what releasing that
/// lock restores, even though the lock captures again when it engages.
pub proof fn lemma_early_capture_is_restored<P>(early: P, later: P)
    ensures
        ({
            let start = ScrollLockView::<P> { count: 0, original_scroll: None };
            let locked = captured(acquired(captured(start, early)), later);
            let (after, restore) = released(locked);
            &&& restore == Some(Some(early))
            &&& after == start
        }),
{
}

} // verus!
