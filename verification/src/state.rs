//! The small state machines behind the widgets' hooks: controlled or
//! internal values, previous values, pending timers, open/close animation
//! cycles and the count of open submenus. Each step takes the event and
//! returns what the host must do; the host performs it (rendering, timers,
//! callbacks).
use vstd::prelude::*;
use vstd::std_specs::cmp::PartialEqSpec;

verus! {

/// The value shown: the controlled value when there is one, else the
/// internal one.
pub open spec fn controlled_value<T>(prop: Option<T>, internal: T) -> T {
    match prop {
        Some(v) => v,
        None => internal,
    }
}

/// A value that is either controlled by its owner (`prop` is `Some`) or
/// kept internally, starting from a default.
pub struct ControlledState<T> {
    internal: T,
}

impl<T> ControlledState<T> {
    /// The internally kept value.
    pub closed spec fn internal(&self) -> T {
        self.internal
    }

    /// The initial internal value: the controlled value when there is one,
    /// else `default`.
    pub fn new(prop: Option<T>, default: T) -> (state: Self)
        ensures
            state.internal() == controlled_value(prop, default),
    {
        let internal = match prop {
            Some(v) => v,
            None => default,
        };
        ControlledState { internal }
    }

    /// The current value: the controlled value when there is one, else the
    /// internal one.
    pub fn value<'a>(&'a self, prop: &'a Option<T>) -> (value: &'a T)
        ensures
            *value == controlled_value(*prop, self.internal()),
    {
        match prop {
            Some(v) => v,
            None => &self.internal,
        }
    }

    /// A new value is set: it becomes the internal value (the owner is
    /// told of it too, and decides the controlled one).
    pub fn set(&mut self, value: T)
        ensures
            final(self).internal() == value,
    {
        self.internal = value;
    }
}

/// A value set while uncontrolled is the value read next; while
/// controlled, the controlled value is read whatever was set.
pub proof fn lemma_set_then_read<T>(after_set: ControlledState<T>, x: T, prop: Option<T>)
    requires
        after_set.internal() == x,
    ensures
        prop is None ==> controlled_value(prop, after_set.internal()) == x,
        prop matches Some(v) ==> controlled_value(prop, after_set.internal()) == v,
{
}

/// The id an element ends up with: the caller's own when given, else the
/// generated one.
pub open spec fn chosen_id<T>(generated: T, user_id: Option<T>) -> T {
    match user_id {
        Some(u) => u,
        None => generated,
    }
}

/// The id an element ends up with: the caller's own when given, else the
/// generated one.
pub fn id_or<'a, T>(generated: &'a T, user_id: &'a Option<T>) -> (id: &'a T)
    ensures
        *id == chosen_id(*generated, *user_id),
{
    match user_id {
        Some(u) => u,
        None => generated,
    }
}

/// A caller-given id is written back into the generated-id slot, so that
/// everything reading the slot sees the id the element really has.
pub fn sync_generated_id<T>(generated: &mut T, user_id: Option<T>)
    ensures
        *final(generated) == chosen_id(*old(generated), user_id),
{
    if let Some(u) = user_id {
        *generated = u;
    }
}

/// Writing the caller's id back changes nothing about the element's id,
/// and afterwards the slot itself holds it.
pub proof fn lemma_write_back_keeps_id<T>(generated: T, user_id: Option<T>)
    ensures
        chosen_id(chosen_id(generated, user_id), user_id) == chosen_id(generated, user_id),
        chosen_id(generated, user_id) == chosen_id(chosen_id(generated, user_id), None),
{
}

/// The previous distinct value of something observed over time: it starts
/// as the initial value and becomes the last seen value whenever a new,
/// different value is observed.
pub struct PreviousValue<T> {
    previous: Option<T>,
    last_seen: T,
}

impl<T: PartialEq> PreviousValue<T> {
    /// The previous value.
    pub closed spec fn previous_spec(&self) -> T {
        match self.previous {
            Some(p) => p,
            None => self.last_seen,
        }
    }

    /// The last value observed.
    pub closed spec fn last_seen_spec(&self) -> T {
        self.last_seen
    }

    /// Start observing `initial`: it is both the last seen and the previous
    /// value.
    pub fn new(initial: T) -> (tracker: Self)
        ensures
            tracker.previous_spec() == initial,
            tracker.last_seen_spec() == initial,
    {
        PreviousValue { previous: None, last_seen: initial }
    }

    /// Observe the current value: when it differs from the last seen one,
    /// the last seen one becomes the previous value.
    pub fn observe(&mut self, current: T)
        ensures
            T::obeys_eq_spec() ==> if current.eq_spec(&old(self).last_seen_spec()) {
                final(self).previous_spec() == old(self).previous_spec()
                    && final(self).last_seen_spec() == old(self).last_seen_spec()
            } else {
                final(self).previous_spec() == old(self).last_seen_spec()
                    && final(self).last_seen_spec() == current
            },
    {
        if !current.eq(&self.last_seen) {
            let mut seen = current;
            std::mem::swap(&mut self.last_seen, &mut seen);
            self.previous = Some(seen);
        }
    }

    /// The previous value.
    pub fn previous(&self) -> (previous: &T)
        ensures
            *previous == self.previous_spec(),
    {
        match &self.previous {
            Some(p) => p,
            None => &self.last_seen,
        }
    }
}

/// A slot for at most one pending timer task (a delayed action, or the
/// typeahead buffer's reset): scheduling replaces the pending task, whose
/// cancellation is then up to the host.
pub struct TaskSlot<T> {
    task: Option<T>,
}

impl<T> TaskSlot<T> {
    /// The pending task, if any.
    pub closed spec fn pending(&self) -> Option<T> {
        self.task
    }

    /// Nothing pending.
    pub fn new() -> (slot: Self)
        ensures
            slot.pending() is None,
    {
        TaskSlot { task: None }
    }

    /// Cancel: the pending task is handed back for cancelling, and nothing
    /// is pending any more.
    pub fn take(&mut self) -> (cancelled: Option<T>)
        ensures
            cancelled == old(self).pending(),
            final(self).pending() is None,
    {
        self.task.take()
    }

    /// Schedule `task`: it becomes the pending one, and the task pending
    /// before (if any) is handed back for cancelling.
    pub fn replace(&mut self, task: T) -> (cancelled: Option<T>)
        ensures
            cancelled == old(self).pending(),
            final(self).pending() == Some(task),
    {
        let cancelled = self.task.take();
        self.task = Some(task);
        cancelled
    }

    /// The pending task ran to its end: nothing is pending.
    pub fn finish(&mut self)
        ensures
            final(self).pending() is None,
    {
        self.task = None;
    }
}

/// Whether the result of an animation wait started in cycle
/// `spawned_generation` still applies: only while no newer open/close cycle
/// has started.
pub fn should_apply_animation_result(spawned_generation: u64, current_generation: u64) -> (apply: bool)
    ensures
        apply == (spawned_generation == current_generation),
{
    spawned_generation == current_generation
}

/// The state of an animated surface: whether its content is in the
/// document, and how many open/close cycles have started.
pub struct AnimationView {
    /// Whether the content is in the document.
    pub shown: bool,
    /// The number of open/close cycles started so far.
    pub cycle: int,
}

/// An open-state change starts a new cycle. Opening shows the content at
/// once (nothing to wait for); closing keeps it shown and waits for this
/// cycle's close animation.
pub open spec fn open_changed(v: AnimationView, open: bool) -> (AnimationView, Option<int>) {
    if open {
        (AnimationView { shown: true, cycle: v.cycle + 1 }, None)
    } else {
        (AnimationView { shown: v.shown, cycle: v.cycle + 1 }, Some(v.cycle + 1))
    }
}

/// The close animation of cycle `spawned` settled: the content leaves the
/// document only if no newer cycle has started.
pub open spec fn close_settled(v: AnimationView, spawned: int) -> AnimationView {
    if spawned == v.cycle {
        AnimationView { shown: false, cycle: v.cycle }
    } else {
        v
    }
}

/// Whether content stays in the document across open/close animations:
/// it appears at once on open, and on close only leaves after the close
/// animation of the latest cycle has settled.
pub struct AnimatedOpen {
    show_in_dom: bool,
    generation: u64,
}

impl AnimatedOpen {
    /// The abstract state.
    pub closed spec fn view(&self) -> AnimationView {
        AnimationView { shown: self.show_in_dom, cycle: self.generation as int }
    }

    /// Not shown, no cycle yet.
    pub fn new() -> (state: Self)
        ensures
            state@ == (AnimationView { shown: false, cycle: 0 }),
    {
        AnimatedOpen { show_in_dom: false, generation: 0 }
    }

    /// Whether the content is in the document.
    pub fn show_in_dom(&self) -> (shown: bool)
        ensures
            shown == self@.shown,
    {
        self.show_in_dom
    }

    /// The number of open/close cycles started so far.
    pub fn cycle_count(&self) -> (count: u64)
        ensures
            count == self@.cycle,
    {
        self.generation
    }

    /// The open state changed, starting a new cycle. Opening shows the
    /// content at once (`None`); closing returns the cycle whose close
    /// animation the host now waits for.
    pub fn on_open_change(&mut self, open: bool) -> (wait_for: Option<u64>)
        requires
            old(self)@.cycle < u64::MAX,
        ensures
            (final(self)@, match wait_for {
                Some(c) => Some(c as int),
                None => None,
            }) == open_changed(old(self)@, open),
    {
        self.generation = self.generation + 1;
        if open {
            self.show_in_dom = true;
            None
        } else {
            Some(self.generation)
        }
    }

    /// The close animation of cycle `spawned_generation` has settled: the
    /// content leaves the document, unless a newer cycle has started since.
    pub fn on_close_settled(&mut self, spawned_generation: u64)
        ensures
            final(self)@ == close_settled(old(self)@, spawned_generation as int),
    {
        if should_apply_animation_result(spawned_generation, self.generation) {
            self.show_in_dom = false;
        }
    }
}

/// A close whose animation settles while no newer cycle has started hides
/// the content; one that settles after the surface was opened again is
/// skipped, and the reopened content stays.
pub proof fn lemma_close_settles_unless_reopened(v: AnimationView)
    ensures
        ({
            let (closing, wait) = open_changed(v, false);
            &&& wait == Some(closing.cycle)
            &&& !close_settled(closing, closing.cycle).shown
            &&& {
                let (reopened, _) = open_changed(closing, true);
                close_settled(reopened, closing.cycle).shown
            }
        }),
{
}

/// The count of a menu's open submenus, and a submenu's own "counted as
/// open" flag, after syncing them with whether the submenu `is_open`.
pub open spec fn synced_submenu(count: int, counted: bool, is_open: bool) -> (int, bool) {
    if is_open && !counted {
        (count + 1, true)
    } else if !is_open && counted {
        (count - 1, false)
    } else {
        (count, counted)
    }
}

/// Keep the count of a menu's open submenus in step with one submenu's
/// open state, through its "counted as open" flag: it counts exactly while
/// it is open.
pub fn sync_open_submenu(count: usize, counted: bool, is_open: bool) -> (next: (usize, bool))
    requires
        is_open && !counted ==> count < usize::MAX,
        !is_open && counted ==> count > 0,
    ensures
        (next.0 as int, next.1) == synced_submenu(count as int, counted, is_open),
{
    if is_open && !counted {
        (count + 1, true)
    } else if !is_open && counted {
        (count - 1, false)
    } else {
        (count, counted)
    }
}

/// The count when a submenu goes away: it no longer counts if it did.
pub fn unmount_submenu(count: usize, counted: bool) -> (next: usize)
    requires
        counted ==> count > 0,
    ensures
        next == synced_submenu(count as int, counted, false).0,
{
    if counted {
        count - 1
    } else {
        count
    }
}

/// A submenu that opens and then closes (or goes away) leaves the count
/// where it was; syncing twice with the same state changes nothing more;
/// and afterwards the flag says whether the submenu is open.
pub proof fn lemma_submenu_count_balanced(count: int, counted: bool, is_open: bool)
    ensures
        ({
            let opened = synced_submenu(count, false, true);
            synced_submenu(opened.0, opened.1, false) == (count, false)
        }),
        ({
            let once = synced_submenu(count, counted, is_open);
            synced_submenu(once.0, once.1, is_open) == once && once.1 == is_open
        }),
{
}

} // verus!
