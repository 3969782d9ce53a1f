//! Typeahead ("type letters to jump to a menu item"): the pure matcher that
//! decides which item roving focus moves to, and which key presses count as
//! typeahead input.
use vstd::prelude::*;
use vstd::string::StrSliceExecFns;

use crate::keyboard::{is_single_character, is_space, key_text, typeahead_key_qualifies, Key};
use crate::seq_search::{first_index, lemma_first_index_is, lemma_first_index_props};

verus! {

/// Buffer reset window in milliseconds: a printable character extends the
/// current search if it arrives within this long of the previous one.
pub const TYPEAHEAD_RESET_MS: u64 = 1000;

/// The lowercase mapping of a character (std's `char::to_lowercase`).
pub uninterp spec fn char_lowercase(c: char) -> Seq<char>;

/// The lowercase form of a string (std's `str::to_lowercase`).
pub uninterp spec fn str_lowercase(s: Seq<char>) -> Seq<char>;

/// std's `char::to_lowercase`, collected. The result is the named lowercase
/// mapping of `c`; std documents that it is one or more characters.
#[verifier::external_body]
fn lowercase_char(c: char) -> (lower: Vec<char>)
    ensures
        lower@ == char_lowercase(c),
        lower@.len() >= 1,
{
    c.to_lowercase().collect()
}

/// std's `str::to_lowercase`. The result is the named lowercase form of `s`.
#[verifier::external_body]
fn lowercase_str(s: &str) -> (lower: String)
    ensures
        lower@ == str_lowercase(s@),
{
    s.to_lowercase()
}

/// One candidate item as plain values: its collection index, its label and
/// whether it is disabled.
pub open spec fn entry_view(item: (usize, String, bool)) -> (usize, Seq<char>, bool) {
    (item.0, item.1@, item.2)
}

/// Every character of `s` lowercased, in order.
pub open spec fn lowercase_chars(s: Seq<char>) -> Seq<char>
    decreases s.len(),
{
    if s.len() == 0 {
        Seq::empty()
    } else {
        lowercase_chars(s.drop_last()) + char_lowercase(s.last())
    }
}

/// A buffer of two or more copies of one character.
pub open spec fn is_repeated(chars: Seq<char>) -> bool {
    chars.len() > 1 && forall|i: int| 0 <= i < chars.len() ==> #[trigger] chars[i] == chars[0]
}

/// What a buffer searches for: its lowercased characters, or just the first
/// of them when the buffer repeats one character.
pub open spec fn search_of(buffer: Seq<char>) -> Seq<char> {
    let chars = lowercase_chars(buffer);
    if is_repeated(chars) {
        seq![chars[0]]
    } else {
        chars
    }
}

/// `entries` stably ordered by index: each entry goes after every earlier
/// entry whose index is at most its own.
pub open spec fn sorted_entries(entries: Seq<(usize, Seq<char>, bool)>) -> Seq<(usize, Seq<char>, bool)>
    decreases entries.len(),
{
    if entries.len() == 0 {
        Seq::empty()
    } else {
        let rest = sorted_entries(entries.drop_last());
        let e = entries.last();
        rest.insert(first_index(rest, |x: (usize, Seq<char>, bool)| x.0 > e.0), e)
    }
}

/// The entries that are not disabled, in their given order.
pub open spec fn enabled_entries(entries: Seq<(usize, Seq<char>, bool)>) -> Seq<(usize, Seq<char>, bool)> {
    entries.filter(|e: (usize, Seq<char>, bool)| !e.2)
}

/// The enabled entries, ordered by index.
pub open spec fn available_entries(entries: Seq<(usize, Seq<char>, bool)>) -> Seq<(usize, Seq<char>, bool)> {
    sorted_entries(enabled_entries(entries))
}

/// `prefix` is a prefix of `s`.
pub open spec fn has_prefix(s: Seq<char>, prefix: Seq<char>) -> bool {
    prefix.len() <= s.len() && s.subrange(0, prefix.len() as int) == prefix
}

/// Where the search starts among `n` available entries: after the focused
/// entry for a one-character search, at it for a longer one, at the first
/// entry when nothing available is focused.
pub open spec fn search_start(current_pos: int, n: int, single: bool) -> int {
    if current_pos < n {
        if single { (current_pos + 1) % n } else { current_pos }
    } else {
        0
    }
}

/// `available` rotated to begin at position `start`.
pub open spec fn rotated(available: Seq<(usize, Seq<char>, bool)>, start: int) -> Seq<(usize, Seq<char>, bool)> {
    Seq::new(available.len(), |o: int| available[(start + o) % (available.len() as int)])
}

/// An entry whose lowercased label begins with `search`.
pub open spec fn label_starts_with(search: Seq<char>) -> spec_fn((usize, Seq<char>, bool)) -> bool {
    |x: (usize, Seq<char>, bool)| has_prefix(str_lowercase(x.1), search)
}

/// An entry with collection index `idx`.
pub open spec fn has_index(idx: usize) -> spec_fn((usize, Seq<char>, bool)) -> bool {
    |x: (usize, Seq<char>, bool)| x.0 == idx
}

/// The matcher's answer: the index of the first available item, scanning
/// from the search start and wrapping around, whose lowercased label begins
/// with the search; `None` for an empty buffer, when nothing is available or
/// when nothing matches.
pub open spec fn next_match(entries: Seq<(usize, Seq<char>, bool)>, current: Option<usize>, buffer: Seq<char>) -> Option<usize> {
    let available = available_entries(entries);
    let n = available.len() as int;
    let search = search_of(buffer);
    let current_pos = match current {
        Some(idx) => first_index(available, has_index(idx)),
        None => n,
    };
    let start = search_start(current_pos, n, search.len() == 1);
    let offsets = rotated(available, start);
    let k = first_index(offsets, label_starts_with(search));
    if buffer.len() == 0 || n == 0 || k >= n {
        None
    } else {
        Some(offsets[k].0)
    }
}

/// The lowercased characters of `buffer`.
fn lowercased_buffer(buffer: &str) -> (chars: Vec<char>)
    ensures
        chars@ == lowercase_chars(buffer@),
        chars@.len() >= buffer@.len(),
{
    let len = buffer.unicode_len();
    let mut chars: Vec<char> = Vec::new();
    let mut i: usize = 0;
    while i < len
        invariant
            len == buffer@.len(),
            0 <= i <= len,
            chars@ == lowercase_chars(buffer@.subrange(0, i as int)),
            chars@.len() >= i,
        decreases len - i,
    {
        let c = buffer.get_char(i);
        let lower = lowercase_char(c);
        let mut j: usize = 0;
        let ghost before = chars@;
        while j < lower.len()
            invariant
                0 <= j <= lower@.len(),
                chars@ == before + lower@.subrange(0, j as int),
            decreases lower@.len() - j,
        {
            chars.push(lower[j]);
            j = j + 1;
            assert(chars@ =~= before + lower@.subrange(0, j as int));
        }
        assert(lower@.subrange(0, j as int) == lower@);
        assert(buffer@.subrange(0, i + 1).drop_last() == buffer@.subrange(0, i as int));
        i = i + 1;
    }
    assert(buffer@.subrange(0, i as int) == buffer@);
    chars
}

/// Whether `chars` is two or more copies of one character.
fn repeats_one_char(chars: &Vec<char>) -> (repeated: bool)
    ensures
        repeated == is_repeated(chars@),
{
    if chars.len() <= 1 {
        return false;
    }
    let mut i: usize = 1;
    while i < chars.len()
        invariant
            1 <= i <= chars@.len(),
            forall|j: int| 0 <= j < i ==> #[trigger] chars@[j] == chars@[0],
        decreases chars@.len() - i,
    {
        if chars[i] != chars[0] {
            return false;
        }
        i = i + 1;
    }
    true
}

/// Whether the lowercase form of `label` begins with `search`.
fn label_matches(label: &str, search: &Vec<char>) -> (matches: bool)
    ensures
        matches == has_prefix(str_lowercase(label@), search@),
{
    let lower = lowercase_str(label);
    let lower_str = lower.as_str();
    let len = lower_str.unicode_len();
    if search.len() > len {
        return false;
    }
    let mut i: usize = 0;
    while i < search.len()
        invariant
            len == lower_str@.len(),
            lower_str@ == str_lowercase(label@),
            search@.len() <= len,
            0 <= i <= search@.len(),
            forall|j: int| 0 <= j < i ==> lower_str@[j] == search@[j],
        decreases search@.len() - i,
    {
        if lower_str.get_char(i) != search[i] {
            assert(lower_str@.subrange(0, search@.len() as int)[i as int] != search@[i as int]);
            return false;
        }
        i = i + 1;
    }
    assert(lower_str@.subrange(0, search@.len() as int) =~= search@);
    true
}

/// The typeahead matcher. `items` is every candidate's `(index, label,
/// disabled)`, in any order; `current` is the currently focused index, if
/// any; `buffer` is the accumulated search. Disabled items are never
/// candidates; the rest are searched in index order, starting after the
/// focused item for a one-character search (a fresh letter or one letter
/// repeated) and at it for a longer one, wrapping past the last item back to
/// the first. Matching is case-insensitive: an item matches when its
/// lowercased label begins with the lowercased search.
pub fn find_next_match(items: &[(usize, String, bool)], current: Option<usize>, buffer: &str) -> (found: Option<usize>)
    ensures
        found == next_match(items@.map_values(|e: (usize, String, bool)| entry_view(e)), current, buffer@),
{
    let ghost entries = items@.map_values(|e: (usize, String, bool)| entry_view(e));
    let ghost avail_spec = available_entries(entries);
    if buffer.is_empty() {
        return None;
    }
    let buffer_chars = lowercased_buffer(buffer);
    if buffer_chars.len() == 0 {
        return None;
    }
    let repeated = repeats_one_char(&buffer_chars);
    let search: Vec<char> = if repeated {
        let mut single: Vec<char> = Vec::new();
        single.push(buffer_chars[0]);
        single
    } else {
        buffer_chars
    };
    assert(search@ =~= search_of(buffer@));

    // The enabled items' positions in `items`, stably ordered by index.
    let mut available: Vec<usize> = Vec::new();
    let mut i: usize = 0;
    while i < items.len()
        invariant
            0 <= i <= items@.len(),
            entries == items@.map_values(|e: (usize, String, bool)| entry_view(e)),
            forall|j: int| 0 <= j < available@.len() ==> #[trigger] available@[j] < items@.len(),
            available@.map_values(|p: usize| entries[p as int]) == sorted_entries(
                enabled_entries(entries.subrange(0, i as int)),
            ),
        decreases items@.len() - i,
    {
        let ghost sub = entries.subrange(0, i + 1);
        let ghost prev = enabled_entries(entries.subrange(0, i as int));
        proof {
            reveal(Seq::filter);
            assert(sub.drop_last() == entries.subrange(0, i as int));
            assert(sub.last() == entries[i as int]);
            assert(entries[i as int] == entry_view(items@[i as int]));
            if !entries[i as int].2 {
                assert(enabled_entries(sub) == prev.push(entries[i as int]));
                assert(prev.push(entries[i as int]).drop_last() =~= prev);
            } else {
                assert(enabled_entries(sub) == prev);
            }
        }
        if !items[i].2 {
            let key = items[i].0;
            let ghost rest = available@.map_values(|p: usize| entries[p as int]);
            let mut at: usize = 0;
            while at < available.len() && items[available[at]].0 <= key
                invariant
                    0 <= at <= available@.len(),
                    0 <= i < items@.len(),
                    entries.len() == items@.len(),
                    rest.len() == available@.len(),
                    key == entries[i as int].0,
                    entries == items@.map_values(|e: (usize, String, bool)| entry_view(e)),
                    forall|j: int| 0 <= j < available@.len() ==> #[trigger] available@[j] < items@.len(),
                    rest == available@.map_values(|p: usize| entries[p as int]),
                    forall|j: int| 0 <= j < at ==> (#[trigger] rest[j]).0 <= key,
                decreases available@.len() - at,
            {
                assert(rest[at as int] == entries[available@[at as int] as int]);
                assert(entries[available@[at as int] as int] == entry_view(items@[available@[at as int] as int]));
                at = at + 1;
            }
            proof {
                lemma_first_index_is(rest, |x: (usize, Seq<char>, bool)| x.0 > entries[i as int].0, at as int);
            }
            available.insert(at, i);
            proof {
                assert(available@.map_values(|p: usize| entries[p as int]) =~= rest.insert(at as int, entries[i as int]));
            }
        }
        i = i + 1;
    }
    assert(entries.subrange(0, i as int) == entries);
    assert(available@.map_values(|p: usize| entries[p as int]) == avail_spec);
    let n = available.len();
    if n == 0 {
        return None;
    }
    let ghost avail = available@.map_values(|p: usize| entries[p as int]);

    let mut current_pos: usize = n;
    if let Some(idx) = current {
        let mut j: usize = 0;
        while j < n && items[available[j]].0 != idx
            invariant
                n == available@.len(),
                0 <= j <= n,
                forall|k: int| 0 <= k < available@.len() ==> #[trigger] available@[k] < items@.len(),
                avail == available@.map_values(|p: usize| entries[p as int]),
                entries == items@.map_values(|e: (usize, String, bool)| entry_view(e)),
                forall|k: int| 0 <= k < j ==> (#[trigger] avail[k]).0 != idx,
            decreases n - j,
        {
            assert(avail[j as int] == entries[available@[j as int] as int]);
            assert(entries[available@[j as int] as int] == entry_view(items@[available@[j as int] as int]));
            j = j + 1;
        }
        proof {
            lemma_first_index_is(avail, has_index(idx), j as int);
        }
        current_pos = j;
    }
    let ghost cp: int = match current {
        Some(idx) => first_index(avail, has_index(idx)),
        None => n as int,
    };
    assert(current_pos as int == cp);
    let exclude_current = search.len() == 1;
    let start: usize = if current_pos < n {
        if exclude_current { (current_pos + 1) % n } else { current_pos }
    } else {
        0
    };
    let ghost offsets = rotated(avail, start as int);
    let ghost pred = label_starts_with(search@);
    let mut offset: usize = 0;
    while offset < n
        invariant
            n == available@.len(),
            0 <= offset <= n,
            start < n,
            forall|k: int| 0 <= k < available@.len() ==> #[trigger] available@[k] < items@.len(),
            avail == available@.map_values(|p: usize| entries[p as int]),
            entries == items@.map_values(|e: (usize, String, bool)| entry_view(e)),
            offsets == rotated(avail, start as int),
            pred == label_starts_with(search@),
            avail == avail_spec,
            avail_spec == available_entries(entries),
            search@ == search_of(buffer@),
            buffer@.len() > 0,
            start as int == search_start(cp, n as int, search@.len() == 1),
            cp == match current {
                Some(idx) => first_index(avail, has_index(idx)),
                None => n as int,
            },
            forall|k: int| 0 <= k < offset ==> !pred(#[trigger] offsets[k]),
        decreases n - offset,
    {
        let pos = if offset < n - start { start + offset } else { offset - (n - start) };
        assert(pos as int == (start + offset) % (n as int)) by (nonlinear_arith)
            requires
                start < n,
                offset < n,
                pos == if offset < n - start { start + offset } else { offset - (n - start) },
        ;
        let item = &items[available[pos]];
        if label_matches(item.1.as_str(), &search) {
            proof {
                assert(offsets[offset as int] == avail[pos as int]);
                assert(avail[pos as int] == entries[available@[pos as int] as int]);
                assert(entries[available@[pos as int] as int] == entry_view(items@[available@[pos as int] as int]));
                lemma_first_index_is(offsets, pred, offset as int);
            }
            return Some(item.0);
        }
        proof {
            assert(offsets[offset as int] == avail[pos as int]);
            assert(avail[pos as int] == entries[available@[pos as int] as int]);
            assert(entries[available@[pos as int] as int] == entry_view(items@[available@[pos as int] as int]));
        }
        offset = offset + 1;
    }
    proof {
        lemma_first_index_is(offsets, pred, n as int);
    }
    None
}

/// Ordering entries by index keeps exactly the entries it was given.
proof fn lemma_sorted_entries_members(x: Seq<(usize, Seq<char>, bool)>)
    ensures
        sorted_entries(x).len() == x.len(),
        forall|k: int| 0 <= k < x.len() ==> x.contains(#[trigger] sorted_entries(x)[k]),
    decreases x.len(),
{
    if x.len() > 0 {
        let rest = sorted_entries(x.drop_last());
        let e = x.last();
        let p = |y: (usize, Seq<char>, bool)| y.0 > e.0;
        lemma_sorted_entries_members(x.drop_last());
        lemma_first_index_props(rest, p);
        let at = first_index(rest, p);
        let out = rest.insert(at, e);
        assert(out == sorted_entries(x));
        assert forall|k: int| 0 <= k < x.len() implies x.contains(#[trigger] out[k]) by {
            if k == at {
                assert(x[x.len() - 1] == e);
            } else {
                let r = if k < at { k } else { k - 1 };
                assert(out[k] == rest[r]);
                assert(x.drop_last().contains(rest[r]));
                let j = choose|j: int| 0 <= j < x.drop_last().len() && x.drop_last()[j] == rest[r];
                assert(x[j] == rest[r]);
            }
        }
    }
}

/// The matcher only ever moves focus to an item that is given, is not
/// disabled, and whose lowercased label begins with the search.
pub proof fn lemma_next_match_is_enabled_match(
    entries: Seq<(usize, Seq<char>, bool)>,
    current: Option<usize>,
    buffer: Seq<char>,
)
    ensures
        next_match(entries, current, buffer) matches Some(i) ==> exists|j: int|
            0 <= j < entries.len() && (#[trigger] entries[j]).0 == i && !entries[j].2 && has_prefix(
                str_lowercase(entries[j].1),
                search_of(buffer),
            ),
{
    let enabled = enabled_entries(entries);
    let available = available_entries(entries);
    let n = available.len() as int;
    let search = search_of(buffer);
    let current_pos = match current {
        Some(idx) => first_index(available, has_index(idx)),
        None => n,
    };
    let start = search_start(current_pos, n, search.len() == 1);
    let offsets = rotated(available, start);
    let k = first_index(offsets, label_starts_with(search));
    if let Some(i) = next_match(entries, current, buffer) {
        lemma_first_index_props(offsets, label_starts_with(search));
        lemma_sorted_entries_members(enabled);
        let m = (start + k) % n;
        assert(0 <= m < n) by (nonlinear_arith)
            requires
                n > 0,
                m == (start + k) % n,
        ;
        let e = offsets[k];
        assert(e == available[m]);
        assert(enabled.contains(e));
        let pred = |x: (usize, Seq<char>, bool)| !x.2;
        entries.lemma_filter_contains_rev(pred, e);
        let q = choose|q: int| 0 <= q < enabled.len() && enabled[q] == e;
        entries.lemma_filter_pred(pred, q);
        let j = choose|j: int| 0 <= j < entries.len() && entries[j] == e;
        assert(entries[j].0 == i);
    }
}

/// Every given entry is among the entries ordered by index.
proof fn lemma_sorted_entries_keeps_all(x: Seq<(usize, Seq<char>, bool)>, e: (usize, Seq<char>, bool))
    requires
        x.contains(e),
    ensures
        sorted_entries(x).contains(e),
    decreases x.len(),
{
    let rest = sorted_entries(x.drop_last());
    let last = x.last();
    let p = |y: (usize, Seq<char>, bool)| y.0 > last.0;
    lemma_first_index_props(rest, p);
    let at = first_index(rest, p);
    let out = rest.insert(at, last);
    assert(out == sorted_entries(x));
    if e == last {
        assert(out[at] == e);
    } else {
        let i = choose|i: int| 0 <= i < x.len() && x[i] == e;
        assert(i < x.len() - 1);
        assert(x.drop_last()[i] == e);
        lemma_sorted_entries_keeps_all(x.drop_last(), e);
        let j = choose|j: int| 0 <= j < rest.len() && rest[j] == e;
        if j < at {
            assert(out[j] == e);
        } else {
            assert(out[j + 1] == e);
        }
    }
}

/// The matcher misses nothing: whenever the buffer is not empty and some
/// enabled item's lowercased label begins with the search, it moves focus
/// to some item -- wherever the search starts, it wraps around and reaches
/// every enabled item. It answers `None` only when no enabled item matches.
pub proof fn lemma_next_match_finds_any_match(
    entries: Seq<(usize, Seq<char>, bool)>,
    current: Option<usize>,
    buffer: Seq<char>,
    j: int,
)
    requires
        buffer.len() > 0,
        0 <= j < entries.len(),
        !entries[j].2,
        has_prefix(str_lowercase(entries[j].1), search_of(buffer)),
    ensures
        next_match(entries, current, buffer) is Some,
{
    broadcast use vstd::seq_lib::group_filter_ensures;

    let e = entries[j];
    let enabled = enabled_entries(entries);
    let available = available_entries(entries);
    let n = available.len() as int;
    let search = search_of(buffer);
    let current_pos = match current {
        Some(idx) => first_index(available, has_index(idx)),
        None => n,
    };
    let start = search_start(current_pos, n, search.len() == 1);
    let offsets = rotated(available, start);
    let pred = label_starts_with(search);
    assert(enabled.contains(e)) by {
        assert(entries[j] == e);
    }
    lemma_sorted_entries_keeps_all(enabled, e);
    let m = choose|m: int| 0 <= m < available.len() && available[m] == e;
    if let Some(idx) = current {
        lemma_first_index_props(available, has_index(idx));
    }
    assert(0 <= start < n) by {
        if current_pos < n && search.len() == 1 {
            assert(0 <= (current_pos + 1) % n < n) by (nonlinear_arith)
                requires
                    n > 0,
            ;
        }
    }
    let o = if m >= start { m - start } else { m - start + n };
    assert(offsets[o] == e) by {
        if m >= start {
            assert((start + o) % n == m) by (nonlinear_arith)
                requires
                    start + o == m,
                    0 <= m < n,
            ;
        } else {
            assert((start + o) % n == m) by (nonlinear_arith)
                requires
                    start + o == m + n,
                    0 <= m < n,
            ;
        }
    }
    assert(pred(offsets[o]));
    lemma_first_index_props(offsets, pred);
}

/// A live typeahead search buffer. Each qualifying key extends it and
/// restarts its reset timer (kept by the host, see `TaskSlot`); when the
/// timer fires, or arrow navigation takes over, the buffer is cleared.
pub struct TypeaheadBuffer {
    buffer: String,
}

impl TypeaheadBuffer {
    /// The accumulated search.
    pub closed spec fn text(&self) -> Seq<char> {
        self.buffer@
    }

    /// An empty search.
    pub fn new() -> (state: Self)
        ensures
            state.text() == Seq::<char>::empty(),
    {
        TypeaheadBuffer { buffer: String::new() }
    }

    /// Append `text` to the search; returns the whole search so far.
    pub fn push(&mut self, text: &str) -> (search: String)
        ensures
            final(self).text() == old(self).text() + text@,
            search@ == final(self).text(),
    {
        self.buffer.append(text);
        self.buffer.clone()
    }

    /// Forget the search (the reset timer fired, or navigation moved on).
    pub fn clear(&mut self)
        ensures
            final(self).text() == Seq::<char>::empty(),
    {
        self.buffer = String::new();
    }

    /// The accumulated search.
    pub fn as_str(&self) -> (search: &str)
        ensures
            search@ == self.text(),
    {
        self.buffer.as_str()
    }

    /// One keydown for a menu's typeahead. A key that does not qualify (not
    /// a single character, Space, or with Ctrl/Meta/Alt held) is left
    /// alone: `None`, the search unchanged. A qualifying key extends the
    /// search, and `Some(target)` tells where roving focus moves (`None`
    /// when nothing matches); the host then restarts the reset timer.
    pub fn handle_key(
        &mut self,
        key: &Key,
        ctrl: bool,
        meta: bool,
        alt: bool,
        items: &[(usize, String, bool)],
        current: Option<usize>,
    ) -> (outcome: Option<Option<usize>>)
        ensures
            !(is_single_character(*key) && !is_space(*key) && !ctrl && !meta && !alt) ==> {
                &&& outcome is None
                &&& final(self).text() == old(self).text()
            },
            is_single_character(*key) && !is_space(*key) && !ctrl && !meta && !alt ==> {
                &&& final(self).text() == old(self).text() + key_text(*key)
                &&& outcome == Some(
                    next_match(
                        items@.map_values(|e: (usize, String, bool)| entry_view(e)),
                        current,
                        final(self).text(),
                    ),
                )
            },
    {
        if !typeahead_key_qualifies(key, ctrl, meta, alt) {
            return None;
        }
        match key {
            Key::Character(c) => {
                let search = self.push(c.as_str());
                Some(find_next_match(items, current, search.as_str()))
            },
            _ => None,
        }
    }
}

} // verus!
