//! Registered option state shared by select-like components: keeping the
//! option registry ordered by collection index, and the display text of a
//! selection.
use vstd::prelude::*;
use vstd::std_specs::cmp::PartialEqSpec;
use vstd::string::StringExecFns;

use crate::seq_search::{first_index, lemma_first_index_is, lemma_first_index_props};

verus! {

/// Registered option metadata shared by select-like components. `V` is the
/// option's programmatic value.
pub struct OptionState<V> {
    /// Stable option identity.
    pub id: String,
    /// Collection index.
    pub index: usize,
    /// Programmatic option value.
    pub value: V,
    /// Display/search text.
    pub text_value: String,
}

/// The first position in `options` whose id is `id`, or `options.len()`.
pub open spec fn first_with_id<V>(options: Seq<OptionState<V>>, id: Seq<char>) -> int {
    first_index(options, |o: OptionState<V>| o.id@ == id)
}

/// The first position in `options` whose index is greater than `index`, or
/// `options.len()`: where an option with that index goes so that the options
/// stay ordered by index, after every option with an index at most `index`.
pub open spec fn first_greater<V>(options: Seq<OptionState<V>>, index: usize) -> int {
    first_index(options, |o: OptionState<V>| o.index > index)
}

/// Options ordered by index (ties keep registration order).
pub open spec fn sorted_by_index<V>(options: Seq<OptionState<V>>) -> bool {
    forall|i: int, j: int| 0 <= i < j < options.len() ==> options[i].index <= options[j].index
}

/// No two options share an id.
pub open spec fn ids_unique<V>(options: Seq<OptionState<V>>) -> bool {
    forall|i: int, j: int| 0 <= i < j < options.len() ==> options[i].id@ != options[j].id@
}

/// `options` with `option` inserted after every option whose index is at most
/// its own.
pub open spec fn inserted<V>(options: Seq<OptionState<V>>, option: OptionState<V>) -> Seq<OptionState<V>> {
    options.insert(first_greater(options, option.index), option)
}

/// The registry after registering `option`: an option with the same id and
/// the same index is replaced in place; one with the same id at another index
/// is removed and the new option inserted at its ordered position.
pub open spec fn synced<V>(options: Seq<OptionState<V>>, option: OptionState<V>) -> Seq<OptionState<V>> {
    let k = first_with_id(options, option.id@);
    if k < options.len() && options[k].index == option.index {
        options.update(k, option)
    } else if k < options.len() {
        inserted(options.remove(k), option)
    } else {
        inserted(options, option)
    }
}

/// The registry after removing every option whose id is `id`.
pub open spec fn removed<V>(options: Seq<OptionState<V>>, id: Seq<char>) -> Seq<OptionState<V>> {
    options.filter(|o: OptionState<V>| o.id@ != id)
}

/// Insert `option_state` after every option whose index is at most its own.
pub fn insert_option<V>(options: &mut Vec<OptionState<V>>, option_state: OptionState<V>)
    ensures
        final(options)@ == inserted(old(options)@, option_state),
{
    let mut insert_at: usize = 0;
    while insert_at < options.len() && options[insert_at].index <= option_state.index
        invariant
            0 <= insert_at <= options@.len(),
            forall|j: int| 0 <= j < insert_at ==> options@[j].index <= option_state.index,
        decreases options@.len() - insert_at,
    {
        insert_at = insert_at + 1;
    }
    proof {
        lemma_first_index_is(options@, |o: OptionState<V>| o.index > option_state.index, insert_at as int);
    }
    options.insert(insert_at, option_state);
}

/// Insert or update a registered option: an option with the same id and
/// index is replaced in place; otherwise any option with that id is removed
/// and the new one is inserted at its ordered position.
pub fn sync_option_state<V>(options: &mut Vec<OptionState<V>>, option_state: OptionState<V>)
    ensures
        final(options)@ == synced(old(options)@, option_state),
{
    let mut position: usize = 0;
    while position < options.len() && options[position].id != option_state.id
        invariant
            0 <= position <= options@.len(),
            forall|j: int| 0 <= j < position ==> options@[j].id@ != option_state.id@,
        decreases options@.len() - position,
    {
        position = position + 1;
    }
    proof {
        lemma_first_index_is(options@, |o: OptionState<V>| o.id@ == option_state.id@, position as int);
    }
    if position < options.len() {
        if options[position].index == option_state.index {
            options.set(position, option_state);
            return;
        }
        options.remove(position);
    }
    insert_option(options, option_state);
}

/// Remove every registered option whose id is `id`, keeping the others in order.
pub fn remove_option_state<V>(options: &mut Vec<OptionState<V>>, id: &str)
    ensures
        final(options)@ == removed(old(options)@, id@),
{
    let ghost original = options@;
    let id_owned: String = id.to_owned();
    let mut i: usize = 0;
    let ghost mut seen: int = 0;
    while i < options.len()
        invariant
            0 <= i <= options@.len(),
            0 <= seen <= original.len(),
            options@.len() - i == original.len() - seen,
            id_owned@ == id@,
            options@.subrange(0, i as int) == removed(original.subrange(0, seen), id@),
            options@.subrange(i as int, options@.len() as int) == original.subrange(seen, original.len() as int),
        decreases options@.len() - i,
    {
        assert(original.subrange(0, seen + 1).drop_last() == original.subrange(0, seen));
        assert(original[seen] == options@[i as int]) by {
            assert(options@.subrange(i as int, options@.len() as int)[0] == original.subrange(seen, original.len() as int)[0]);
        }
        let ghost before = options@;
        let ghost prefix = removed(original.subrange(0, seen), id@);
        proof {
            reveal(Seq::filter);
            assert(original.subrange(0, seen + 1).last() == original[seen]);
        }
        assert(removed(original.subrange(0, seen + 1), id@) == if original[seen].id@ != id@ {
            prefix.push(original[seen])
        } else {
            prefix
        });
        if options[i].id == id_owned {
            options.remove(i);
            proof {
                assert(options@.subrange(0, i as int) =~= before.subrange(0, i as int));
                assert(options@.subrange(i as int, options@.len() as int) =~= before.subrange(i + 1, before.len() as int));
                assert(before.subrange(i + 1, before.len() as int) =~= before.subrange(i as int, before.len() as int).subrange(1, before.len() - i));
            }
        } else {
            i = i + 1;
            proof {
                assert(options@.subrange(0, i as int) =~= before.subrange(0, i - 1).push(before[i - 1]));
                assert(options@.subrange(i as int, options@.len() as int) =~= before.subrange(i - 1, before.len() as int).subrange(1, before.len() - i + 1));
            }
        }
        proof {
            assert(original.subrange(seen + 1, original.len() as int) =~= original.subrange(seen, original.len() as int).subrange(1, original.len() - seen));
            seen = seen + 1;
        }
    }
    assert(original.subrange(0, seen) == original);
    assert(options@.subrange(0, i as int) == options@);
}

proof fn lemma_inserted_sorted<V>(options: Seq<OptionState<V>>, option: OptionState<V>)
    requires
        sorted_by_index(options),
    ensures
        sorted_by_index(inserted(options, option)),
{
    let k = first_greater(options, option.index);
    let r = inserted(options, option);
    lemma_first_index_props(options, |o: OptionState<V>| o.index > option.index);
    assert forall|i: int, j: int| 0 <= i < j < r.len() implies r[i].index <= r[j].index by {
        if i < k && j > k {
            assert(options[i].index <= option.index);
        } else if i == k {
            assert(options[j - 1].index >= options[k].index);
        } else if j == k {
            assert(options[i].index <= option.index);
        }
    }
}

proof fn lemma_inserted_unique<V>(options: Seq<OptionState<V>>, option: OptionState<V>)
    requires
        ids_unique(options),
        forall|i: int| 0 <= i < options.len() ==> options[i].id@ != option.id@,
    ensures
        ids_unique(inserted(options, option)),
        inserted(options, option).contains(option),
{
    let k = first_greater(options, option.index);
    lemma_first_index_props(options, |o: OptionState<V>| o.index > option.index);
    let r = inserted(options, option);
    assert(r[k] == option);
}

/// Registering an option keeps a registry that is ordered by index ordered
/// by index.
pub proof fn lemma_sync_keeps_order<V>(options: Seq<OptionState<V>>, option: OptionState<V>)
    requires
        sorted_by_index(options),
    ensures
        sorted_by_index(synced(options, option)),
{
    let k = first_with_id(options, option.id@);
    lemma_first_index_props(options, |o: OptionState<V>| o.id@ == option.id@);
    if k < options.len() && options[k].index == option.index {
    } else if k < options.len() {
        let base = options.remove(k);
        assert(sorted_by_index(base)) by {
            assert forall|i: int, j: int| 0 <= i < j < base.len() implies base[i].index <= base[j].index by {
                let oi = if i < k { i } else { i + 1 };
                let oj = if j < k { j } else { j + 1 };
                assert(base[i] == options[oi] && base[j] == options[oj]);
            }
        }
        lemma_inserted_sorted(base, option);
    } else {
        lemma_inserted_sorted(options, option);
    }
}

/// Registering an option into a registry whose ids are unique leaves the ids
/// unique, with the registered option present.
pub proof fn lemma_sync_keeps_ids_unique<V>(options: Seq<OptionState<V>>, option: OptionState<V>)
    requires
        ids_unique(options),
    ensures
        ids_unique(synced(options, option)),
        synced(options, option).contains(option),
{
    let k = first_with_id(options, option.id@);
    lemma_first_index_props(options, |o: OptionState<V>| o.id@ == option.id@);
    if k < options.len() && options[k].index == option.index {
        let r = options.update(k, option);
        assert(r[k] == option);
    } else if k < options.len() {
        let base = options.remove(k);
        assert forall|i: int| 0 <= i < base.len() implies base[i].id@ != option.id@ by {
            let oi = if i < k { i } else { i + 1 };
            assert(base[i] == options[oi]);
        }
        assert(ids_unique(base)) by {
            assert forall|i: int, j: int| 0 <= i < j < base.len() implies base[i].id@ != base[j].id@ by {
                let oi = if i < k { i } else { i + 1 };
                let oj = if j < k { j } else { j + 1 };
                assert(base[i] == options[oi] && base[j] == options[oj]);
            }
        }
        lemma_inserted_unique(base, option);
    } else {
        lemma_inserted_unique(options, option);
    }
}

/// Removing by id leaves no option with that id and keeps every other option,
/// in order.
pub proof fn lemma_remove_drops_only_that_id<V>(options: Seq<OptionState<V>>, id: Seq<char>)
    ensures
        forall|i: int| 0 <= i < removed(options, id).len() ==> removed(options, id)[i].id@ != id,
        forall|o: OptionState<V>| options.contains(o) && o.id@ != id ==> removed(options, id).contains(o),
{
    broadcast use vstd::seq_lib::group_filter_ensures;

    let pred = |o: OptionState<V>| o.id@ != id;
    assert forall|o: OptionState<V>| options.contains(o) && o.id@ != id implies removed(options, id).contains(o) by {
        let i = choose|i: int| 0 <= i < options.len() && options[i] == o;
        options.lemma_filter_contains(pred, i);
    }
}

/// Removing the options with id `id` from `left + [x] + right`, where `x`
/// has that id, gives the same as removing them from `left + right`.
proof fn lemma_removed_around<V>(left: Seq<OptionState<V>>, x: OptionState<V>, right: Seq<OptionState<V>>, id: Seq<char>)
    requires
        x.id@ == id,
    ensures
        removed(left + seq![x] + right, id) == removed(left + right, id),
{
    broadcast use Seq::filter_distributes_over_add;

    assert(removed(seq![x], id) =~= Seq::<OptionState<V>>::empty()) by {
        reveal_with_fuel(Seq::filter, 2);
        assert(seq![x].drop_last() =~= Seq::<OptionState<V>>::empty());
        assert(seq![x].last() == x);
    }
    assert(removed(left + seq![x] + right, id) == removed(left + seq![x], id) + removed(right, id));
    assert(removed(left + seq![x], id) == removed(left, id) + removed(seq![x], id));
    assert(removed(left + right, id) == removed(left, id) + removed(right, id));
    assert(removed(left, id) + Seq::<OptionState<V>>::empty() =~= removed(left, id));
}

/// Registering an option keeps every other option, in its old relative
/// order; the registered option is then the only one with its id; and the
/// registry grows by one exactly when that id was not registered before.
pub proof fn lemma_sync_keeps_others<V>(options: Seq<OptionState<V>>, option: OptionState<V>)
    requires
        ids_unique(options),
    ensures
        removed(synced(options, option), option.id@) == removed(options, option.id@),
        forall|i: int|
            0 <= i < synced(options, option).len() && (#[trigger] synced(options, option)[i]).id@ == option.id@
                ==> synced(options, option)[i] == option,
        synced(options, option).len() == options.len() + if first_with_id(options, option.id@) < options.len() {
            0int
        } else {
            1int
        },
{
    let id = option.id@;
    let k = first_with_id(options, option.id@);
    lemma_first_index_props(options, |o: OptionState<V>| o.id@ == option.id@);
    let out = synced(options, option);
    if k < options.len() {
        assert(options[k].id@ == id);
        let left = options.subrange(0, k);
        let right = options.subrange(k + 1, options.len() as int);
        assert(options =~= left + seq![options[k]] + right);
        lemma_removed_around(left, options[k], right, id);
        if options[k].index == option.index {
            assert(out =~= left + seq![option] + right);
            lemma_removed_around(left, option, right, id);
        } else {
            let base = options.remove(k);
            assert(base =~= left + right);
            let j = first_greater(base, option.index);
            lemma_first_index_props(base, |o: OptionState<V>| o.index > option.index);
            assert(out =~= base.subrange(0, j) + seq![option] + base.subrange(j, base.len() as int));
            lemma_removed_around(base.subrange(0, j), option, base.subrange(j, base.len() as int), id);
            assert(base.subrange(0, j) + base.subrange(j, base.len() as int) =~= base);
        }
    } else {
        let j = first_greater(options, option.index);
        lemma_first_index_props(options, |o: OptionState<V>| o.index > option.index);
        assert(out =~= options.subrange(0, j) + seq![option] + options.subrange(j, options.len() as int));
        lemma_removed_around(options.subrange(0, j), option, options.subrange(j, options.len() as int), id);
        assert(options.subrange(0, j) + options.subrange(j, options.len() as int) =~= options);
    }
    lemma_sync_keeps_ids_unique(options, option);
    assert forall|i: int| 0 <= i < out.len() && (#[trigger] out[i]).id@ == id implies out[i] == option by {
        let q = choose|q: int| 0 <= q < out.len() && out[q] == option;
        if q != i {
            if q < i {
                assert(out[q].id@ != out[i].id@);
            } else {
                assert(out[i].id@ != out[q].id@);
            }
        }
    }
}

/// The separator placed between the texts of the selected options.
pub open spec fn text_separator() -> Seq<char> {
    seq![',', ' ']
}

/// `parts` joined with `sep` between consecutive parts.
pub open spec fn joined(parts: Seq<Seq<char>>, sep: Seq<char>) -> Seq<char>
    decreases parts.len(),
{
    if parts.len() == 0 {
        Seq::empty()
    } else if parts.len() == 1 {
        parts[0]
    } else {
        joined(parts.drop_last(), sep) + sep + parts.last()
    }
}

/// Joining puts the separator between every two consecutive parts and
/// nowhere else: one part is itself, adding a part appends the separator
/// and the part, and joining two non-empty runs of parts joins their
/// joined texts with one separator.
pub proof fn lemma_joined_separates_every_part(parts: Seq<Seq<char>>, more: Seq<Seq<char>>, p: Seq<char>, sep: Seq<char>)
    ensures
        joined(Seq::empty(), sep) == Seq::<char>::empty(),
        joined(seq![p], sep) == p,
        parts.len() > 0 ==> joined(parts.push(p), sep) == joined(parts, sep) + sep + p,
        parts.len() > 0 && more.len() > 0 ==> joined(parts + more, sep) == joined(parts, sep) + sep + joined(more, sep),
        joined(parts, sep).len() == (if parts.len() == 0 { 0 } else { (parts.len() - 1) * sep.len() }) + total_len(parts),
    decreases more.len(),
{
    assert(parts.push(p).drop_last() =~= parts);
    if parts.len() > 0 && more.len() > 0 {
        if more.len() == 1 {
            assert(parts + more =~= parts.push(more[0]));
            assert((parts + more).drop_last() =~= parts);
            assert(joined(more, sep) == more[0]);
        } else {
            lemma_joined_separates_every_part(parts, more.drop_last(), more.last(), sep);
            let a = joined(parts, sep);
            let b = joined(more.drop_last(), sep);
            assert((parts + more).drop_last() =~= parts + more.drop_last());
            assert((parts + more).last() == more.last());
            assert(joined(parts + more, sep) == joined(parts + more.drop_last(), sep) + sep + more.last());
            assert(joined(more, sep) == b + sep + more.last());
            assert(a + sep + b + sep + more.last() =~= a + sep + (b + sep + more.last()));
        }
    }
    lemma_joined_len(parts, sep);
}

/// The total number of characters of `parts`.
pub open spec fn total_len(parts: Seq<Seq<char>>) -> int
    decreases parts.len(),
{
    if parts.len() == 0 {
        0
    } else {
        total_len(parts.drop_last()) + parts.last().len()
    }
}

/// The joined text is as long as the parts plus one separator between
/// every two of them.
proof fn lemma_joined_len(parts: Seq<Seq<char>>, sep: Seq<char>)
    ensures
        joined(parts, sep).len() == (if parts.len() == 0 { 0 } else { (parts.len() - 1) * sep.len() }) + total_len(parts),
    decreases parts.len(),
{
    if parts.len() > 1 {
        lemma_joined_len(parts.drop_last(), sep);
        assert((parts.len() - 1) * sep.len() == (parts.len() - 2) * sep.len() + sep.len()) by (nonlinear_arith);
    } else if parts.len() == 1 {
        assert(parts.drop_last().len() == 0);
        assert(parts.last() == parts[0]);
        assert(total_len(parts) == total_len(parts.drop_last()) + parts.last().len());
    }
}

/// The first position in `options` whose value equals `value`, or
/// `options.len()`.
pub open spec fn first_with_value<V: PartialEq>(options: Seq<OptionState<V>>, value: V) -> int {
    first_index(options, |o: OptionState<V>| o.value.eq_spec(&value))
}

/// The texts of the options matching `values`, in the order of `values`;
/// values that match no option contribute nothing.
pub open spec fn selected_parts<V: PartialEq>(values: Seq<V>, options: Seq<OptionState<V>>) -> Seq<Seq<char>>
    decreases values.len(),
{
    if values.len() == 0 {
        Seq::empty()
    } else {
        let rest = selected_parts(values.drop_last(), options);
        let k = first_with_value(options, values.last());
        if k < options.len() {
            rest.push(options[k].text_value@)
        } else {
            rest
        }
    }
}

/// The display text of a selection: the matching options' texts joined with
/// `", "`, or nothing when no value matches an option.
pub open spec fn selected_text_spec<V: PartialEq>(values: Seq<V>, options: Seq<OptionState<V>>) -> Option<Seq<char>> {
    let parts = selected_parts(values, options);
    if parts.len() == 0 {
        None
    } else {
        Some(joined(parts, text_separator()))
    }
}

/// Join `parts` with `", "`.
fn join_parts(parts: &Vec<String>) -> (joined_text: String)
    ensures
        joined_text@ == joined(parts@.map_values(|p: String| p@), text_separator()),
{
    let ghost views = parts@.map_values(|p: String| p@);
    let mut out = String::new();
    let mut i: usize = 0;
    while i < parts.len()
        invariant
            0 <= i <= parts@.len(),
            views == parts@.map_values(|p: String| p@),
            out@ == joined(views.subrange(0, i as int), text_separator()),
        decreases parts@.len() - i,
    {
        assert(views.subrange(0, i + 1).drop_last() == views.subrange(0, i as int));
        if i > 0 {
            proof {
                reveal_strlit(", ");
            }
            out.append(", ");
        }
        out.append(parts[i].as_str());
        i = i + 1;
    }
    assert(views.subrange(0, i as int) == views);
    out
}

/// Display text for selected values in selection order: the text of the
/// first option whose value equals each selected value, joined with `", "`;
/// `None` when no selected value matches an option.
pub fn selected_text<V: PartialEq>(values: &[&V], options: &[OptionState<V>]) -> (text: Option<String>)
    ensures
        V::obeys_eq_spec() ==> match selected_text_spec(values@.map_values(|v: &V| *v), options@) {
            Some(t) => text matches Some(s) && s@ == t,
            None => text is None,
        },
        values@.len() == 0 || options@.len() == 0 ==> text is None,
{
    let ghost vals = values@.map_values(|v: &V| *v);
    let mut parts: Vec<String> = Vec::new();
    let mut j: usize = 0;
    while j < values.len()
        invariant
            0 <= j <= values@.len(),
            vals == values@.map_values(|v: &V| *v),
            V::obeys_eq_spec() ==> parts@.map_values(|p: String| p@) == selected_parts(vals.subrange(0, j as int), options@),
            options@.len() == 0 ==> parts@.len() == 0,
            parts@.len() <= j,
        decreases values@.len() - j,
    {
        assert(vals.subrange(0, j + 1).drop_last() == vals.subrange(0, j as int));
        let value: &V = values[j];
        let mut k: usize = 0;
        while k < options.len() && !options[k].value.eq(value)
            invariant
                0 <= k <= options@.len(),
                V::obeys_eq_spec() ==> forall|i: int| 0 <= i < k ==> !options@[i].value.eq_spec(value),
            decreases options@.len() - k,
        {
            k = k + 1;
        }
        proof {
            if V::obeys_eq_spec() {
                lemma_first_index_is(options@, |o: OptionState<V>| o.value.eq_spec(value), k as int);
            }
        }
        if k < options.len() {
            parts.push(options[k].text_value.clone());
            proof {
                assert(parts@.map_values(|p: String| p@) =~= parts@.drop_last().map_values(|p: String| p@).push(parts@.last()@));
            }
        }
        j = j + 1;
    }
    assert(vals.subrange(0, j as int) == vals);
    if parts.len() == 0 {
        None
    } else {
        Some(join_parts(&parts))
    }
}

/// The searchable text an option gets: `text_value` when given, else the
/// value itself when it is a `String`, else when it is a `&str`, else empty.
pub open spec fn resolved_text_value(
    text_value: Option<Seq<char>>,
    as_string: Option<Seq<char>>,
    as_str: Option<Seq<char>>,
) -> Seq<char> {
    match text_value {
        Some(t) => t,
        None => match as_string {
            Some(s) => s,
            None => match as_str {
                Some(s) => s,
                None => Seq::empty(),
            },
        },
    }
}

/// Resolve an option's searchable text from an explicit `text_value` and the
/// value's readings as a `String` and as a `&str` (each `None` when the value
/// is not of that type).
pub fn resolve_text_value(text_value: Option<String>, as_string: Option<String>, as_str: Option<String>) -> (text: String)
    ensures
        text@ == resolved_text_value(
            match text_value { Some(t) => Some(t@), None => None },
            match as_string { Some(s) => Some(s@), None => None },
            match as_str { Some(s) => Some(s@), None => None },
        ),
{
    match text_value {
        Some(t) => t,
        None => match as_string {
            Some(s) => s,
            None => match as_str {
                Some(s) => s,
                None => String::new(),
            },
        },
    }
}

/// The value read as a `String`, when its type is `String` (std's `Any`
/// downcast). Nothing is stated of the result: whether a generic `T` is
/// `String` cannot be expressed in a contract.
#[verifier::external_body]
fn value_as_string<T: 'static>(value: &T) -> Option<String> {
    (value as &dyn std::any::Any).downcast_ref::<String>().cloned()
}

/// The value read as a `&str`, when its type is `&str` (std's `Any`
/// downcast), copied into a `String`. Nothing is stated of the result:
/// whether a generic `T` is `&str` cannot be expressed in a contract.
#[verifier::external_body]
fn value_as_str<T: 'static>(value: &T) -> Option<String> {
    (value as &dyn std::any::Any).downcast_ref::<&str>().map(|s| s.to_string())
}

/// Resolve an option's searchable text value: an explicit `text_value` wins;
/// otherwise a `String` or `&str` value is its own text; any other value type
/// without a `text_value` gets the empty text. `component_name` names the
/// component in the warning the host gives for that last case.
pub fn option_text_value<T: 'static>(value: &T, text_value: Option<String>, component_name: &str) -> (text: String)
    ensures
        text_value matches Some(t) ==> text@ == t@,
{
    match text_value {
        Some(t) => resolve_text_value(Some(t), None, None),
        None => {
            let as_string = value_as_string(value);
            if as_string.is_some() {
                resolve_text_value(None, as_string, None)
            } else {
                let as_str = value_as_str(value);
                resolve_text_value(None, None, as_str)
            }
        },
    }
}

} // verus!
