//! Merging attribute lists: later lists win for the same (name, namespace)
//! pair, `class` values are joined with a space, and the result is ordered
//! by attribute name.
use vstd::prelude::*;
use vstd::string::{StrSliceExecFns, StringExecFns};

use crate::seq_search::{first_index, lemma_first_index_is, lemma_first_index_props};

verus! {

/// An attribute value: text, or any other value carried through unchanged.
pub enum AttributeValue<V> {
    /// A text value.
    Text(String),
    /// Any other value.
    Other(V),
}

/// One attribute of an element.
pub struct Attribute<V> {
    /// The attribute's name.
    pub name: &'static str,
    /// The attribute's namespace, if any.
    pub namespace: Option<&'static str>,
    /// Whether the attribute must always be re-applied.
    pub volatile: bool,
    /// The attribute's value.
    pub value: AttributeValue<V>,
}

/// `a` comes before `b` in lexicographic order of their characters (for
/// UTF-8 text this is the same order as comparing their bytes).
pub open spec fn lex_lt(a: Seq<char>, b: Seq<char>) -> bool
    decreases a.len(),
{
    if a.len() == 0 {
        b.len() > 0
    } else if b.len() == 0 {
        false
    } else if (a[0] as u32) < (b[0] as u32) {
        true
    } else if (a[0] as u32) > (b[0] as u32) {
        false
    } else {
        lex_lt(a.drop_first(), b.drop_first())
    }
}

/// A namespace as plain characters.
pub open spec fn namespace_view(namespace: Option<&'static str>) -> Option<Seq<char>> {
    match namespace {
        Some(n) => Some(n@),
        None => None,
    }
}

/// A character with the Unicode `White_Space` property: U+0009..U+000D,
/// U+0020, U+0085, U+00A0, U+1680, U+2000..U+200A, U+2028, U+2029, U+202F,
/// U+205F and U+3000.
pub open spec fn is_white_space(c: char) -> bool {
    let u = c as u32;
    ||| 0x9 <= u <= 0xD
    ||| u == 0x20
    ||| u == 0x85
    ||| u == 0xA0
    ||| u == 0x1680
    ||| 0x2000 <= u <= 0x200A
    ||| u == 0x2028
    ||| u == 0x2029
    ||| u == 0x202F
    ||| u == 0x205F
    ||| u == 0x3000
}

/// `s` without its leading white space.
pub open spec fn trim_start(s: Seq<char>) -> Seq<char>
    decreases s.len(),
{
    if s.len() > 0 && is_white_space(s[0]) {
        trim_start(s.drop_first())
    } else {
        s
    }
}

/// `s` without its trailing white space.
pub open spec fn trim_end(s: Seq<char>) -> Seq<char>
    decreases s.len(),
{
    if s.len() > 0 && is_white_space(s.last()) {
        trim_end(s.drop_last())
    } else {
        s
    }
}

/// `s` without leading and trailing white space (`str::trim`).
pub open spec fn str_trim(s: Seq<char>) -> Seq<char> {
    trim_end(trim_start(s))
}

/// std's `str::trim`, which removes leading and trailing characters with
/// the Unicode `White_Space` property.
#[verifier::external_body]
fn trim_str(s: &str) -> (trimmed: &str)
    ensures
        trimmed@ == str_trim(s@),
{
    s.trim()
}

/// Two class lists joined: both trimmed, separated by one space when both
/// are non-empty.
pub open spec fn joined_class(a: Seq<char>, b: Seq<char>) -> Seq<char> {
    let (a, b) = (str_trim(a), str_trim(b));
    if a.len() != 0 && b.len() != 0 {
        a + seq![' '] + b
    } else {
        a + b
    }
}

/// Join two class lists: both trimmed, separated by one space when both are
/// non-empty.
pub fn join_class(a: &str, b: &str) -> (joined: String)
    ensures
        joined@ == joined_class(a@, b@),
{
    let a = trim_str(a);
    let b = trim_str(b);
    let mut joined = String::from_str(a);
    if a.unicode_len() != 0 && b.unicode_len() != 0 {
        proof {
            reveal_strlit(" ");
        }
        joined.append(" ");
    }
    joined.append(b);
    joined
}

/// Whether two strings hold the same characters.
fn same_text(a: &str, b: &str) -> (same: bool)
    ensures
        same == (a@ == b@),
{
    let n = a.unicode_len();
    if n != b.unicode_len() {
        return false;
    }
    let mut i: usize = 0;
    while i < n
        invariant
            n == a@.len(),
            n == b@.len(),
            0 <= i <= n,
            forall|j: int| 0 <= j < i ==> a@[j] == b@[j],
        decreases n - i,
    {
        if a.get_char(i) != b.get_char(i) {
            return false;
        }
        i = i + 1;
    }
    assert(a@ =~= b@);
    true
}

/// Whether two namespaces are the same.
fn same_namespace(a: Option<&'static str>, b: Option<&'static str>) -> (same: bool)
    ensures
        same == (namespace_view(a) == namespace_view(b)),
{
    match (a, b) {
        (Some(x), Some(y)) => same_text(x, y),
        (None, None) => true,
        _ => false,
    }
}

/// Whether `a` comes before `b` in lexicographic order of their characters.
fn text_less(a: &str, b: &str) -> (less: bool)
    ensures
        less == lex_lt(a@, b@),
{
    let na = a.unicode_len();
    let nb = b.unicode_len();
    let mut i: usize = 0;
    assert(a@.skip(0) =~= a@ && b@.skip(0) =~= b@);
    while i < na && i < nb
        invariant
            na == a@.len(),
            nb == b@.len(),
            0 <= i <= na,
            i <= nb,
            lex_lt(a@, b@) == lex_lt(a@.skip(i as int), b@.skip(i as int)),
        decreases na - i,
    {
        let ca = a.get_char(i);
        let cb = b.get_char(i);
        assert(a@.skip(i as int)[0] == ca && b@.skip(i as int)[0] == cb);
        if (ca as u32) < (cb as u32) {
            return true;
        }
        if (ca as u32) > (cb as u32) {
            return false;
        }
        assert(a@.skip(i as int).drop_first() =~= a@.skip(i + 1));
        assert(b@.skip(i as int).drop_first() =~= b@.skip(i + 1));
        i = i + 1;
    }
    i == na && i < nb
}

/// An attribute value as plain values.
pub enum ValueView<V> {
    /// A text value.
    Text(Seq<char>),
    /// Any other value.
    Other(V),
}

/// An attribute as plain values.
pub struct AttributeView<V> {
    /// The attribute's name.
    pub name: Seq<char>,
    /// The attribute's namespace.
    pub namespace: Option<Seq<char>>,
    /// Whether the attribute must always be re-applied.
    pub volatile: bool,
    /// The attribute's value.
    pub value: ValueView<V>,
}

impl<V> Attribute<V> {
    /// The attribute as plain values.
    pub open spec fn view(&self) -> AttributeView<V> {
        AttributeView {
            name: self.name@,
            namespace: namespace_view(self.namespace),
            volatile: self.volatile,
            value: match self.value {
                AttributeValue::Text(t) => ValueView::Text(t@),
                AttributeValue::Other(v) => ValueView::Other(v),
            },
        }
    }
}

/// A list of attributes as plain values.
pub open spec fn views<V>(attributes: Seq<Attribute<V>>) -> Seq<AttributeView<V>> {
    attributes.map_values(|a: Attribute<V>| a@)
}

/// Lists of attributes as plain values.
pub open spec fn list_views<V>(lists: Seq<Vec<Attribute<V>>>) -> Seq<Seq<AttributeView<V>>> {
    lists.map_values(|l: Vec<Attribute<V>>| views(l@))
}

/// The name `class`.
pub open spec fn class_name() -> Seq<char> {
    seq!['c', 'l', 'a', 's', 's']
}

/// All lists' attributes, list after list.
pub open spec fn concatenated<A>(lists: Seq<Seq<A>>) -> Seq<A>
    decreases lists.len(),
{
    if lists.len() == 0 {
        Seq::empty()
    } else {
        concatenated(lists.drop_last()) + lists.last()
    }
}

/// An attribute whose name comes after `name`.
pub open spec fn named_after<V>(name: Seq<char>) -> spec_fn(AttributeView<V>) -> bool {
    |x: AttributeView<V>| lex_lt(name, x.name)
}

/// `attributes` stably sorted by name: each attribute goes after every
/// earlier one whose name is not after its own.
pub open spec fn sorted_by_name<V>(attributes: Seq<AttributeView<V>>) -> Seq<AttributeView<V>>
    decreases attributes.len(),
{
    if attributes.len() == 0 {
        Seq::empty()
    } else {
        let rest = sorted_by_name(attributes.drop_last());
        let a = attributes.last();
        rest.insert(first_index(rest, named_after(a.name)), a)
    }
}

/// A later attribute `attr` meeting an `existing` one with the same name and
/// namespace: two text `class` values are joined (volatile if either was),
/// anything else is replaced by the later attribute.
pub open spec fn combined<V>(existing: AttributeView<V>, attr: AttributeView<V>) -> AttributeView<V> {
    if attr.name == class_name() {
        match (existing.value, attr.value) {
            (ValueView::Text(a), ValueView::Text(b)) => AttributeView {
                name: attr.name,
                namespace: attr.namespace,
                volatile: existing.volatile || attr.volatile,
                value: ValueView::Text(joined_class(a, b)),
            },
            _ => attr,
        }
    } else {
        attr
    }
}

/// An attribute in the namespace `namespace`.
pub open spec fn in_namespace<V>(namespace: Option<Seq<char>>) -> spec_fn(AttributeView<V>) -> bool {
    |x: AttributeView<V>| x.namespace == namespace
}

/// Add `attr` to the attributes collected for one name: combined into the
/// entry of its namespace, or appended as a new entry.
pub open spec fn added_to_group<V>(group: Seq<AttributeView<V>>, attr: AttributeView<V>) -> Seq<AttributeView<V>> {
    let k = first_index(group, in_namespace(attr.namespace));
    if k < group.len() {
        group.update(k, combined(group[k], attr))
    } else {
        group.push(attr)
    }
}

/// Walking name-sorted attributes: the finished groups so far, and the group
/// of the current name.
pub open spec fn merge_walk<V>(sorted: Seq<AttributeView<V>>) -> (Seq<AttributeView<V>>, Seq<AttributeView<V>>)
    decreases sorted.len(),
{
    if sorted.len() == 0 {
        (Seq::empty(), Seq::empty())
    } else {
        let (done, group) = merge_walk(sorted.drop_last());
        let a = sorted.last();
        if group.len() > 0 && group[0].name != a.name {
            (done + group, seq![a])
        } else {
            (done, added_to_group(group, a))
        }
    }
}

/// The merge of attribute lists: every attribute stably sorted by name, then
/// each name's attributes folded by namespace in that order.
pub open spec fn merged<V>(lists: Seq<Seq<AttributeView<V>>>) -> Seq<AttributeView<V>> {
    let (done, group) = merge_walk(sorted_by_name(concatenated(lists)));
    done + group
}

/// The later attribute `attr` applied over `existing` (same name and
/// namespace).
fn combine<V>(existing: Attribute<V>, attr: Attribute<V>) -> (result: Attribute<V>)
    ensures
        result@ == combined(existing@, attr@),
{
    proof {
        reveal_strlit("class");
        assert("class"@ =~= class_name());
    }
    if same_text(attr.name, "class") {
        match (existing.value, attr.value) {
            (AttributeValue::Text(a), AttributeValue::Text(b)) => Attribute {
                name: attr.name,
                namespace: attr.namespace,
                volatile: existing.volatile || attr.volatile,
                value: AttributeValue::Text(join_class(a.as_str(), b.as_str())),
            },
            (_, value) => Attribute {
                name: attr.name,
                namespace: attr.namespace,
                volatile: attr.volatile,
                value,
            },
        }
    } else {
        attr
    }
}

/// Merge multiple attribute lists.
///
/// Later lists win for the same (name, namespace) pair; text `class` values
/// are instead joined with a single space (each trimmed), volatile if either
/// was; the result is ordered by name.
pub fn merge_attributes<V>(lists: Vec<Vec<Attribute<V>>>) -> (merged_list: Vec<Attribute<V>>)
    ensures
        views(merged_list@) == merged(list_views(lists@)),
{
    let ghost original = list_views(lists@);
    let mut lists = lists;
    // Every attribute, list after list.
    let mut all: Vec<Attribute<V>> = Vec::new();
    let ghost mut taken: int = 0;
    while lists.len() > 0
        invariant
            0 <= taken <= original.len(),
            list_views(lists@) == original.subrange(taken, original.len() as int),
            views(all@) == concatenated(original.subrange(0, taken)),
        decreases lists@.len(),
    {
        let ghost before = lists@;
        let mut list = lists.remove(0);
        proof {
            assert(list_views(before).len() == before.len());
            assert(views(list@) == original[taken]) by {
                assert(list_views(before)[0] == views(before[0]@));
                assert(list_views(before)[0] == original.subrange(taken, original.len() as int)[0]);
            }
            assert(list_views(lists@) =~= original.subrange(taken + 1, original.len() as int)) by {
                assert(list_views(lists@) =~= list_views(before).drop_first());
            }
            assert(original.subrange(0, taken + 1).drop_last() =~= original.subrange(0, taken));
        }
        let ghost all_before = all@;
        all.append(&mut list);
        proof {
            assert(views(all@) =~= views(all_before) + views(all@.subrange(all_before.len() as int, all@.len() as int)));
            taken = taken + 1;
        }
    }
    assert(original.subrange(0, taken) =~= original);
    let ghost stream = views(all@);

    // Stably sorted by name.
    let mut sorted: Vec<Attribute<V>> = Vec::new();
    let ghost mut consumed: int = 0;
    while all.len() > 0
        invariant
            0 <= consumed <= stream.len(),
            views(all@) == stream.subrange(consumed, stream.len() as int),
            views(sorted@) == sorted_by_name(stream.subrange(0, consumed)),
        decreases all@.len(),
    {
        let ghost all_before = all@;
        let a = all.remove(0);
        proof {
            assert(views(all_before).len() == all_before.len());
            assert(a@ == stream[consumed]) by {
                assert(views(all_before)[0] == all_before[0]@);
                assert(views(all_before)[0] == stream.subrange(consumed, stream.len() as int)[0]);
            }
            assert(views(all@) =~= stream.subrange(consumed + 1, stream.len() as int)) by {
                assert(views(all@) =~= views(all_before).drop_first());
            }
            assert(stream.subrange(0, consumed + 1).drop_last() =~= stream.subrange(0, consumed));
        }
        let ghost rest = views(sorted@);
        let mut at: usize = 0;
        while at < sorted.len() && !text_less(a.name, sorted[at].name)
            invariant
                0 <= at <= sorted@.len(),
                rest == views(sorted@),
                forall|j: int| 0 <= j < at ==> !named_after::<V>(a@.name)(#[trigger] rest[j]),
            decreases sorted@.len() - at,
        {
            assert(rest[at as int] == sorted@[at as int]@);
            at = at + 1;
        }
        proof {
            if at < sorted@.len() {
                assert(rest[at as int] == sorted@[at as int]@);
            }
            lemma_first_index_is(rest, named_after::<V>(a@.name), at as int);
        }
        sorted.insert(at, a);
        proof {
            assert(views(sorted@) =~= rest.insert(at as int, stream[consumed]));
            consumed = consumed + 1;
        }
    }
    assert(stream.subrange(0, consumed) =~= stream);
    let ghost ordered = views(sorted@);

    // Each name's attributes folded by namespace.
    let mut done: Vec<Attribute<V>> = Vec::new();
    let mut group: Vec<Attribute<V>> = Vec::new();
    let ghost mut walked: int = 0;
    while sorted.len() > 0
        invariant
            0 <= walked <= ordered.len(),
            views(sorted@) == ordered.subrange(walked, ordered.len() as int),
            (views(done@), views(group@)) == merge_walk(ordered.subrange(0, walked)),
        decreases sorted@.len(),
    {
        let ghost sorted_before = sorted@;
        let a = sorted.remove(0);
        proof {
            assert(views(sorted_before).len() == sorted_before.len());
            assert(a@ == ordered[walked]) by {
                assert(views(sorted_before)[0] == sorted_before[0]@);
                assert(views(sorted_before)[0] == ordered.subrange(walked, ordered.len() as int)[0]);
            }
            assert(views(sorted@) =~= ordered.subrange(walked + 1, ordered.len() as int)) by {
                assert(views(sorted@) =~= views(sorted_before).drop_first());
            }
            assert(ordered.subrange(0, walked + 1).drop_last() =~= ordered.subrange(0, walked));
        }
        let ghost g = views(group@);
        let ghost d = views(done@);
        if group.len() > 0 && !same_text(group[0].name, a.name) {
            proof {
                assert(g[0] == group@[0]@);
            }
            done.append(&mut group);
            group.push(a);
            proof {
                assert(views(done@) =~= d + g);
                assert(views(group@) =~= seq![a@]);
            }
        } else {
            let mut k: usize = 0;
            while k < group.len() && !same_namespace(group[k].namespace, a.namespace)
                invariant
                    0 <= k <= group@.len(),
                    g == views(group@),
                    forall|j: int| 0 <= j < k ==> !in_namespace::<V>(a@.namespace)(#[trigger] g[j]),
                decreases group@.len() - k,
            {
                assert(g[k as int] == group@[k as int]@);
                k = k + 1;
            }
            proof {
                if k < group@.len() {
                    assert(g[k as int] == group@[k as int]@);
                }
                lemma_first_index_is(g, in_namespace::<V>(a@.namespace), k as int);
            }
            if k < group.len() {
                let existing = group.remove(k);
                let updated = combine(existing, a);
                group.insert(k, updated);
                proof {
                    assert(views(group@) =~= g.update(k as int, combined(g[k as int], ordered[walked])));
                }
            } else {
                group.push(a);
                proof {
                    assert(views(group@) =~= g.push(ordered[walked]));
                }
            }
        }
        proof {
            walked = walked + 1;
        }
    }
    assert(ordered.subrange(0, walked) =~= ordered);
    let ghost d = views(done@);
    let ghost g = views(group@);
    done.append(&mut group);
    assert(views(done@) =~= d + g);
    done
}

/// Characters with the same code point are the same character.
proof fn lemma_char_code_injective(c: char, d: char)
    requires
        c as u32 == d as u32,
    ensures
        c == d,
{
    assert(c as int == c as u32);
    assert(d as int == d as u32);
}

/// `lex_lt` is irreflexive.
proof fn lemma_lex_irreflexive(a: Seq<char>)
    ensures
        !lex_lt(a, a),
    decreases a.len(),
{
    if a.len() > 0 {
        lemma_lex_irreflexive(a.drop_first());
    }
}

/// `lex_lt` is transitive.
proof fn lemma_lex_transitive(a: Seq<char>, b: Seq<char>, c: Seq<char>)
    requires
        lex_lt(a, b),
        lex_lt(b, c),
    ensures
        lex_lt(a, c),
    decreases a.len(),
{
    if a.len() > 0 && b.len() > 0 && c.len() > 0 {
        if (a[0] as u32) == (b[0] as u32) && (b[0] as u32) == (c[0] as u32) {
            lemma_lex_transitive(a.drop_first(), b.drop_first(), c.drop_first());
        }
    }
}

/// Two different character sequences are ordered one way or the other.
proof fn lemma_lex_total(a: Seq<char>, b: Seq<char>)
    requires
        a != b,
    ensures
        lex_lt(a, b) || lex_lt(b, a),
    decreases a.len(),
{
    if a.len() > 0 && b.len() > 0 && (a[0] as u32) == (b[0] as u32) {
        lemma_char_code_injective(a[0], b[0]);
        if a.drop_first() == b.drop_first() {
            assert(a =~= seq![a[0]] + a.drop_first());
            assert(b =~= seq![b[0]] + b.drop_first());
        }
        lemma_lex_total(a.drop_first(), b.drop_first());
    } else if a.len() == 0 && b.len() == 0 {
        assert(a =~= b);
    }
}

/// Attributes ordered by name: no attribute's name comes before that of an
/// earlier one.
pub open spec fn name_ordered<V>(s: Seq<AttributeView<V>>) -> bool {
    forall|i: int, j: int| 0 <= i < j < s.len() ==> !lex_lt(#[trigger] s[j].name, #[trigger] s[i].name)
}

/// No two attributes share both name and namespace.
pub open spec fn keys_unique<V>(s: Seq<AttributeView<V>>) -> bool {
    forall|i: int, j: int|
        0 <= i < j < s.len() ==> !(#[trigger] s[i].name == #[trigger] s[j].name && s[i].namespace == s[j].namespace)
}

/// Sorting by name orders the attributes.
proof fn lemma_sorted_by_name_ordered<V>(x: Seq<AttributeView<V>>)
    ensures
        name_ordered(sorted_by_name(x)),
        sorted_by_name(x).len() == x.len(),
    decreases x.len(),
{
    if x.len() > 0 {
        let rest = sorted_by_name(x.drop_last());
        let a = x.last();
        let p = named_after::<V>(a.name);
        lemma_sorted_by_name_ordered(x.drop_last());
        lemma_first_index_props(rest, p);
        let k = first_index(rest, p);
        let out = rest.insert(k, a);
        assert(out == sorted_by_name(x));
        assert forall|i: int, j: int| 0 <= i < j < out.len() implies !lex_lt(#[trigger] out[j].name, #[trigger] out[i].name) by {
            if j < k {
                assert(out[i] == rest[i] && out[j] == rest[j]);
            } else if j == k {
                assert(out[i] == rest[i] && out[j] == a);
                assert(!p(rest[i]));
            } else if i == k {
                assert(out[i] == a && out[j] == rest[j - 1]);
                assert(p(rest[k]));
                if j - 1 > k {
                    assert(!lex_lt(rest[j - 1].name, rest[k].name));
                    if rest[j - 1].name != rest[k].name {
                        lemma_lex_total(rest[j - 1].name, rest[k].name);
                        lemma_lex_transitive(a.name, rest[k].name, rest[j - 1].name);
                    }
                }
                if lex_lt(rest[j - 1].name, a.name) {
                    lemma_lex_transitive(a.name, rest[j - 1].name, a.name);
                    lemma_lex_irreflexive(a.name);
                }
            } else if i < k {
                assert(out[i] == rest[i] && out[j] == rest[j - 1]);
            } else {
                assert(out[i] == rest[i - 1] && out[j] == rest[j - 1]);
            }
        }
    }
}

/// What the walk over name-ordered attributes keeps true: finished groups
/// come in name order with unique keys; the current group holds the name
/// of the last attribute walked, is keyed by namespace alone, and comes
/// strictly after every finished group.
proof fn lemma_merge_walk_shape<V>(sorted: Seq<AttributeView<V>>)
    requires
        name_ordered(sorted),
    ensures
        ({
            let (done, group) = merge_walk(sorted);
            &&& sorted.len() > 0 ==> group.len() > 0 && group[0].name == sorted.last().name
            &&& sorted.len() == 0 ==> group.len() == 0 && done.len() == 0
            &&& forall|g: int| 0 <= g < group.len() ==> #[trigger] group[g].name == group[0].name
            &&& forall|d: int| 0 <= d < done.len() && group.len() > 0 ==> lex_lt(#[trigger] done[d].name, group[0].name)
            &&& name_ordered(done)
            &&& keys_unique(done)
            &&& keys_unique(group)
        }),
    decreases sorted.len(),
{
    if sorted.len() > 0 {
        let prefix = sorted.drop_last();
        assert(name_ordered(prefix)) by {
            assert forall|i: int, j: int| 0 <= i < j < prefix.len() implies !lex_lt(#[trigger] prefix[j].name, #[trigger] prefix[i].name) by {
                assert(prefix[i] == sorted[i] && prefix[j] == sorted[j]);
            }
        }
        lemma_merge_walk_shape(prefix);
        let (done, group) = merge_walk(prefix);
        let a = sorted.last();
        if group.len() > 0 && group[0].name != a.name {
            let nd = done + group;
            // The current group's name comes strictly before `a`'s.
            assert(group[0].name == prefix.last().name);
            assert(prefix.last() == sorted[sorted.len() - 2]);
            assert(!lex_lt(a.name, group[0].name));
            lemma_lex_total(a.name, group[0].name);
            assert forall|d: int| 0 <= d < nd.len() implies lex_lt(#[trigger] nd[d].name, a.name) by {
                if d < done.len() {
                    assert(nd[d] == done[d]);
                    lemma_lex_transitive(done[d].name, group[0].name, a.name);
                } else {
                    assert(nd[d] == group[d - done.len()]);
                }
            }
            assert forall|i: int, j: int| 0 <= i < j < nd.len() implies !lex_lt(#[trigger] nd[j].name, #[trigger] nd[i].name) by {
                if j < done.len() {
                    assert(nd[i] == done[i] && nd[j] == done[j]);
                } else if i < done.len() {
                    assert(nd[i] == done[i] && nd[j] == group[j - done.len()]);
                    if lex_lt(nd[j].name, nd[i].name) {
                        lemma_lex_transitive(done[i].name, group[0].name, done[i].name);
                        lemma_lex_irreflexive(done[i].name);
                    }
                } else {
                    assert(nd[i] == group[i - done.len()] && nd[j] == group[j - done.len()]);
                    lemma_lex_irreflexive(group[0].name);
                }
            }
            assert forall|i: int, j: int| 0 <= i < j < nd.len() implies !(#[trigger] nd[i].name == #[trigger] nd[j].name && nd[i].namespace == nd[j].namespace) by {
                if j < done.len() {
                    assert(nd[i] == done[i] && nd[j] == done[j]);
                } else if i < done.len() {
                    assert(nd[i] == done[i] && nd[j] == group[j - done.len()]);
                    lemma_lex_irreflexive(group[0].name);
                } else {
                    assert(nd[i] == group[i - done.len()] && nd[j] == group[j - done.len()]);
                }
            }
            assert(merge_walk(sorted) == (nd, seq![a]));
        } else {
            let p = in_namespace::<V>(a.namespace);
            lemma_first_index_props(group, p);
            let k = first_index(group, p);
            let ng = added_to_group(group, a);
            assert(merge_walk(sorted) == (done, ng));
            if group.len() == 0 {
                assert(prefix.len() == 0);
            }
            assert forall|g: int| 0 <= g < ng.len() implies #[trigger] ng[g].name == a.name by {
                if k < group.len() {
                    if g != k {
                        assert(ng[g] == group[g]);
                    }
                } else if g < group.len() {
                    assert(ng[g] == group[g]);
                }
            }
            assert forall|i: int, j: int| 0 <= i < j < ng.len() implies !(#[trigger] ng[i].name == #[trigger] ng[j].name && ng[i].namespace == ng[j].namespace) by {
                if k < group.len() {
                    assert(group[k].name == group[0].name);
                    assert(ng[k].name == group[k].name);
                    assert(ng[k].namespace == group[k].namespace);
                    if i != k {
                        assert(ng[i] == group[i]);
                    }
                    if j != k {
                        assert(ng[j] == group[j]);
                    }
                } else {
                    if j < group.len() {
                        assert(ng[i] == group[i] && ng[j] == group[j]);
                    } else {
                        assert(ng[i] == group[i] && ng[j] == a);
                        assert(!p(group[i]));
                    }
                }
            }
        }
    }
}

/// The merge lists attributes in name order, and never lists the same
/// name and namespace twice.
pub proof fn lemma_merged_ordered_and_unique<V>(lists: Seq<Seq<AttributeView<V>>>)
    ensures
        name_ordered(merged(lists)),
        keys_unique(merged(lists)),
{
    let sorted = sorted_by_name(concatenated(lists));
    lemma_sorted_by_name_ordered(concatenated(lists));
    lemma_merge_walk_shape(sorted);
    let (done, group) = merge_walk(sorted);
    let out = done + group;
    assert(out == merged(lists));
    assert forall|i: int, j: int| 0 <= i < j < out.len() implies !lex_lt(#[trigger] out[j].name, #[trigger] out[i].name) by {
        if j < done.len() {
            assert(out[i] == done[i] && out[j] == done[j]);
        } else if i < done.len() {
            assert(out[i] == done[i] && out[j] == group[j - done.len()]);
            if lex_lt(out[j].name, out[i].name) {
                lemma_lex_transitive(done[i].name, group[0].name, done[i].name);
                lemma_lex_irreflexive(done[i].name);
            }
        } else {
            assert(out[i] == group[i - done.len()] && out[j] == group[j - done.len()]);
            lemma_lex_irreflexive(group[0].name);
        }
    }
    assert forall|i: int, j: int| 0 <= i < j < out.len() implies !(#[trigger] out[i].name == #[trigger] out[j].name && out[i].namespace == out[j].namespace) by {
        if j < done.len() {
            assert(out[i] == done[i] && out[j] == done[j]);
        } else if i < done.len() {
            assert(out[i] == done[i] && out[j] == group[j - done.len()]);
            lemma_lex_irreflexive(group[0].name);
        } else {
            assert(out[i] == group[i - done.len()] && out[j] == group[j - done.len()]);
        }
    }
}

/// The last attribute of `s` with this name and namespace, if any.
pub open spec fn last_with_key<V>(s: Seq<AttributeView<V>>, name: Seq<char>, namespace: Option<Seq<char>>) -> Option<AttributeView<V>>
    decreases s.len(),
{
    if s.len() == 0 {
        None
    } else if s.last().name == name && s.last().namespace == namespace {
        Some(s.last())
    } else {
        last_with_key(s.drop_last(), name, namespace)
    }
}

/// The last attribute with a key has that key.
proof fn lemma_last_with_key_has_key<V>(s: Seq<AttributeView<V>>, name: Seq<char>, namespace: Option<Seq<char>>)
    ensures
        last_with_key(s, name, namespace) matches Some(x) ==> x.name == name && x.namespace == namespace,
    decreases s.len(),
{
    if s.len() > 0 {
        lemma_last_with_key_has_key(s.drop_last(), name, namespace);
    }
}

/// Sorting by name keeps, for each name and namespace, which attribute
/// comes last (the sort is stable).
proof fn lemma_sorted_keeps_last<V>(x: Seq<AttributeView<V>>, name: Seq<char>, namespace: Option<Seq<char>>)
    ensures
        last_with_key(sorted_by_name(x), name, namespace) == last_with_key(x, name, namespace),
    decreases x.len(),
{
    if x.len() > 0 {
        let rest = sorted_by_name(x.drop_last());
        let a = x.last();
        let p = named_after::<V>(a.name);
        lemma_sorted_keeps_last(x.drop_last(), name, namespace);
        lemma_sorted_by_name_ordered(x.drop_last());
        lemma_first_index_props(rest, p);
        let k = first_index(rest, p);
        let out = rest.insert(k, a);
        assert(out == sorted_by_name(x));
        lemma_last_with_key_insert(rest, k, a, name, namespace);
    }
}

/// Inserting `a` at `k` into name-ordered `rest`, before every attribute
/// named after it and after every other: `a` becomes the last of its key,
/// and the last of any other key is unchanged.
proof fn lemma_last_with_key_insert<V>(
    rest: Seq<AttributeView<V>>,
    k: int,
    a: AttributeView<V>,
    name: Seq<char>,
    namespace: Option<Seq<char>>,
)
    requires
        0 <= k <= rest.len(),
        name_ordered(rest),
        forall|j: int| 0 <= j < k ==> !lex_lt(a.name, #[trigger] rest[j].name),
        k < rest.len() ==> lex_lt(a.name, rest[k].name),
    ensures
        last_with_key(rest.insert(k, a), name, namespace) == if a.name == name && a.namespace == namespace {
            Some(a)
        } else {
            last_with_key(rest, name, namespace)
        },
    decreases rest.len() - k,
{
    let out = rest.insert(k, a);
    if k == rest.len() {
        assert(out =~= rest.push(a));
        assert(out.drop_last() =~= rest);
    } else {
        // The last attribute of `rest` is named after `a`, so it is the last
        // of `out` as well, and it cannot have `a`'s key.
        let l = rest.last();
        if rest.len() - 1 > k {
            assert(!lex_lt(l.name, rest[k].name));
            if l.name != rest[k].name {
                lemma_lex_total(l.name, rest[k].name);
                lemma_lex_transitive(a.name, rest[k].name, l.name);
            }
        }
        assert(lex_lt(a.name, l.name));
        lemma_lex_irreflexive(a.name);
        assert(out.last() == l);
        assert(out.drop_last() =~= rest.drop_last().insert(k, a));
        assert forall|i: int, j: int| 0 <= i < j < rest.drop_last().len() implies !lex_lt(
            #[trigger] rest.drop_last()[j].name,
            #[trigger] rest.drop_last()[i].name,
        ) by {
            assert(rest.drop_last()[i] == rest[i] && rest.drop_last()[j] == rest[j]);
        }
        assert forall|j: int| 0 <= j < k implies !lex_lt(a.name, #[trigger] rest.drop_last()[j].name) by {
            assert(rest.drop_last()[j] == rest[j]);
        }
        if k < rest.len() - 1 {
            assert(rest.drop_last()[k] == rest[k]);
        }
        lemma_last_with_key_insert(rest.drop_last(), k, a, name, namespace);
    }
}

/// A key other than `class` that the walked attributes hold is held by the
/// walk's result, by the last attribute walked with that key.
proof fn lemma_merge_walk_keeps_last<V>(sorted: Seq<AttributeView<V>>, name: Seq<char>, namespace: Option<Seq<char>>)
    requires
        name_ordered(sorted),
        name != class_name(),
    ensures
        ({
            let (done, group) = merge_walk(sorted);
            last_with_key(sorted, name, namespace) matches Some(x) ==> (done + group).contains(x)
        }),
    decreases sorted.len(),
{
    if sorted.len() > 0 {
        let prefix = sorted.drop_last();
        assert(name_ordered(prefix)) by {
            assert forall|i: int, j: int| 0 <= i < j < prefix.len() implies !lex_lt(#[trigger] prefix[j].name, #[trigger] prefix[i].name) by {
                assert(prefix[i] == sorted[i] && prefix[j] == sorted[j]);
            }
        }
        lemma_merge_walk_keeps_last(prefix, name, namespace);
        lemma_merge_walk_shape(prefix);
        let (done, group) = merge_walk(prefix);
        let a = sorted.last();
        let before = done + group;
        let is_key = a.name == name && a.namespace == namespace;
        if group.len() > 0 && group[0].name != a.name {
            let after = before + seq![a];
            assert(merge_walk(sorted) == (before, seq![a]));
            if is_key {
                assert(after[after.len() - 1] == a);
            } else if let Some(x) = last_with_key(prefix, name, namespace) {
                let i = choose|i: int| 0 <= i < before.len() && before[i] == x;
                assert(after[i] == x);
            }
        } else {
            let p = in_namespace::<V>(a.namespace);
            lemma_first_index_props(group, p);
            let k = first_index(group, p);
            let ng = added_to_group(group, a);
            let after = done + ng;
            assert(merge_walk(sorted) == (done, ng));
            if is_key {
                if k < group.len() {
                    assert(ng[k] == a);
                    assert(after[done.len() + k] == a);
                } else {
                    assert(ng[group.len() as int] == a);
                    assert(after[(done.len() + group.len()) as int] == a);
                }
            } else if let Some(x) = last_with_key(prefix, name, namespace) {
                let i = choose|i: int| 0 <= i < before.len() && before[i] == x;
                if i < done.len() {
                    assert(before[i] == done[i] && after[i] == done[i]);
                } else {
                    let g = i - done.len();
                    assert(before[i] == group[g]);
                    if k < group.len() && g == k {
                        lemma_last_with_key_has_key(prefix, name, namespace);
                        assert(group[k].name == group[0].name);
                        assert(false);
                    }
                    assert(ng[g] == group[g]);
                    assert(after[i] == ng[g]);
                }
            }
        }
    }
}

/// Later lists win: for every name other than `class`, the merge holds the
/// last attribute given with that name and namespace (and, its keys being
/// unique, no other one with them).
pub proof fn lemma_merged_later_wins<V>(lists: Seq<Seq<AttributeView<V>>>, name: Seq<char>, namespace: Option<Seq<char>>)
    requires
        name != class_name(),
    ensures
        last_with_key(concatenated(lists), name, namespace) matches Some(x) ==> merged(lists).contains(x),
        keys_unique(merged(lists)),
{
    let all = concatenated(lists);
    lemma_sorted_by_name_ordered(all);
    lemma_sorted_keeps_last(all, name, namespace);
    lemma_merge_walk_keeps_last(sorted_by_name(all), name, namespace);
    lemma_merged_ordered_and_unique(lists);
}

/// The attributes of `s` with this name and namespace, in order.
pub open spec fn with_key<V>(s: Seq<AttributeView<V>>, name: Seq<char>, namespace: Option<Seq<char>>) -> Seq<AttributeView<V>>
    decreases s.len(),
{
    if s.len() == 0 {
        Seq::empty()
    } else if s.last().name == name && s.last().namespace == namespace {
        with_key(s.drop_last(), name, namespace).push(s.last())
    } else {
        with_key(s.drop_last(), name, namespace)
    }
}

/// The text of a value (nothing for a value that is not text).
pub open spec fn text_of<V>(value: ValueView<V>) -> Seq<char> {
    match value {
        ValueView::Text(t) => t,
        ValueView::Other(_) => Seq::empty(),
    }
}

/// Every attribute of `s` has a text value.
pub open spec fn all_text<V>(s: Seq<AttributeView<V>>) -> bool {
    forall|i: int| 0 <= i < s.len() ==> (#[trigger] s[i]).value is Text
}

/// The class lists of `s` joined one after the other: the first as it is,
/// each later one joined on with `joined_class`.
pub open spec fn joined_texts<V>(s: Seq<AttributeView<V>>) -> Seq<char>
    decreases s.len(),
{
    if s.len() <= 1 {
        if s.len() == 0 {
            Seq::empty()
        } else {
            text_of(s[0].value)
        }
    } else {
        joined_class(joined_texts(s.drop_last()), text_of(s.last().value))
    }
}

/// Some attribute of `s` is volatile.
pub open spec fn any_volatile<V>(s: Seq<AttributeView<V>>) -> bool
    decreases s.len(),
{
    s.len() > 0 && (any_volatile(s.drop_last()) || s.last().volatile)
}

/// No attribute of `s` has this name and namespace: then none is listed.
proof fn lemma_with_key_empty<V>(s: Seq<AttributeView<V>>, name: Seq<char>, namespace: Option<Seq<char>>)
    requires
        forall|i: int| 0 <= i < s.len() ==> (#[trigger] s[i]).name != name,
    ensures
        with_key(s, name, namespace).len() == 0,
    decreases s.len(),
{
    if s.len() > 0 {
        assert forall|i: int| 0 <= i < s.drop_last().len() implies (#[trigger] s.drop_last()[i]).name != name by {
            assert(s.drop_last()[i] == s[i]);
        }
        lemma_with_key_empty(s.drop_last(), name, namespace);
    }
}

/// Inserting `a` into name-ordered `rest` before every attribute named
/// after it and after every other appends it to the attributes of its key,
/// and leaves those of every other key as they were.
proof fn lemma_with_key_insert<V>(
    rest: Seq<AttributeView<V>>,
    k: int,
    a: AttributeView<V>,
    name: Seq<char>,
    namespace: Option<Seq<char>>,
)
    requires
        0 <= k <= rest.len(),
        name_ordered(rest),
        forall|j: int| 0 <= j < k ==> !lex_lt(a.name, #[trigger] rest[j].name),
        k < rest.len() ==> lex_lt(a.name, rest[k].name),
    ensures
        with_key(rest.insert(k, a), name, namespace) == if a.name == name && a.namespace == namespace {
            with_key(rest, name, namespace).push(a)
        } else {
            with_key(rest, name, namespace)
        },
    decreases rest.len() - k,
{
    let out = rest.insert(k, a);
    if k == rest.len() {
        assert(out =~= rest.push(a));
        assert(out.drop_last() =~= rest);
    } else {
        let l = rest.last();
        if rest.len() - 1 > k {
            assert(!lex_lt(l.name, rest[k].name));
            if l.name != rest[k].name {
                lemma_lex_total(l.name, rest[k].name);
                lemma_lex_transitive(a.name, rest[k].name, l.name);
            }
        }
        assert(lex_lt(a.name, l.name));
        lemma_lex_irreflexive(a.name);
        assert(out.last() == l);
        assert(out.drop_last() =~= rest.drop_last().insert(k, a));
        assert forall|i: int, j: int| 0 <= i < j < rest.drop_last().len() implies !lex_lt(
            #[trigger] rest.drop_last()[j].name,
            #[trigger] rest.drop_last()[i].name,
        ) by {
            assert(rest.drop_last()[i] == rest[i] && rest.drop_last()[j] == rest[j]);
        }
        assert forall|j: int| 0 <= j < k implies !lex_lt(a.name, #[trigger] rest.drop_last()[j].name) by {
            assert(rest.drop_last()[j] == rest[j]);
        }
        if k < rest.len() - 1 {
            assert(rest.drop_last()[k] == rest[k]);
        }
        lemma_with_key_insert(rest.drop_last(), k, a, name, namespace);
        let prev = with_key(rest.drop_last(), name, namespace);
        if a.name == name && a.namespace == namespace {
            assert(with_key(out.drop_last(), name, namespace) == prev.push(a));
        }
    }
}

/// Sorting by name keeps the attributes of each name and namespace in
/// their given order (the sort is stable).
proof fn lemma_sorted_keeps_with_key<V>(x: Seq<AttributeView<V>>, name: Seq<char>, namespace: Option<Seq<char>>)
    ensures
        with_key(sorted_by_name(x), name, namespace) == with_key(x, name, namespace),
    decreases x.len(),
{
    if x.len() > 0 {
        let rest = sorted_by_name(x.drop_last());
        let a = x.last();
        let p = named_after::<V>(a.name);
        lemma_sorted_keeps_with_key(x.drop_last(), name, namespace);
        lemma_sorted_by_name_ordered(x.drop_last());
        lemma_first_index_props(rest, p);
        let k = first_index(rest, p);
        assert(rest.insert(k, a) == sorted_by_name(x));
        lemma_with_key_insert(rest, k, a, name, namespace);
    }
}

/// Each name of a name-ordered sequence comes no later than the last one.
proof fn lemma_ordered_up_to_last<V>(s: Seq<AttributeView<V>>, i: int)
    requires
        name_ordered(s),
        0 <= i < s.len(),
    ensures
        !lex_lt(s.last().name, s[i].name),
{
    if i < s.len() - 1 {
        assert(!lex_lt(s[s.len() - 1].name, s[i].name));
    } else {
        lemma_lex_irreflexive(s[i].name);
    }
}

/// What the walk keeps of the `class` attributes of one namespace, when
/// they all have text values: the walk's result lists them once, joined in
/// the order walked and volatile if any was; and it lists them only if
/// some were walked.
proof fn lemma_merge_walk_joins_classes<V>(sorted: Seq<AttributeView<V>>, namespace: Option<Seq<char>>)
    requires
        name_ordered(sorted),
    ensures
        ({
            let (done, group) = merge_walk(sorted);
            let out = done + group;
            let cls = with_key(sorted, class_name(), namespace);
            &&& forall|i: int|
                0 <= i < out.len() && (#[trigger] out[i]).name == class_name() && out[i].namespace == namespace
                    ==> cls.len() > 0
            &&& cls.len() > 0 && all_text(cls) ==> exists|i: int|
                0 <= i < out.len() && (#[trigger] out[i]).name == class_name() && out[i].namespace == namespace
                    && out[i].value == ValueView::<V>::Text(joined_texts(cls)) && out[i].volatile == any_volatile(cls)
        }),
    decreases sorted.len(),
{
    if sorted.len() > 0 {
        let prefix = sorted.drop_last();
        assert(name_ordered(prefix)) by {
            assert forall|i: int, j: int| 0 <= i < j < prefix.len() implies !lex_lt(#[trigger] prefix[j].name, #[trigger] prefix[i].name) by {
                assert(prefix[i] == sorted[i] && prefix[j] == sorted[j]);
            }
        }
        lemma_merge_walk_joins_classes(prefix, namespace);
        lemma_merge_walk_shape(prefix);
        let (done, group) = merge_walk(prefix);
        let before = done + group;
        let a = sorted.last();
        let is_key = a.name == class_name() && a.namespace == namespace;
        let prev = with_key(prefix, class_name(), namespace);
        let cls = with_key(sorted, class_name(), namespace);
        assert(cls == if is_key { prev.push(a) } else { prev });
        if is_key {
            assert(cls.drop_last() =~= prev);
            assert(cls.last() == a);
        }
        if group.len() > 0 && group[0].name != a.name {
            let after = before + seq![a];
            assert(merge_walk(sorted) == (before, seq![a]));
            if is_key {
                // No attribute walked before `a` has its name.
                assert forall|i: int| 0 <= i < prefix.len() implies (#[trigger] prefix[i]).name != class_name() by {
                    assert(group[0].name == prefix.last().name);
                    lemma_ordered_up_to_last(prefix, i);
                    assert(!lex_lt(a.name, group[0].name));
                    lemma_lex_total(a.name, group[0].name);
                    if prefix[i].name == class_name() {
                        if lex_lt(prefix[i].name, group[0].name) {
                            lemma_lex_transitive(prefix[i].name, group[0].name, prefix[i].name);
                            lemma_lex_irreflexive(prefix[i].name);
                        }
                    }
                }
                lemma_with_key_empty(prefix, class_name(), namespace);
                assert(prev.len() == 0);
                assert(cls =~= seq![a]);
                assert(after[after.len() - 1] == a);
                assert forall|i: int|
                    0 <= i < after.len() && (#[trigger] after[i]).name == class_name() && after[i].namespace == namespace
                        implies cls.len() > 0 by {
                }
                if all_text(cls) {
                    assert(cls[0] == a);
                    assert(a.value is Text);
                    assert(joined_texts(cls) == text_of(a.value));
                    assert(any_volatile(cls.drop_last()) == false);
                }
            } else {
                assert forall|i: int|
                    0 <= i < after.len() && (#[trigger] after[i]).name == class_name() && after[i].namespace == namespace
                        implies cls.len() > 0 by {
                    if i < before.len() {
                        assert(after[i] == before[i]);
                    }
                }
                if cls.len() > 0 && all_text(cls) {
                    let i = choose|i: int|
                        0 <= i < before.len() && (#[trigger] before[i]).name == class_name() && before[i].namespace == namespace
                            && before[i].value == ValueView::<V>::Text(joined_texts(prev)) && before[i].volatile == any_volatile(prev);
                    assert(after[i] == before[i]);
                }
            }
        } else {
            let p = in_namespace::<V>(a.namespace);
            lemma_first_index_props(group, p);
            let k = first_index(group, p);
            let ng = added_to_group(group, a);
            let after = done + ng;
            assert(merge_walk(sorted) == (done, ng));
            if group.len() == 0 {
                assert(prefix.len() == 0);
            }
            // Entries other than the one `a` lands on are unchanged.
            assert forall|i: int| 0 <= i < before.len() && i != done.len() + k implies #[trigger] after[i] == before[i] by {
                if i >= done.len() {
                    let g = i - done.len();
                    if k < group.len() {
                        assert(ng[g] == group[g]);
                    } else {
                        assert(ng[g] == group[g]);
                    }
                }
            }
            // The entry `a` lands on has `a`'s key.
            if k < group.len() {
                assert(group[k].name == group[0].name);
                assert(after[done.len() + k] == ng[k]);
                assert(ng[k].name == a.name && ng[k].namespace == a.namespace);
            } else {
                assert(after[(done.len() + group.len()) as int] == a);
            }
            assert forall|i: int|
                0 <= i < after.len() && (#[trigger] after[i]).name == class_name() && after[i].namespace == namespace
                    implies cls.len() > 0 by {
                if is_key {
                    assert(cls.len() > 0);
                } else if i < before.len() && i != done.len() + k {
                    assert(after[i] == before[i]);
                } else if k < group.len() {
                    assert(after[i].name == a.name && after[i].namespace == a.namespace);
                } else {
                    assert(after[i] == a);
                }
            }
            if cls.len() > 0 && all_text(cls) {
                if is_key {
                    assert(all_text(prev)) by {
                        assert forall|i: int| 0 <= i < prev.len() implies (#[trigger] prev[i]).value is Text by {
                            assert(prev[i] == cls[i]);
                        }
                    }
                    assert(a.value is Text) by {
                        assert(cls[cls.len() - 1] == a);
                    }
                    if prev.len() == 0 {
                        // `a` is the first of its key: no entry has it, so it is appended.
                        if k < group.len() {
                            assert(group[k].name == group[0].name);
                            let gi = done.len() + k;
                            assert(before[gi] == group[k]);
                            assert(false);
                        }
                        assert(after[(done.len() + group.len()) as int] == a);
                        assert(cls =~= seq![a]);
                        assert(joined_texts(cls) == text_of(a.value));
                        assert(!any_volatile(prev));
                    } else {
                        let i = choose|i: int|
                            0 <= i < before.len() && (#[trigger] before[i]).name == class_name() && before[i].namespace == namespace
                                && before[i].value == ValueView::<V>::Text(joined_texts(prev)) && before[i].volatile == any_volatile(prev);
                        // That entry is the current group's entry for `a`'s namespace.
                        if i < done.len() {
                            assert(before[i] == done[i]);
                            assert(lex_lt(done[i].name, group[0].name));
                            lemma_lex_irreflexive(a.name);
                            assert(false);
                        }
                        let g = i - done.len();
                        assert(before[i] == group[g]);
                        assert(p(group[g]));
                        assert(k <= g);
                        if k < g {
                            assert(group[k].namespace == a.namespace);
                            assert(group[k].name == group[0].name && group[g].name == group[0].name);
                            assert(false);
                        }
                        assert(ng[k] == combined(group[k], a));
                        assert(after[i] == ng[k]);
                        assert(cls.drop_last() =~= prev);
                        assert(joined_texts(cls) == joined_class(joined_texts(prev), text_of(a.value)));
                    }
                } else {
                    let i = choose|i: int|
                        0 <= i < before.len() && (#[trigger] before[i]).name == class_name() && before[i].namespace == namespace
                            && before[i].value == ValueView::<V>::Text(joined_texts(prev)) && before[i].volatile == any_volatile(prev);
                    if i == done.len() + k {
                        assert(before[i] == group[k]);
                        assert(group[k].name == group[0].name);
                        assert(false);
                    }
                    assert(after[i] == before[i]);
                }
            }
        }
    }
}

/// Class lists join: when every `class` attribute of a namespace that the
/// lists give has a text value, the merge holds one `class` attribute for
/// that namespace, whose text is their texts joined in the order given
/// (each trimmed, separated by one space) and which is volatile if any of
/// them was.
pub proof fn lemma_merged_joins_classes<V>(lists: Seq<Seq<AttributeView<V>>>, namespace: Option<Seq<char>>)
    requires
        with_key(concatenated(lists), class_name(), namespace).len() > 0,
        all_text(with_key(concatenated(lists), class_name(), namespace)),
    ensures
        ({
            let cls = with_key(concatenated(lists), class_name(), namespace);
            exists|i: int|
                0 <= i < merged(lists).len() && (#[trigger] merged(lists)[i]).name == class_name()
                    && merged(lists)[i].namespace == namespace && merged(lists)[i].value == ValueView::<V>::Text(
                    joined_texts(cls),
                ) && merged(lists)[i].volatile == any_volatile(cls)
        }),
        keys_unique(merged(lists)),
{
    let all = concatenated(lists);
    lemma_sorted_by_name_ordered(all);
    lemma_sorted_keeps_with_key(all, class_name(), namespace);
    lemma_merge_walk_joins_classes(sorted_by_name(all), namespace);
    lemma_merged_ordered_and_unique(lists);
}

/// Some attribute of `s` has this name and namespace.
pub open spec fn has_key<V>(s: Seq<AttributeView<V>>, name: Seq<char>, namespace: Option<Seq<char>>) -> bool {
    exists|i: int| 0 <= i < s.len() && (#[trigger] s[i]).name == name && s[i].namespace == namespace
}

/// The walk's result holds a name and namespace exactly when some walked
/// attribute has them.
proof fn lemma_merge_walk_keys<V>(sorted: Seq<AttributeView<V>>, name: Seq<char>, namespace: Option<Seq<char>>)
    requires
        name_ordered(sorted),
    ensures
        ({
            let (done, group) = merge_walk(sorted);
            has_key(done + group, name, namespace) == (with_key(sorted, name, namespace).len() > 0)
        }),
    decreases sorted.len(),
{
    if sorted.len() > 0 {
        let prefix = sorted.drop_last();
        assert(name_ordered(prefix)) by {
            assert forall|i: int, j: int| 0 <= i < j < prefix.len() implies !lex_lt(#[trigger] prefix[j].name, #[trigger] prefix[i].name) by {
                assert(prefix[i] == sorted[i] && prefix[j] == sorted[j]);
            }
        }
        lemma_merge_walk_keys(prefix, name, namespace);
        lemma_merge_walk_shape(prefix);
        let (done, group) = merge_walk(prefix);
        let before = done + group;
        let a = sorted.last();
        let is_key = a.name == name && a.namespace == namespace;
        let prev = with_key(prefix, name, namespace);
        let now = with_key(sorted, name, namespace);
        assert(now == if is_key { prev.push(a) } else { prev });
        if group.len() > 0 && group[0].name != a.name {
            let after = before + seq![a];
            assert(merge_walk(sorted) == (before, seq![a]));
            if is_key {
                assert(after[after.len() - 1] == a);
            } else {
                if has_key(before, name, namespace) {
                    let i = choose|i: int| 0 <= i < before.len() && (#[trigger] before[i]).name == name && before[i].namespace == namespace;
                    assert(after[i] == before[i]);
                }
                if has_key(after, name, namespace) {
                    let i = choose|i: int| 0 <= i < after.len() && (#[trigger] after[i]).name == name && after[i].namespace == namespace;
                    if i < before.len() {
                        assert(after[i] == before[i]);
                    }
                }
            }
        } else {
            let p = in_namespace::<V>(a.namespace);
            lemma_first_index_props(group, p);
            let k = first_index(group, p);
            let ng = added_to_group(group, a);
            let after = done + ng;
            assert(merge_walk(sorted) == (done, ng));
            let landed = done.len() + k;
            assert forall|i: int| 0 <= i < before.len() && i != landed implies #[trigger] after[i] == before[i] by {
                if i >= done.len() {
                    assert(ng[i - done.len()] == group[i - done.len()]);
                }
            }
            assert(after[landed].name == a.name && after[landed].namespace == a.namespace) by {
                if k < group.len() {
                    assert(group[k].name == group[0].name);
                    assert(after[landed] == ng[k]);
                } else {
                    assert(after[landed] == a);
                }
            }
            if is_key {
                assert(has_key(after, name, namespace));
            } else {
                if has_key(before, name, namespace) {
                    let i = choose|i: int| 0 <= i < before.len() && (#[trigger] before[i]).name == name && before[i].namespace == namespace;
                    if i == landed {
                        assert(before[i] == group[k]);
                        assert(group[k].name == group[0].name);
                        assert(false);
                    }
                    assert(after[i] == before[i]);
                }
                if has_key(after, name, namespace) {
                    let i = choose|i: int| 0 <= i < after.len() && (#[trigger] after[i]).name == name && after[i].namespace == namespace;
                    assert(i != landed);
                    assert(after[i] == before[i]);
                }
            }
        }
    }
}

/// The merge keeps exactly the keys of its input: it lists a name and
/// namespace exactly when some given attribute has them.
pub proof fn lemma_merged_keeps_keys<V>(lists: Seq<Seq<AttributeView<V>>>, name: Seq<char>, namespace: Option<Seq<char>>)
    ensures
        has_key(merged(lists), name, namespace) == has_key(concatenated(lists), name, namespace),
{
    let all = concatenated(lists);
    lemma_sorted_by_name_ordered(all);
    lemma_sorted_keeps_with_key(all, name, namespace);
    lemma_merge_walk_keys(sorted_by_name(all), name, namespace);
    lemma_with_key_nonempty(all, name, namespace);
}

/// Some attribute has a key exactly when the attributes with that key are
/// not none.
proof fn lemma_with_key_nonempty<V>(s: Seq<AttributeView<V>>, name: Seq<char>, namespace: Option<Seq<char>>)
    ensures
        (with_key(s, name, namespace).len() > 0) == has_key(s, name, namespace),
    decreases s.len(),
{
    if s.len() > 0 {
        let p = s.drop_last();
        lemma_with_key_nonempty(p, name, namespace);
        if has_key(p, name, namespace) {
            let i = choose|i: int| 0 <= i < p.len() && (#[trigger] p[i]).name == name && p[i].namespace == namespace;
            assert(s[i] == p[i]);
        }
        if has_key(s, name, namespace) {
            let i = choose|i: int| 0 <= i < s.len() && (#[trigger] s[i]).name == name && s[i].namespace == namespace;
            if i < s.len() - 1 {
                assert(p[i] == s[i]);
            }
        }
        if s.last().name == name && s.last().namespace == namespace {
            assert(s[s.len() - 1] == s.last());
        }
    }
}

} // verus!
