//! Facts about lists and a small table keyed by text.

use crate::text;
use vstd::prelude::*;

verus! {

/// One more element of a filtered list.
pub proof fn lemma_filter_step<A>(s: Seq<A>, keep: spec_fn(A) -> bool, i: int)
    requires
        0 <= i < s.len(),
    ensures
        s.take(i + 1).filter(keep) == if keep(s[i]) {
            s.take(i).filter(keep).push(s[i])
        } else {
            s.take(i).filter(keep)
        },
{
    reveal(Seq::filter);
    assert(s.take(i + 1).drop_last() =~= s.take(i));
}

/// Filtering from the front.
pub proof fn lemma_filter_front<A>(s: Seq<A>, keep: spec_fn(A) -> bool)
    requires
        s.len() > 0,
    ensures
        s.filter(keep) == if keep(s[0]) {
            seq![s[0]] + s.skip(1).filter(keep)
        } else {
            s.skip(1).filter(keep)
        },
    decreases s.len(),
{
    reveal(Seq::filter);
    if s.len() == 1 {
        assert(s.drop_last() =~= Seq::<A>::empty());
        assert(s.skip(1) =~= Seq::<A>::empty());
    } else {
        lemma_filter_front(s.drop_last(), keep);
        assert(s.drop_last().skip(1) =~= s.skip(1).drop_last());
        assert(s.skip(1).last() == s.last());
    }
}

// ── Sorting ────────────────────────────────────────────────────────────────

/// The first place, from `i` on, whose element does not stand before `x`.
pub open spec fn place_among<T>(
    s: Seq<T>,
    x: T,
    before: spec_fn(T, T) -> bool,
    i: int,
) -> int
    decreases s.len() - i,
{
    if i < 0 || i >= s.len() || !before(s[i], x) {
        i
    } else {
        place_among(s, x, before, i + 1)
    }
}

/// A list in order; elements of which neither stands before the other keep
/// the order that they had.
pub open spec fn sorted<T>(s: Seq<T>, before: spec_fn(T, T) -> bool) -> Seq<T>
    decreases s.len(),
{
    if s.len() == 0 {
        s
    } else {
        let rest = sorted(s.skip(1), before);
        rest.insert(place_among(rest, s[0], before, 0), s[0])
    }
}

pub proof fn lemma_place_among<T>(s: Seq<T>, x: T, before: spec_fn(T, T) -> bool, i: int)
    requires
        0 <= i <= s.len(),
    ensures
        i <= place_among(s, x, before, i) <= s.len(),
        forall|k: int|
            i <= k < place_among(s, x, before, i) ==> before(#[trigger] s[k], x),
        place_among(s, x, before, i) < s.len() ==> !before(
            s[place_among(s, x, before, i)],
            x,
        ),
    decreases s.len() - i,
{
    if i < s.len() && before(s[i], x) {
        lemma_place_among(s, x, before, i + 1);
    }
}

/// Sorting brings a list in order and changes nothing else about it.
pub proof fn law_sorting_orders<T>(s: Seq<T>, before: spec_fn(T, T) -> bool)
    requires
        forall|a: T, b: T| #[trigger] before(a, b) ==> !before(b, a),
        forall|a: T, b: T, c: T|
            !(#[trigger] before(a, b)) && !(#[trigger] before(b, c)) ==> !before(a, c),
    ensures
        forall|i: int, j: int|
            0 <= i < j < s.len() ==> !before(
                #[trigger] sorted(s, before)[j],
                #[trigger] sorted(s, before)[i],
            ),
        sorted(s, before).to_multiset() == s.to_multiset(),
        sorted(s, before).len() == s.len(),
    decreases s.len(),
{
    broadcast use vstd::seq_lib::group_to_multiset_ensures;

    if s.len() > 0 {
        let tail = s.skip(1);
        law_sorting_orders(tail, before);
        let rest = sorted(tail, before);
        let x = s[0];
        let p = place_among(rest, x, before, 0);
        lemma_place_among(rest, x, before, 0);
        let r = rest.insert(p, x);
        assert forall|i: int, j: int| 0 <= i < j < s.len() implies !before(
            #[trigger] r[j],
            #[trigger] r[i],
        ) by {
            if j == p {
                assert(before(rest[i], x));
            } else if i == p {
                assert(!before(rest[p], x));
                if j - 1 != p {
                    assert(!before(rest[j - 1], rest[p]));
                }
            } else {
                let a = if i < p {
                    i
                } else {
                    i - 1
                };
                let b = if j < p {
                    j
                } else {
                    j - 1
                };
                assert(!before(rest[b], rest[a]));
            }
        }
        assert(r.to_multiset() =~= rest.to_multiset().insert(x));
        assert(seq![x] + tail =~= s);
        assert(s =~= tail.insert(0, x));
        assert(s.to_multiset() =~= tail.to_multiset().insert(x));
    }
}

/// Things that have an order.
pub trait Ordered: DeepView {
    /// One thing stands before another.
    spec fn precedes(a: Self::V, b: Self::V) -> bool;

    /// Tells whether this thing stands before another.
    fn goes_before(&self, other: &Self) -> (r: bool)
        ensures
            r == Self::precedes(self.deep_view(), other.deep_view()),
    ;
}

/// Brings things in order.
pub fn sort<T: Ordered>(items: Vec<T>) -> (r: Vec<T>)
    ensures
        r.deep_view() == sorted(items.deep_view(), |a: T::V, b: T::V| T::precedes(a, b)),
{
    let ghost all = items.deep_view();
    let ghost before = |a: T::V, b: T::V| T::precedes(a, b);
    let mut rest = items;
    let mut out: Vec<T> = Vec::new();
    assert(rest.deep_view() =~= all.take(all.len() as int));
    assert(out.deep_view() =~= all.skip(all.len() as int));
    while rest.len() > 0
        invariant
            before == (|a: T::V, b: T::V| T::precedes(a, b)),
            rest.len() <= all.len(),
            rest.deep_view() == all.take(rest.len() as int),
            out.deep_view() == sorted(all.skip(rest.len() as int), before),
        decreases rest.len(),
    {
        let ghost n = rest.len() - 1;
        let ghost held = rest.deep_view();
        match rest.pop() {
            Some(item) => {
                let ghost x = item.deep_view();
                assert(x == held[n]);
                assert(rest.deep_view() =~= all.take(n));
                let ghost so_far = out.deep_view();
                let mut i: usize = 0;
                while i < out.len() && out[i].goes_before(&item)
                    invariant
                        before == (|a: T::V, b: T::V| T::precedes(a, b)),
                        i <= out.len(),
                        x == item.deep_view(),
                        so_far == out.deep_view(),
                        place_among(so_far, x, before, 0) == place_among(
                            so_far,
                            x,
                            before,
                            i as int,
                        ),
                    decreases out.len() - i,
                {
                    assert(so_far[i as int] == out[i as int].deep_view());
                    i += 1;
                }
                assert(place_among(so_far, x, before, i as int) == i) by {
                    if i < out.len() {
                        assert(so_far[i as int] == out[i as int].deep_view());
                    }
                }
                out.insert(i, item);
                assert(out.deep_view() =~= so_far.insert(i as int, x));
                assert(all.skip(n).skip(1) =~= all.skip(n + 1));
                assert(all.skip(n)[0] == x);
            },
            None => {},
        }
    }
    assert(all.skip(0) =~= all);
    out
}

// ── Sets of texts ──────────────────────────────────────────────────────────

/// A set of texts.
#[derive(Debug)]
pub struct TextSet {
    items: Vec<String>,
}

impl View for TextSet {
    type V = Set<Seq<char>>;

    closed spec fn view(&self) -> Set<Seq<char>> {
        self.items.deep_view().to_set()
    }
}

impl Default for TextSet {
    fn default() -> (r: Self)
        ensures
            r@ == Set::<Seq<char>>::empty(),
    {
        TextSet::new()
    }
}

impl TextSet {
    /// An empty set.
    pub fn new() -> (r: Self)
        ensures
            r@ == Set::<Seq<char>>::empty(),
    {
        let r = TextSet { items: Vec::new() };
        assert(r@ =~= Set::<Seq<char>>::empty());
        r
    }

    /// Tells whether a text is in the set.
    pub fn contains(&self, text: &str) -> (r: bool)
        ensures
            r == self@.contains(text@),
    {
        let ghost all = self.items.deep_view();
        let mut i: usize = 0;
        while i < self.items.len()
            invariant
                i <= self.items.len(),
                all == self.items.deep_view(),
                forall|k: int| 0 <= k < i ==> #[trigger] all[k] != text@,
            decreases self.items.len() - i,
        {
            assert(all[i as int] == self.items[i as int]@);
            if text::same(self.items[i].as_str(), text) {
                assert(all.contains(all[i as int]));
                return true;
            }
            i += 1;
        }
        assert(!all.contains(text@));
        false
    }

    /// Puts a text into the set.
    pub fn insert(&mut self, text: String)
        ensures
            final(self)@ == old(self)@.insert(text@),
    {
        let ghost before = self.items.deep_view();
        if self.contains(text.as_str()) {
            assert(self@ =~= self@.insert(text@));
            return;
        }
        self.items.push(text);
        proof {
            let after = self.items.deep_view();
            assert(after =~= before.push(text@));
            assert forall|x: Seq<char>|
                after.to_set().contains(x) == before.to_set().insert(text@).contains(x) by {
                if before.contains(x) {
                    let k = choose|k: int| 0 <= k < before.len() && before[k] == x;
                    assert(after[k] == x);
                }
                if x == text@ {
                    assert(after[after.len() - 1] == x);
                }
            }
            assert(self@ =~= before.to_set().insert(text@));
        }
    }

    /// Puts the texts of another set into this one.
    pub fn extend(&mut self, other: &TextSet)
        ensures
            final(self)@ == old(self)@.union(other@),
    {
        let ghost before = self@;
        let ghost all = other.items.deep_view();
        let mut i: usize = 0;
        assert(before.union(all.take(0).to_set()) =~= before);
        while i < other.items.len()
            invariant
                i <= other.items.len(),
                all == other.items.deep_view(),
                self@ == before.union(all.take(i as int).to_set()),
            decreases other.items.len() - i,
        {
            assert(all[i as int] == other.items[i as int]@);
            self.insert(other.items[i].clone());
            proof {
                let head = all.take(i as int);
                let more = all.take(i + 1);
                assert(more =~= head.push(all[i as int]));
                assert forall|x: Seq<char>|
                    more.to_set().contains(x) == head.to_set().insert(all[i as int]).contains(
                        x,
                    ) by {
                    if head.contains(x) {
                        let k = choose|k: int| 0 <= k < head.len() && head[k] == x;
                        assert(more[k] == x);
                    }
                    if x == all[i as int] {
                        assert(more[i as int] == x);
                    }
                }
                assert(self@ =~= before.union(more.to_set()));
            }
            i += 1;
        }
        assert(all.take(i as int) =~= all);
    }
}

impl Clone for TextSet {
    fn clone(&self) -> (r: Self)
        ensures
            r@ == self@,
    {
        TextSet { items: text::copy_texts(self.items.as_slice()) }
    }
}

/// A table keyed by text.  The keys keep the order in which they came in.
#[derive(Debug)]
pub struct Table<V> {
    /// The keys with their values.
    pub entries: Vec<(String, V)>,
}

impl<V: View> View for Table<V> {
    type V = Seq<(Seq<char>, V::V)>;

    open spec fn view(&self) -> Seq<(Seq<char>, V::V)> {
        self.entries@.map_values(|e: (String, V)| (e.0@, e.1@))
    }
}

/// The place of the first entry with a key, from `i` on.
pub open spec fn key_from<T>(entries: Seq<(Seq<char>, T)>, key: Seq<char>, i: int) -> Option<int>
    decreases entries.len() - i,
{
    if i < 0 || i >= entries.len() {
        None
    } else if entries[i].0 == key {
        Some(i)
    } else {
        key_from(entries, key, i + 1)
    }
}

/// The value of a key.
pub open spec fn value_at<T>(entries: Seq<(Seq<char>, T)>, key: Seq<char>) -> Option<T> {
    match key_from(entries, key, 0) {
        Some(i) => Some(entries[i].1),
        None => None,
    }
}

/// The table with a key set to a value.
pub open spec fn with_value<T>(
    entries: Seq<(Seq<char>, T)>,
    key: Seq<char>,
    value: T,
) -> Seq<(Seq<char>, T)> {
    match key_from(entries, key, 0) {
        Some(i) => entries.update(i, (key, value)),
        None => entries.push((key, value)),
    }
}

/// The table without a key.
pub open spec fn without_key<T>(entries: Seq<(Seq<char>, T)>, key: Seq<char>) -> Seq<
    (Seq<char>, T),
> {
    entries.filter(|e: (Seq<char>, T)| e.0 != key)
}

/// No key stands in the table twice.
pub open spec fn has_distinct_keys<T>(entries: Seq<(Seq<char>, T)>) -> bool {
    forall|i: int, j: int|
        0 <= i < j < entries.len() ==> (#[trigger] entries[i]).0 != (#[trigger] entries[j]).0
}

pub proof fn lemma_key_from<T>(entries: Seq<(Seq<char>, T)>, key: Seq<char>, i: int)
    requires
        0 <= i <= entries.len(),
    ensures
        match key_from(entries, key, i) {
            Some(k) => i <= k < entries.len() && entries[k].0 == key && forall|j: int|
                i <= j < k ==> (#[trigger] entries[j]).0 != key,
            None => forall|j: int| i <= j < entries.len() ==> (#[trigger] entries[j]).0 != key,
        },
    decreases entries.len() - i,
{
    if i < entries.len() && entries[i].0 != key {
        lemma_key_from(entries, key, i + 1);
    }
}

/// Setting a key keeps the keys distinct, gives the key its value and leaves
/// the values of the other keys alone.
pub proof fn law_table_insert<T>(
    entries: Seq<(Seq<char>, T)>,
    key: Seq<char>,
    value: T,
    other: Seq<char>,
)
    requires
        has_distinct_keys(entries),
    ensures
        has_distinct_keys(with_value(entries, key, value)),
        value_at(with_value(entries, key, value), key) == Some(value),
        other != key ==> value_at(with_value(entries, key, value), other) == value_at(
            entries,
            other,
        ),
{
    let after = with_value(entries, key, value);
    lemma_key_from(entries, key, 0);
    lemma_key_from(after, key, 0);
    lemma_key_from(entries, other, 0);
    lemma_key_from(after, other, 0);
    match key_from(entries, key, 0) {
        Some(i) => {
            assert(after[i].0 == key);
            assert(key_from(after, key, 0) == Some(i)) by {
                let k = key_from(after, key, 0);
                if k is Some && k->0 != i {
                    let j = k->0;
                    assert(after[j] == entries[j]);
                }
            }
        },
        None => {
            assert(after[entries.len() as int].0 == key);
            assert(key_from(after, key, 0) == Some(entries.len() as int)) by {
                let k = key_from(after, key, 0);
                if k is Some && k->0 != entries.len() {
                    let j = k->0;
                    assert(after[j] == entries[j]);
                }
            }
        },
    }
    if other != key {
        match key_from(entries, other, 0) {
            Some(a) => {
                assert(after[a].0 == other);
                let b = key_from(after, other, 0)->0;
                assert(entries[b].0 == other);
                assert(a == b);
            },
            None => {
                if key_from(after, other, 0) is Some {
                    let b = key_from(after, other, 0)->0;
                    assert(after[b].0 == other);
                    assert(entries[b].0 == other);
                }
            },
        }
    }
}

impl<V: View> Table<V> {
    /// An empty table.
    pub fn new() -> (r: Self)
        ensures
            r@ == Seq::<(Seq<char>, V::V)>::empty(),
    {
        let r = Table { entries: Vec::new() };
        assert(r@ =~= Seq::<(Seq<char>, V::V)>::empty());
        r
    }

    /// The number of keys.
    pub fn len(&self) -> (r: usize)
        ensures
            r == self@.len(),
    {
        self.entries.len()
    }

    /// Tells whether the table is empty.
    pub fn is_empty(&self) -> (r: bool)
        ensures
            r == (self@.len() == 0),
    {
        self.entries.len() == 0
    }

    fn place_of(&self, key: &str) -> (r: Option<usize>)
        ensures
            match r {
                Some(i) => key_from(self@, key@, 0) == Some(i as int) && i < self.entries.len(),
                None => key_from(self@, key@, 0) is None,
            },
    {
        let mut i: usize = 0;
        while i < self.entries.len()
            invariant
                i <= self.entries.len(),
                key_from(self@, key@, 0) == key_from(self@, key@, i as int),
            decreases self.entries.len() - i,
        {
            if text::same(self.entries[i].0.as_str(), key) {
                return Some(i);
            }
            i += 1;
        }
        None
    }

    /// The value of a key.
    pub fn get(&self, key: &str) -> (r: Option<&V>)
        ensures
            match r {
                Some(value) => value_at(self@, key@) == Some(value@),
                None => value_at(self@, key@) is None,
            },
    {
        match self.place_of(key) {
            Some(i) => Some(&self.entries[i].1),
            None => None,
        }
    }

    /// Tells whether a key stands in the table.
    pub fn contains_key(&self, key: &str) -> (r: bool)
        ensures
            r == (value_at(self@, key@) is Some),
    {
        self.place_of(key).is_some()
    }

    /// Sets a key to a value.
    pub fn insert(&mut self, key: String, value: V)
        ensures
            final(self)@ == with_value(old(self)@, key@, value@),
    {
        let ghost before = self@;
        match self.place_of(key.as_str()) {
            Some(i) => {
                self.entries.set(i, (key, value));
                assert(self@ =~= with_value(before, key@, value@));
            },
            None => {
                self.entries.push((key, value));
                assert(self@ =~= with_value(before, key@, value@));
            },
        }
    }
}

impl<V: View> Table<V> {
    /// Takes a key out of the table.
    pub fn remove(&mut self, key: &str)
        ensures
            final(self)@ == without_key(old(self)@, key@),
    {
        let ghost all = self@;
        let ghost keep = |e: (Seq<char>, V::V)| e.0 != key@;
        let mut rest: Vec<(String, V)> = Vec::new();
        let mut out: Vec<(String, V)> = Vec::new();
        std::mem::swap(&mut rest, &mut self.entries);
        let ghost view_entries = |e: (String, V)| (e.0@, e.1@);
        assert(rest@.map_values(view_entries) =~= all);
        proof {
            reveal(Seq::filter);
            assert(out@.map_values(view_entries) =~= all.skip(all.len() as int).filter(keep));
        }
        while rest.len() > 0
            invariant
                keep == (|e: (Seq<char>, V::V)| e.0 != key@),
                view_entries == (|e: (String, V)| (e.0@, e.1@)),
                rest.len() <= all.len(),
                rest@.map_values(view_entries) == all.take(rest.len() as int),
                out@.map_values(view_entries).reverse() == all.skip(rest.len() as int).filter(
                    keep,
                ),
            decreases rest.len(),
        {
            let ghost n = rest.len() - 1;
            let ghost held = rest@.map_values(view_entries);
            match rest.pop() {
                Some(entry) => {
                    assert(held[n] == (entry.0@, entry.1@));
                    assert(all[n] == held[n]);
                    assert(rest@.map_values(view_entries) =~= all.take(n));
                    let ghost before = out@.map_values(view_entries);
                    proof {
                        lemma_filter_front(all.skip(n), keep);
                        assert(all.skip(n).skip(1) =~= all.skip(n + 1));
                    }
                    if !text::same(entry.0.as_str(), key) {
                        out.push(entry);
                        assert(out@.map_values(view_entries) =~= before.push(
                            (entry.0@, entry.1@),
                        ));
                        assert(out@.map_values(view_entries).reverse() =~= seq![
                            (entry.0@, entry.1@),
                        ] + before.reverse());
                    }
                },
                None => {},
            }
        }
        assert(all.skip(0) =~= all);
        while out.len() > 0
            invariant
                view_entries == (|e: (String, V)| (e.0@, e.1@)),
                self.entries@.map_values(view_entries) + out@.map_values(
                    view_entries,
                ).reverse() == without_key(all, key@),
            decreases out.len(),
        {
            let ghost so_far = self.entries@.map_values(view_entries);
            let ghost left = out@.map_values(view_entries);
            match out.pop() {
                Some(entry) => {
                    let ghost e = (entry.0@, entry.1@);
                    self.entries.push(entry);
                    assert(self.entries@.map_values(view_entries) =~= so_far.push(e));
                    assert(out@.map_values(view_entries) =~= left.drop_last());
                    assert(left.last() == e);
                    assert(so_far + left.reverse() =~= so_far.push(e)
                        + left.drop_last().reverse());
                },
                None => {},
            }
        }
        assert(self@ =~= self.entries@.map_values(view_entries));
        assert(self.entries@.map_values(view_entries) + out@.map_values(view_entries).reverse()
            =~= self@);
    }
}

impl<V: View> Default for Table<V> {
    fn default() -> (r: Self)
        ensures
            r@ == Seq::<(Seq<char>, V::V)>::empty(),
    {
        Table::new()
    }
}

} // verus!
