//! Maps from texts, kept in the order in which their keys came.

use crate::text::same_text;
use vstd::prelude::*;

verus! {

/// The keys of a sequence of pairs.
pub open spec fn keys_of<W>(s: Seq<(Seq<char>, W)>) -> Seq<Seq<char>> {
    s.map_values(|e: (Seq<char>, W)| e.0)
}

/// Whether a key occurs.
pub open spec fn has_key<W>(s: Seq<(Seq<char>, W)>, key: Seq<char>) -> bool {
    exists|i: int| 0 <= i < s.len() && (#[trigger] s[i]).0 == key
}

/// No key occurs twice.
pub open spec fn unique_keys<W>(s: Seq<(Seq<char>, W)>) -> bool {
    forall|i: int, j: int|
        0 <= i < j < s.len() ==> (#[trigger] s[i]).0 != (#[trigger] s[j]).0
}

/// The value of a key: the one of its last pair, `None` where the key does not occur.
pub open spec fn get_in<W>(s: Seq<(Seq<char>, W)>, key: Seq<char>) -> Option<W>
    decreases s.len(),
{
    if s.len() == 0 {
        None
    } else if s.last().0 == key {
        Some(s.last().1)
    } else {
        get_in(s.drop_last(), key)
    }
}

/// The pairs with `key` bound to `value`: in the place where the key stands, or at the end.
pub open spec fn put_in<W>(s: Seq<(Seq<char>, W)>, key: Seq<char>, value: W) -> Seq<
    (Seq<char>, W),
>
    decreases s.len(),
{
    if s.len() == 0 {
        seq![(key, value)]
    } else if s.last().0 == key {
        s.drop_last().push((key, value))
    } else if has_key(s, key) {
        put_in(s.drop_last(), key, value).push(s.last())
    } else {
        s.push((key, value))
    }
}

/// What a key with no value starts from when an item is appended to its list.
pub open spec fn list_of<W>(found: Option<Seq<W>>) -> Seq<W> {
    match found {
        Some(list) => list,
        None => seq![],
    }
}

/// The pairs with `item` appended to the list of `key`.
pub open spec fn append_in<W>(
    s: Seq<(Seq<char>, Seq<W>)>,
    key: Seq<char>,
    item: W,
) -> Seq<(Seq<char>, Seq<W>)> {
    put_in(s, key, list_of(get_in(s, key)).push(item))
}

/// The items of a sequence of pairs, collected by key.
pub open spec fn grouped<W>(items: Seq<(Seq<char>, W)>) -> Seq<(Seq<char>, Seq<W>)>
    decreases items.len(),
{
    if items.len() == 0 {
        seq![]
    } else {
        append_in(grouped(items.drop_last()), items.last().0, items.last().1)
    }
}

/// The items of a sequence of pairs that have `key`, in their order.
pub open spec fn items_for<W>(items: Seq<(Seq<char>, W)>, key: Seq<char>) -> Seq<W>
    decreases items.len(),
{
    if items.len() == 0 {
        seq![]
    } else if items.last().0 == key {
        items_for(items.drop_last(), key).push(items.last().1)
    } else {
        items_for(items.drop_last(), key)
    }
}

/// A key has a value exactly where it occurs.
pub proof fn lemma_get_in<W>(s: Seq<(Seq<char>, W)>, key: Seq<char>)
    ensures
        get_in(s, key) is Some <==> has_key(s, key),
    decreases s.len(),
{
    if s.len() > 0 {
        let front = s.drop_last();
        lemma_get_in(front, key);
        if has_key(front, key) {
            let i = choose|i: int| 0 <= i < front.len() && (#[trigger] front[i]).0 == key;
            assert(s[i].0 == key);
        }
        if has_key(s, key) && s.last().0 != key {
            let i = choose|i: int| 0 <= i < s.len() && (#[trigger] s[i]).0 == key;
            assert(front[i].0 == key);
        }
        if s.last().0 == key {
            assert(s[s.len() - 1].0 == key);
        }
    }
}

/// Where no key occurs twice, a key has the value of any pair in which it stands.
pub proof fn lemma_get_in_at<W>(s: Seq<(Seq<char>, W)>, i: int)
    requires
        unique_keys(s),
        0 <= i < s.len(),
    ensures
        get_in(s, s[i].0) == Some(s[i].1),
    decreases s.len(),
{
    if i < s.len() - 1 {
        assert(s[i].0 != s[s.len() - 1].0);
        let front = s.drop_last();
        assert(unique_keys(front)) by {
            assert forall|a: int, b: int| 0 <= a < b < front.len() implies (#[trigger] front[a]).0
                != (#[trigger] front[b]).0 by {
                assert(s[a].0 != s[b].0);
            }
        }
        lemma_get_in_at(front, i);
    }
}

/// Binding a key gives it that value and leaves the other keys as they are.
pub proof fn lemma_put_in<W>(
    s: Seq<(Seq<char>, W)>,
    key: Seq<char>,
    value: W,
    other: Seq<char>,
)
    ensures
        get_in(put_in(s, key, value), other) == (if other == key {
            Some(value)
        } else {
            get_in(s, other)
        }),
        has_key(put_in(s, key, value), other) == (other == key || has_key(s, other)),
    decreases s.len(),
{
    let r = put_in(s, key, value);
    reveal_with_fuel(get_in, 2);
    if s.len() == 0 {
        assert(r.drop_last() =~= seq![]);
    } else if s.last().0 == key {
        assert(r.drop_last() =~= s.drop_last());
    } else if has_key(s, key) {
        lemma_put_in(s.drop_last(), key, value, other);
        assert(r.drop_last() =~= put_in(s.drop_last(), key, value));
        let i = choose|i: int| 0 <= i < s.len() && (#[trigger] s[i]).0 == key;
        assert(s.drop_last()[i].0 == key);
    } else {
        assert(r.drop_last() =~= s);
    }
    lemma_get_in(r, other);
    lemma_get_in(s, other);
}

/// Binding a key keeps the keys unique: a known key keeps its place, a new one goes to the end.
pub proof fn lemma_put_in_keys<W>(s: Seq<(Seq<char>, W)>, key: Seq<char>, value: W)
    requires
        unique_keys(s),
    ensures
        unique_keys(put_in(s, key, value)),
        keys_of(put_in(s, key, value)) == (if has_key(s, key) {
            keys_of(s)
        } else {
            keys_of(s).push(key)
        }),
    decreases s.len(),
{
    let r = put_in(s, key, value);
    if s.len() == 0 {
        assert(keys_of(r) =~= keys_of(s).push(key));
    } else if s.last().0 == key {
        assert(s[s.len() - 1].0 == key);
        assert(keys_of(r) =~= keys_of(s));
        assert forall|i: int, j: int| 0 <= i < j < r.len() implies (#[trigger] r[i]).0
            != (#[trigger] r[j]).0 by {
            assert(s[i].0 != s[j].0);
        }
    } else if has_key(s, key) {
        let front = s.drop_last();
        assert(unique_keys(front)) by {
            assert forall|a: int, b: int| 0 <= a < b < front.len() implies (#[trigger] front[a]).0
                != (#[trigger] front[b]).0 by {
                assert(s[a].0 != s[b].0);
            }
        }
        let i = choose|i: int| 0 <= i < s.len() && (#[trigger] s[i]).0 == key;
        assert(front[i].0 == key);
        lemma_put_in_keys(front, key, value);
        assert(keys_of(put_in(front, key, value)) =~= keys_of(front));
        assert(keys_of(r) =~= keys_of(s)) by {
            assert(keys_of(put_in(front, key, value)).len() == front.len());
            assert forall|k: int| 0 <= k < s.len() implies keys_of(r)[k] == keys_of(s)[k] by {
                if k < front.len() {
                    assert(keys_of(put_in(front, key, value))[k] == keys_of(front)[k]);
                }
            }
        }
        assert forall|a: int, b: int| 0 <= a < b < r.len() implies (#[trigger] r[a]).0
            != (#[trigger] r[b]).0 by {
            assert(keys_of(r)[a] == keys_of(s)[a]);
            assert(keys_of(r)[b] == keys_of(s)[b]);
            assert(s[a].0 != s[b].0);
        }
    } else {
        assert(keys_of(r) =~= keys_of(s).push(key));
        assert forall|a: int, b: int| 0 <= a < b < r.len() implies (#[trigger] r[a]).0
            != (#[trigger] r[b]).0 by {
            if b < s.len() {
                assert(s[a].0 != s[b].0);
            } else {
                assert(s[a].0 != key);
            }
        }
    }
}

/// Collecting by key gives each key exactly its items in their order, and no key twice.
pub proof fn lemma_grouped<W>(items: Seq<(Seq<char>, W)>, key: Seq<char>)
    ensures
        unique_keys(grouped(items)),
        list_of(get_in(grouped(items), key)) == items_for(items, key),
        get_in(grouped(items), key) is Some <==> has_key(items, key),
    decreases items.len(),
{
    if items.len() > 0 {
        let front = items.drop_last();
        let last = items.last();
        lemma_grouped(front, key);
        lemma_grouped(front, last.0);
        let g = grouped(front);
        let value = list_of(get_in(g, last.0)).push(last.1);
        lemma_put_in(g, last.0, value, key);
        lemma_put_in_keys(g, last.0, value);
        if has_key(front, key) {
            let i = choose|i: int| 0 <= i < front.len() && (#[trigger] front[i]).0 == key;
            assert(items[i].0 == key);
        }
        if has_key(items, key) && last.0 != key {
            let i = choose|i: int| 0 <= i < items.len() && (#[trigger] items[i]).0 == key;
            assert(front[i].0 == key);
        }
        if last.0 == key {
            assert(items[items.len() - 1].0 == key);
        }
    }
}

/// A map from texts.
#[derive(Debug, Clone)]
pub struct TextMap<V> {
    entries: Vec<(String, V)>,
}

impl<V: DeepView> DeepView for TextMap<V> {
    type V = Seq<(Seq<char>, V::V)>;

    closed spec fn deep_view(&self) -> Seq<(Seq<char>, V::V)> {
        self.entries.deep_view()
    }
}

impl<V: DeepView> TextMap<V> {
    /// An empty map.
    pub fn new() -> (r: Self)
        ensures
            r.deep_view() == Seq::<(Seq<char>, V::V)>::empty(),
    {
        let entries: Vec<(String, V)> = Vec::new();
        assert(entries.deep_view() =~= seq![]);
        TextMap { entries }
    }

    /// How many keys the map has.
    pub fn len(&self) -> (r: usize)
        ensures
            r == self.deep_view().len(),
    {
        self.entries.len()
    }

    /// The key in a place.
    pub fn key(&self, i: usize) -> (r: &str)
        requires
            i < self.deep_view().len(),
        ensures
            r@ == self.deep_view()[i as int].0,
    {
        self.entries[i].0.as_str()
    }

    /// The value in a place.
    pub fn value(&self, i: usize) -> (r: &V)
        requires
            i < self.deep_view().len(),
        ensures
            r.deep_view() == self.deep_view()[i as int].1,
    {
        &self.entries[i].1
    }

    fn position(&self, key: &str) -> (r: Option<usize>)
        ensures
            match r {
                Some(i) => i < self.deep_view().len() && self.deep_view()[i as int].0 == key@
                    && get_in(self.deep_view(), key@) == Some(self.deep_view()[i as int].1)
                    && forall|k: int|
                    i < k < self.deep_view().len() ==> (#[trigger] self.deep_view()[k]).0 != key@,
                None => !has_key(self.deep_view(), key@) && get_in(self.deep_view(), key@) is None,
            },
    {
        let ghost all = self.deep_view();
        let mut i: usize = self.entries.len();
        assert(all.take(i as int) =~= all);
        while i > 0
            invariant
                all == self.deep_view(),
                i <= self.entries.len(),
                all.len() == self.entries.len(),
                get_in(all.take(i as int), key@) == get_in(all, key@),
                forall|k: int| i <= k < all.len() ==> (#[trigger] all[k]).0 != key@,
            decreases i,
        {
            assert(all.take(i as int).last() == all[i - 1]);
            assert(all[i - 1] == self.entries@[i - 1].deep_view());
            if same_text(self.entries[i - 1].0.as_str(), key) {
                return Some(i - 1);
            }
            assert(all.take(i as int).drop_last() =~= all.take(i - 1));
            i -= 1;
        }
        proof {
            lemma_get_in(all, key@);
        }
        None
    }

    /// The value of a key.
    pub fn get(&self, key: &str) -> (r: Option<&V>)
        ensures
            r.deep_view() == get_in(self.deep_view(), key@),
    {
        match self.position(key) {
            Some(i) => Some(&self.entries[i].1),
            None => None,
        }
    }

    /// Whether the map has a key.
    pub fn has(&self, key: &str) -> (r: bool)
        ensures
            r == has_key(self.deep_view(), key@),
            r == (get_in(self.deep_view(), key@) is Some),
    {
        proof {
            lemma_get_in(self.deep_view(), key@);
        }
        self.position(key).is_some()
    }

    /// Binds a key to a value.
    pub fn insert(&mut self, key: &str, value: V)
        ensures
            final(self).deep_view() == put_in(old(self).deep_view(), key@, value.deep_view()),
    {
        let ghost all = self.deep_view();
        let ghost item = value.deep_view();
        match self.position(key) {
            Some(i) => {
                proof {
                    lemma_put_in_at(all, i as int, item);
                }
                self.entries.remove(i);
                self.entries.insert(i, (key.to_owned(), value));
                assert(self.deep_view() =~= all.update(i as int, (key@, item)));
            },
            None => {
                proof {
                    if all.len() > 0 && all.last().0 == key@ {
                        assert(has_key(all, key@));
                    }
                }
                self.entries.push((key.to_owned(), value));
                assert(self.deep_view() =~= all.push((key@, item)));
                assert(all.len() == 0 ==> all.push((key@, item)) =~= seq![(key@, item)]);
            },
        }
    }
}

proof fn lemma_put_in_at<W>(s: Seq<(Seq<char>, W)>, i: int, value: W)
    requires
        0 <= i < s.len(),
        forall|k: int| i < k < s.len() ==> (#[trigger] s[k]).0 != s[i].0,
    ensures
        put_in(s, s[i].0, value) == s.update(i, (s[i].0, value)),
    decreases s.len(),
{
    let key = s[i].0;
    if i == s.len() - 1 {
        assert(s.drop_last().push((key, value)) =~= s.update(i, (key, value)));
    } else {
        assert(s[s.len() - 1].0 != key);
        assert(has_key(s, key));
        let front = s.drop_last();
        assert forall|k: int| i < k < front.len() implies (#[trigger] front[k]).0 != front[i].0 by {
            assert(s[k].0 != s[i].0);
        }
        lemma_put_in_at(front, i, value);
        assert(front.update(i, (key, value)).push(s.last()) =~= s.update(i, (key, value)));
    }
}

impl<T: DeepView> TextMap<Vec<T>> {
    /// Appends an item to the list of a key.
    pub fn append(&mut self, key: &str, item: T)
        ensures
            final(self).deep_view() == append_in(old(self).deep_view(), key@, item.deep_view()),
    {
        let ghost all = self.deep_view();
        let ghost new = item.deep_view();
        match self.position(key) {
            Some(i) => {
                let ghost found = all[i as int].1;
                proof {
                    lemma_put_in_at(all, i as int, found.push(new));
                }
                let (k, mut list) = self.entries.remove(i);
                assert(list.deep_view() == found);
                list.push(item);
                assert(list.deep_view() =~= found.push(new));
                self.entries.insert(i, (k, list));
                assert(self.deep_view() =~= all.update(i as int, (key@, found.push(new))));
            },
            None => {
                let mut list: Vec<T> = Vec::new();
                list.push(item);
                assert(list.deep_view() =~= list_of::<T::V>(None).push(new));
                proof {
                    if all.len() > 0 && all.last().0 == key@ {
                        assert(has_key(all, key@));
                    }
                }
                let ghost value = list.deep_view();
                self.entries.push((key.to_owned(), list));
                assert(self.deep_view() =~= all.push((key@, value)));
                assert(all.len() == 0 ==> all.push((key@, value)) =~= seq![(key@, value)]);
            },
        }
    }
}

/// Collects pairs of texts by their first text.
pub fn group_pairs(items: &Vec<(String, String)>) -> (r: TextMap<Vec<String>>)
    ensures
        r.deep_view() == grouped(items.deep_view()),
{
    let ghost all = items.deep_view();
    let mut out: TextMap<Vec<String>> = TextMap::new();
    let mut i: usize = 0;
    assert(grouped(all.take(0)) =~= seq![]);
    while i < items.len()
        invariant
            all == items.deep_view(),
            i <= items.len(),
            out.deep_view() == grouped(all.take(i as int)),
        decreases items.len() - i,
    {
        assert(all.take(i + 1).drop_last() =~= all.take(i as int));
        assert(all.take(i + 1).last() == items@[i as int].deep_view());
        out.append(items[i].0.as_str(), items[i].1.clone());
        i += 1;
    }
    assert(all.take(all.len() as int) =~= all);
    out
}

} // verus!
