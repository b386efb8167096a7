//! A small map keyed by client id, kept as a list in which no key occurs twice.

use vstd::prelude::*;

verus! {

/// A finite map from strings to values. Its view maps the text of each key
/// to the view of its value.
#[derive(Debug)]
pub struct ClientTable<V> {
    items: Vec<(String, V)>,
}

/// No key occurs twice in `items`.
pub open spec fn keys_are_unique<V>(items: Seq<(String, V)>) -> bool {
    forall|i: int, j: int|
        0 <= i < items.len() && 0 <= j < items.len() && i != j ==> (#[trigger] items[i]).0@ != (
        #[trigger] items[j]).0@
}

/// `key` stands at position `i` of `items`.
pub open spec fn key_at<V>(items: Seq<(String, V)>, key: Seq<char>, i: int) -> bool {
    0 <= i < items.len() && items[i].0@ == key
}

/// The map that a list of pairs stands for.
pub open spec fn table_of<V: DeepView>(items: Seq<(String, V)>) -> Map<Seq<char>, <V as DeepView>::V> {
    Map::new(
        |key: Seq<char>| exists|i: int| key_at(items, key, i),
        |key: Seq<char>| items[choose|i: int| key_at(items, key, i)].1.deep_view(),
    )
}

/// In a list without repeated keys, the pair at position `i` is what the map
/// holds for its key.
pub proof fn lemma_table_entry<V: DeepView>(items: Seq<(String, V)>, i: int)
    requires
        keys_are_unique(items),
        0 <= i < items.len(),
    ensures
        table_of(items).contains_key(items[i].0@),
        table_of(items)[items[i].0@] == items[i].1.deep_view(),
{
    let key = items[i].0@;
    assert(key_at(items, key, i));
    let j = choose|j: int| key_at(items, key, j);
    assert(j == i);
}

/// Appending a pair with a new key inserts it into the map.
pub proof fn lemma_table_push<V: DeepView>(items: Seq<(String, V)>, key: String, value: V)
    requires
        keys_are_unique(items),
        !table_of(items).contains_key(key@),
    ensures
        keys_are_unique(items.push((key, value))),
        table_of(items.push((key, value))) == table_of(items).insert(key@, value.deep_view()),
{
    let next = items.push((key, value));
    assert forall|i: int, j: int|
        0 <= i < next.len() && 0 <= j < next.len() && i != j implies (#[trigger] next[i]).0@ != (
    #[trigger] next[j]).0@ by {
        if i < items.len() && j < items.len() {
            assert(next[i] == items[i] && next[j] == items[j]);
        } else if i < items.len() {
            assert(key_at(items, items[i].0@, i));
        } else {
            assert(key_at(items, items[j].0@, j));
        }
    }
    assert forall|k: Seq<char>| #[trigger]
        table_of(next).contains_key(k) <==> table_of(items).insert(key@, value.deep_view()).contains_key(
            k,
        ) by {
        if table_of(next).contains_key(k) {
            let i = choose|i: int| key_at(next, k, i);
            if i < items.len() {
                assert(key_at(items, k, i));
            }
        }
        if table_of(items).contains_key(k) {
            let i = choose|i: int| key_at(items, k, i);
            assert(key_at(next, k, i));
        }
        if k == key@ {
            assert(key_at(next, k, items.len() as int));
        }
    }
    assert forall|k: Seq<char>| #[trigger] table_of(next).contains_key(k) implies table_of(next)[k]
        == table_of(items).insert(key@, value.deep_view())[k] by {
        let i = choose|i: int| key_at(next, k, i);
        lemma_table_entry(next, i);
        if i < items.len() {
            assert(key_at(items, k, i));
            lemma_table_entry(items, i);
        }
    }
    assert(table_of(next) =~= table_of(items).insert(key@, value.deep_view()));
}

/// Taking the pair at position `i` out of a list without repeated keys
/// removes its key from the map.
pub proof fn lemma_table_remove<V: DeepView>(items: Seq<(String, V)>, i: int)
    requires
        keys_are_unique(items),
        0 <= i < items.len(),
    ensures
        keys_are_unique(items.remove(i)),
        table_of(items.remove(i)) == table_of(items).remove(items[i].0@),
{
    let rest = items.remove(i);
    let gone = items[i].0@;
    assert forall|a: int, b: int|
        0 <= a < rest.len() && 0 <= b < rest.len() && a != b implies (#[trigger] rest[a]).0@ != (
    #[trigger] rest[b]).0@ by {
        let a0 = if a < i {
            a
        } else {
            a + 1
        };
        let b0 = if b < i {
            b
        } else {
            b + 1
        };
        assert(rest[a] == items[a0] && rest[b] == items[b0]);
    }
    assert forall|k: Seq<char>| #[trigger]
        table_of(rest).contains_key(k) <==> table_of(items).remove(gone).contains_key(k) by {
        if table_of(rest).contains_key(k) {
            let a = choose|a: int| key_at(rest, k, a);
            let a0 = if a < i {
                a
            } else {
                a + 1
            };
            assert(rest[a] == items[a0]);
            assert(key_at(items, k, a0));
        }
        if table_of(items).remove(gone).contains_key(k) {
            let a0 = choose|a0: int| key_at(items, k, a0);
            let a = if a0 < i {
                a0
            } else {
                a0 - 1
            };
            assert(rest[a] == items[a0]);
            assert(key_at(rest, k, a));
        }
    }
    assert forall|k: Seq<char>| #[trigger] table_of(rest).contains_key(k) implies table_of(rest)[k]
        == table_of(items).remove(gone)[k] by {
        let a = choose|a: int| key_at(rest, k, a);
        let a0 = if a < i {
            a
        } else {
            a + 1
        };
        assert(rest[a] == items[a0]);
        lemma_table_entry(rest, a);
        lemma_table_entry(items, a0);
    }
    assert(table_of(rest) =~= table_of(items).remove(gone));
}

/// Two lists whose keys and values agree position by position stand for the
/// same map.
pub proof fn lemma_table_same<V: DeepView>(a: Seq<(String, V)>, b: Seq<(String, V)>)
    requires
        keys_are_unique(a),
        a.len() == b.len(),
        forall|i: int|
            0 <= i < a.len() ==> (#[trigger] b[i]).0@ == a[i].0@ && b[i].1.deep_view()
                == a[i].1.deep_view(),
    ensures
        keys_are_unique(b),
        table_of(b) == table_of(a),
{
    assert forall|i: int, j: int|
        0 <= i < b.len() && 0 <= j < b.len() && i != j implies (#[trigger] b[i]).0@ != (
    #[trigger] b[j]).0@ by {
        assert(a[i].0@ != a[j].0@);
    }
    assert forall|k: Seq<char>| #[trigger]
        table_of(b).contains_key(k) <==> table_of(a).contains_key(k) by {
        if table_of(b).contains_key(k) {
            let i = choose|i: int| key_at(b, k, i);
            assert(key_at(a, k, i));
        }
        if table_of(a).contains_key(k) {
            let i = choose|i: int| key_at(a, k, i);
            assert(key_at(b, k, i));
        }
    }
    assert forall|k: Seq<char>| #[trigger] table_of(b).contains_key(k) implies table_of(b)[k]
        == table_of(a)[k] by {
        let i = choose|i: int| key_at(b, k, i);
        lemma_table_entry(b, i);
        lemma_table_entry(a, i);
    }
    assert(table_of(b) =~= table_of(a));
}

impl<V: DeepView> View for ClientTable<V> {
    type V = Map<Seq<char>, <V as DeepView>::V>;

    closed spec fn view(&self) -> Map<Seq<char>, <V as DeepView>::V> {
        table_of(self.items@)
    }
}

impl<V: DeepView> ClientTable<V> {
    /// The table holds no key twice. Every table that this module hands out
    /// is well formed.
    pub closed spec fn wf(&self) -> bool {
        keys_are_unique(self.items@)
    }

    /// The empty table.
    pub fn new() -> (t: ClientTable<V>)
        ensures
            t.wf(),
            t@ == Map::<Seq<char>, <V as DeepView>::V>::empty(),
    {
        let t = ClientTable { items: Vec::new() };
        proof {
            assert(t@ =~= Map::<Seq<char>, <V as DeepView>::V>::empty());
        }
        t
    }

    /// The position of `key` in the list, if it is there.
    fn position(&self, key: &String) -> (r: Option<usize>)
        requires
            self.wf(),
        ensures
            match r {
                Some(i) => key_at(self.items@, key@, i as int),
                None => !self@.contains_key(key@),
            },
    {
        let mut i: usize = 0;
        while i < self.items.len()
            invariant
                i <= self.items.len(),
                forall|j: int| 0 <= j < i ==> !key_at(self.items@, key@, j),
            decreases self.items.len() - i,
        {
            if self.items[i].0 == *key {
                return Some(i);
            }
            i = i + 1;
        }
        None
    }

    /// The value stored for `key`, if there is one.
    pub fn get(&self, key: &String) -> (r: Option<&V>)
        requires
            self.wf(),
        ensures
            match r {
                Some(v) => self@.contains_key(key@) && self@[key@] == v.deep_view(),
                None => !self@.contains_key(key@),
            },
    {
        match self.position(key) {
            Some(i) => {
                proof {
                    lemma_table_entry(self.items@, i as int);
                }
                Some(&self.items[i].1)
            },
            None => None,
        }
    }

    /// Stores `value` for `key` and returns the value it replaces, if any.
    pub fn insert(&mut self, key: String, value: V) -> (previous: Option<V>)
        requires
            old(self).wf(),
        ensures
            final(self).wf(),
            final(self)@ == old(self)@.insert(key@, value.deep_view()),
            match previous {
                Some(v) => old(self)@.contains_key(key@) && old(self)@[key@] == v.deep_view(),
                None => !old(self)@.contains_key(key@),
            },
    {
        let found = self.position(&key);
        let previous = match found {
            Some(i) => {
                proof {
                    lemma_table_entry(self.items@, i as int);
                    lemma_table_remove(self.items@, i as int);
                }
                let taken = self.items.remove(i);
                Some(taken.1)
            },
            None => None,
        };
        proof {
            lemma_table_push(self.items@, key, value);
            assert(old(self)@.remove(key@).insert(key@, value.deep_view()) =~= old(self)@.insert(key@, value.deep_view()));
        }
        self.items.push((key, value));
        previous
    }

    /// The number of keys.
    pub fn len(&self) -> (n: usize)
        ensures
            n == self.pairs().len(),
    {
        self.items.len()
    }

    /// The stored pairs, in the order in which `pair` hands them out.
    pub closed spec fn pairs(&self) -> Seq<(String, V)> {
        self.items@
    }

    /// In a well-formed table no key occurs twice among the pairs, and the
    /// pairs are what the table maps.
    pub proof fn pairs_are_the_table(&self)
        requires
            self.wf(),
        ensures
            keys_are_unique(self.pairs()),
            self@ == table_of(self.pairs()),
    {
    }

    /// The pair at position `i`.
    pub fn pair(&self, i: usize) -> (r: (&String, &V))
        requires
            i < self.pairs().len(),
        ensures
            *r.0 == self.pairs()[i as int].0,
            *r.1 == self.pairs()[i as int].1,
    {
        (&self.items[i].0, &self.items[i].1)
    }
}

impl Clone for ClientTable<String> {
    fn clone(&self) -> (t: ClientTable<String>)
        ensures
            self.wf() ==> t.wf() && t@ == self@,
    {
        let mut items: Vec<(String, String)> = Vec::new();
        let mut i: usize = 0;
        while i < self.items.len()
            invariant
                i <= self.items.len(),
                items.len() == i,
                forall|j: int|
                    0 <= j < i ==> (#[trigger] items[j]).0@ == self.items[j].0@
                        && items[j].1.deep_view() == self.items[j].1.deep_view(),
            decreases self.items.len() - i,
        {
            items.push((self.items[i].0.clone(), self.items[i].1.clone()));
            i = i + 1;
        }
        proof {
            if self.wf() {
                lemma_table_same(self.items@, items@);
            }
        }
        ClientTable { items }
    }
}

impl Clone for ClientTable<(u64, Option<String>)> {
    fn clone(&self) -> (t: ClientTable<(u64, Option<String>)>)
        ensures
            self.wf() ==> t.wf() && t@ == self@,
    {
        let mut items: Vec<(String, (u64, Option<String>))> = Vec::new();
        let mut i: usize = 0;
        while i < self.items.len()
            invariant
                i <= self.items.len(),
                items.len() == i,
                forall|j: int|
                    0 <= j < i ==> (#[trigger] items[j]).0@ == self.items[j].0@
                        && items[j].1.deep_view() == self.items[j].1.deep_view(),
            decreases self.items.len() - i,
        {
            let response = match &self.items[i].1.1 {
                Some(text) => Some(text.clone()),
                None => None,
            };
            items.push((self.items[i].0.clone(), (self.items[i].1.0, response)));
            i = i + 1;
        }
        proof {
            if self.wf() {
                lemma_table_same(self.items@, items@);
            }
        }
        ClientTable { items }
    }
}

} // verus!
