//! The chapters of a configuration: a mapping from keys to chapters, kept in
//! ascending order of the keys.

use crate::config::{Chapter, ChapterView};
use crate::dirset::lemma_absent;
use crate::text::{
    ascending, lemma_ascending_no_duplicates, lemma_insert_ascending, lex_less, order_of, Order,
};
use vstd::prelude::*;

verus! {

/// The mapping that results from entering the pairs of `l` one after the
/// other: of two pairs with the same key the later one stays.
pub open spec fn map_of<V>(l: Seq<(Seq<char>, V)>) -> Map<Seq<char>, V>
    decreases l.len(),
{
    if l.len() == 0 {
        Map::empty()
    } else {
        map_of(l.drop_last()).insert(l.last().0, l.last().1)
    }
}

/// The keys of a list of pairs, in the order of the list.
pub open spec fn keys_of<V>(l: Seq<(Seq<char>, V)>) -> Seq<Seq<char>> {
    l.map_values(|e: (Seq<char>, V)| e.0)
}

/// The keys of the mapping are the keys of the list.
pub proof fn lemma_map_of_dom<V>(l: Seq<(Seq<char>, V)>)
    ensures
        map_of(l).dom() == keys_of(l).to_set(),
    decreases l.len(),
{
    if l.len() == 0 {
        assert(map_of(l).dom() =~= keys_of(l).to_set());
    } else {
        lemma_map_of_dom(l.drop_last());
        let keys = keys_of(l);
        let init = keys_of(l.drop_last());
        assert(init =~= keys.drop_last());
        assert forall|k: Seq<char>| keys.contains(k) <==> (init.contains(k) || k == l.last().0) by {
            if keys.contains(k) {
                let i = choose|i: int| 0 <= i < keys.len() && keys[i] == k;
                if i < keys.len() - 1 {
                    assert(init[i] == k);
                }
            }
            if init.contains(k) {
                let i = choose|i: int| 0 <= i < init.len() && init[i] == k;
                assert(keys[i] == k);
            }
            if k == l.last().0 {
                assert(keys[keys.len() - 1] == k);
            }
        }
        assert(map_of(l).dom() =~= keys_of(l).to_set());
    }
}

/// Where no key occurs twice, each pair of the list is in the mapping.
pub proof fn lemma_map_of_lookup<V>(l: Seq<(Seq<char>, V)>, i: int)
    requires
        keys_of(l).no_duplicates(),
        0 <= i < l.len(),
    ensures
        map_of(l).contains_key(l[i].0),
        map_of(l)[l[i].0] == l[i].1,
    decreases l.len(),
{
    if i < l.len() - 1 {
        let keys = keys_of(l);
        assert(keys[i] != keys[l.len() - 1]);
        assert(keys_of(l.drop_last()) =~= keys.drop_last());
        lemma_map_of_lookup(l.drop_last(), i);
    }
}

/// A pair with a new key, put anywhere into the list, enters the mapping.
pub proof fn lemma_map_of_insert<V>(l: Seq<(Seq<char>, V)>, at: int, key: Seq<char>, value: V)
    requires
        0 <= at <= l.len(),
        !keys_of(l).contains(key),
    ensures
        map_of(l.insert(at, (key, value))) == map_of(l).insert(key, value),
    decreases l.len(),
{
    let t = l.insert(at, (key, value));
    if at == l.len() {
        assert(t.drop_last() =~= l);
    } else {
        let init = l.drop_last();
        assert(t.drop_last() =~= init.insert(at, (key, value)));
        assert(t.last() == l.last());
        assert(!keys_of(init).contains(key)) by {
            if keys_of(init).contains(key) {
                let i = choose|i: int| 0 <= i < init.len() && keys_of(init)[i] == key;
                assert(keys_of(l)[i] == key);
            }
        }
        assert(l.last().0 != key) by {
            assert(keys_of(l)[l.len() - 1] == l.last().0);
        }
        lemma_map_of_insert(init, at, key, value);
        assert(map_of(t) =~= map_of(l).insert(key, value));
    }
}

/// A pair that takes the place of the one pair with its key replaces that
/// key's value in the mapping.
pub proof fn lemma_map_of_update<V>(l: Seq<(Seq<char>, V)>, at: int, key: Seq<char>, value: V)
    requires
        0 <= at < l.len(),
        keys_of(l).no_duplicates(),
        l[at].0 == key,
    ensures
        map_of(l.update(at, (key, value))) == map_of(l).insert(key, value),
    decreases l.len(),
{
    let t = l.update(at, (key, value));
    if at == l.len() - 1 {
        assert(t.drop_last() =~= l.drop_last());
        assert(map_of(t) =~= map_of(l).insert(key, value));
    } else {
        let init = l.drop_last();
        assert(t.drop_last() =~= init.update(at, (key, value)));
        assert(t.last() == l.last());
        assert(keys_of(init) =~= keys_of(l).drop_last());
        assert(l.last().0 != key) by {
            assert(keys_of(l)[l.len() - 1] == l.last().0);
            assert(keys_of(l)[at] == key);
        }
        lemma_map_of_update(init, at, key, value);
        assert(map_of(t) =~= map_of(l).insert(key, value));
    }
}

/// The keys and the views of a list of entries.
pub open spec fn entries_of(v: Seq<(String, Chapter)>) -> Seq<(Seq<char>, ChapterView)> {
    v.map_values(|e: (String, Chapter)| (e.0@, e.1@))
}

/// The chapters of a configuration, each under its key. The view is the
/// mapping; `listing` gives the same pairs in ascending order of the keys.
#[derive(Debug, PartialEq)]
pub struct Chapters {
    entries: Vec<(String, Chapter)>,
}

impl View for Chapters {
    type V = Map<Seq<char>, ChapterView>;

    open spec fn view(&self) -> Map<Seq<char>, ChapterView> {
        map_of(self.listing())
    }
}

impl Chapters {
    #[verifier::type_invariant]
    spec fn in_order(&self) -> bool {
        ascending(keys_of(entries_of(self.entries@)))
    }

    /// The pairs of key and chapter in ascending order of the keys.
    pub closed spec fn listing(&self) -> Seq<(Seq<char>, ChapterView)> {
        entries_of(self.entries@)
    }

    /// The empty mapping.
    pub fn new() -> (r: Chapters)
        ensures
            r@ == Map::<Seq<char>, ChapterView>::empty(),
            r.listing() == Seq::<(Seq<char>, ChapterView)>::empty(),
    {
        let r = Chapters { entries: Vec::new() };
        assert(r.listing() =~= Seq::<(Seq<char>, ChapterView)>::empty());
        r
    }

    /// How many chapters there are.
    pub fn len(&self) -> (n: usize)
        ensures
            n == self.listing().len(),
            n == self@.dom().len(),
    {
        proof {
            use_type_invariant(self);
            let keys = keys_of(self.listing());
            lemma_ascending_no_duplicates(keys);
            keys.unique_seq_to_set();
            lemma_map_of_dom(self.listing());
        }
        self.entries.len()
    }

    /// Whether there is no chapter.
    pub fn is_empty(&self) -> (r: bool)
        ensures
            r == (self.listing().len() == 0),
    {
        self.entries.len() == 0
    }

    /// The entries in ascending order of the keys, no key twice.
    pub fn entries(&self) -> (r: &Vec<(String, Chapter)>)
        ensures
            entries_of(r@) == self.listing(),
            ascending(keys_of(self.listing())),
    {
        proof {
            use_type_invariant(self);
        }
        &self.entries
    }

    /// Where `key` stands or would stand, and whether it is there.
    fn search(&self, key: &str) -> (r: (usize, bool))
        ensures
            r.0 <= self.listing().len(),
            forall|k: int| 0 <= k < r.0 ==> lex_less(#[trigger] keys_of(self.listing())[k], key@),
            r.1 ==> r.0 < self.listing().len() && self.listing()[r.0 as int].0 == key@,
            !r.1 && r.0 < self.listing().len() ==> lex_less(
                key@,
                keys_of(self.listing())[r.0 as int],
            ),
            r.1 == keys_of(self.listing()).contains(key@),
            ascending(keys_of(self.listing())),
    {
        proof {
            use_type_invariant(self);
        }
        let ghost keys = keys_of(self.listing());
        let mut i: usize = 0;
        while i < self.entries.len()
            invariant
                i <= self.entries.len(),
                keys == keys_of(self.listing()),
                forall|k: int| 0 <= k < i ==> lex_less(#[trigger] keys[k], key@),
                ascending(keys),
            decreases self.entries.len() - i,
        {
            assert(keys[i as int] == self.entries@[i as int].0@);
            match order_of(self.entries[i].0.as_str(), key) {
                Order::Less => {
                    i += 1;
                },
                Order::Equal => {
                    return (i, true);
                },
                Order::Greater => {
                    proof {
                        lemma_absent(keys, i as int, key@);
                    }
                    return (i, false);
                },
            }
        }
        proof {
            lemma_absent(keys, i as int, key@);
        }
        (i, false)
    }

    /// The chapter under `key`, if there is one.
    pub fn get(&self, key: &str) -> (r: Option<&Chapter>)
        ensures
            match r {
                Some(chapter) => self@.contains_key(key@) && chapter@ == self@[key@],
                None => !self@.contains_key(key@),
            },
    {
        let (at, found) = self.search(key);
        proof {
            lemma_map_of_dom(self.listing());
            lemma_ascending_no_duplicates(keys_of(self.listing()));
            if found {
                lemma_map_of_lookup(self.listing(), at as int);
            }
        }
        if found {
            Some(&self.entries[at].1)
        } else {
            None
        }
    }

    /// Puts `chapter` under `key` and hands back the chapter that was there
    /// before, if there was one.
    pub fn insert(&mut self, key: String, chapter: Chapter) -> (r: Option<Chapter>)
        ensures
            final(self)@ == old(self)@.insert(key@, chapter@),
            match r {
                Some(former) => old(self)@.contains_key(key@) && former@ == old(self)@[key@],
                None => !old(self)@.contains_key(key@),
            },
    {
        let (at, found) = self.search(key.as_str());
        let ghost before = self.listing();
        let ghost pair = (key@, chapter@);
        proof {
            lemma_map_of_dom(before);
            lemma_ascending_no_duplicates(keys_of(before));
        }
        let mut entries: Vec<(String, Chapter)> = Vec::new();
        std::mem::swap(&mut self.entries, &mut entries);
        if found {
            let former = entries.remove(at);
            entries.insert(at, (key, chapter));
            proof {
                lemma_map_of_lookup(before, at as int);
                lemma_map_of_update(before, at as int, pair.0, pair.1);
                assert(entries_of(entries@) =~= before.update(at as int, pair));
                assert(keys_of(before.update(at as int, pair)) =~= keys_of(before));
            }
            self.entries = entries;
            Some(former.1)
        } else {
            entries.insert(at, (key, chapter));
            proof {
                lemma_map_of_insert(before, at as int, pair.0, pair.1);
                lemma_insert_ascending(keys_of(before), at as int, pair.0);
                assert(entries_of(entries@) =~= before.insert(at as int, pair));
                assert(keys_of(before.insert(at as int, pair)) =~= keys_of(before).insert(
                    at as int,
                    pair.0,
                ));
            }
            self.entries = entries;
            None
        }
    }
}

} // verus!
