//! A set of directory names, kept in ascending order.

use crate::text::{
    ascending, lemma_ascending_unique, lemma_insert_ascending, lemma_lex_irreflexive,
    lemma_lex_transitive, lex_less, order_of, Order,
};
use vstd::prelude::*;

verus! {

/// The character sequences of a list of strings.
pub open spec fn names_of(v: Seq<String>) -> Seq<Seq<char>> {
    v.map_values(|s: String| s@)
}

/// A string that the scan for its place has passed or stopped short of is
/// not in an ascending sequence.
pub proof fn lemma_absent(s: Seq<Seq<char>>, at: int, name: Seq<char>)
    requires
        ascending(s),
        0 <= at <= s.len(),
        forall|k: int| 0 <= k < at ==> lex_less(#[trigger] s[k], name),
        at < s.len() ==> lex_less(name, s[at]),
    ensures
        !s.contains(name),
{
    lemma_lex_irreflexive(name);
    assert forall|k: int| 0 <= k < s.len() implies s[k] != name by {
        if k > at {
            assert(lex_less(s[at], s[k]));
            lemma_lex_transitive(name, s[at], s[k]);
        }
    }
}

/// The strings of a set as a list in ascending order.
pub open spec fn listing_of(names: Set<Seq<char>>) -> Seq<Seq<char>> {
    choose|l: Seq<Seq<char>>| ascending(l) && l.to_set() == names
}

/// An ascending list is the listing of the set of its strings.
pub proof fn lemma_listing_of(l: Seq<Seq<char>>)
    requires
        ascending(l),
    ensures
        listing_of(l.to_set()) == l,
{
    lemma_ascending_unique(listing_of(l.to_set()), l);
}

/// A copy of a list of strings.
pub fn clone_names(v: &Vec<String>) -> (r: Vec<String>)
    ensures
        names_of(r@) == names_of(v@),
{
    let mut r: Vec<String> = Vec::new();
    let mut i: usize = 0;
    while i < v.len()
        invariant
            i <= v.len(),
            r@.len() == i,
            forall|k: int| 0 <= k < i ==> (#[trigger] r@[k])@ == v@[k]@,
        decreases v.len() - i,
    {
        r.push(v[i].clone());
        i += 1;
    }
    assert(names_of(r@) =~= names_of(v@));
    r
}

/// A set of directory names. Its view lists the names in ascending
/// lexicographic order, each once.
#[derive(Debug, PartialEq, Eq)]
pub struct DirSet {
    names: Vec<String>,
}

impl View for DirSet {
    type V = Seq<Seq<char>>;

    closed spec fn view(&self) -> Seq<Seq<char>> {
        names_of(self.names@)
    }
}

impl Clone for DirSet {
    fn clone(&self) -> (r: DirSet)
        ensures
            r@ == self@,
    {
        proof {
            use_type_invariant(self);
        }
        DirSet { names: clone_names(&self.names) }
    }
}

impl DirSet {
    #[verifier::type_invariant]
    spec fn in_order(&self) -> bool {
        ascending(names_of(self.names@))
    }

    /// The names as a mathematical set.
    pub open spec fn as_set(&self) -> Set<Seq<char>> {
        self@.to_set()
    }

    /// The empty set.
    pub fn new() -> (r: DirSet)
        ensures
            r@ == Seq::<Seq<char>>::empty(),
            r.as_set() == Set::<Seq<char>>::empty(),
    {
        let r = DirSet { names: Vec::new() };
        assert(r@ =~= Seq::<Seq<char>>::empty());
        assert(r.as_set() =~= Set::<Seq<char>>::empty());
        r
    }

    /// How many names the set holds.
    pub fn len(&self) -> (n: usize)
        ensures
            n == self@.len(),
            n == self.as_set().len(),
            ascending(self@),
    {
        proof {
            use_type_invariant(self);
            crate::text::lemma_ascending_no_duplicates(self@);
            self@.unique_seq_to_set();
        }
        self.names.len()
    }

    /// Whether the set holds no name.
    pub fn is_empty(&self) -> (r: bool)
        ensures
            r == (self@.len() == 0),
            r == (self.as_set() == Set::<Seq<char>>::empty()),
    {
        proof {
            if self@.len() == 0 {
                assert(self.as_set() =~= Set::<Seq<char>>::empty());
            } else {
                assert(self@.contains(self@[0]));
                assert(self.as_set().contains(self@[0]));
            }
        }
        self.names.len() == 0
    }

    /// The names in ascending order.
    pub fn names(&self) -> (r: &Vec<String>)
        ensures
            names_of(r@) == self@,
            ascending(self@),
    {
        proof {
            use_type_invariant(self);
        }
        &self.names
    }

    /// Where `name` stands or would stand, and whether it is there.
    fn search(&self, name: &str) -> (r: (usize, bool))
        ensures
            r.0 <= self@.len(),
            forall|k: int| 0 <= k < r.0 ==> lex_less(#[trigger] self@[k], name@),
            r.1 ==> r.0 < self@.len() && self@[r.0 as int] == name@,
            !r.1 && r.0 < self@.len() ==> lex_less(name@, self@[r.0 as int]),
            r.1 == self@.contains(name@),
            ascending(self@),
    {
        proof {
            use_type_invariant(self);
        }
        let mut i: usize = 0;
        while i < self.names.len()
            invariant
                i <= self.names.len(),
                forall|k: int| 0 <= k < i ==> lex_less(#[trigger] self@[k], name@),
                ascending(self@),
            decreases self.names.len() - i,
        {
            match order_of(self.names[i].as_str(), name) {
                Order::Less => {
                    i += 1;
                },
                Order::Equal => {
                    return (i, true);
                },
                Order::Greater => {
                    proof {
                        lemma_absent(self@, i as int, name@);
                    }
                    return (i, false);
                },
            }
        }
        proof {
            lemma_absent(self@, i as int, name@);
        }
        (i, false)
    }

    /// Whether `name` is in the set.
    pub fn contains(&self, name: &str) -> (r: bool)
        ensures
            r == self.as_set().contains(name@),
    {
        self.search(name).1
    }

    /// Adds `name`; says whether it was new.
    pub fn insert(&mut self, name: String) -> (r: bool)
        ensures
            final(self).as_set() == old(self).as_set().insert(name@),
            r == !old(self).as_set().contains(name@),
            !r ==> final(self)@ == old(self)@,
            ascending(final(self)@),
    {
        let (at, found) = self.search(name.as_str());
        if found {
            assert(self.as_set().insert(name@) =~= self.as_set());
            return false;
        }
        let ghost before = self@;
        proof {
            lemma_insert_ascending(before, at as int, name@);
        }
        let mut names: Vec<String> = Vec::new();
        std::mem::swap(&mut self.names, &mut names);
        names.insert(at, name);
        proof {
            assert(names_of(names@) =~= before.insert(at as int, name@));
            lemma_insert_set(before, at as int, name@);
        }
        self.names = names;
        true
    }

    /// The set of the names in `names`, whatever their order and however
    /// often each occurs.
    pub fn from_names(names: &Vec<String>) -> (r: DirSet)
        ensures
            r.as_set() == names_of(names@).to_set(),
            ascending(r@),
    {
        let mut r = DirSet::new();
        let mut i: usize = 0;
        proof {
            assert(names_of(names@).take(0) =~= Seq::<Seq<char>>::empty());
            assert(names_of(names@).take(0).to_set() =~= Set::<Seq<char>>::empty());
        }
        while i < names.len()
            invariant
                i <= names.len(),
                r.as_set() == names_of(names@).take(i as int).to_set(),
                ascending(r@),
            decreases names.len() - i,
        {
            proof {
                let all = names_of(names@);
                lemma_insert_set(all.take(i as int), i as int, all[i as int]);
                assert(all.take(i + 1) =~= all.take(i as int).insert(i as int, all[i as int]));
            }
            r.insert(names[i].clone());
            i += 1;
        }
        assert(names_of(names@).take(i as int) =~= names_of(names@));
        r
    }

    /// The names of `self` that are not in `other`.
    pub fn difference(&self, other: &DirSet) -> (r: DirSet)
        ensures
            r.as_set() == self.as_set().difference(other.as_set()),
            ascending(r@),
    {
        proof {
            use_type_invariant(self);
        }
        let mut kept: Vec<String> = Vec::new();
        let mut i: usize = 0;
        proof {
            assert(self@.take(0) =~= Seq::<Seq<char>>::empty());
            assert(names_of(kept@).to_set() =~= self@.take(0).to_set().difference(
                other.as_set(),
            ));
        }
        while i < self.names.len()
            invariant
                i <= self.names.len(),
                ascending(self@),
                ascending(names_of(kept@)),
                forall|k: int, j: int|
                    0 <= k < kept@.len() && i <= j < self@.len() ==> lex_less(
                        #[trigger] names_of(kept@)[k],
                        #[trigger] self@[j],
                    ),
                names_of(kept@).to_set() == self@.take(i as int).to_set().difference(
                    other.as_set(),
                ),
            decreases self.names.len() - i,
        {
            let ghost before = names_of(kept@);
            let ghost name = self@[i as int];
            proof {
                lemma_insert_set(self@.take(i as int), i as int, name);
                assert(self@.take(i + 1) =~= self@.take(i as int).insert(i as int, name));
            }
            if !other.contains(self.names[i].as_str()) {
                kept.push(self.names[i].clone());
                proof {
                    assert(names_of(kept@) =~= before.insert(before.len() as int, name));
                    lemma_insert_ascending(before, before.len() as int, name);
                    lemma_insert_set(before, before.len() as int, name);
                    assert forall|k: int, j: int|
                        0 <= k < kept@.len() && i + 1 <= j < self@.len() implies lex_less(
                        #[trigger] names_of(kept@)[k],
                        #[trigger] self@[j],
                    ) by {
                        if k == before.len() {
                            assert(lex_less(self@[i as int], self@[j]));
                        } else {
                            assert(names_of(kept@)[k] == before[k]);
                        }
                    }
                    assert(names_of(kept@).to_set() =~= self@.take(i + 1).to_set().difference(
                        other.as_set(),
                    ));
                }
            } else {
                proof {
                    assert(names_of(kept@).to_set() =~= self@.take(i + 1).to_set().difference(
                        other.as_set(),
                    ));
                }
            }
            i += 1;
        }
        assert(self@.take(i as int) =~= self@);
        DirSet { names: kept }
    }
}

/// The strings of a sequence after an insertion are those before it and the
/// new one.
pub proof fn lemma_insert_set(s: Seq<Seq<char>>, at: int, name: Seq<char>)
    requires
        0 <= at <= s.len(),
    ensures
        s.insert(at, name).to_set() == s.to_set().insert(name),
{
    let t = s.insert(at, name);
    assert forall|x: Seq<char>| t.contains(x) <==> (s.contains(x) || x == name) by {
        if t.contains(x) {
            let i = choose|i: int| 0 <= i < t.len() && t[i] == x;
            if i < at {
                assert(s[i] == x);
            } else if i > at {
                assert(s[i - 1] == x);
            }
        }
        if s.contains(x) {
            let i = choose|i: int| 0 <= i < s.len() && s[i] == x;
            if i < at {
                assert(t[i] == x);
            } else {
                assert(t[i + 1] == x);
            }
        }
        if x == name {
            assert(t[at] == x);
        }
    }
    assert(t.to_set() =~= s.to_set().insert(name));
}

} // verus!
