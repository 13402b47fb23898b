//! A small string-keyed dictionary with a mathematical map as its view.

use vstd::prelude::*;
use crate::text::str_eq;

verus! {

/// The map described by an association list, later entries overriding
/// earlier ones.
pub open spec fn pairs_to_map(s: Seq<(Seq<char>, Seq<char>)>) -> Map<Seq<char>, Seq<char>>
    decreases s.len(),
{
    if s.len() == 0 {
        Map::empty()
    } else {
        pairs_to_map(s.drop_last()).insert(s.last().0, s.last().1)
    }
}

/// A dictionary from strings to strings, backed by a list of entries in
/// insertion order; a lookup takes the most recently inserted entry for
/// its key.
pub struct StringMap {
    pairs: Vec<(String, String)>,
}

impl StringMap {
    /// The entries, as ghost sequences of characters.
    pub closed spec fn spec_pairs(&self) -> Seq<(Seq<char>, Seq<char>)> {
        Seq::new(self.pairs@.len(), |i: int| (self.pairs@[i].0@, self.pairs@[i].1@))
    }

    pub fn new() -> (r: StringMap)
        ensures
            r@ == Map::<Seq<char>, Seq<char>>::empty(),
            r.spec_pairs() == Seq::<(Seq<char>, Seq<char>)>::empty(),
    {
        let r = StringMap { pairs: Vec::new() };
        proof {
            assert(r.spec_pairs() =~= Seq::<(Seq<char>, Seq<char>)>::empty());
        }
        r
    }

    /// Insert `key -> value`, overriding any earlier entry with an equal key.
    pub fn insert(&mut self, key: String, value: String)
        ensures
            final(self)@ == old(self)@.insert(key@, value@),
            final(self).spec_pairs() == old(self).spec_pairs().push((key@, value@)),
    {
        let ghost old_pairs = self.spec_pairs();
        self.pairs.push((key, value));
        proof {
            assert(self.spec_pairs() =~= old_pairs.push((key@, value@)));
            assert(self.spec_pairs().drop_last() =~= old_pairs);
        }
    }

    /// Look the key up.
    pub fn get(&self, key: &str) -> (r: Option<&String>)
        ensures
            match r {
                Option::Some(v) => self@.contains_key(key@) && self@[key@] == v@,
                Option::None => !self@.contains_key(key@),
            },
    {
        let n = self.pairs.len();
        let mut i: usize = n;
        while i > 0
            invariant
                0 <= i <= n,
                n == self.pairs@.len(),
                forall|j: int| i <= j < n ==> self.pairs@[j].0@ != key@,
            decreases i,
        {
            i -= 1;
            if str_eq(self.pairs[i].0.as_str(), key) {
                proof {
                    assert(self.spec_pairs()[i as int].0 == key@);
                    lemma_pairs_to_map_at(self.spec_pairs(), key@, i as int);
                }
                return Some(&self.pairs[i].1);
            }
        }
        proof {
            lemma_pairs_to_map_absent(self.spec_pairs(), key@);
        }
        None
    }

    /// Whether the key is present.
    pub fn contains_key(&self, key: &str) -> (r: bool)
        ensures
            r == self@.contains_key(key@),
    {
        self.get(key).is_some()
    }
}

impl View for StringMap {
    type V = Map<Seq<char>, Seq<char>>;

    closed spec fn view(&self) -> Map<Seq<char>, Seq<char>> {
        pairs_to_map(self.spec_pairs())
    }
}

impl Clone for StringMap {
    fn clone(&self) -> (r: Self)
        ensures
            r@ == self@,
            r.spec_pairs() == self.spec_pairs(),
    {
        let mut pairs: Vec<(String, String)> = Vec::new();
        let n = self.pairs.len();
        let mut i: usize = 0;
        while i < n
            invariant
                0 <= i <= n,
                n == self.pairs@.len(),
                pairs@.len() == i,
                forall|j: int|
                    0 <= j < i ==> pairs@[j].0@ == self.pairs@[j].0@ && pairs@[j].1@
                        == self.pairs@[j].1@,
            decreases n - i,
        {
            pairs.push((self.pairs[i].0.clone(), self.pairs[i].1.clone()));
            i += 1;
        }
        let r = StringMap { pairs };
        proof {
            assert(r.spec_pairs() =~= self.spec_pairs());
        }
        r
    }
}

/// The map takes the value of the last entry for a key.
pub proof fn lemma_pairs_to_map_at(s: Seq<(Seq<char>, Seq<char>)>, k: Seq<char>, i: int)
    requires
        0 <= i < s.len(),
        s[i].0 == k,
        forall|j: int| i < j < s.len() ==> s[j].0 != k,
    ensures
        pairs_to_map(s).contains_key(k),
        pairs_to_map(s)[k] == s[i].1,
    decreases s.len(),
{
    if i == s.len() - 1 {
        assert(s.last() == s[i]);
    } else {
        assert(forall|j: int| 0 <= j < s.len() - 1 ==> s.drop_last()[j] == s[j]);
        lemma_pairs_to_map_at(s.drop_last(), k, i);
        assert(s.last().0 != k);
    }
}

/// A key listed by no entry is not in the map.
pub proof fn lemma_pairs_to_map_absent(s: Seq<(Seq<char>, Seq<char>)>, k: Seq<char>)
    requires
        forall|j: int| 0 <= j < s.len() ==> s[j].0 != k,
    ensures
        !pairs_to_map(s).contains_key(k),
    decreases s.len(),
{
    if s.len() > 0 {
        assert(forall|j: int| 0 <= j < s.len() - 1 ==> s.drop_last()[j] == s[j]);
        lemma_pairs_to_map_absent(s.drop_last(), k);
    }
}

} // verus!
