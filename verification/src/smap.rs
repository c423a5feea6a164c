//! An insertion-ordered map from strings to strings, looked up by key and
//! updated with last-write-wins semantics, modelled as an association list.

use vstd::prelude::*;

verus! {

broadcast use vstd::string::group_string_axioms, vstd::std_specs::vec::group_vec_axioms;

/// An insertion-ordered map from names to texts; a repeated key keeps its
/// place and takes the latest value.
#[derive(Debug, Clone)]
pub struct StrMap {
    pairs: Vec<(String, String)>,
}

/// First value bound to a key in an association list.
pub open spec fn assoc(s: Seq<(Seq<char>, Seq<char>)>, k: Seq<char>) -> Option<Seq<char>>
    decreases s.len(),
{
    if s.len() == 0 {
        None
    } else if s[0].0 == k {
        Some(s[0].1)
    } else {
        assoc(s.drop_first(), k)
    }
}

/// Bind a key: replace the value in place when the key is present, else
/// append the pair.
pub open spec fn assoc_insert(
    s: Seq<(Seq<char>, Seq<char>)>,
    p: (Seq<char>, Seq<char>),
) -> Seq<(Seq<char>, Seq<char>)>
    decreases s.len(),
{
    if s.len() == 0 {
        seq![p]
    } else if s[0].0 == p.0 {
        seq![(s[0].0, p.1)] + s.drop_first()
    } else {
        seq![s[0]] + assoc_insert(s.drop_first(), p)
    }
}

impl View for StrMap {
    type V = Seq<(Seq<char>, Seq<char>)>;

    closed spec fn view(&self) -> Seq<(Seq<char>, Seq<char>)> {
        Seq::new(self.pairs@.len(), |i: int| (self.pairs@[i].0@, self.pairs@[i].1@))
    }
}

impl StrMap {
    /// An empty map.
    pub fn new() -> (r: StrMap)
        ensures
            r@ == Seq::<(Seq<char>, Seq<char>)>::empty(),
    {
        let r = StrMap { pairs: Vec::new() };
        proof {
            assert(r@ =~= Seq::<(Seq<char>, Seq<char>)>::empty());
        }
        r
    }

    /// How many pairs are held.
    pub fn len(&self) -> (n: usize)
        ensures
            n == self@.len(),
    {
        self.pairs.len()
    }

    /// Whether no pair is held.
    pub fn is_empty(&self) -> (r: bool)
        ensures
            r == (self@.len() == 0),
    {
        self.pairs.is_empty()
    }

    /// The pairs, in insertion order.
    pub fn entries(&self) -> (r: &Vec<(String, String)>)
        ensures
            r@.len() == self@.len(),
            forall|i: int|
                0 <= i < r@.len() ==> (#[trigger] r@[i]).0@ == self@[i].0 && r@[i].1@
                    == self@[i].1,
    {
        &self.pairs
    }

    /// Bind `key` to `value`, replacing in place or appending.
    pub fn insert(&mut self, key: String, value: String)
        ensures
            final(self)@ == assoc_insert(old(self)@, (key@, value@)),
    {
        let ghost orig = self@;
        let n = self.pairs.len();
        let mut i: usize = 0;
        while i < n
            invariant
                i <= n,
                n == self.pairs@.len(),
                self@ == orig,
                orig == old(self)@,
                forall|j: int| 0 <= j < i ==> (#[trigger] orig[j]).0 != key@,
            decreases n - i,
        {
            if self.pairs[i].0 == key {
                let ghost pre_pairs = self.pairs@;
                let old_pair = self.pairs.remove(i);
                self.pairs.insert(i, (old_pair.0, value));
                proof {
                    lemma_assoc_insert_found(orig, (key@, value@), i as int);
                    assert(self.pairs@ =~= pre_pairs.update(
                        i as int,
                        (old_pair.0, value),
                    ));
                    assert forall|j: int| 0 <= j < self@.len() implies self@[j] == assoc_insert(
                        orig,
                        (key@, value@),
                    )[j] by {
                        assert(self@[j] == (self.pairs@[j].0@, self.pairs@[j].1@));
                        if j == i {
                            assert(self.pairs@[j] == (old_pair.0, value));
                        } else {
                            assert(self.pairs@[j] == pre_pairs[j]);
                        }
                        assert(orig[j] == (pre_pairs[j].0@, pre_pairs[j].1@));
                    }
                    assert(self@ =~= assoc_insert(orig, (key@, value@)));
                }
                return ;
            }
            i = i + 1;
        }
        self.pairs.push((key, value));
        proof {
            lemma_assoc_insert_missing(orig, (key@, value@));
            assert(self@ =~= orig.push((key@, value@)));
        }
    }

    /// Look a key up.
    pub fn get(&self, key: &str) -> (r: Option<&String>)
        ensures
            match r {
                Some(v) => assoc(self@, key@) == Some(v@),
                None => assoc(self@, key@) is None,
            },
    {
        let n = self.pairs.len();
        let mut i: usize = 0;
        while i < n
            invariant
                i <= n,
                n == self.pairs@.len(),
                forall|j: int| 0 <= j < i ==> (#[trigger] self@[j]).0 != key@,
            decreases n - i,
        {
            if crate::text::str_eq(self.pairs[i].0.as_str(), key) {
                proof {
                    lemma_assoc_found(self@, key@, i as int);
                }
                return Some(&self.pairs[i].1);
            }
            i = i + 1;
        }
        proof {
            lemma_assoc_none(self@, key@);
        }
        None
    }
}

proof fn lemma_assoc_found(s: Seq<(Seq<char>, Seq<char>)>, k: Seq<char>, i: int)
    requires
        0 <= i < s.len(),
        s[i].0 == k,
        forall|j: int| 0 <= j < i ==> (#[trigger] s[j]).0 != k,
    ensures
        assoc(s, k) == Some(s[i].1),
    decreases i,
{
    if i > 0 {
        let t = s.drop_first();
        assert forall|j: int| 0 <= j < i - 1 implies (#[trigger] t[j]).0 != k by {
            assert(t[j] == s[j + 1]);
        }
        lemma_assoc_found(t, k, i - 1);
    }
}

proof fn lemma_assoc_none(s: Seq<(Seq<char>, Seq<char>)>, k: Seq<char>)
    requires
        forall|j: int| 0 <= j < s.len() ==> (#[trigger] s[j]).0 != k,
    ensures
        assoc(s, k) is None,
    decreases s.len(),
{
    if s.len() > 0 {
        let t = s.drop_first();
        assert forall|j: int| 0 <= j < t.len() implies (#[trigger] t[j]).0 != k by {
            assert(t[j] == s[j + 1]);
        }
        lemma_assoc_none(t, k);
    }
}

proof fn lemma_assoc_insert_found(s: Seq<(Seq<char>, Seq<char>)>, p: (Seq<char>, Seq<char>), i: int)
    requires
        0 <= i < s.len(),
        s[i].0 == p.0,
        forall|j: int| 0 <= j < i ==> (#[trigger] s[j]).0 != p.0,
    ensures
        assoc_insert(s, p) == s.update(i, (s[i].0, p.1)),
    decreases i,
{
    if i == 0 {
        assert(seq![(s[0].0, p.1)] + s.drop_first() =~= s.update(0, (s[0].0, p.1)));
    } else {
        let t = s.drop_first();
        assert forall|j: int| 0 <= j < i - 1 implies (#[trigger] t[j]).0 != p.0 by {
            assert(t[j] == s[j + 1]);
        }
        lemma_assoc_insert_found(t, p, i - 1);
        assert(seq![s[0]] + t.update(i - 1, (t[i - 1].0, p.1)) =~= s.update(i, (s[i].0, p.1)));
    }
}

proof fn lemma_assoc_insert_missing(s: Seq<(Seq<char>, Seq<char>)>, p: (Seq<char>, Seq<char>))
    requires
        forall|j: int| 0 <= j < s.len() ==> (#[trigger] s[j]).0 != p.0,
    ensures
        assoc_insert(s, p) == s.push(p),
    decreases s.len(),
{
    if s.len() == 0 {
        assert(assoc_insert(s, p) =~= s.push(p));
    } else {
        let t = s.drop_first();
        assert forall|j: int| 0 <= j < t.len() implies (#[trigger] t[j]).0 != p.0 by {
            assert(t[j] == s[j + 1]);
        }
        lemma_assoc_insert_missing(t, p);
        assert(seq![s[0]] + t.push(p) =~= s.push(p));
    }
}

} // verus!
