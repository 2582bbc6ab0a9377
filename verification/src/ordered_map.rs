//! An insertion-ordered map from names to values.
//!
//! The configuration model depends on insertion order: the position of a
//! breakpoint, modifier or atom value inside its map decides the score of a
//! class name. The map is a vector of pairs with pairwise-distinct keys;
//! looking a key up also yields its position.

use vstd::prelude::*;

use crate::utils::str_eq;

verus! {

/// An insertion-ordered map with `String` keys and pairwise-distinct keys.
pub struct OrderedMap<V> {
    entries: Vec<(String, V)>,
}

/// The position of the first entry of `s` whose key reads `k`.
pub open spec fn find_key<V>(s: Seq<(String, V)>, k: Seq<char>) -> Option<int>
    decreases s.len(),
{
    if s.len() == 0 {
        None
    } else if s[0].0@ == k {
        Some(0int)
    } else {
        match find_key(s.drop_first(), k) {
            Some(i) => Some(i + 1),
            None => None,
        }
    }
}

pub proof fn lemma_find_key<V>(s: Seq<(String, V)>, k: Seq<char>)
    ensures
        match find_key(s, k) {
            Some(i) => 0 <= i < s.len() && s[i].0@ == k && forall|j: int|
                0 <= j < i ==> (#[trigger] s[j]).0@ != k,
            None => forall|j: int| 0 <= j < s.len() ==> (#[trigger] s[j]).0@ != k,
        },
    decreases s.len(),
{
    if s.len() > 0 && s[0].0@ != k {
        lemma_find_key(s.drop_first(), k);
        assert forall|j: int| 1 <= j < s.len() implies s.drop_first()[j - 1] == s[j] by {}
    }
}

/// How appending an entry changes a key search.
pub proof fn lemma_find_key_push<V>(s: Seq<(String, V)>, p: (String, V), k: Seq<char>)
    ensures
        find_key(s.push(p), k) == match find_key(s, k) {
            Some(i) => Some(i),
            None => if p.0@ == k {
                Some(s.len() as int)
            } else {
                None
            },
        },
    decreases s.len(),
{
    if s.len() == 0 {
        assert(s.push(p)[0] == p);
        assert(s.push(p).drop_first() =~= Seq::<(String, V)>::empty());
        if p.0@ == k {
            assert(find_key(s.push(p), k) == Some(0int));
        } else {
            assert(find_key(s.push(p), k) == find_key(Seq::<(String, V)>::empty(), k));
        }
    } else {
        lemma_find_key_push(s.drop_first(), p, k);
        assert(s.push(p).drop_first() =~= s.drop_first().push(p));
        assert(s.push(p)[0] == s[0]);
        if s[0].0@ == k {
            assert(find_key(s.push(p), k) == Some(0int));
            assert(find_key(s, k) == Some(0int));
        } else {
            assert(find_key(s.push(p), k) == match find_key(s.drop_first().push(p), k) {
                Some(i) => Some(i + 1),
                None => None,
            });
            assert(find_key(s, k) == match find_key(s.drop_first(), k) {
                Some(i) => Some(i + 1),
                None => None,
            });
        }
    }
}

/// The key views of an entry sequence.
pub open spec fn key_views<V>(s: Seq<(String, V)>) -> Seq<Seq<char>> {
    s.map_values(|p: (String, V)| p.0@)
}

/// How appending an entry changes the key views.
pub proof fn lemma_key_views_push<V>(pre: Seq<(String, V)>, p: (String, V))
    ensures
        key_views(pre.push(p)) == key_views(pre).push(p.0@),
{
    assert(key_views(pre.push(p)) =~= key_views(pre).push(p.0@));
}

/// One insertion into a map whose keys are a deduplicated name sequence:
/// the keys become the deduplication of the names extended by the new key,
/// and every entry either kept its place and key or carries the new value
/// under the new key.
pub proof fn lemma_insert_dedup_step<V>(
    pre: Seq<(String, V)>,
    post: Seq<(String, V)>,
    named: Seq<Seq<char>>,
    key: String,
    v: V,
)
    requires
        key_views(pre) == crate::utils::dedup_seqs(named),
        match find_key(pre, key@) {
            Some(i) => post == pre.update(i, (pre[i].0, v)),
            None => post == pre.push((key, v)),
        },
    ensures
        key_views(post) == crate::utils::dedup_seqs(named.push(key@)),
        forall|w: int|
            0 <= w < post.len() ==> ((0 <= w < pre.len() && #[trigger] post[w] == pre[w]
                && post[w].0@ != key@) || (post[w].0@ == key@ && post[w].1 == v)),
{
    crate::utils::lemma_dedup_seqs_props(named);
    lemma_find_key(pre, key@);
    assert(named.push(key@).drop_last() =~= named);
    match find_key(pre, key@) {
        Some(i) => {
            assert(key_views(pre).contains(key@)) by {
                assert(key_views(pre)[i] == key@);
            }
            assert(crate::utils::dedup_seqs(named).contains(key@));
            assert(key_views(post) =~= key_views(pre));
            assert forall|w: int| 0 <= w < post.len() implies ((0 <= w < pre.len()
                && #[trigger] post[w] == pre[w] && post[w].0@ != key@) || (post[w].0@ == key@
                && post[w].1 == v)) by {
                if w == i {
                    assert(post[w].0 == pre[i].0);
                } else {
                    assert(post[w] == pre[w]);
                    if post[w].0@ == key@ {
                        assert(key_views(pre)[w] == key@);
                        assert(key_views(pre)[i] == key@);
                        if w < i {
                            assert(pre[w].0@ != key@);
                        } else {
                            assert(false) by {
                                assert(pre[i].0@ == key@ && pre[w].0@ == key@);
                                assert(crate::utils::dedup_seqs(named)[w]
                                    == crate::utils::dedup_seqs(named)[i]);
                            }
                        }
                    }
                }
            }
        },
        None => {
            assert(!key_views(pre).contains(key@)) by {
                if key_views(pre).contains(key@) {
                    let w = choose|w: int| 0 <= w < pre.len() && key_views(pre)[w] == key@;
                }
            }
            assert(!crate::utils::dedup_seqs(named).contains(key@));
            assert(key_views(post) =~= key_views(pre).push(key@));
            assert forall|w: int| 0 <= w < post.len() implies ((0 <= w < pre.len()
                && #[trigger] post[w] == pre[w] && post[w].0@ != key@) || (post[w].0@ == key@
                && post[w].1 == v)) by {
                if w < pre.len() {
                    assert(post[w] == pre[w]);
                    assert(pre[w].0@ != key@);
                } else {
                    assert(post[w] == (key, v));
                }
            }
        },
    }
}

impl<V> OrderedMap<V> {
    /// The entries, in insertion order.
    pub closed spec fn view(&self) -> Seq<(String, V)> {
        self.entries@
    }

    /// All keys are pairwise distinct.
    pub open spec fn wf(&self) -> bool {
        forall|i: int, j: int|
            0 <= i < j < self@.len() ==> (#[trigger] self@[i]).0@ != (#[trigger] self@[j]).0@
    }

    pub open spec fn spec_contains_key(&self, k: Seq<char>) -> bool {
        find_key(self@, k) is Some
    }

    /// The position of key `k`, when present.
    pub open spec fn spec_position(&self, k: Seq<char>) -> int {
        find_key(self@, k)->Some_0
    }

    /// The value stored under key `k`, when present.
    pub open spec fn spec_value(&self, k: Seq<char>) -> V {
        self@[self.spec_position(k)].1
    }

    pub fn new() -> (r: Self)
        ensures
            r@ == Seq::<(String, V)>::empty(),
            r.wf(),
    {
        OrderedMap { entries: Vec::new() }
    }

    pub fn len(&self) -> (r: usize)
        ensures
            r == self@.len(),
    {
        self.entries.len()
    }

    pub fn is_empty(&self) -> (r: bool)
        ensures
            r == (self@.len() == 0),
    {
        self.entries.len() == 0
    }

    /// The key of the entry at position `i`.
    pub fn key_at(&self, i: usize) -> (r: &String)
        requires
            i < self@.len(),
        ensures
            r == self@[i as int].0,
    {
        &self.entries[i].0
    }

    /// The value of the entry at position `i`.
    pub fn value_at(&self, i: usize) -> (r: &V)
        requires
            i < self@.len(),
        ensures
            r == self@[i as int].1,
    {
        &self.entries[i].1
    }

    /// Look a key up; the position and the value come back together.
    pub fn get_full(&self, key: &str) -> (r: Option<(usize, &V)>)
        ensures
            match r {
                Some(p) => find_key(self@, key@) == Some(p.0 as int) && p.1 == self@[p.0 as int].1
                    && p.0 < self@.len() && self@[p.0 as int].0@ == key@,
                None => find_key(self@, key@) is None,
            },
    {
        proof {
            lemma_find_key(self@, key@);
        }
        let mut i: usize = 0;
        while i < self.entries.len()
            invariant
                0 <= i <= self@.len(),
                forall|j: int| 0 <= j < i ==> (#[trigger] self@[j]).0@ != key@,
        decreases self@.len() - i,
        {
            if str_eq(self.entries[i].0.as_str(), key) {
                proof {
                    lemma_find_key(self@, key@);
                    match find_key(self@, key@) {
                        Some(p) => {
                            assert(p == i);
                        },
                        None => {
                            assert(self@[i as int].0@ != key@);
                        },
                    }
                }
                return Some((i, &self.entries[i].1));
            }
            i = i + 1;
        }
        proof {
            lemma_find_key(self@, key@);
        }
        None
    }

    /// Look a key up.
    pub fn get(&self, key: &str) -> (r: Option<&V>)
        ensures
            match r {
                Some(v) => self.spec_contains_key(key@) && v == self.spec_value(key@),
                None => !self.spec_contains_key(key@),
            },
    {
        match self.get_full(key) {
            Some(p) => Some(p.1),
            None => None,
        }
    }

    /// The position of a key.
    pub fn position(&self, key: &str) -> (r: Option<usize>)
        ensures
            match r {
                Some(i) => find_key(self@, key@) == Some(i as int),
                None => find_key(self@, key@) is None,
            },
    {
        match self.get_full(key) {
            Some(p) => Some(p.0),
            None => None,
        }
    }

    pub fn contains_key(&self, key: &str) -> (r: bool)
        ensures
            r == self.spec_contains_key(key@),
    {
        match self.get_full(key) {
            Some(_) => true,
            None => false,
        }
    }

    /// Append an entry without looking for its key; the callers that copy a
    /// map entry for entry keep well-formedness through the copied views.
    pub(crate) fn push_entry(&mut self, key: String, value: V)
        ensures
            final(self)@ == old(self)@.push((key, value)),
    {
        self.entries.push((key, value));
    }

    /// Insert a value. A fresh key goes to the end; an existing key keeps
    /// its place and only its value changes.
    pub fn insert(&mut self, key: String, value: V)
        ensures
            match find_key(old(self)@, key@) {
                Some(i) => final(self)@ == old(self)@.update(i, (old(self)@[i].0, value)),
                None => final(self)@ == old(self)@.push((key, value)),
            },
            old(self).wf() ==> final(self).wf(),
    {
        proof {
            lemma_find_key(self@, key@);
        }
        let found = match self.get_full(key.as_str()) {
            Some(p) => Some(p.0),
            None => None,
        };
        match found {
            Some(i) => {
                let old_pair = self.entries.remove(i);
                self.entries.insert(i, (old_pair.0, value));
                proof {
                    assert(self@ =~= old(self)@.update(i as int, (old(self)@[i as int].0, value)));
                    if old(self).wf() {
                        assert(self.wf());
                    }
                }
            },
            None => {
                self.entries.push((key, value));
                proof {
                    lemma_find_key(old(self)@, key@);
                    if old(self).wf() {
                        assert forall|a: int, b: int| 0 <= a < b < self@.len() implies (
                        #[trigger] self@[a]).0@ != (#[trigger] self@[b]).0@ by {
                            if b == self@.len() - 1 {
                                assert(self@[a] == old(self)@[a]);
                            }
                        }
                    }
                }
            },
        }
    }
}

} // verus!
