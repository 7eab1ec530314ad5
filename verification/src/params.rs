//! Command parameters: an ordered map from string keys to string values
//! with unique keys. Insertion replaces the value of an existing key in
//! place, so the order of first insertion is kept; decoding uses this to
//! make the last occurrence of a repeated wire key win.

use vstd::prelude::*;

verus! {

/// The keys of a pair sequence, in order.
pub open spec fn keys_of(ps: Seq<(Seq<char>, Seq<char>)>) -> Seq<Seq<char>> {
    ps.map_values(|p: (Seq<char>, Seq<char>)| p.0)
}

/// Whether some pair of `ps` has key `k`.
pub open spec fn has_key(ps: Seq<(Seq<char>, Seq<char>)>, k: Seq<char>) -> bool {
    exists|i: int| 0 <= i < ps.len() && ps[i].0 == k
}

/// Whether no two pairs of `ps` share a key.
pub open spec fn unique_keys(ps: Seq<(Seq<char>, Seq<char>)>) -> bool {
    forall|i: int, j: int| 0 <= i < j < ps.len() ==> ps[i].0 != ps[j].0
}

/// The value of the first pair of `ps` with key `k`, if any.
pub open spec fn spec_lookup(ps: Seq<(Seq<char>, Seq<char>)>, k: Seq<char>) -> Option<Seq<char>>
    decreases ps.len(),
{
    if ps.len() == 0 {
        None
    } else if ps[0].0 == k {
        Some(ps[0].1)
    } else {
        spec_lookup(ps.drop_first(), k)
    }
}

/// `ps` with key `k` bound to `v`: the first pair with key `k` is replaced
/// in place; if there is none, `(k, v)` is appended.
pub open spec fn spec_update(
    ps: Seq<(Seq<char>, Seq<char>)>,
    k: Seq<char>,
    v: Seq<char>,
) -> Seq<(Seq<char>, Seq<char>)>
    decreases ps.len(),
{
    if ps.len() == 0 {
        seq![(k, v)]
    } else if ps[0].0 == k {
        seq![(k, v)] + ps.drop_first()
    } else {
        seq![ps[0]] + spec_update(ps.drop_first(), k, v)
    }
}

/// A command's parameter map: ordered `(key, value)` pairs, keys unique.
pub struct Params {
    pairs: Vec<(String, String)>,
}

impl View for Params {
    type V = Seq<(Seq<char>, Seq<char>)>;

    closed spec fn view(&self) -> Seq<(Seq<char>, Seq<char>)> {
        Seq::new(self.pairs@.len(), |i: int| (self.pairs@[i].0@, self.pairs@[i].1@))
    }
}

impl Params {
    /// No two entries share a key.
    pub open spec fn wf(&self) -> bool {
        unique_keys(self@)
    }

    /// An empty parameter map.
    pub fn new() -> (r: Params)
        ensures
            r@ == Seq::<(Seq<char>, Seq<char>)>::empty(),
            r.wf(),
    {
        let r = Params { pairs: Vec::new() };
        proof {
            assert(r@ =~= Seq::<(Seq<char>, Seq<char>)>::empty());
        }
        r
    }

    /// The number of entries.
    pub fn len(&self) -> (r: usize)
        ensures
            r == self@.len(),
    {
        self.pairs.len()
    }

    /// The key of the entry at position `i`.
    pub fn key_at(&self, i: usize) -> (r: &String)
        requires
            i < self@.len(),
        ensures
            r@ == self@[i as int].0,
    {
        &self.pairs[i].0
    }

    /// The value of the entry at position `i`.
    pub fn value_at(&self, i: usize) -> (r: &String)
        requires
            i < self@.len(),
        ensures
            r@ == self@[i as int].1,
    {
        &self.pairs[i].1
    }

    /// Binds `k` to `v`: replaces the value of an existing entry with key
    /// `k` in place, else appends a new entry.
    pub fn insert(&mut self, k: String, v: String)
        requires
            old(self).wf(),
        ensures
            final(self).wf(),
            final(self)@ == spec_update(old(self)@, k@, v@),
    {
        let mut i: usize = 0;
        while i < self.pairs.len()
            invariant
                self@ == old(self)@,
                unique_keys(old(self)@),
                i <= old(self)@.len(),
                forall|j: int| 0 <= j < i ==> old(self)@[j].0 != k@,
            decreases self.pairs.len() - i,
        {
            if self.pairs[i].0 == k {
                self.pairs.remove(i);
                self.pairs.insert(i, (k, v));
                proof {
                    assert(self@ =~= old(self)@.update(i as int, (k@, v@)));
                    lemma_update_at(old(self)@, i as int, k@, v@);
                }
                return ;
            }
            i += 1;
        }
        self.pairs.push((k, v));
        proof {
            assert(self@ =~= old(self)@.push((k@, v@)));
            lemma_update_absent(old(self)@, k@, v@);
        }
    }

    /// The value bound to `k`, if any.
    pub fn get(&self, k: &String) -> (r: Option<&String>)
        ensures
            match r {
                Some(v) => spec_lookup(self@, k@) == Some(v@),
                None => spec_lookup(self@, k@) is None,
            },
    {
        let mut i: usize = 0;
        while i < self.pairs.len()
            invariant
                i <= self@.len(),
                forall|j: int| 0 <= j < i ==> self@[j].0 != k@,
            decreases self.pairs.len() - i,
        {
            if self.pairs[i].0 == *k {
                proof {
                    lemma_lookup_at(self@, i as int, k@);
                }
                return Some(&self.pairs[i].1);
            }
            i += 1;
        }
        proof {
            lemma_lookup_absent(self@, k@);
        }
        None
    }

    /// Whether some entry has key `k`.
    pub fn contains_key(&self, k: &String) -> (r: bool)
        ensures
            r == has_key(self@, k@),
    {
        match self.get(k) {
            Some(_) => {
                proof {
                    lemma_lookup_some_iff_has_key(self@, k@);
                }
                true
            },
            None => {
                proof {
                    lemma_lookup_some_iff_has_key(self@, k@);
                }
                false
            },
        }
    }
}

impl Clone for Params {
    /// A clone has the same entries.
    fn clone(&self) -> (r: Self)
        ensures
            r@ == self@,
    {
        let mut pairs: Vec<(String, String)> = Vec::new();
        let mut i: usize = 0;
        while i < self.pairs.len()
            invariant
                i <= self@.len(),
                pairs@.len() == i,
                forall|j: int| 0 <= j < i ==> (pairs@[j].0@, pairs@[j].1@) == self@[j],
            decreases self.pairs.len() - i,
        {
            pairs.push((self.pairs[i].0.clone(), self.pairs[i].1.clone()));
            i += 1;
        }
        let r = Params { pairs };
        proof {
            assert(r@ =~= self@);
        }
        r
    }
}

/// Replacing the first pair with key `k` in place is what `spec_update`
/// yields when `k` first occurs at position `i`.
proof fn lemma_update_at(ps: Seq<(Seq<char>, Seq<char>)>, i: int, k: Seq<char>, v: Seq<char>)
    requires
        0 <= i < ps.len(),
        ps[i].0 == k,
        forall|j: int| 0 <= j < i ==> ps[j].0 != k,
        unique_keys(ps),
    ensures
        spec_update(ps, k, v) == ps.update(i, (k, v)),
        unique_keys(ps.update(i, (k, v))),
    decreases ps.len(),
{
    if i == 0 {
        assert(spec_update(ps, k, v) =~= ps.update(0, (k, v)));
    } else {
        assert(unique_keys(ps.drop_first()));
        lemma_update_at(ps.drop_first(), i - 1, k, v);
        assert(spec_update(ps, k, v) =~= ps.update(i, (k, v)));
    }
    assert forall|a: int, b: int| 0 <= a < b < ps.len() implies ps.update(i, (k, v))[a].0 != ps.update(
        i,
        (k, v),
    )[b].0 by {
        assert(ps[a].0 != ps[b].0);
    }
}

/// Appending `(k, v)` is what `spec_update` yields when no pair has key `k`.
pub proof fn lemma_update_absent(ps: Seq<(Seq<char>, Seq<char>)>, k: Seq<char>, v: Seq<char>)
    requires
        forall|j: int| 0 <= j < ps.len() ==> ps[j].0 != k,
        unique_keys(ps),
    ensures
        spec_update(ps, k, v) == ps.push((k, v)),
        unique_keys(ps.push((k, v))),
    decreases ps.len(),
{
    if ps.len() == 0 {
        assert(spec_update(ps, k, v) =~= ps.push((k, v)));
    } else {
        assert(unique_keys(ps.drop_first()));
        lemma_update_absent(ps.drop_first(), k, v);
        assert(spec_update(ps, k, v) =~= ps.push((k, v)));
    }
}

/// `spec_lookup` returns the value at the first position holding `k`.
proof fn lemma_lookup_at(ps: Seq<(Seq<char>, Seq<char>)>, i: int, k: Seq<char>)
    requires
        0 <= i < ps.len(),
        ps[i].0 == k,
        forall|j: int| 0 <= j < i ==> ps[j].0 != k,
    ensures
        spec_lookup(ps, k) == Some(ps[i].1),
    decreases ps.len(),
{
    if i > 0 {
        lemma_lookup_at(ps.drop_first(), i - 1, k);
    }
}

/// `spec_lookup` misses exactly when no pair holds `k`.
proof fn lemma_lookup_absent(ps: Seq<(Seq<char>, Seq<char>)>, k: Seq<char>)
    requires
        forall|j: int| 0 <= j < ps.len() ==> ps[j].0 != k,
    ensures
        spec_lookup(ps, k) is None,
    decreases ps.len(),
{
    if ps.len() > 0 {
        lemma_lookup_absent(ps.drop_first(), k);
    }
}

/// After an update, the key is present and looks up the new value.
pub proof fn lemma_update_binds(ps: Seq<(Seq<char>, Seq<char>)>, k: Seq<char>, v: Seq<char>)
    ensures
        spec_lookup(spec_update(ps, k, v), k) == Some(v),
        has_key(spec_update(ps, k, v), k),
    decreases ps.len(),
{
    let u = spec_update(ps, k, v);
    if ps.len() == 0 {
        assert(u[0] == (k, v));
    } else if ps[0].0 == k {
        assert(u[0] == (k, v));
    } else {
        lemma_update_binds(ps.drop_first(), k, v);
        assert(u[0] == ps[0]);
        assert(u.drop_first() =~= spec_update(ps.drop_first(), k, v));
        let i = choose|i: int|
            0 <= i < u.drop_first().len() && #[trigger] u.drop_first()[i].0 == k;
        assert(u[i + 1].0 == k);
    }
}

/// A key is found by `spec_lookup` exactly when some pair holds it.
pub proof fn lemma_lookup_some_iff_has_key(ps: Seq<(Seq<char>, Seq<char>)>, k: Seq<char>)
    ensures
        (spec_lookup(ps, k) is Some) == has_key(ps, k),
    decreases ps.len(),
{
    if ps.len() > 0 && ps[0].0 != k {
        lemma_lookup_some_iff_has_key(ps.drop_first(), k);
        if has_key(ps.drop_first(), k) {
            let i = choose|i: int| 0 <= i < ps.drop_first().len() && ps.drop_first()[i].0 == k;
            assert(ps[i + 1].0 == k);
        }
        if has_key(ps, k) {
            let i = choose|i: int| 0 <= i < ps.len() && ps[i].0 == k;
            assert(ps.drop_first()[i - 1].0 == k);
        }
    }
}

} // verus!
