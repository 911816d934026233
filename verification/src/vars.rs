//! A mapping from textual identifiers to values, shared by all dialects.
//!
//! The store is an append-only list of `(key, value)` pairs; a later pair for
//! the same key shadows an earlier one. Its view is the `Map` obtained by
//! folding the pairs in order.

use vstd::prelude::*;
use crate::text::eq_chars;

verus! {

/// The map described by a pair list, later pairs shadowing earlier ones.
pub open spec fn entries_view<V: DeepView>(s: Seq<(Vec<char>, V)>) -> Map<Seq<char>, V::V>
    decreases s.len(),
{
    if s.len() == 0 {
        Map::empty()
    } else {
        entries_view(s.drop_last()).insert(s.last().0.deep_view(), s.last().1.deep_view())
    }
}

/// A value found at the last matching position is the one the map holds.
proof fn lemma_entries_view_found<V: DeepView>(s: Seq<(Vec<char>, V)>, k: Seq<char>, j: int)
    requires
        0 <= j < s.len(),
        s[j].0.deep_view() == k,
        forall|m: int| j < m < s.len() ==> s[m].0.deep_view() != k,
    ensures
        entries_view(s).contains_key(k),
        entries_view(s)[k] == s[j].1.deep_view(),
    decreases s.len(),
{
    if j == s.len() - 1 {
    } else {
        lemma_entries_view_found(s.drop_last(), k, j);
    }
}

/// With no matching pair, the map has no such key.
proof fn lemma_entries_view_absent<V: DeepView>(s: Seq<(Vec<char>, V)>, k: Seq<char>)
    requires
        forall|m: int| 0 <= m < s.len() ==> s[m].0.deep_view() != k,
    ensures
        !entries_view(s).contains_key(k),
    decreases s.len(),
{
    if s.len() > 0 {
        lemma_entries_view_absent(s.drop_last(), k);
    }
}

/// The identifier-to-value store.
pub struct StrMap<V> {
    entries: Vec<(Vec<char>, V)>,
}

impl<V: DeepView> View for StrMap<V> {
    type V = Map<Seq<char>, V::V>;

    closed spec fn view(&self) -> Map<Seq<char>, V::V> {
        entries_view(self.entries@)
    }
}

impl<V: DeepView> StrMap<V> {
    pub fn new() -> (r: Self)
        ensures
            r@ == Map::<Seq<char>, V::V>::empty(),
    {
        StrMap { entries: Vec::new() }
    }

    /// Binds `k` to `v`, shadowing any earlier binding.
    pub fn set(&mut self, k: Vec<char>, v: V)
        ensures
            final(self)@ == old(self)@.insert(k.deep_view(), v.deep_view()),
    {
        let ghost kd = k.deep_view();
        let ghost vd = v.deep_view();
        self.entries.push((k, v));
        proof {
            assert(self.entries@.drop_last() =~= old(self).entries@);
            assert(self.entries@.last().0.deep_view() == kd);
            assert(self.entries@.last().1.deep_view() == vd);
        }
    }

    /// The current binding of `k`, if any.
    pub fn get(&self, k: &Vec<char>) -> (r: Option<&V>)
        ensures
            match r {
                Some(v) => self@.contains_key(k.deep_view()) && self@[k.deep_view()]
                    == v.deep_view(),
                None => !self@.contains_key(k.deep_view()),
            },
    {
        let ghost kd = k.deep_view();
        proof {
            assert(kd =~= k@);
        }
        let mut j: usize = self.entries.len();
        while j > 0
            invariant
                j <= self.entries@.len(),
                kd == k@,
                forall|m: int| j <= m < self.entries@.len() ==> self.entries@[m].0.deep_view()
                    != kd,
            decreases j,
        {
            j = j - 1;
            if eq_chars(&self.entries[j].0, k) {
                proof {
                    assert(self.entries@[j as int].0.deep_view() =~= self.entries@[j as int].0@);
                    lemma_entries_view_found(self.entries@, kd, j as int);
                }
                return Some(&self.entries[j].1);
            }
            proof {
                assert(self.entries@[j as int].0.deep_view() =~= self.entries@[j as int].0@);
            }
        }
        proof {
            lemma_entries_view_absent(self.entries@, kd);
        }
        None
    }

    pub fn contains_key(&self, k: &Vec<char>) -> (r: bool)
        ensures
            r == self@.contains_key(k.deep_view()),
    {
        match self.get(k) {
            Some(_) => true,
            None => false,
        }
    }
}

} // verus!
