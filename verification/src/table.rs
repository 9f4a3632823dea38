//! A table of names, where a later binding of a name replaces an earlier one.
use vstd::prelude::*;
use crate::text::is_text;

verus! {

/// Bindings from names to values.
pub struct NameTable<V> {
    entries: Vec<(String, V)>,
}

/// The map that a list of bindings makes, later bindings winning.
pub open spec fn bindings_map<V>(s: Seq<(String, V)>) -> Map<Seq<char>, V>
    decreases s.len(),
{
    if s.len() == 0 {
        Map::empty()
    } else {
        bindings_map(s.drop_last()).insert(s.last().0@, s.last().1)
    }
}

impl<V> View for NameTable<V> {
    type V = Map<Seq<char>, V>;

    closed spec fn view(&self) -> Map<Seq<char>, V> {
        bindings_map(self.entries@)
    }
}

proof fn lemma_bindings_tail<V>(s: Seq<(String, V)>, j: int, k: Seq<char>)
    requires
        0 <= j <= s.len(),
        forall|m: int| j <= m < s.len() ==> (#[trigger] s[m]).0@ != k,
    ensures
        bindings_map(s).contains_key(k) == bindings_map(s.take(j)).contains_key(k),
        bindings_map(s).contains_key(k) ==> bindings_map(s)[k] == bindings_map(s.take(j))[k],
    decreases s.len(),
{
    if j == s.len() {
        assert(s.take(j) == s);
    } else {
        let p = s.drop_last();
        assert(s[s.len() - 1].0@ != k);
        assert forall|m: int| j <= m < p.len() implies (#[trigger] p[m]).0@ != k by {
            assert(p[m] == s[m]);
        }
        lemma_bindings_tail(p, j, k);
        assert(p.take(j) == s.take(j));
    }
}

impl<V: Copy> NameTable<V> {
    /// An empty table.
    pub fn new() -> (t: Self)
        ensures
            t@ == Map::<Seq<char>, V>::empty(),
    {
        NameTable { entries: Vec::new() }
    }

    /// The value bound to `name`, if any.
    pub fn get(&self, name: &str) -> (r: Option<V>)
        ensures
            r == (if self@.contains_key(name@) { Some(self@[name@]) } else { None }),
    {
        let mut j = self.entries.len();
        while j > 0
            invariant
                j <= self.entries.len(),
                forall|m: int| j <= m < self.entries@.len() ==> (#[trigger] self.entries@[m]).0@ != name@,
            decreases j,
        {
            if is_text(&self.entries[j - 1].0, name) {
                proof {
                    let s = self.entries@;
                    lemma_bindings_tail(s, j as int, name@);
                    assert(s.take(j as int).drop_last() == s.take(j - 1));
                    assert(s.take(j as int).last() == s[j - 1]);
                }
                return Some(self.entries[j - 1].1);
            }
            j = j - 1;
        }
        proof {
            lemma_bindings_tail(self.entries@, 0, name@);
            assert(self.entries@.take(0).len() == 0);
        }
        None
    }

    /// Whether `name` is bound.
    pub fn contains_key(&self, name: &str) -> (r: bool)
        ensures
            r == self@.contains_key(name@),
    {
        self.get(name).is_some()
    }

    /// Binds `name` to `value`, replacing any earlier binding of it.
    pub fn insert(&mut self, name: String, value: V)
        ensures
            final(self)@ == old(self)@.insert(name@, value),
    {
        self.entries.push((name, value));
        proof {
            assert(self.entries@.drop_last() == old(self).entries@);
        }
    }
}

} // verus!
