//! A map from names to values, kept as a list of bindings where a later
//! binding of a name hides the earlier ones.
use vstd::prelude::*;

verus! {

/// The map that a list of bindings denotes: each `(name, Some(v))` binds the
/// name to `v`, each `(name, None)` unbinds it, and later entries win.
pub open spec fn bindings_map<V>(s: Seq<(String, Option<V>)>) -> Map<Seq<char>, V>
    decreases s.len(),
{
    if s.len() == 0 {
        Map::empty()
    } else {
        let rest = bindings_map(s.drop_last());
        match s.last().1 {
            Some(v) => rest.insert(s.last().0@, v),
            None => rest.remove(s.last().0@),
        }
    }
}

/// Names bound to values.
pub struct StrMap<V> {
    pub entries: Vec<(String, Option<V>)>,
}

impl<V> View for StrMap<V> {
    type V = Map<Seq<char>, V>;

    open spec fn view(&self) -> Map<Seq<char>, V> {
        bindings_map(self.entries@)
    }
}

/// A name that no entry from index `i` on mentions keeps its meaning when
/// those entries are dropped.
proof fn lemma_suffix_irrelevant<V>(s: Seq<(String, Option<V>)>, i: int, k: Seq<char>)
    requires
        0 <= i <= s.len(),
        forall|j: int| i <= j < s.len() ==> (#[trigger] s[j]).0@ != k,
    ensures
        bindings_map(s).contains_key(k) == bindings_map(s.take(i)).contains_key(k),
        bindings_map(s).contains_key(k) ==> bindings_map(s)[k] == bindings_map(s.take(i))[k],
    decreases s.len() - i,
{
    if i < s.len() {
        assert(s.drop_last().take(i) =~= s.take(i));
        lemma_suffix_irrelevant(s.drop_last(), i, k);
        assert(s[s.len() - 1] == s.last());
    } else {
        assert(s.take(i) =~= s);
    }
}

impl<V> StrMap<V> {
    /// No bindings.
    pub fn new() -> (r: Self)
        ensures
            r@ == Map::<Seq<char>, V>::empty(),
    {
        StrMap { entries: Vec::new() }
    }

    /// Binds `k` to `v`, hiding any earlier binding of `k`.
    pub fn insert(&mut self, k: String, v: V)
        ensures
            final(self)@ == old(self)@.insert(k@, v),
    {
        self.entries.push((k, Some(v)));
        proof {
            assert(self.entries@.drop_last() =~= old(self).entries@);
        }
    }

    /// Removes the binding of `k`.
    pub fn remove(&mut self, k: String)
        ensures
            final(self)@ == old(self)@.remove(k@),
    {
        self.entries.push((k, None));
        proof {
            assert(self.entries@.drop_last() =~= old(self).entries@);
        }
    }

    /// The value bound to `k`, if any.
    pub fn get(&self, k: &str) -> (r: Option<&V>)
        ensures
            r is Some <==> self@.contains_key(k@),
            r matches Some(v) ==> *v == self@[k@],
    {
        let mut i = self.entries.len();
        while i > 0
            invariant
                i <= self.entries.len(),
                forall|j: int| i <= j < self.entries.len() ==> (#[trigger] self.entries@[j]).0@ != k@,
            decreases i,
        {
            let (name, value) = &self.entries[i - 1];
            if crate::text::str_eq(name.as_str(), k) {
                proof {
                    let s = self.entries@;
                    lemma_suffix_irrelevant(s, i as int, k@);
                    assert(s.take(i as int).drop_last() =~= s.take(i - 1));
                    assert(s.take(i as int).last() == s[i - 1]);
                }
                return match value {
                    Some(v) => Some(v),
                    None => None,
                };
            }
            i = i - 1;
        }
        proof {
            lemma_suffix_irrelevant(self.entries@, 0, k@);
            assert(self.entries@.take(0) =~= Seq::<(String, Option<V>)>::empty());
        }
        None
    }
}

impl<V: Copy> StrMap<V> {
    /// A copy of the bindings.
    pub fn copy(&self) -> (r: Self)
        ensures
            r@ == self@,
    {
        let mut entries: Vec<(String, Option<V>)> = Vec::new();
        let mut i: usize = 0;
        while i < self.entries.len()
            invariant
                i <= self.entries.len(),
                entries@ =~= self.entries@.take(i as int),
            decreases self.entries.len() - i,
        {
            let name = self.entries[i].0.clone();
            let value = self.entries[i].1;
            entries.push((name, value));
            i = i + 1;
        }
        proof {
            assert(self.entries@.take(self.entries.len() as int) =~= self.entries@);
        }
        StrMap { entries }
    }
}

} // verus!
