//! A table of values keyed by text, each key at most once, in the order in
//! which keys were first added.
use vstd::prelude::*;
use crate::text::str_eq;

verus! {

/// The map that the entries `s` hold: a later entry of a key overrides an
/// earlier one.
pub open spec fn entries_map<V: View>(s: Seq<(String, V)>) -> Map<Seq<char>, V::V>
    decreases s.len(),
{
    if s.len() == 0 {
        Map::empty()
    } else {
        entries_map(s.drop_last()).insert(s.last().0@, s.last().1@)
    }
}

/// No key occurs twice among `s`.
pub open spec fn keys_distinct<V>(s: Seq<(String, V)>) -> bool {
    forall|i: int, j: int| 0 <= i < j < s.len() ==> (#[trigger] s[i]).0@ != (#[trigger] s[j]).0@
}

/// Text-keyed entries, each key once.
pub struct KeyedEntries<V> {
    entries: Vec<(String, V)>,
}

impl<V: View> View for KeyedEntries<V> {
    type V = Map<Seq<char>, V::V>;

    closed spec fn view(&self) -> Map<Seq<char>, V::V> {
        entries_map(self.entries@)
    }
}

proof fn lemma_entries_map_has<V: View>(s: Seq<(String, V)>, i: int)
    requires
        keys_distinct(s),
        0 <= i < s.len(),
    ensures
        entries_map(s).contains_key(s[i].0@),
        entries_map(s)[s[i].0@] == s[i].1@,
    decreases s.len(),
{
    if i < s.len() - 1 {
        assert(s.drop_last()[i] == s[i]);
        lemma_entries_map_has(s.drop_last(), i);
        assert(s[i].0@ != s[s.len() - 1].0@);
    }
}

proof fn lemma_entries_map_lacks<V: View>(s: Seq<(String, V)>, k: Seq<char>)
    requires
        forall|i: int| 0 <= i < s.len() ==> (#[trigger] s[i]).0@ != k,
    ensures
        !entries_map(s).contains_key(k),
    decreases s.len(),
{
    if s.len() > 0 {
        assert forall|i: int| 0 <= i < s.drop_last().len() implies (#[trigger] s.drop_last()[i]).0@
            != k by {
            assert(s.drop_last()[i] == s[i]);
        }
        lemma_entries_map_lacks(s.drop_last(), k);
        assert(s[s.len() - 1] == s.last());
    }
}

proof fn lemma_entries_map_update<V: View>(s: Seq<(String, V)>, i: int, e: (String, V))
    requires
        keys_distinct(s),
        0 <= i < s.len(),
        e.0@ == s[i].0@,
    ensures
        entries_map(s.update(i, e)) == entries_map(s).insert(e.0@, e.1@),
    decreases s.len(),
{
    let t = s.update(i, e);
    if i == s.len() - 1 {
        assert(t.drop_last() == s.drop_last());
        assert(entries_map(t) =~= entries_map(s).insert(e.0@, e.1@));
    } else {
        assert(t.drop_last() == s.drop_last().update(i, e));
        assert forall|a: int, b: int| 0 <= a < b < s.drop_last().len() implies (
        #[trigger] s.drop_last()[a]).0@ != (#[trigger] s.drop_last()[b]).0@ by {
            assert(s.drop_last()[a] == s[a] && s.drop_last()[b] == s[b]);
        }
        lemma_entries_map_update(s.drop_last(), i, e);
        assert(s[i].0@ != s[s.len() - 1].0@);
        assert(entries_map(t) =~= entries_map(s).insert(e.0@, e.1@));
    }
}

impl<V> KeyedEntries<V> {
    /// No key twice.
    #[verifier::type_invariant]
    spec fn keys_unique(self) -> bool {
        keys_distinct(self.entries@)
    }
}

impl<V: View> KeyedEntries<V> {
    /// The entries, in the order in which their keys were first added.
    pub closed spec fn pairs(&self) -> Seq<(String, V)> {
        self.entries@
    }

    /// No entries.
    pub fn new() -> (r: Self)
        ensures
            r@ == Map::<Seq<char>, V::V>::empty(),
            r.pairs().len() == 0,
    {
        KeyedEntries { entries: Vec::new() }
    }

    /// Sets the value of `key`, replacing the value it had.
    pub fn insert(&mut self, key: String, value: V)
        ensures
            final(self)@ == old(self)@.insert(key@, value@),
    {
        proof {
            use_type_invariant(&*self);
        }
        let mut es: Vec<(String, V)> = Vec::new();
        std::mem::swap(&mut es, &mut self.entries);
        let ghost s = es@;
        let ghost k = key@;
        let ghost v = value@;
        let mut i: usize = 0;
        let mut found = false;
        while i < es.len()
            invariant_except_break
                !found,
            invariant
                i <= es.len(),
                es@ == s,
                keys_distinct(s),
                k == key@,
                forall|j: int| 0 <= j < i ==> (#[trigger] s[j]).0@ != k,
            ensures
                es@ == s,
                found ==> i < s.len() && s[i as int].0@ == k,
                !found ==> forall|j: int| 0 <= j < s.len() ==> (#[trigger] s[j]).0@ != k,
            decreases es.len() - i,
        {
            if str_eq(es[i].0.as_str(), key.as_str()) {
                found = true;
                break;
            }
            i = i + 1;
        }
        if found {
            let ghost e = (key, value);
            proof {
                lemma_entries_map_update(s, i as int, e);
            }
            es.set(i, (key, value));
            assert(es@ == s.update(i as int, e));
            assert(keys_distinct(es@)) by {
                assert forall|a: int, b: int|
                    0 <= a < b < es@.len() implies (#[trigger] es@[a]).0@ != (
                #[trigger] es@[b]).0@ by {
                    assert(es@[a].0@ == s[a].0@);
                    assert(es@[b].0@ == s[b].0@);
                }
            }
        } else {
            es.push((key, value));
            assert(es@.drop_last() == s);
            assert(keys_distinct(es@)) by {
                assert forall|a: int, b: int|
                    0 <= a < b < es@.len() implies (#[trigger] es@[a]).0@ != (
                #[trigger] es@[b]).0@ by {
                    if b == s.len() {
                        assert(es@[a] == s[a]);
                    } else {
                        assert(es@[a] == s[a] && es@[b] == s[b]);
                    }
                }
            }
        }
        self.entries = es;
    }

    /// The value of `key`, if any.
    pub fn get(&self, key: &str) -> (r: Option<&V>)
        ensures
            r is Some <==> self@.contains_key(key@),
            r matches Some(v) ==> self@[key@] == v@,
    {
        proof {
            use_type_invariant(self);
        }
        let mut i: usize = 0;
        while i < self.entries.len()
            invariant
                i <= self.entries.len(),
                keys_distinct(self.entries@),
                forall|j: int| 0 <= j < i ==> (#[trigger] self.entries@[j]).0@ != key@,
            decreases self.entries.len() - i,
        {
            if str_eq(self.entries[i].0.as_str(), key) {
                proof {
                    lemma_entries_map_has(self.entries@, i as int);
                }
                return Some(&self.entries[i].1);
            }
            i = i + 1;
        }
        proof {
            lemma_entries_map_lacks(self.entries@, key@);
        }
        None
    }

    /// The entries, in the order in which their keys were first added.
    pub fn entries(&self) -> (r: &Vec<(String, V)>)
        ensures
            r@ == self.pairs(),
            entries_map(r@) == self@,
            keys_distinct(r@),
    {
        proof {
            use_type_invariant(self);
        }
        &self.entries
    }
}

} // verus!
