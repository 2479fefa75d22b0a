//! Maps from small integer identities.

use vstd::prelude::*;

verus! {

/// A map from identities to values.
pub struct IdMap<V> {
    entries: Vec<(usize, V)>,
}

/// The map that a list of entries with different keys stands for.
spec fn map_of<V>(s: Seq<(usize, V)>) -> Map<usize, V>
    decreases s.len(),
{
    if s.len() == 0 {
        Map::empty()
    } else {
        map_of(s.drop_last()).insert(s.last().0, s.last().1)
    }
}

spec fn keys_differ<V>(s: Seq<(usize, V)>) -> bool {
    forall|i: int, j: int|
        #![trigger s[i], s[j]]
        0 <= i < j < s.len() ==> s[i].0 != s[j].0
}

impl<V> View for IdMap<V> {
    type V = Map<usize, V>;

    closed spec fn view(&self) -> Map<usize, V> {
        map_of(self.entries@)
    }
}

proof fn lemma_map_of<V>(s: Seq<(usize, V)>, key: usize)
    requires
        keys_differ(s),
    ensures
        map_of(s).contains_key(key) <==> exists|i: int| 0 <= i < s.len() && (#[trigger] s[i]).0
            == key,
        forall|i: int|
            0 <= i < s.len() && (#[trigger] s[i]).0 == key ==> map_of(s)[key] == s[i].1,
    decreases s.len(),
{
    if s.len() > 0 {
        let init = s.drop_last();
        lemma_map_of(init, key);
        assert forall|i: int| 0 <= i < s.len() && (#[trigger] s[i]).0 == key implies map_of(s)[key]
            == s[i].1 by {
            if i < init.len() {
                assert(init[i] == s[i]);
                assert(s[i].0 != s.last().0);
            }
        }
        if map_of(s).contains_key(key) {
            if s.last().0 == key {
                assert(s[s.len() - 1].0 == key);
            } else {
                let i = choose|i: int| 0 <= i < init.len() && (#[trigger] init[i]).0 == key;
                assert(s[i].0 == key);
            }
        }
        if exists|i: int| 0 <= i < s.len() && (#[trigger] s[i]).0 == key {
            let i = choose|i: int| 0 <= i < s.len() && (#[trigger] s[i]).0 == key;
            if i < init.len() {
                assert(init[i].0 == key);
            }
        }
    }
}

proof fn lemma_update<V>(s: Seq<(usize, V)>, at: int, value: V)
    requires
        keys_differ(s),
        0 <= at < s.len(),
    ensures
        map_of(s.update(at, (s[at].0, value))) == map_of(s).insert(s[at].0, value),
        keys_differ(s.update(at, (s[at].0, value))),
    decreases s.len(),
{
    let t = s.update(at, (s[at].0, value));
    if at == s.len() - 1 {
        assert(t.drop_last() =~= s.drop_last());
        assert(map_of(t) =~= map_of(s).insert(s[at].0, value));
    } else {
        let init = s.drop_last();
        assert(t.drop_last() =~= init.update(at, (init[at].0, value)));
        lemma_update(init, at, value);
        assert(s[at].0 != s.last().0);
        assert(map_of(t) =~= map_of(s).insert(s[at].0, value));
    }
}

proof fn lemma_remove<V>(s: Seq<(usize, V)>, at: int)
    requires
        keys_differ(s),
        0 <= at < s.len(),
    ensures
        map_of(s.remove(at)) == map_of(s).remove(s[at].0),
        keys_differ(s.remove(at)),
    decreases s.len(),
{
    let t = s.remove(at);
    let init = s.drop_last();
    assert forall|i: int, j: int|
        #![trigger t[i], t[j]]
        0 <= i < j < t.len() implies t[i].0 != t[j].0 by {
        let a = if i < at {
            i
        } else {
            i + 1
        };
        let b = if j < at {
            j
        } else {
            j + 1
        };
        assert(t[i] == s[a] && t[j] == s[b]);
    }
    if at == s.len() - 1 {
        assert(t =~= init);
        lemma_map_of(init, s[at].0);
        assert forall|i: int| 0 <= i < init.len() implies (#[trigger] init[i]).0 != s[at].0 by {
            assert(init[i] == s[i]);
        }
        assert(map_of(t) =~= map_of(s).remove(s[at].0));
    } else {
        assert(t.drop_last() =~= init.remove(at));
        assert(t.last() == s.last());
        lemma_remove(init, at);
        assert(init[at] == s[at]);
        assert(s[at].0 != s.last().0);
        assert(map_of(t) =~= map_of(s).remove(s[at].0));
    }
}

impl<V> IdMap<V> {
    /// No key comes twice.
    pub closed spec fn wf(&self) -> bool {
        keys_differ(self.entries@)
    }

    pub fn new() -> (r: Self)
        ensures
            r.wf(),
            r@ == Map::<usize, V>::empty(),
    {
        IdMap { entries: Vec::new() }
    }

    fn position(&self, key: usize) -> (r: usize)
        requires
            self.wf(),
        ensures
            r <= self.entries.len(),
            r < self.entries.len() ==> self.entries@[r as int].0 == key && self@.contains_key(key)
                && self@[key] == self.entries@[r as int].1,
            r == self.entries.len() ==> !self@.contains_key(key),
    {
        let mut i: usize = 0;
        while i < self.entries.len()
            invariant
                self.wf(),
                i <= self.entries.len(),
                forall|j: int| 0 <= j < i ==> (#[trigger] self.entries@[j]).0 != key,
            decreases self.entries.len() - i,
        {
            if self.entries[i].0 == key {
                proof {
                    lemma_map_of(self.entries@, key);
                    assert(self.entries@[i as int].0 == key);
                }
                return i;
            }
            i += 1;
        }
        proof {
            lemma_map_of(self.entries@, key);
        }
        i
    }

    pub fn get(&self, key: usize) -> (r: Option<&V>)
        requires
            self.wf(),
        ensures
            match r {
                Some(value) => self@.contains_key(key) && self@[key] == *value,
                None => !self@.contains_key(key),
            },
    {
        let at: usize = self.position(key);
        if at < self.entries.len() {
            Some(&self.entries[at].1)
        } else {
            None
        }
    }

    pub fn contains(&self, key: usize) -> (r: bool)
        requires
            self.wf(),
        ensures
            r == self@.contains_key(key),
    {
        self.position(key) < self.entries.len()
    }

    pub fn is_empty(&self) -> (r: bool)
        requires
            self.wf(),
        ensures
            r == (self@ == Map::<usize, V>::empty()),
    {
        proof {
            if self.entries.len() > 0 {
                let key = self.entries@[0].0;
                lemma_map_of(self.entries@, key);
                assert(self@.contains_key(key));
            }
        }
        self.entries.len() == 0
    }

    pub fn insert(&mut self, key: usize, value: V)
        requires
            old(self).wf(),
        ensures
            final(self).wf(),
            final(self)@ == old(self)@.insert(key, value),
    {
        let ghost before = self.entries@;
        let at: usize = self.position(key);
        if at < self.entries.len() {
            self.entries.set(at, (key, value));
            proof {
                lemma_update(before, at as int, value);
                assert(self.entries@ =~= before.update(at as int, (key, value)));
            }
        } else {
            proof {
                lemma_map_of(before, key);
            }
            self.entries.push((key, value));
            assert(self.entries@.drop_last() =~= before);
        }
    }

    /// Removes a key and returns what it stood for.
    pub fn take(&mut self, key: usize) -> (r: Option<V>)
        requires
            old(self).wf(),
        ensures
            final(self).wf(),
            final(self)@ == old(self)@.remove(key),
            match r {
                Some(value) => old(self)@.contains_key(key) && old(self)@[key] == value,
                None => !old(self)@.contains_key(key),
            },
    {
        let ghost before = self.entries@;
        let at: usize = self.position(key);
        if at < self.entries.len() {
            let removed = self.entries.remove(at);
            proof {
                lemma_remove(before, at as int);
                assert(self.entries@ =~= before.remove(at as int));
            }
            Some(removed.1)
        } else {
            assert(self@ =~= old(self)@.remove(key));
            None
        }
    }

    /// Removes a key and says whether it was there.
    pub fn remove(&mut self, key: usize) -> (r: bool)
        requires
            old(self).wf(),
        ensures
            final(self).wf(),
            final(self)@ == old(self)@.remove(key),
            r == old(self)@.contains_key(key),
    {
        self.take(key).is_some()
    }

    /// The keys, in no particular order and each once.
    pub fn keys(&self) -> (r: Vec<usize>)
        requires
            self.wf(),
        ensures
            r@.no_duplicates(),
            forall|key: usize| #[trigger] r@.contains(key) <==> self@.contains_key(key),
    {
        let mut out: Vec<usize> = Vec::new();
        let mut i: usize = 0;
        while i < self.entries.len()
            invariant
                self.wf(),
                i <= self.entries.len(),
                out.len() == i,
                forall|j: int| 0 <= j < i ==> #[trigger] out@[j] == self.entries@[j].0,
            decreases self.entries.len() - i,
        {
            out.push(self.entries[i].0);
            i += 1;
        }
        proof {
            let s = self.entries@;
            assert forall|a: int, b: int|
                0 <= a < out@.len() && 0 <= b < out@.len() && a != b implies out@[a]
                != out@[b] by {
                assert(out@[a] == s[a].0 && out@[b] == s[b].0);
            }
            assert forall|key: usize| #[trigger] out@.contains(key) <==> self@.contains_key(key) by {
                lemma_map_of(s, key);
                if out@.contains(key) {
                    let j = choose|j: int| 0 <= j < out@.len() && out@[j] == key;
                    assert(s[j].0 == key);
                }
                if self@.contains_key(key) {
                    let j = choose|j: int| 0 <= j < s.len() && (#[trigger] s[j]).0 == key;
                    assert(out@[j] == key);
                }
            }
        }
        out
    }
}

} // verus!
