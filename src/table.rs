use vstd::prelude::*;

verus! {

/// One key of a table and what it maps to.
pub struct Entry<V> {
    pub key: String,
    pub value: V,
}

/// No two entries share a key.
pub open spec fn keys_unique<V>(s: Seq<Entry<V>>) -> bool {
    forall|i: int, j: int|
        0 <= i < s.len() && 0 <= j < s.len() && i != j ==> #[trigger] s[i].key@ != #[trigger] s[j].key@
}

/// The map that a list of entries stands for; a later entry wins over an earlier one.
pub open spec fn entries_map<V>(s: Seq<Entry<V>>) -> Map<Seq<char>, V>
    decreases s.len(),
{
    if s.len() == 0 {
        Map::empty()
    } else {
        entries_map(s.drop_last()).insert(s.last().key@, s.last().value)
    }
}

pub proof fn lemma_map_contains<V>(s: Seq<Entry<V>>, k: Seq<char>)
    ensures
        entries_map(s).contains_key(k) <==> exists|i: int| 0 <= i < s.len() && #[trigger] s[i].key@ == k,
    decreases s.len(),
{
    if s.len() > 0 {
        lemma_map_contains(s.drop_last(), k);
        if entries_map(s).contains_key(k) && s.last().key@ != k {
            let i = choose|i: int| 0 <= i < s.len() - 1 && #[trigger] s.drop_last()[i].key@ == k;
            assert(s[i].key@ == k);
        }
        if exists|i: int| 0 <= i < s.len() && #[trigger] s[i].key@ == k {
            let i = choose|i: int| 0 <= i < s.len() && #[trigger] s[i].key@ == k;
            if i < s.len() - 1 {
                assert(s.drop_last()[i].key@ == k);
            }
        }
    }
}

pub proof fn lemma_map_value<V>(s: Seq<Entry<V>>, i: int)
    requires
        keys_unique(s),
        0 <= i < s.len(),
    ensures
        entries_map(s).contains_key(s[i].key@),
        entries_map(s)[s[i].key@] == s[i].value,
    decreases s.len(),
{
    if i < s.len() - 1 {
        assert(s.drop_last()[i] == s[i]);
        lemma_map_value(s.drop_last(), i);
        assert(s[s.len() - 1].key@ != s[i].key@);
    }
}

pub proof fn lemma_unique_prefix<V>(s: Seq<Entry<V>>)
    requires
        keys_unique(s),
        s.len() > 0,
    ensures
        keys_unique(s.drop_last()),
        !entries_map(s.drop_last()).contains_key(s.last().key@),
{
    lemma_map_contains(s.drop_last(), s.last().key@);
    assert forall|i: int| 0 <= i < s.len() - 1 implies #[trigger] s.drop_last()[i].key@ != s.last().key@ by {
        assert(s[i].key@ != s[s.len() - 1].key@);
    }
    assert forall|i: int, j: int| 0 <= i < s.len() - 1 && 0 <= j < s.len() - 1 && i != j implies #[trigger] s.drop_last()[i].key@ != #[trigger] s.drop_last()[j].key@ by {
        assert(s[i].key@ != s[j].key@);
    }
}

proof fn lemma_map_remove<V>(s: Seq<Entry<V>>, i: int)
    requires
        keys_unique(s),
        0 <= i < s.len(),
    ensures
        keys_unique(s.remove(i)),
        entries_map(s.remove(i)) == entries_map(s).remove(s[i].key@),
    decreases s.len(),
{
    let r = s.remove(i);
    assert forall|a: int, b: int| 0 <= a < r.len() && 0 <= b < r.len() && a != b implies #[trigger] r[a].key@ != #[trigger] r[b].key@ by {
        let a2 = if a < i { a } else { a + 1 };
        let b2 = if b < i { b } else { b + 1 };
        assert(r[a] == s[a2]);
        assert(r[b] == s[b2]);
    }
    lemma_unique_prefix(s);
    if i == s.len() - 1 {
        assert(r =~= s.drop_last());
        assert(entries_map(s.drop_last()) =~= entries_map(s).remove(s[i].key@));
    } else {
        lemma_map_remove(s.drop_last(), i);
        assert(r.drop_last() =~= s.drop_last().remove(i));
        assert(r.last() == s.last());
        assert(s.last().key@ != s[i].key@);
        assert(entries_map(r) =~= entries_map(s).remove(s[i].key@));
    }
}

proof fn lemma_map_push<V>(s: Seq<Entry<V>>, e: Entry<V>)
    requires
        keys_unique(s),
        !entries_map(s).contains_key(e.key@),
    ensures
        keys_unique(s.push(e)),
        entries_map(s.push(e)) == entries_map(s).insert(e.key@, e.value),
{
    lemma_map_contains(s, e.key@);
    let t = s.push(e);
    assert(t.drop_last() =~= s);
    assert forall|a: int, b: int| 0 <= a < t.len() && 0 <= b < t.len() && a != b implies #[trigger] t[a].key@ != #[trigger] t[b].key@ by {
        if a < s.len() && b < s.len() {
            assert(s[a].key@ != s[b].key@);
        } else if a < s.len() {
            assert(s[a].key@ != e.key@);
        } else {
            assert(s[b].key@ != e.key@);
        }
    }
}

/// A map from strings to values, kept as a list of entries with distinct keys.
pub struct Table<V> {
    entries: Vec<Entry<V>>,
}

impl<V> View for Table<V> {
    type V = Map<Seq<char>, V>;

    closed spec fn view(&self) -> Map<Seq<char>, V> {
        entries_map(self.entries@)
    }
}

impl<V> Table<V> {
    pub closed spec fn wf(&self) -> bool {
        keys_unique(self.entries@)
    }

    pub fn new() -> (r: Table<V>)
        ensures
            r.wf(),
            r@ == Map::<Seq<char>, V>::empty(),
    {
        Table { entries: Vec::new() }
    }

    pub fn len(&self) -> (r: usize)
        requires
            self.wf(),
        ensures
            r == self@.len(),
    {
        proof {
            self.lemma_len();
        }
        self.entries.len()
    }

    proof fn lemma_len(&self)
        requires
            self.wf(),
        ensures
            self@.len() == self.entries@.len(),
            self@.dom().finite(),
    {
        lemma_len_of(self.entries@);
    }

    fn find(&self, key: &String) -> (r: Option<usize>)
        requires
            self.wf(),
        ensures
            r matches Some(i) ==> i < self.entries@.len() && self.entries@[i as int].key@ == key@,
            r is None ==> !self@.contains_key(key@),
    {
        let mut i: usize = 0;
        while i < self.entries.len()
            invariant
                i <= self.entries@.len(),
                forall|j: int| 0 <= j < i ==> #[trigger] self.entries@[j].key@ != key@,
            decreases self.entries@.len() - i,
        {
            if self.entries[i].key == *key {
                return Some(i);
            }
            i = i + 1;
        }
        proof {
            lemma_map_contains(self.entries@, key@);
        }
        None
    }

    pub fn contains_key(&self, key: &String) -> (r: bool)
        requires
            self.wf(),
        ensures
            r == self@.contains_key(key@),
    {
        match self.find(key) {
            Some(i) => {
                proof {
                    lemma_map_value(self.entries@, i as int);
                }
                true
            },
            None => false,
        }
    }

    pub fn get(&self, key: &String) -> (r: Option<&V>)
        requires
            self.wf(),
        ensures
            r matches Some(v) ==> self@.contains_key(key@) && *v == self@[key@],
            r is None ==> !self@.contains_key(key@),
    {
        match self.find(key) {
            Some(i) => {
                proof {
                    lemma_map_value(self.entries@, i as int);
                }
                Some(&self.entries[i].value)
            },
            None => None,
        }
    }

    /// Takes the entry for `key` out of the table and returns its value.
    pub fn remove(&mut self, key: &String) -> (r: Option<V>)
        requires
            old(self).wf(),
        ensures
            final(self).wf(),
            final(self)@ == old(self)@.remove(key@),
            r matches Some(v) ==> old(self)@.contains_key(key@) && v == old(self)@[key@],
            r is None ==> !old(self)@.contains_key(key@),
    {
        match self.find(key) {
            Some(i) => {
                proof {
                    lemma_map_value(self.entries@, i as int);
                    lemma_map_remove(self.entries@, i as int);
                }
                let e = self.entries.remove(i);
                Some(e.value)
            },
            None => {
                proof {
                    assert(self@ =~= old(self)@.remove(key@));
                }
                None
            },
        }
    }

    /// Maps `key` to `value`, replacing what it mapped to before.
    pub fn insert(&mut self, key: String, value: V)
        requires
            old(self).wf(),
        ensures
            final(self).wf(),
            final(self)@ == old(self)@.insert(key@, value),
    {
        let _ = self.remove(&key);
        proof {
            lemma_map_push(self.entries@, Entry { key, value });
        }
        self.entries.push(Entry { key, value });
        proof {
            assert(self@ =~= old(self)@.insert(key@, value));
        }
    }

    /// Empties the table and hands out its entries, whose keys are distinct.
    pub fn take_all(&mut self) -> (r: Vec<Entry<V>>)
        requires
            old(self).wf(),
        ensures
            final(self).wf(),
            final(self)@ == Map::<Seq<char>, V>::empty(),
            keys_unique(r@),
            entries_map(r@) == old(self)@,
    {
        let mut r: Vec<Entry<V>> = Vec::new();
        std::mem::swap(&mut r, &mut self.entries);
        r
    }
}

proof fn lemma_len_of<V>(s: Seq<Entry<V>>)
    requires
        keys_unique(s),
    ensures
        entries_map(s).len() == s.len(),
        entries_map(s).dom().finite(),
    decreases s.len(),
{
    if s.len() > 0 {
        lemma_unique_prefix(s);
        lemma_len_of(s.drop_last());
    }
}

} // verus!
