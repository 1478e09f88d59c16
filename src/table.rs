use vstd::prelude::*;

verus! {

/// Key-value entries as plain sequences of characters.
pub type Entries = Seq<(Seq<char>, Seq<char>)>;

/// No key occurs in two entries.
pub open spec fn keys_unique(s: Entries) -> bool {
    forall|i: int, j: int| 0 <= i < s.len() && 0 <= j < s.len() && i != j ==> s[i].0 != s[j].0
}

/// Some entry holds key `k`.
pub open spec fn has_key(s: Entries, k: Seq<char>) -> bool {
    exists|i: int| 0 <= i < s.len() && s[i].0 == k
}

/// The map that the entries describe.
pub open spec fn entries_map(s: Entries) -> Map<Seq<char>, Seq<char>> {
    Map::new(
        |k: Seq<char>| has_key(s, k),
        |k: Seq<char>| s[choose|i: int| 0 <= i < s.len() && s[i].0 == k].1,
    )
}

/// In a table with unique keys, the entry that holds `k` gives its value.
pub proof fn lemma_entry_value(s: Entries, i: int)
    requires
        keys_unique(s),
        0 <= i < s.len(),
    ensures
        entries_map(s).contains_key(s[i].0),
        entries_map(s)[s[i].0] == s[i].1,
{
    let k = s[i].0;
    assert(has_key(s, k));
    let j = choose|j: int| 0 <= j < s.len() && s[j].0 == k;
    assert(j == i);
}

/// A string-keyed table: an association list whose keys are unique.
pub struct Table {
    entries: Vec<(String, String)>,
}

impl Table {
    pub closed spec fn entries(&self) -> Entries {
        self.entries@.map_values(|e: (String, String)| (e.0@, e.1@))
    }

    /// What the table maps each key to.
    pub open spec fn view(&self) -> Map<Seq<char>, Seq<char>> {
        entries_map(self.entries())
    }

    pub open spec fn wf(&self) -> bool {
        keys_unique(self.entries())
    }

    pub fn new() -> (r: Table)
        ensures
            r.wf(),
            r@ == Map::<Seq<char>, Seq<char>>::empty(),
    {
        let r = Table { entries: Vec::new() };
        assert(r@ =~= Map::<Seq<char>, Seq<char>>::empty());
        r
    }

    /// Index of the entry that holds `key`, if any.
    fn find(&self, key: &str) -> (r: Option<usize>)
        requires
            self.wf(),
        ensures
            r matches Some(i) ==> i < self.entries().len() && self.entries()[i as int].0 == key@,
            r is None ==> !has_key(self.entries(), key@),
    {
        let wanted = key.to_owned();
        let mut i: usize = 0;
        while i < self.entries.len()
            invariant
                i <= self.entries@.len(),
                self.entries().len() == self.entries@.len(),
                wanted@ == key@,
                forall|j: int| 0 <= j < i ==> self.entries()[j].0 != key@,
            decreases self.entries@.len() - i,
        {
            if self.entries[i].0 == wanted {
                return Some(i);
            }
            i += 1;
        }
        None
    }

    proof fn lemma_len(&self)
        requires
            self.wf(),
        ensures
            self@.len() == self.entries@.len(),
    {
        let s = self.entries();
        let ks = s.map_values(|e: (Seq<char>, Seq<char>)| e.0);
        assert(ks.no_duplicates()) by {
            assert forall|i: int, j: int| 0 <= i < ks.len() && 0 <= j < ks.len() && i != j implies ks[i] != ks[j] by {
                assert(ks[i] == s[i].0 && ks[j] == s[j].0);
            }
        }
        assert forall|k: Seq<char>| #[trigger] ks.to_set().contains(k) <==> has_key(s, k) by {
            if has_key(s, k) {
                let i = choose|i: int| 0 <= i < s.len() && s[i].0 == k;
                assert(ks[i] == k);
            }
            if ks.to_set().contains(k) {
                assert(ks.contains(k));
                let i = choose|i: int| 0 <= i < ks.len() && ks[i] == k;
                assert(s[i].0 == k);
            }
        }
        assert(self@.dom() =~= ks.to_set());
        ks.unique_seq_to_set();
    }

    /// Number of keys in the table.
    pub fn len(&self) -> (r: usize)
        requires
            self.wf(),
        ensures
            r == self@.len(),
    {
        proof {
            self.lemma_len();
        }
        self.entries.len()
    }

    /// The value that `key` maps to, if any.
    pub fn get(&self, key: &str) -> (r: Option<&String>)
        requires
            self.wf(),
        ensures
            r is Some <==> self@.contains_key(key@),
            r matches Some(v) ==> v@ == self@[key@],
    {
        match self.find(key) {
            Some(i) => {
                proof {
                    lemma_entry_value(self.entries(), i as int);
                }
                Some(&self.entries[i].1)
            },
            None => None,
        }
    }

    /// Maps `key` to `value`, in place of any earlier value.
    pub fn insert(&mut self, key: String, value: String)
        requires
            old(self).wf(),
        ensures
            final(self).wf(),
            final(self)@ == old(self)@.insert(key@, value@),
    {
        let ghost s0 = self.entries();
        match self.find(key.as_str()) {
            Some(i) => {
                let ghost k = key@;
                let ghost v = value@;
                self.entries.set(i, (key, value));
                proof {
                    let s1 = self.entries();
                    assert(s1 =~= s0.update(i as int, (k, v)));
                    assert forall|k2: Seq<char>| #[trigger] has_key(s1, k2) <==> has_key(s0, k2) || k2 == k by {
                        if has_key(s0, k2) && k2 != k {
                            let j = choose|j: int| 0 <= j < s0.len() && s0[j].0 == k2;
                            assert(s1[j].0 == k2);
                        }
                        if k2 == k {
                            assert(s1[i as int].0 == k2);
                        }
                        if has_key(s1, k2) {
                            let j = choose|j: int| 0 <= j < s1.len() && s1[j].0 == k2;
                            if j != i {
                                assert(s0[j].0 == k2);
                            }
                        }
                    }
                    assert forall|k2: Seq<char>| #[trigger] has_key(s1, k2) implies entries_map(s1)[k2] == entries_map(s0).insert(k, v)[k2] by {
                        let j = choose|j: int| 0 <= j < s1.len() && s1[j].0 == k2;
                        lemma_entry_value(s1, j);
                        if j != i {
                            lemma_entry_value(s0, j);
                        }
                    }
                    assert(self@ =~= entries_map(s0).insert(k, v));
                }
            },
            None => {
                let ghost k = key@;
                let ghost v = value@;
                self.entries.push((key, value));
                proof {
                    let s1 = self.entries();
                    assert(s1 =~= s0.push((k, v)));
                    assert forall|k2: Seq<char>| #[trigger] has_key(s1, k2) <==> has_key(s0, k2) || k2 == k by {
                        if has_key(s0, k2) {
                            let j = choose|j: int| 0 <= j < s0.len() && s0[j].0 == k2;
                            assert(s1[j].0 == k2);
                        }
                        if k2 == k {
                            assert(s1[s0.len() as int].0 == k2);
                        }
                        if has_key(s1, k2) {
                            let j = choose|j: int| 0 <= j < s1.len() && s1[j].0 == k2;
                            if j < s0.len() {
                                assert(s0[j].0 == k2);
                            }
                        }
                    }
                    assert forall|k2: Seq<char>| #[trigger] has_key(s1, k2) implies entries_map(s1)[k2] == entries_map(s0).insert(k, v)[k2] by {
                        let j = choose|j: int| 0 <= j < s1.len() && s1[j].0 == k2;
                        lemma_entry_value(s1, j);
                        if j < s0.len() {
                            lemma_entry_value(s0, j);
                        }
                    }
                    assert(self@ =~= entries_map(s0).insert(k, v));
                }
            },
        }
    }

    /// Takes `key` out of the table and hands back the value it had.
    pub fn remove(&mut self, key: &str) -> (r: Option<String>)
        requires
            old(self).wf(),
        ensures
            final(self).wf(),
            final(self)@ == old(self)@.remove(key@),
            r is Some <==> old(self)@.contains_key(key@),
            r matches Some(v) ==> v@ == old(self)@[key@],
    {
        let ghost s0 = self.entries();
        match self.find(key) {
            Some(i) => {
                proof {
                    lemma_entry_value(s0, i as int);
                }
                let e = self.entries.remove(i);
                proof {
                    let s1 = self.entries();
                    let k = key@;
                    assert(s1 =~= s0.remove(i as int));
                    assert forall|k2: Seq<char>| #[trigger] has_key(s1, k2) <==> has_key(s0, k2) && k2 != k by {
                        if has_key(s0, k2) && k2 != k {
                            let j = choose|j: int| 0 <= j < s0.len() && s0[j].0 == k2;
                            if j < i {
                                assert(s1[j].0 == k2);
                            } else {
                                assert(s1[j - 1].0 == k2);
                            }
                        }
                        if has_key(s1, k2) {
                            let j = choose|j: int| 0 <= j < s1.len() && s1[j].0 == k2;
                            if j < i {
                                assert(s0[j].0 == k2);
                            } else {
                                assert(s0[j + 1].0 == k2);
                            }
                        }
                    }
                    assert forall|k2: Seq<char>| #[trigger] has_key(s1, k2) implies entries_map(s1)[k2] == entries_map(s0)[k2] by {
                        let j = choose|j: int| 0 <= j < s1.len() && s1[j].0 == k2;
                        lemma_entry_value(s1, j);
                        if j < i {
                            lemma_entry_value(s0, j);
                        } else {
                            lemma_entry_value(s0, j + 1);
                        }
                    }
                    assert(self@ =~= entries_map(s0).remove(k));
                }
                Some(e.1)
            },
            None => {
                proof {
                    assert(self@ =~= entries_map(s0).remove(key@));
                }
                None
            },
        }
    }

    /// Drops every entry.
    pub fn clear(&mut self)
        ensures
            final(self).wf(),
            final(self)@ == Map::<Seq<char>, Seq<char>>::empty(),
    {
        self.entries = Vec::new();
        proof {
            assert(self@ =~= Map::<Seq<char>, Seq<char>>::empty());
        }
    }
}

} // verus!
