//! The session registry: a table from session identifier to the record that
//! owns that session's resources. Identifiers are unique; the table has no
//! order that callers may rely on.

use vstd::prelude::*;

verus! {

/// The active sessions, keyed by identifier. `R` is the record that owns a
/// session's pseudoterminal, input writer and child process.
pub struct TerminalManager<R> {
    ids: Vec<String>,
    records: Vec<R>,
}

impl<R> TerminalManager<R> {
    /// The identifiers, in storage order.
    spec fn keys(&self) -> Seq<Seq<char>> {
        self.ids@.map_values(|s: String| s@)
    }

    /// Identifiers are unique and each has exactly one record.
    pub closed spec fn wf(&self) -> bool {
        &&& self.ids@.len() == self.records@.len()
        &&& forall|i: int, j: int|
            0 <= i < j < self.ids@.len() ==> self.ids@[i]@ != self.ids@[j]@
    }

    spec fn slot_of(&self, k: Seq<char>) -> int {
        choose|i: int| 0 <= i < self.ids@.len() && self.ids@[i]@ == k
    }

    /// The table as a map from identifier to record.
    pub closed spec fn view(&self) -> Map<Seq<char>, R> {
        Map::new(
            |k: Seq<char>| exists|i: int| 0 <= i < self.ids@.len() && self.ids@[i]@ == k,
            |k: Seq<char>| self.records@[self.slot_of(k)],
        )
    }

    proof fn lemma_slot(&self, i: int)
        requires
            self.wf(),
            0 <= i < self.ids@.len(),
        ensures
            self@.contains_key(self.ids@[i]@),
            self@[self.ids@[i]@] == self.records@[i],
    {
        let k = self.ids@[i]@;
        assert(exists|j: int| 0 <= j < self.ids@.len() && self.ids@[j]@ == k);
        let j = self.slot_of(k);
        assert(self.ids@[j]@ == k);
    }

    /// An empty table.
    pub fn new() -> (r: Self)
        ensures
            r.wf(),
            r@ == Map::<Seq<char>, R>::empty(),
    {
        let r = TerminalManager { ids: Vec::new(), records: Vec::new() };
        assert(r@ =~= Map::<Seq<char>, R>::empty());
        r
    }

    /// Number of sessions in the table.
    pub fn len(&self) -> (r: usize)
        requires
            self.wf(),
        ensures
            r == self@.len(),
    {
        proof { self.lemma_len(); }
        self.ids.len()
    }

    proof fn lemma_len(&self)
        requires
            self.wf(),
        ensures
            self@.dom().len() == self.ids@.len(),
            self@.dom() == self.keys().to_set(),
            self.keys().no_duplicates(),
    {
        let keys = self.keys();
        assert(self@.dom() =~= keys.to_set()) by {
            assert forall|k: Seq<char>| self@.dom().contains(k) implies keys.to_set().contains(k) by {
                let i = choose|i: int| 0 <= i < self.ids@.len() && self.ids@[i]@ == k;
                assert(keys[i] == k);
            }
            assert forall|k: Seq<char>| keys.to_set().contains(k) implies self@.dom().contains(k) by {
                let i = choose|i: int| 0 <= i < keys.len() && keys[i] == k;
                assert(self.ids@[i]@ == k);
            }
        }
        assert(keys.no_duplicates()) by {
            assert forall|i: int, j: int| 0 <= i < keys.len() && 0 <= j < keys.len() && i != j
                implies keys[i] != keys[j] by {}
        }
        keys.unique_seq_to_set();
    }

    /// Where the identifier is stored, if it is.
    fn position(&self, id: &str) -> (r: Option<usize>)
        requires
            self.wf(),
        ensures
            r is None <==> !self@.contains_key(id@),
            r matches Some(i) ==> i < self.ids@.len() && self.ids@[i as int]@ == id@,
    {
        let key = id.to_owned();
        let mut i: usize = 0;
        while i < self.ids.len()
            invariant
                self.wf(),
                key@ == id@,
                i <= self.ids@.len(),
                forall|j: int| 0 <= j < i ==> self.ids@[j]@ != id@,
            decreases self.ids@.len() - i,
        {
            if self.ids[i] == key {
                return Some(i);
            }
            i = i + 1;
        }
        None
    }

    /// Whether a session with this identifier is in the table.
    pub fn contains(&self, id: &str) -> (r: bool)
        requires
            self.wf(),
        ensures
            r == self@.contains_key(id@),
    {
        self.position(id).is_some()
    }

    /// Adds a session under an identifier that is not in the table yet.
    pub fn add(&mut self, id: String, record: R)
        requires
            old(self).wf(),
            !old(self)@.contains_key(id@),
        ensures
            final(self).wf(),
            final(self)@ == old(self)@.insert(id@, record),
    {
        let ghost before = *self;
        self.ids.push(id);
        self.records.push(record);
        let ghost n = before.ids@.len() as int;
        assert forall|i: int| 0 <= i < n implies self.ids@[i] == before.ids@[i] && self.records@[i]
            == before.records@[i] by {}
        assert forall|i: int| 0 <= i < n implies #[trigger] self.ids@[i]@ != id@ by {
            if self.ids@[i]@ == id@ {
                before.lemma_slot(i);
            }
        }
        assert(self@ =~= before@.insert(id@, record)) by {
            assert forall|k: Seq<char>| #[trigger] self@.contains_key(k) == before@.insert(id@, record).contains_key(k) by {
                if self@.contains_key(k) {
                    let i = choose|i: int| 0 <= i < self.ids@.len() && self.ids@[i]@ == k;
                    if i < n {
                        before.lemma_slot(i);
                    }
                }
                if before@.contains_key(k) {
                    let i = choose|i: int| 0 <= i < before.ids@.len() && before.ids@[i]@ == k;
                    assert(self.ids@[i]@ == k);
                }
                if k == id@ {
                    assert(self.ids@[n]@ == k);
                }
            }
            assert forall|k: Seq<char>| self@.contains_key(k) implies #[trigger] self@[k] == before@.insert(id@, record)[k] by {
                let i = choose|i: int| 0 <= i < self.ids@.len() && self.ids@[i]@ == k;
                self.lemma_slot(i);
                if i < n {
                    before.lemma_slot(i);
                }
            }
        }
    }

    /// Detaches the session with this identifier and hands its record over.
    /// `None`, with the table unchanged, where no such session is present.
    pub fn remove(&mut self, id: &str) -> (r: Option<R>)
        requires
            old(self).wf(),
        ensures
            final(self).wf(),
            match r {
                Some(rec) => old(self)@.contains_key(id@) && rec == old(self)@[id@]
                    && final(self)@ == old(self)@.remove(id@),
                None => !old(self)@.contains_key(id@) && final(self)@ == old(self)@,
            },
    {
        match self.position(id) {
            None => None,
            Some(i) => {
                let ghost before = *self;
                proof { before.lemma_slot(i as int); }
                let _ = self.ids.swap_remove(i);
                let rec = self.records.swap_remove(i);
                let ghost n = before.ids@.len() as int - 1;
                // Each remaining slot holds what some slot other than `i` held before.
                let ghost src = |j: int| if j == i as int { n } else { j };
                assert forall|j: int| 0 <= j < n implies
                    self.ids@[j] == before.ids@[src(j)] && self.records@[j] == before.records@[src(j)]
                    && src(j) != i && 0 <= src(j) <= n by {}
                assert forall|a: int, b: int| 0 <= a < b < self.ids@.len() implies
                    self.ids@[a]@ != self.ids@[b]@ by {
                    assert(src(a) != src(b));
                }
                assert(self@ =~= before@.remove(id@)) by {
                    assert forall|k: Seq<char>| #[trigger] self@.contains_key(k)
                        == before@.remove(id@).contains_key(k) by {
                        if self@.contains_key(k) {
                            let j = choose|j: int| 0 <= j < self.ids@.len() && self.ids@[j]@ == k;
                            before.lemma_slot(src(j));
                        }
                        if before@.remove(id@).contains_key(k) {
                            let j = choose|j: int| 0 <= j < before.ids@.len() && before.ids@[j]@ == k;
                            assert(j != i);
                            if j == n {
                                assert(self.ids@[i as int]@ == k);
                            } else {
                                assert(self.ids@[j]@ == k);
                            }
                        }
                    }
                    assert forall|k: Seq<char>| self@.contains_key(k) implies #[trigger] self@[k]
                        == before@.remove(id@)[k] by {
                        let j = choose|j: int| 0 <= j < self.ids@.len() && self.ids@[j]@ == k;
                        self.lemma_slot(j);
                        before.lemma_slot(src(j));
                    }
                }
                Some(rec)
            },
        }
    }

    proof fn lemma_replaced(before: Self, after: Self, i: int)
        requires
            before.wf(),
            0 <= i < before.ids@.len(),
            after.ids == before.ids,
            after.records@ == before.records@.update(i, after.records@[i]),
        ensures
            after.wf(),
            after@ == before@.insert(before.ids@[i]@, after.records@[i]),
    {
        let k = before.ids@[i]@;
        let v = after.records@[i];
        assert(after@ =~= before@.insert(k, v)) by {
            assert forall|q: Seq<char>| #[trigger] after@.contains_key(q)
                == before@.insert(k, v).contains_key(q) by {
                if before@.contains_key(q) {
                    let j = choose|j: int| 0 <= j < before.ids@.len() && before.ids@[j]@ == q;
                    assert(after.ids@[j]@ == q);
                }
                if q == k {
                    assert(after.ids@[i]@ == q);
                }
            }
            assert forall|q: Seq<char>| after@.contains_key(q) implies #[trigger] after@[q]
                == before@.insert(k, v)[q] by {
                let j = choose|j: int| 0 <= j < after.ids@.len() && after.ids@[j]@ == q;
                after.lemma_slot(j);
                before.lemma_slot(j);
            }
        }
    }

    /// Exclusive access to the record of the session with this identifier, or
    /// `None` where no such session is present. The table afterwards holds
    /// whatever the caller left in the record, under the same identifier.
    pub fn get_mut(&mut self, id: &str) -> (r: Option<&mut R>)
        requires
            old(self).wf(),
        ensures
            final(self).wf(),
            match r {
                Some(rec) => old(self)@.contains_key(id@) && *rec == old(self)@[id@]
                    && final(self)@ == old(self)@.insert(id@, *final(rec)),
                None => !old(self)@.contains_key(id@) && final(self)@ == old(self)@,
            },
    {
        match self.position(id) {
            None => None,
            Some(i) => {
                let ghost before = *self;
                proof {
                    assert forall|m: Self| m.ids == before.ids && #[trigger] m.records@
                        == before.records@.update(i as int, m.records@[i as int]) implies m.wf()
                        && m@ == before@.insert(id@, m.records@[i as int]) by {
                        Self::lemma_replaced(before, m, i as int);
                    }
                    before.lemma_slot(i as int);
                }
                let rec = &mut self.records[i];
                Some(rec)
            },
        }
    }

    /// Empties the table in one step and hands over every session it held,
    /// each identifier once, in no particular order.
    pub fn drain_all(&mut self) -> (r: Vec<(String, R)>)
        requires
            old(self).wf(),
        ensures
            final(self).wf(),
            final(self)@ == Map::<Seq<char>, R>::empty(),
            r@.len() == old(self)@.len(),
            forall|i: int, j: int| 0 <= i < j < r@.len() ==> r@[i].0@ != r@[j].0@,
            forall|i: int| 0 <= i < r@.len() ==> old(self)@.contains_key(#[trigger] r@[i].0@)
                && r@[i].1 == old(self)@[r@[i].0@],
            forall|k: Seq<char>| old(self)@.contains_key(k) ==> exists|i: int| 0 <= i < r@.len()
                && #[trigger] r@[i].0@ == k,
    {
        let ghost before = *self;
        let ghost n = before.ids@.len() as int;
        proof { before.lemma_len(); }
        let mut out: Vec<(String, R)> = Vec::new();
        while self.ids.len() > 0
            invariant
                before.wf(),
                n == before.ids@.len(),
                self.ids@.len() == self.records@.len(),
                self.ids@.len() + out@.len() == n,
                self.ids@ == before.ids@.subrange(0, self.ids@.len() as int),
                self.records@ == before.records@.subrange(0, self.ids@.len() as int),
                forall|j: int| 0 <= j < out@.len() ==> #[trigger] out@[j] == (before.ids@[n - 1 - j],
                    before.records@[n - 1 - j]),
            decreases self.ids@.len(),
        {
            let id = self.ids.pop().unwrap();
            let rec = self.records.pop().unwrap();
            out.push((id, rec));
        }
        proof {
            assert(self@ =~= Map::<Seq<char>, R>::empty());
            assert forall|i: int| 0 <= i < out@.len() implies before@.contains_key(#[trigger] out@[i].0@)
                && out@[i].1 == before@[out@[i].0@] by {
                before.lemma_slot(n - 1 - i);
            }
            assert forall|k: Seq<char>| before@.contains_key(k) implies exists|i: int| 0 <= i < out@.len()
                && #[trigger] out@[i].0@ == k by {
                let j = choose|j: int| 0 <= j < before.ids@.len() && before.ids@[j]@ == k;
                assert(out@[n - 1 - j].0@ == k);
            }
        }
        out
    }

    /// Empties the table, releasing every record, and returns the identifiers
    /// that it held, each once, in no particular order.
    pub fn clear(&mut self) -> (r: Vec<String>)
        requires
            old(self).wf(),
        ensures
            final(self).wf(),
            final(self)@ == Map::<Seq<char>, R>::empty(),
            r@.len() == old(self)@.len(),
            forall|i: int, j: int| 0 <= i < j < r@.len() ==> r@[i]@ != r@[j]@,
            forall|i: int| 0 <= i < r@.len() ==> old(self)@.contains_key(#[trigger] r@[i]@),
            forall|k: Seq<char>| old(self)@.contains_key(k) ==> exists|i: int| 0 <= i < r@.len()
                && #[trigger] r@[i]@ == k,
    {
        let mut entries = self.drain_all();
        let ghost all = entries@;
        let mut ids: Vec<String> = Vec::new();
        while entries.len() > 0
            invariant
                entries@.len() + ids@.len() == all.len(),
                entries@ == all.subrange(0, entries@.len() as int),
                forall|j: int| 0 <= j < ids@.len() ==> #[trigger] ids@[j] == all[all.len() - 1 - j].0,
            decreases entries@.len(),
        {
            let (id, _rec) = entries.pop().unwrap();
            ids.push(id);
        }
        proof {
            let m = all.len() as int;
            assert forall|i: int, j: int| 0 <= i < j < ids@.len() implies ids@[i]@ != ids@[j]@ by {
                assert(ids@[i] == all[m - 1 - i].0);
                assert(ids@[j] == all[m - 1 - j].0);
            }
            assert forall|i: int| 0 <= i < ids@.len() implies old(self)@.contains_key(#[trigger] ids@[i]@) by {
                assert(ids@[i] == all[m - 1 - i].0);
            }
            assert forall|k: Seq<char>| old(self)@.contains_key(k) implies exists|i: int| 0 <= i < ids@.len()
                && #[trigger] ids@[i]@ == k by {
                let j = choose|j: int| 0 <= j < all.len() && #[trigger] all[j].0@ == k;
                assert(ids@[m - 1 - j] == all[j].0);
            }
        }
        ids
    }
}

} // verus!
