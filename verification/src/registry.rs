//! The bookkeeping of running bridges: one handle per profile identifier.
//! The handles themselves (child processes) are the caller's; this table only
//! keeps them by identifier, as a map from identifier to handle.
use vstd::prelude::*;
use crate::text::str_eq;

verus! {

/// Running bridges by profile identifier.
pub struct Registry<H> {
    entries: Vec<(String, H)>,
}

/// The identifiers of a list of entries, as plain values.
pub open spec fn keys_of<H>(s: Seq<(String, H)>) -> Seq<Seq<char>> {
    s.map_values(|e: (String, H)| e.0@)
}

/// No identifier occurs twice.
pub open spec fn keys_distinct<H>(s: Seq<(String, H)>) -> bool {
    forall|i: int, j: int| 0 <= i < j < s.len() ==> s[i].0@ != s[j].0@
}

/// The map that a list of entries with distinct identifiers stands for.
pub open spec fn map_of<H>(s: Seq<(String, H)>) -> Map<Seq<char>, H>
    decreases s.len(),
{
    if s.len() == 0 {
        Map::empty()
    } else {
        map_of(s.drop_last()).insert(s.last().0@, s.last().1)
    }
}

/// The identifiers of the entries whose flag in `keep` is set.
pub open spec fn kept_keys<H>(entries: Seq<(String, H)>, keep: Seq<bool>) -> Set<Seq<char>> {
    Set::new(
        |k: Seq<char>| exists|i: int| 0 <= i < entries.len() && keep[i] && entries[i].0@ == k,
    )
}

proof fn lemma_map_of<H>(s: Seq<(String, H)>)
    requires
        keys_distinct(s),
    ensures
        map_of(s).dom().finite(),
        map_of(s).dom().len() == s.len(),
        forall|k: Seq<char>|
            #[trigger] map_of(s).dom().contains(k) <==> exists|i: int| 0 <= i < s.len() && s[i].0@ == k,
        forall|i: int| 0 <= i < s.len() ==> #[trigger] map_of(s)[s[i].0@] == s[i].1,
    decreases s.len(),
{
    if s.len() > 0 {
        let t = s.drop_last();
        assert(keys_distinct(t));
        lemma_map_of(t);
        let l = s.last();
        assert(!map_of(t).dom().contains(l.0@)) by {
            if map_of(t).dom().contains(l.0@) {
                let i = choose|i: int| 0 <= i < t.len() && t[i].0@ == l.0@;
                assert(s[i].0@ == s[s.len() - 1].0@);
            }
        }
        assert forall|k: Seq<char>|
            #[trigger] map_of(s).dom().contains(k) <==> exists|i: int|
                0 <= i < s.len() && s[i].0@ == k by {
            if map_of(s).dom().contains(k) && k != l.0@ {
                let i = choose|i: int| 0 <= i < t.len() && t[i].0@ == k;
                assert(s[i] == t[i]);
            }
            if exists|i: int| 0 <= i < s.len() && s[i].0@ == k {
                let i = choose|i: int| 0 <= i < s.len() && s[i].0@ == k;
                if i < s.len() - 1 {
                    assert(t[i] == s[i]);
                }
            }
        }
        assert forall|i: int| 0 <= i < s.len() implies #[trigger] map_of(s)[s[i].0@] == s[i].1 by {
            if i < s.len() - 1 {
                assert(t[i] == s[i]);
                assert(s[i].0@ != l.0@);
            }
        }
    }
}

proof fn lemma_map_of_remove<H>(s: Seq<(String, H)>, i: int)
    requires
        keys_distinct(s),
        0 <= i < s.len(),
    ensures
        keys_distinct(s.remove(i)),
        map_of(s.remove(i)) == map_of(s).remove(s[i].0@),
{
    let r = s.remove(i);
    assert forall|a: int, b: int| 0 <= a < b < r.len() implies r[a].0@ != r[b].0@ by {
        let a2 = if a < i { a } else { a + 1 };
        let b2 = if b < i { b } else { b + 1 };
        assert(r[a] == s[a2] && r[b] == s[b2]);
    }
    lemma_map_of(s);
    lemma_map_of(r);
    let k0 = s[i].0@;
    assert forall|k: Seq<char>| #[trigger] map_of(r).dom().contains(k) <==> map_of(s).remove(k0).dom().contains(k) by {
        if map_of(r).dom().contains(k) {
            let j = choose|j: int| 0 <= j < r.len() && r[j].0@ == k;
            let j2 = if j < i { j } else { j + 1 };
            assert(r[j] == s[j2]);
            assert(j2 != i);
        }
        if map_of(s).remove(k0).dom().contains(k) {
            let j = choose|j: int| 0 <= j < s.len() && s[j].0@ == k;
            assert(j != i);
            let j2 = if j < i { j } else { j - 1 };
            assert(r[j2] == s[j]);
        }
    }
    assert forall|k: Seq<char>| #[trigger] map_of(r).dom().contains(k) implies map_of(r)[k] == map_of(s).remove(k0)[k] by {
        let j = choose|j: int| 0 <= j < r.len() && r[j].0@ == k;
        let j2 = if j < i { j } else { j + 1 };
        assert(r[j] == s[j2]);
        assert(map_of(r)[r[j].0@] == r[j].1);
        assert(map_of(s)[s[j2].0@] == s[j2].1);
    }
    assert(map_of(r) =~= map_of(s).remove(k0));
}

impl<H> Registry<H> {
    #[verifier::type_invariant]
    closed spec fn well_formed(self) -> bool {
        keys_distinct(self.entries@)
    }

    /// The running bridges, as a map from profile identifier to handle.
    pub closed spec fn map(self) -> Map<Seq<char>, H> {
        map_of(self.entries@)
    }

    /// A table with no running bridge.
    pub fn new() -> (r: Registry<H>)
        ensures
            r.map() == Map::<Seq<char>, H>::empty(),
    {
        Registry { entries: Vec::new() }
    }

    /// The number of running bridges.
    pub fn len(&self) -> (n: usize)
        ensures
            self.map().dom().finite(),
            n == self.map().dom().len(),
    {
        proof {
            use_type_invariant(self);
            lemma_map_of(self.entries@);
        }
        self.entries.len()
    }

    /// Whether no bridge is running.
    pub fn is_empty(&self) -> (b: bool)
        ensures
            b == (self.map().dom() == Set::<Seq<char>>::empty()),
    {
        proof {
            use_type_invariant(self);
            lemma_map_of(self.entries@);
            if self.entries@.len() > 0 {
                assert(self.map().dom().contains(self.entries@[0].0@));
            }
        }
        self.entries.len() == 0
    }

    fn position(&self, id: &str) -> (r: Option<usize>)
        ensures
            match r {
                Some(i) => i < self.entries@.len() && self.entries@[i as int].0@ == id@,
                None => forall|i: int| 0 <= i < self.entries@.len() ==> self.entries@[i].0@ != id@,
            },
    {
        let mut i: usize = 0;
        while i < self.entries.len()
            invariant
                i <= self.entries@.len(),
                forall|j: int| 0 <= j < i ==> self.entries@[j].0@ != id@,
            decreases self.entries@.len() - i,
        {
            if str_eq(self.entries[i].0.as_str(), id) {
                return Some(i);
            }
            i = i + 1;
        }
        None
    }

    /// Whether a bridge runs for `id`.
    pub fn contains(&self, id: &str) -> (b: bool)
        ensures
            b == self.map().dom().contains(id@),
    {
        proof {
            use_type_invariant(self);
            lemma_map_of(self.entries@);
        }
        self.position(id).is_some()
    }

    /// Takes the handle of the bridge for `id` out of the table.
    pub fn remove(&mut self, id: &str) -> (r: Option<H>)
        ensures
            final(self).map() == old(self).map().remove(id@),
            match r {
                Some(h) => old(self).map().dom().contains(id@) && old(self).map()[id@] == h,
                None => !old(self).map().dom().contains(id@),
            },
    {
        proof {
            use_type_invariant(&*self);
            lemma_map_of(self.entries@);
        }
        match self.position(id) {
            Some(i) => {
                proof {
                    lemma_map_of_remove(self.entries@, i as int);
                }
                let mut entries: Vec<(String, H)> = Vec::new();
                std::mem::swap(&mut entries, &mut self.entries);
                let (_, h) = entries.remove(i);
                self.entries = entries;
                Some(h)
            },
            None => {
                proof {
                    assert(self.map().remove(id@) =~= self.map());
                }
                None
            },
        }
    }

    /// Records the handle of the bridge for `id`, giving back the handle it
    /// replaces.
    pub fn insert(&mut self, id: String, handle: H) -> (r: Option<H>)
        ensures
            final(self).map() == old(self).map().insert(id@, handle),
            match r {
                Some(h) => old(self).map().dom().contains(id@) && old(self).map()[id@] == h,
                None => !old(self).map().dom().contains(id@),
            },
    {
        let prev = self.remove(id.as_str());
        proof {
            use_type_invariant(&*self);
            lemma_map_of(self.entries@);
        }
        let ghost before = self.entries@;
        let mut entries: Vec<(String, H)> = Vec::new();
        std::mem::swap(&mut entries, &mut self.entries);
        proof {
            assert(!map_of(entries@).dom().contains(id@));
            assert forall|j: int| 0 <= j < entries@.len() implies entries@[j].0@ != id@ by {
                assert(map_of(entries@).dom().contains(entries@[j].0@));
            }
        }
        entries.push((id, handle));
        self.entries = entries;
        proof {
            let s = self.entries@;
            assert(s.drop_last() =~= before);
            assert(map_of(s) =~= old(self).map().insert(s.last().0@, handle));
        }
        prev
    }

    /// Empties the table, handing out its entries: identifiers each once,
    /// standing for the map the table held.
    pub fn drain(&mut self) -> (r: Vec<(String, H)>)
        ensures
            final(self).map() == Map::<Seq<char>, H>::empty(),
            keys_distinct(r@),
            map_of(r@) == old(self).map(),
    {
        proof {
            use_type_invariant(&*self);
        }
        let mut entries: Vec<(String, H)> = Vec::new();
        std::mem::swap(&mut entries, &mut self.entries);
        entries
    }

    /// A table of the entries whose flag in `keep` is set (the flag at the
    /// same position as the entry).
    pub fn keep_marked(entries: Vec<(String, H)>, keep: &Vec<bool>) -> (r: Registry<H>)
        requires
            keys_distinct(entries@),
            keep@.len() == entries@.len(),
        ensures
            r.map() == map_of(entries@).restrict(kept_keys(entries@, keep@)),
    {
        let ghost input = entries@;
        let mut res: Vec<(String, H)> = Vec::new();
        let ghost mut idxs: Seq<int> = seq![];
        let n: usize = keep.len();
        let mut i: usize = 0;
        for e in it: entries
            invariant
                it.seq() == input,
                i == it.index(),
                i <= input.len(),
                keep@.len() == input.len(),
                n == input.len(),
                keys_distinct(input),
                res@.len() == idxs.len(),
                forall|j: int| 0 <= j < idxs.len() ==> 0 <= #[trigger] idxs[j] < i && keep@[idxs[j]]
                    && res@[j] == input[idxs[j]],
                forall|a: int, b: int| 0 <= a < b < idxs.len() ==> idxs[a] < idxs[b],
                forall|k: int| 0 <= k < i && keep@[k] ==> exists|j: int| 0 <= j < idxs.len() && idxs[j] == k,
        {
            let ghost before = idxs;
            if keep[i] {
                proof {
                    idxs = idxs.push(i as int);
                }
                res.push(e);
            }
            proof {
                assert forall|k: int| 0 <= k < i + 1 && keep@[k] implies exists|j: int|
                    0 <= j < idxs.len() && idxs[j] == k by {
                    if k < i {
                        let j = choose|j: int| 0 <= j < before.len() && before[j] == k;
                        assert(idxs[j] == k);
                    } else {
                        assert(idxs[idxs.len() - 1] == k);
                    }
                }
            }
            i = i + 1;
        }
        proof {
            let s = res@;
            assert(keys_distinct(s)) by {
                assert forall|a: int, b: int| 0 <= a < b < s.len() implies s[a].0@ != s[b].0@ by {
                    assert(idxs[a] < idxs[b]);
                }
            }
            lemma_map_of(s);
            lemma_map_of(input);
            let want = map_of(input).restrict(kept_keys(input, keep@));
            assert forall|k: Seq<char>| #[trigger] map_of(s).dom().contains(k) <==> want.dom().contains(k) by {
                if map_of(s).dom().contains(k) {
                    let j = choose|j: int| 0 <= j < s.len() && s[j].0@ == k;
                    assert(input[idxs[j]].0@ == k);
                    assert(kept_keys(input, keep@).contains(k));
                    assert(map_of(input).dom().contains(k));
                }
                if want.dom().contains(k) {
                    let i2 = choose|i2: int| 0 <= i2 < input.len() && keep@[i2] && input[i2].0@ == k;
                    let j = choose|j: int| 0 <= j < idxs.len() && idxs[j] == i2;
                    assert(s[j].0@ == k);
                }
            }
            assert forall|k: Seq<char>| #[trigger] map_of(s).dom().contains(k) implies map_of(s)[k] == want[k] by {
                let j = choose|j: int| 0 <= j < s.len() && s[j].0@ == k;
                assert(map_of(s)[s[j].0@] == s[j].1);
                assert(map_of(input)[input[idxs[j]].0@] == input[idxs[j]].1);
            }
            assert(map_of(s) =~= want);
        }
        Registry { entries: res }
    }

    /// The identifiers of the running bridges, each once.
    pub fn ids(&self) -> (r: Vec<String>)
        ensures
            r@.len() == self.map().dom().len(),
            forall|i: int| 0 <= i < r@.len() ==> self.map().dom().contains(#[trigger] r@[i]@),
            forall|k: Seq<char>| #[trigger] self.map().dom().contains(k) ==> exists|i: int| 0 <= i < r@.len() && r@[i]@ == k,
            forall|i: int, j: int| 0 <= i < j < r@.len() ==> r@[i]@ != r@[j]@,
    {
        proof {
            use_type_invariant(self);
            lemma_map_of(self.entries@);
        }
        let mut r: Vec<String> = Vec::new();
        let mut i: usize = 0;
        while i < self.entries.len()
            invariant
                i <= self.entries@.len(),
                keys_distinct(self.entries@),
                r@.len() == i,
                forall|j: int| 0 <= j < i ==> #[trigger] r@[j]@ == self.entries@[j].0@,
            decreases self.entries@.len() - i,
        {
            r.push(self.entries[i].0.clone());
            i = i + 1;
        }
        proof {
            assert forall|i: int| 0 <= i < r@.len() implies self.map().dom().contains(#[trigger] r@[i]@) by {
                assert(r@[i]@ == self.entries@[i].0@);
            }
            assert forall|k: Seq<char>| #[trigger] self.map().dom().contains(k) implies exists|i: int|
                0 <= i < r@.len() && r@[i]@ == k by {
                let j = choose|j: int| 0 <= j < self.entries@.len() && self.entries@[j].0@ == k;
                assert(r@[j]@ == k);
            }
            assert forall|a: int, b: int| 0 <= a < b < r@.len() implies r@[a]@ != r@[b]@ by {
                assert(r@[a]@ == self.entries@[a].0@);
                assert(r@[b]@ == self.entries@[b].0@);
            }
        }
        r
    }
}

/// What waiting on a bridge's process without blocking found.
#[derive(PartialEq, Eq, Structural, Clone, Copy, Debug)]
pub enum WaitStatus {
    /// The process has exited.
    Exited,
    /// The process is still running.
    Running,
    /// The wait itself failed.
    Failed,
}

/// What a wait result means for the table: whether the bridge counts as
/// running, and whether its handle stays in the table. An exited bridge is
/// dropped; a running one stays and counts; after a failed wait the handle
/// stays but the bridge does not count as running.
pub fn after_wait(s: WaitStatus) -> (r: (bool, bool))
    ensures
        r == match s {
            WaitStatus::Exited => (false, false),
            WaitStatus::Running => (true, true),
            WaitStatus::Failed => (false, true),
        },
{
    match s {
        WaitStatus::Exited => (false, false),
        WaitStatus::Running => (true, true),
        WaitStatus::Failed => (false, true),
    }
}

} // verus!
