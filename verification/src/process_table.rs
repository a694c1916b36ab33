//! The rclone processes that serve the mounts, one per bucket.
use vstd::prelude::*;

verus! {

/// The map that a sequence of (bucket, process) entries stands for; a later entry
/// for the same bucket wins.
pub open spec fn table_map<P>(t: Seq<(String, P)>) -> Map<Seq<char>, P>
    decreases t.len(),
{
    if t.len() == 0 {
        Map::empty()
    } else {
        table_map(t.drop_last()).insert(t.last().0@, t.last().1)
    }
}

/// No bucket occurs twice.
pub open spec fn unique_keys<P>(t: Seq<(String, P)>) -> bool {
    forall|i: int, j: int| 0 <= i < j < t.len() ==> t[i].0@ != t[j].0@
}

/// A bucket is in the map exactly when some entry names it.
pub proof fn lemma_table_dom<P>(t: Seq<(String, P)>, k: Seq<char>)
    ensures
        table_map(t).dom().contains(k) <==> exists|i: int| 0 <= i < t.len() && #[trigger] t[i].0@ == k,
    decreases t.len(),
{
    if t.len() > 0 {
        lemma_table_dom(t.drop_last(), k);
        if exists|i: int| 0 <= i < t.len() && #[trigger] t[i].0@ == k {
            let i = choose|i: int| 0 <= i < t.len() && #[trigger] t[i].0@ == k;
            if i < t.len() - 1 {
                assert(t.drop_last()[i].0@ == k);
            }
        }
        if exists|i: int| 0 <= i < t.drop_last().len() && #[trigger] t.drop_last()[i].0@ == k {
            let i = choose|i: int| 0 <= i < t.drop_last().len() && #[trigger] t.drop_last()[i].0@ == k;
            assert(t[i].0@ == k);
        }
    }
}

/// With unique buckets, each entry's process is the one the map holds for its bucket.
pub proof fn lemma_table_value<P>(t: Seq<(String, P)>, i: int)
    requires
        unique_keys(t),
        0 <= i < t.len(),
    ensures
        table_map(t).dom().contains(t[i].0@),
        table_map(t)[t[i].0@] == t[i].1,
    decreases t.len(),
{
    if i < t.len() - 1 {
        assert(unique_keys(t.drop_last()));
        lemma_table_value(t.drop_last(), i);
        assert(t.drop_last()[i] == t[i]);
    }
}

/// Removing the entry at `j` removes its bucket from the map.
pub proof fn lemma_table_remove<P>(t: Seq<(String, P)>, j: int)
    requires
        unique_keys(t),
        0 <= j < t.len(),
    ensures
        unique_keys(t.remove(j)),
        table_map(t.remove(j)) == table_map(t).remove(t[j].0@),
    decreases t.len(),
{
    let k = t[j].0@;
    assert(unique_keys(t.remove(j)));
    if j == t.len() - 1 {
        assert(t.remove(j) =~= t.drop_last());
        lemma_table_dom(t.drop_last(), k);
        if table_map(t.drop_last()).dom().contains(k) {
            let i = choose|i: int| 0 <= i < t.drop_last().len() && #[trigger] t.drop_last()[i].0@ == k;
            assert(t[i].0@ == k);
        }
        assert(table_map(t.remove(j)) =~= table_map(t).remove(k));
    } else {
        assert(unique_keys(t.drop_last()));
        lemma_table_remove(t.drop_last(), j);
        assert(t.remove(j).drop_last() =~= t.drop_last().remove(j));
        assert(t.remove(j).last() == t.last());
        assert(t.last().0@ != k);
        assert(table_map(t.remove(j)) =~= table_map(t).remove(k));
    }
}

/// The rclone processes, at most one per bucket.
pub struct ProcessTable<P> {
    entries: Vec<(String, P)>,
}

impl<P> View for ProcessTable<P> {
    type V = Map<Seq<char>, P>;

    closed spec fn view(&self) -> Map<Seq<char>, P> {
        table_map(self.entries@)
    }
}

impl<P> ProcessTable<P> {
    #[verifier::type_invariant]
    spec fn one_per_bucket(&self) -> bool {
        unique_keys(self.entries@)
    }

    /// A table that holds nothing.
    pub fn new() -> (t: Self)
        ensures
            t@ == Map::<Seq<char>, P>::empty(),
    {
        ProcessTable { entries: Vec::new() }
    }

    /// Where the entry for `bucket` stands, if there is one.
    fn position(entries: &Vec<(String, P)>, bucket: &String) -> (r: Option<usize>)
        ensures
            match r {
                Some(j) => j < entries@.len() && entries@[j as int].0@ == bucket@,
                None => forall|i: int| 0 <= i < entries@.len() ==> entries@[i].0@ != bucket@,
            },
    {
        let n = entries.len();
        let mut i: usize = 0;
        while i < n
            invariant
                n == entries@.len(),
                i <= n,
                forall|j: int| 0 <= j < i ==> entries@[j].0@ != bucket@,
            decreases n - i,
        {
            if entries[i].0 == *bucket {
                return Some(i);
            }
            i = i + 1;
        }
        None
    }

    /// Takes the process held for `bucket` out of the table.
    pub fn remove(&mut self, bucket: &String) -> (r: Option<P>)
        ensures
            final(self)@ == old(self)@.remove(bucket@),
            r == (if old(self)@.dom().contains(bucket@) { Some(old(self)@[bucket@]) } else { None }),
    {
        proof {
            use_type_invariant(&*self);
        }
        let mut entries: Vec<(String, P)> = Vec::new();
        std::mem::swap(&mut entries, &mut self.entries);
        let ghost t = entries@;
        match Self::position(&entries, bucket) {
            Some(j) => {
                let (_, p) = entries.remove(j);
                proof {
                    lemma_table_remove(t, j as int);
                    lemma_table_value(t, j as int);
                }
                self.entries = entries;
                Some(p)
            },
            None => {
                proof {
                    lemma_table_dom(t, bucket@);
                    assert(table_map(t).remove(bucket@) =~= table_map(t));
                }
                self.entries = entries;
                None
            },
        }
    }

    /// Holds `process` for `bucket`, handing back the process that it replaces, if any.
    pub fn insert(&mut self, bucket: String, process: P) -> (r: Option<P>)
        ensures
            final(self)@ == old(self)@.insert(bucket@, process),
            r == (if old(self)@.dom().contains(bucket@) { Some(old(self)@[bucket@]) } else { None }),
    {
        let r = self.remove(&bucket);
        proof {
            use_type_invariant(&*self);
        }
        let mut entries: Vec<(String, P)> = Vec::new();
        std::mem::swap(&mut entries, &mut self.entries);
        let ghost t = entries@;
        proof {
            lemma_table_dom(t, bucket@);
            assert forall|i: int, j: int| 0 <= i < j < t.len() + 1 implies #[trigger] t.push((bucket, process))[i].0@
                != #[trigger] t.push((bucket, process))[j].0@ by {
                if j == t.len() {
                    assert(t[i].0@ != bucket@);
                }
            }
        }
        entries.push((bucket, process));
        proof {
            assert(table_map(entries@) == table_map(t).insert(bucket@, process)) by {
                assert(entries@.drop_last() =~= t);
            }
            assert(table_map(t).insert(bucket@, process) =~= old(self)@.insert(bucket@, process));
        }
        self.entries = entries;
        r
    }

    /// Holds `process` for `bucket` in place of the process held for it, which is handed
    /// back; when no process is held for `bucket`, nothing changes and `process` is handed
    /// back instead.
    pub fn replace(&mut self, bucket: String, process: P) -> (r: Result<P, P>)
        ensures
            old(self)@.dom().contains(bucket@) ==> r == Ok::<P, P>(old(self)@[bucket@]) && final(self)@
                == old(self)@.insert(bucket@, process),
            !old(self)@.dom().contains(bucket@) ==> r == Err::<P, P>(process) && final(self)@ == old(self)@,
    {
        proof {
            use_type_invariant(&*self);
            lemma_table_dom(self.entries@, bucket@);
        }
        match Self::position(&self.entries, &bucket) {
            Some(_) => {
                match self.remove(&bucket) {
                    Some(prev) => {
                        let _ = self.insert(bucket, process);
                        proof {
                            assert(old(self)@.remove(bucket@).insert(bucket@, process) =~= old(self)@.insert(bucket@, process));
                        }
                        Ok(prev)
                    },
                    None => Err(process),
                }
            },
            None => Err(process),
        }
    }

    /// Takes every (bucket, process) entry out of the table, leaving it empty: each bucket
    /// held comes back exactly once, with its process.
    pub fn drain(&mut self) -> (r: Vec<(String, P)>)
        ensures
            final(self)@ == Map::<Seq<char>, P>::empty(),
            forall|i: int, j: int| 0 <= i < j < r@.len() ==> (#[trigger] r@[i]).0@ != (#[trigger] r@[j]).0@,
            forall|i: int| 0 <= i < r@.len() ==> old(self)@.dom().contains(#[trigger] r@[i].0@) && old(self)@[r@[i].0@]
                == r@[i].1,
            forall|k: Seq<char>| #[trigger] old(self)@.dom().contains(k) ==> exists|i: int| 0 <= i < r@.len() && r@[i].0@ == k,
    {
        proof {
            use_type_invariant(&*self);
        }
        let mut entries: Vec<(String, P)> = Vec::new();
        std::mem::swap(&mut entries, &mut self.entries);
        let ghost t = entries@;
        proof {
            assert forall|i: int| 0 <= i < t.len() implies old(self)@.dom().contains(#[trigger] t[i].0@) && old(self)@[t[i].0@] == t[i].1 by {
                lemma_table_value(t, i);
            }
            assert forall|k: Seq<char>| #[trigger] old(self)@.dom().contains(k) implies exists|i: int| 0 <= i < t.len() && t[i].0@ == k by {
                lemma_table_dom(t, k);
            }
        }
        assert(table_map(self.entries@) =~= Map::<Seq<char>, P>::empty());
        entries
    }
}

/// With unique buckets, the map holds as many buckets as there are entries.
pub proof fn lemma_table_len<P>(t: Seq<(String, P)>)
    requires
        unique_keys(t),
    ensures
        table_map(t).dom().finite(),
        table_map(t).dom().len() == t.len(),
    decreases t.len(),
{
    if t.len() > 0 {
        assert(unique_keys(t.drop_last()));
        lemma_table_len(t.drop_last());
        lemma_table_dom(t.drop_last(), t.last().0@);
        if table_map(t.drop_last()).dom().contains(t.last().0@) {
            let i = choose|i: int| 0 <= i < t.drop_last().len() && #[trigger] t.drop_last()[i].0@ == t.last().0@;
            assert(t[i].0@ == t[t.len() - 1].0@);
        }
    }
}

} // verus!
