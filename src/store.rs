use vstd::prelude::*;
use crate::report::Report;

verus! {

/// Some record of `s` has the build name `b`.
pub open spec fn has_build(s: Seq<Report>, b: Seq<char>) -> bool {
    exists|i: int| 0 <= i < s.len() && (#[trigger] s[i]).build@ == b
}

/// No two records of `s` share a build name.
pub open spec fn distinct_builds(s: Seq<Report>) -> bool {
    forall|i: int, j: int| 0 <= i < j < s.len() ==> (#[trigger] s[i]).build@ != (#[trigger] s[j]).build@
}

/// `d` after taking in the records of `s` in order: a record joins at the
/// end unless a record with its build name is already there, in which case
/// the one already there stays.
pub open spec fn absorb(d: Seq<Report>, s: Seq<Report>) -> Seq<Report>
    decreases s.len(),
{
    if s.len() == 0 {
        d
    } else {
        let e = absorb(d, s.drop_last());
        if has_build(e, s.last().build@) {
            e
        } else {
            e.push(s.last())
        }
    }
}

/// The set of build names in `s`.
pub open spec fn build_names(s: Seq<Report>) -> Set<Seq<char>> {
    Set::new(|b: Seq<char>| has_build(s, b))
}

/// The records of all `batches`, taken in order, with one record per build
/// name: the first one met.
pub open spec fn merged(batches: Seq<Vec<Report>>) -> Seq<Report>
    decreases batches.len(),
{
    if batches.len() == 0 {
        Seq::empty()
    } else {
        absorb(merged(batches.drop_last()), batches.last()@)
    }
}

proof fn lemma_absorb_keeps(d: Seq<Report>, s: Seq<Report>, b: Seq<char>)
    requires
        has_build(d, b) || has_build(s, b),
    ensures
        has_build(absorb(d, s), b),
    decreases s.len(),
{
    if s.len() > 0 {
        let e = absorb(d, s.drop_last());
        if s.last().build@ == b {
            if !has_build(e, b) {
                assert(e.push(s.last())[e.len() as int].build@ == b);
            }
        } else {
            if has_build(s, b) {
                let i = choose|i: int| 0 <= i < s.len() && (#[trigger] s[i]).build@ == b;
                assert(s.drop_last()[i] == s[i]);
            }
            lemma_absorb_keeps(d, s.drop_last(), b);
            let i = choose|i: int| 0 <= i < e.len() && (#[trigger] e[i]).build@ == b;
            assert(e.push(s.last())[i] == e[i]);
        }
    }
}

proof fn lemma_absorb_known(d: Seq<Report>, s: Seq<Report>)
    requires
        forall|i: int| 0 <= i < s.len() ==> has_build(d, (#[trigger] s[i]).build@),
    ensures
        absorb(d, s) == d,
    decreases s.len(),
{
    if s.len() > 0 {
        assert forall|i: int| 0 <= i < s.drop_last().len() implies has_build(d, (#[trigger] s.drop_last()[i]).build@) by {
            assert(s.drop_last()[i] == s[i]);
        }
        lemma_absorb_known(d, s.drop_last());
        assert(has_build(d, s[s.len() - 1].build@));
    }
}

proof fn lemma_absorb_distinct(d: Seq<Report>, s: Seq<Report>)
    requires
        distinct_builds(d),
    ensures
        distinct_builds(absorb(d, s)),
    decreases s.len(),
{
    if s.len() > 0 {
        lemma_absorb_distinct(d, s.drop_last());
        let e = absorb(d, s.drop_last());
        if !has_build(e, s.last().build@) {
            let f = e.push(s.last());
            assert forall|i: int, j: int| 0 <= i < j < f.len() implies (#[trigger] f[i]).build@ != (
            #[trigger] f[j]).build@ by {
                if j == e.len() {
                    assert(f[i] == e[i]);
                } else {
                    assert(f[i] == e[i] && f[j] == e[j]);
                }
            }
        }
    }
}

/// Taking in a batch a second time changes nothing: every build name of the
/// batch is already there, so the records stay as they are.
pub proof fn lemma_absorb_twice(d: Seq<Report>, s: Seq<Report>)
    ensures
        absorb(absorb(d, s), s) == absorb(d, s),
        build_names(absorb(absorb(d, s), s)) == build_names(absorb(d, s)),
{
    let e = absorb(d, s);
    assert forall|i: int| 0 <= i < s.len() implies has_build(e, (#[trigger] s[i]).build@) by {
        assert(has_build(s, s[i].build@));
        lemma_absorb_keeps(d, s, s[i].build@);
    }
    lemma_absorb_known(e, s);
}

/// Merging a batch together with itself gives what merging it alone gives,
/// records and build names alike.
pub proof fn lemma_merge_twice(b: Vec<Report>)
    ensures
        merged(seq![b, b]) == merged(seq![b]),
        build_names(merged(seq![b, b])) == build_names(merged(seq![b])),
{
    let one = seq![b];
    let two = seq![b, b];
    assert(two.drop_last() =~= one);
    assert(one.drop_last() =~= Seq::<Vec<Report>>::empty());
    assert(merged(one.drop_last()) == Seq::<Report>::empty());
    assert(merged(one) == absorb(Seq::empty(), b@));
    assert(merged(two) == absorb(merged(one), b@));
    lemma_absorb_twice(Seq::empty(), b@);
}

/// Whether a record of `d` has the build name `b`.
fn contains_build(d: &Vec<Report>, b: &String) -> (r: bool)
    ensures
        r == has_build(d@, b@),
{
    let mut i: usize = 0;
    while i < d.len()
        invariant
            i <= d@.len(),
            forall|j: int| 0 <= j < i ==> (#[trigger] d@[j]).build@ != b@,
        decreases d@.len() - i,
    {
        if d[i].build == *b {
            return true;
        }
        i = i + 1;
    }
    false
}

/// Records keyed by build name: at most one record per name.
pub struct RecordStore {
    records: Vec<Report>,
}

impl RecordStore {
    /// The records held, in the order in which they first came.
    pub closed spec fn view_records(&self) -> Seq<Report> {
        self.records@
    }

    /// An empty store.
    pub fn new() -> (s: RecordStore)
        ensures
            s.view_records() == Seq::<Report>::empty(),
            distinct_builds(s.view_records()),
    {
        RecordStore { records: Vec::new() }
    }

    /// Takes in `batch`: each record whose build name is new joins the
    /// store; a record whose name is already held is dropped, and the record
    /// held stays.
    pub fn insert_batch(&mut self, batch: Vec<Report>)
        requires
            distinct_builds(old(self).view_records()),
        ensures
            final(self).view_records() == absorb(old(self).view_records(), batch@),
            distinct_builds(final(self).view_records()),
    {
        let ghost start = self.records@;
        let ghost all = batch@;
        for x in it: batch.into_iter()
            invariant
                it.seq() == all,
                self.records@ == absorb(start, all.take(it.index() as int)),
        {
            let ghost i = it.index() as int;
            proof {
                assert(all.take(i + 1).drop_last() =~= all.take(i));
                assert(all.take(i + 1).last() == x);
            }
            if !contains_build(&self.records, &x.build) {
                self.records.push(x);
            }
        }
        proof {
            assert(all.take(all.len() as int) =~= all);
            lemma_absorb_distinct(start, all);
        }
    }

    /// The records held, one per build name.
    pub fn into_records(self) -> (r: Vec<Report>)
        ensures
            r@ == self.view_records(),
    {
        self.records
    }
}

/// Merges `batches` into one collection with one record per build name.
/// On a clash of names the record met first, in batch order and then in
/// order within the batch, is the one kept.
pub fn merge_batches(batches: Vec<Vec<Report>>) -> (r: Vec<Report>)
    ensures
        r@ == merged(batches@),
        distinct_builds(r@),
{
    let ghost all = batches@;
    let mut store = RecordStore::new();
    for b in it: batches.into_iter()
        invariant
            it.seq() == all,
            store.view_records() == merged(all.take(it.index() as int)),
            distinct_builds(store.view_records()),
    {
        let ghost i = it.index() as int;
        proof {
            assert(all.take(i + 1).drop_last() =~= all.take(i));
            assert(all.take(i + 1).last() == b);
        }
        store.insert_batch(b);
    }
    proof {
        assert(all.take(all.len() as int) =~= all);
    }
    store.into_records()
}

} // verus!
