use vstd::prelude::*;
use vstd::string::StrSliceExecFns;
use crate::report::Report;
use crate::sample::{sorted_by_time, none_after};

verus! {

/// `t` with `r` placed after every record of `t` that is no later than `r`
/// and before the later ones: one step of a stable insertion sort.
pub open spec fn insert_by_time(t: Seq<Report>, r: Report) -> Seq<Report>
    decreases t.len(),
{
    if t.len() == 0 {
        seq![r]
    } else if t.last().time <= r.time {
        t.push(r)
    } else {
        insert_by_time(t.drop_last(), r).push(t.last())
    }
}

/// `s` in time order; records with equal times keep their relative order.
pub open spec fn sort_by_time(s: Seq<Report>) -> Seq<Report>
    decreases s.len(),
{
    if s.len() == 0 {
        s
    } else {
        insert_by_time(sort_by_time(s.drop_last()), s.last())
    }
}

/// `p` is the start of `b`.
pub open spec fn starts_with(b: Seq<char>, p: Seq<char>) -> bool {
    p.len() <= b.len() && b.subrange(0, p.len() as int) == p
}

/// Record `r` passes the build-name prefix (when one is given) and lies
/// strictly between `min_date` and `now`.
pub open spec fn keeps(r: Report, prefix: Option<Seq<char>>, min_date: int, now: int) -> bool {
    &&& match prefix {
        None => true,
        Some(p) => starts_with(r.build@, p),
    }
    &&& min_date < r.time < now
}

/// The records of `s` that `keeps` admits, in their order.
pub open spec fn kept(s: Seq<Report>, prefix: Option<Seq<char>>, min_date: int, now: int) -> Seq<Report>
    decreases s.len(),
{
    if s.len() == 0 {
        s
    } else {
        let k = kept(s.drop_last(), prefix, min_date, now);
        if keeps(s.last(), prefix, min_date, now) {
            k.push(s.last())
        } else {
            k
        }
    }
}

/// The prefix as a sequence of characters.
pub open spec fn prefix_view(prefix: Option<String>) -> Option<Seq<char>> {
    match prefix {
        None => None,
        Some(p) => Some(p@),
    }
}

proof fn lemma_insert_at(t: Seq<Report>, r: Report, k: int)
    requires
        0 <= k <= t.len(),
        forall|j: int| k <= j < t.len() ==> #[trigger] t[j].time > r.time,
        k > 0 ==> t[k - 1].time <= r.time,
    ensures
        insert_by_time(t, r) == t.insert(k, r),
    decreases t.len(),
{
    if t.len() == 0 {
        assert(t.insert(k, r) =~= seq![r]);
    } else if k == t.len() {
        assert(t.insert(k, r) =~= t.push(r));
    } else {
        lemma_insert_at(t.drop_last(), r, k);
        assert(t.insert(k, r) =~= t.drop_last().insert(k, r).push(t.last()));
    }
}

proof fn lemma_kept_sorted(s: Seq<Report>, prefix: Option<Seq<char>>, min_date: int, now: int)
    requires
        sorted_by_time(s),
    ensures
        sorted_by_time(kept(s, prefix, min_date, now)),
        forall|i: int|
            0 <= i < kept(s, prefix, min_date, now).len() ==> keeps(
                #[trigger] kept(s, prefix, min_date, now)[i],
                prefix,
                min_date,
                now,
            ),
        s.len() > 0 ==> forall|i: int|
            0 <= i < kept(s, prefix, min_date, now).len() ==> #[trigger] kept(s, prefix, min_date, now)[i].time
                <= s.last().time,
    decreases s.len(),
{
    if s.len() > 0 {
        let d = s.drop_last();
        lemma_kept_sorted(d, prefix, min_date, now);
        if d.len() > 0 {
            assert(d.last().time <= s.last().time);
        }
    }
}

/// Whether `b` starts with `p`.
fn has_prefix(b: &str, p: &str) -> (r: bool)
    ensures
        r == starts_with(b@, p@),
{
    let n: usize = p.unicode_len();
    if n > b.unicode_len() {
        return false;
    }
    let mut i: usize = 0;
    while i < n
        invariant
            n == p@.len(),
            n <= b@.len(),
            i <= n,
            b@.subrange(0, i as int) == p@.subrange(0, i as int),
        decreases n - i,
    {
        if b.get_char(i) != p.get_char(i) {
            assert(b@.subrange(0, n as int)[i as int] != p@[i as int]);
            return false;
        }
        i = i + 1;
        assert(b@.subrange(0, i as int) =~= p@.subrange(0, i as int));
    }
    assert(p@.subrange(0, n as int) =~= p@);
    true
}

/// Whether `r` passes the prefix and the range between `min_date` and `now`,
/// both excluded.
fn keeps_report(r: &Report, prefix: &Option<String>, min_date: i128, now: i64) -> (b: bool)
    ensures
        b == keeps(*r, prefix_view(*prefix), min_date as int, now as int),
{
    let name_ok = match prefix {
        None => true,
        Some(p) => has_prefix(r.build.as_str(), p.as_str()),
    };
    name_ok && min_date < r.time as i128 && r.time < now
}

/// `reports` in time order, by a stable sort: records with equal times keep
/// their relative order.
pub fn sort_reports(reports: Vec<Report>) -> (r: Vec<Report>)
    ensures
        r@ == sort_by_time(reports@),
        sorted_by_time(r@),
{
    let ghost all = reports@;
    let mut out: Vec<Report> = Vec::new();
    for x in it: reports.into_iter()
        invariant
            it.seq() == all,
            out@ == sort_by_time(all.take(it.index() as int)),
            sorted_by_time(out@),
    {
        let ghost i = it.index() as int;
        let mut k: usize = out.len();
        while k > 0 && out[k - 1].time > x.time
            invariant
                k <= out@.len(),
                forall|j: int| k <= j < out@.len() ==> #[trigger] out@[j].time > x.time,
            decreases k,
        {
            k = k - 1;
        }
        let ghost before = out@;
        proof {
            lemma_insert_at(before, x, k as int);
            assert(all.take(i + 1).drop_last() =~= all.take(i));
            assert(all.take(i + 1).last() == x);
        }
        out.insert(k, x);
        proof {
            assert forall|a: int, b: int| 0 <= a <= b < out@.len() implies out@[a].time <= out@[b].time by {
                if a < k && b >= k {
                    assert(before[a].time <= before[k - 1].time);
                }
            }
        }
    }
    proof {
        assert(all.take(all.len() as int) =~= all);
    }
    out
}

/// The records of `reports` that `keeps` admits, in their order.
pub fn filter_reports(reports: Vec<Report>, prefix: &Option<String>, min_date: i128, now: i64) -> (r: Vec<Report>)
    ensures
        r@ == kept(reports@, prefix_view(*prefix), min_date as int, now as int),
{
    let ghost all = reports@;
    let mut out: Vec<Report> = Vec::new();
    for x in it: reports.into_iter()
        invariant
            it.seq() == all,
            out@ == kept(all.take(it.index() as int), prefix_view(*prefix), min_date as int, now as int),
    {
        let ghost i = it.index() as int;
        proof {
            assert(all.take(i + 1).drop_last() =~= all.take(i));
            assert(all.take(i + 1).last() == x);
        }
        if keeps_report(&x, prefix, min_date, now) {
            out.push(x);
        }
    }
    proof {
        assert(all.take(all.len() as int) =~= all);
    }
    out
}

/// Puts `reports` in time order (stable), then keeps those whose build name
/// starts with `prefix` (all of them when there is none) and whose time lies
/// strictly between `now - window` and `now`: a record at either bound is
/// left out.
pub fn select(reports: Vec<Report>, now: i64, window: i64, prefix: &Option<String>) -> (r: Vec<Report>)
    ensures
        r@ == kept(sort_by_time(reports@), prefix_view(*prefix), now - window, now as int),
        sorted_by_time(r@),
        none_after(r@, now as int),
        forall|i: int| 0 <= i < r@.len() ==> now - window < #[trigger] r@[i].time < now,
{
    let sorted = sort_reports(reports);
    let min_date: i128 = now as i128 - window as i128;
    let r = filter_reports(sorted, prefix, min_date, now);
    proof {
        lemma_kept_sorted(sort_by_time(reports@), prefix_view(*prefix), min_date as int, now as int);
    }
    r
}

} // verus!
