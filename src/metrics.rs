use vstd::prelude::*;
use vstd::arithmetic::div_mod::lemma_mod_multiples_vanish;
use crate::cli::DAY_MS;
use crate::report::Report;
use crate::sample::{flatten, partition, window_start, windows_bounded, sorted_by_time, none_after};
use crate::select::{kept, prefix_view, select, sort_by_time};
use crate::stats::{describes, summarize, SampleStats};
use crate::store::{merge_batches, merged};

verus! {

/// Start of the UTC day that holds instant `t` (milliseconds).
pub open spec fn day_start(t: int) -> int {
    t - t % (DAY_MS as int)
}

/// The instant a report ends at: `t` itself, the start of its day, or
/// the start of the next day.
pub open spec fn anchor_instant(t: int, use_now: bool, include_today: bool) -> int {
    if use_now {
        t
    } else if include_today {
        day_start(t) + DAY_MS
    } else {
        day_start(t)
    }
}

/// The instant a report ends at, from the present instant `now`: `now`
/// itself when `use_now`, else the start of the next UTC day when
/// `include_today`, else the start of the current UTC day.
pub fn reference_instant(now: i64, use_now: bool, include_today: bool) -> (r: i64)
    requires
        !use_now ==> i64::MIN + DAY_MS <= now,
        !use_now && include_today ==> now + DAY_MS <= i64::MAX,
    ensures
        r == anchor_instant(now as int, use_now, include_today),
{
    if use_now {
        return now;
    }
    let shift: i128 = 0x8000_0000_0000 * (DAY_MS as i128);
    let offset: u128 = ((now as i128 + shift) as u128) % (DAY_MS as u128);
    proof {
        lemma_mod_multiples_vanish(0x8000_0000_0000, now as int, DAY_MS as int);
        assert(0 <= (now as int) % (DAY_MS as int) < DAY_MS);
        assert(offset == (now as int) % (DAY_MS as int));
    }
    let start: i64 = (now as i128 - offset as i128) as i64;
    if include_today {
        start + DAY_MS
    } else {
        start
    }
}

/// `ws` is how `partition` splits `sel` into windows of `width` anchored
/// at `now`.
pub open spec fn is_partition(ws: Seq<Vec<Report>>, sel: Seq<Report>, now: int, width: int) -> bool {
    &&& flatten(ws) == sel
    &&& sel.len() == 0 <==> ws.len() == 0
    &&& sel.len() > 0 ==> windows_bounded(ws, window_start(sel, now, width), width) && ws.last()@.len() > 0
}

/// One row of statistics per window, and the overall row.
pub struct MetricsTable {
    pub rows: Vec<SampleStats>,
    pub overall: Option<SampleStats>,
}

/// The records a report covers: `batches` merged to one record per build
/// name, in time order, with the prefix and the open range from
/// `now - window` to `now` applied.
pub open spec fn covered(batches: Seq<Vec<Report>>, now: int, window: int, prefix: Option<String>) -> Seq<Report> {
    kept(sort_by_time(merged(batches)), prefix_view(prefix), now - window, now)
}

/// The records a report covers, in time order: `batches` merged with one
/// record per build name, then sorted and filtered as `select` does.
pub fn export(batches: Vec<Vec<Report>>, now: i64, window: i64, prefix: &Option<String>) -> (r: Vec<Report>)
    ensures
        r@ == covered(batches@, now as int, window as int, *prefix),
        sorted_by_time(r@),
        none_after(r@, now as int),
{
    let all = merge_batches(batches);
    select(all, now, window, prefix)
}

/// Statistics of a report: the covered records (see `covered`) are split
/// into windows of `sample_size` anchored at `now`, one row per window in
/// order, empty windows included. The overall row, over every covered
/// record, is there exactly when `sample_size` differs from `window`.
pub fn build_table(
    batches: Vec<Vec<Report>>,
    now: i64,
    window: i64,
    sample_size: i64,
    prefix: &Option<String>,
) -> (t: MetricsTable)
    requires
        sample_size > 0,
    ensures
        ({
            let sel = covered(batches@, now as int, window as int, *prefix);
            &&& exists|ws: Seq<Vec<Report>>|
                {
                    &&& is_partition(ws, sel, now as int, sample_size as int)
                    &&& ws.len() == t.rows@.len()
                    &&& forall|i: int| 0 <= i < ws.len() ==> describes(#[trigger] t.rows@[i], ws[i]@)
                }
            &&& (sample_size != window) == (t.overall is Some)
            &&& t.overall is Some ==> describes(t.overall->0, sel)
        }),
{
    let sel = export(batches, now, window, prefix);
    let ghost sel_view = sel@;
    let overall = if sample_size != window {
        Some(summarize(&sel))
    } else {
        None
    };
    let ws = partition(sel, now, sample_size);
    let mut rows: Vec<SampleStats> = Vec::new();
    let mut i: usize = 0;
    while i < ws.len()
        invariant
            i <= ws@.len(),
            rows@.len() == i,
            forall|j: int| 0 <= j < i ==> describes(#[trigger] rows@[j], ws@[j]@),
        decreases ws@.len() - i,
    {
        rows.push(summarize(&ws[i]));
        i = i + 1;
    }
    proof {
        assert(is_partition(ws@, sel_view, now as int, sample_size as int));
    }
    MetricsTable { rows, overall }
}

} // verus!
