use vstd::prelude::*;
use vstd::arithmetic::div_mod::{lemma_fundamental_div_mod, lemma_mod_pos_bound};
use crate::report::Report;

verus! {

/// Records in non-decreasing order of time.
pub open spec fn sorted_by_time(s: Seq<Report>) -> bool {
    forall|i: int, j: int| 0 <= i <= j < s.len() ==> s[i].time <= s[j].time
}

/// No record is later than `now`.
pub open spec fn none_after(s: Seq<Report>, now: int) -> bool {
    forall|i: int| 0 <= i < s.len() ==> s[i].time <= now
}

/// Number of whole windows of `width` between the earliest record and `now`.
pub open spec fn window_count(s: Seq<Report>, now: int, width: int) -> int {
    (now - s[0].time) / width
}

/// Left edge of the first window: whole windows are laid back from `now`,
/// one more than `window_count`, so that the first window reaches the
/// earliest record.
pub open spec fn window_start(s: Seq<Report>, now: int, width: int) -> int {
    now - width * (window_count(s, now, width) + 1)
}

/// Right edge of the window with 1-based index `c`, counted from `start`.
pub open spec fn window_edge(start: int, width: int, c: int) -> int {
    start + width * c
}

/// The records of a sequence of windows, one window after another.
pub open spec fn flatten(ws: Seq<Vec<Report>>) -> Seq<Report>
    decreases ws.len(),
{
    if ws.len() == 0 {
        Seq::empty()
    } else {
        flatten(ws.drop_last()) + ws.last()@
    }
}

/// Window `i` (0-based) of `ws` holds exactly records later than the edge
/// of window `i` and no later than the edge of window `i + 1`.
pub open spec fn windows_bounded(ws: Seq<Vec<Report>>, start: int, width: int) -> bool {
    forall|i: int, j: int|
        0 <= i < ws.len() && 0 <= j < ws[i]@.len() ==> window_edge(start, width, i) < (
        #[trigger] ws[i]@[j]).time <= window_edge(start, width, i + 1)
}

/// Splits a time-ordered sequence of records into successive windows of
/// `sample_size` milliseconds whose edges are laid back from `now`.
///
/// Window `c` (counted from 1) holds the records later than
/// `start + sample_size * (c - 1)` and no later than `start + sample_size * c`.
/// Windows are handed out one at a time by `next`, empty ones included,
/// until every record has been handed out.
pub struct ReportSample {
    reports: Vec<Report>,
    sample_size: i64,
    curr_sample: i128,
    start_date: i128,
    now: i64,
}

impl ReportSample {
    /// The records not handed out yet.
    pub closed spec fn remaining(&self) -> Seq<Report> {
        self.reports@
    }

    /// Width of a window, in milliseconds.
    pub closed spec fn width(&self) -> int {
        self.sample_size as int
    }

    /// 1-based index of the window that `next` hands out.
    pub closed spec fn index(&self) -> int {
        self.curr_sample as int
    }

    /// Left edge of the first window.
    pub closed spec fn start(&self) -> int {
        self.start_date as int
    }

    /// The instant the windows are anchored to.
    pub closed spec fn anchor(&self) -> int {
        self.now as int
    }

    /// Right edge of the window with 1-based index `c`.
    pub open spec fn edge(&self, c: int) -> int {
        window_edge(self.start(), self.width(), c)
    }

    pub closed spec fn wf(&self) -> bool {
        &&& self.sample_size > 0
        &&& self.curr_sample >= 1
        &&& self.start_date <= self.now
        &&& self.now - self.start_date <= 0x4_0000_0000_0000_0000
        &&& sorted_by_time(self.reports@)
        &&& forall|i: int|
            0 <= i < self.reports@.len() ==> self.edge(self.curr_sample - 1) < #[trigger] self.reports@[i].time
                <= self.now
    }

    /// Prepares the windows over `reports`, which are in time order and no
    /// later than `now`. The first window starts at `window_start`.
    pub fn new(reports: Vec<Report>, now: i64, sample_size: i64) -> (r: ReportSample)
        requires
            sample_size > 0,
            sorted_by_time(reports@),
            none_after(reports@, now as int),
        ensures
            r.wf(),
            r.remaining() == reports@,
            r.width() == sample_size,
            r.index() == 1,
            r.anchor() == now,
            reports@.len() > 0 ==> r.start() == window_start(reports@, now as int, sample_size as int),
    {
        if reports.len() == 0 {
            return ReportSample { reports, sample_size, curr_sample: 1, start_date: now as i128, now };
        }
        let first: i64 = reports[0].time;
        let span: u128 = (now as i128 - first as i128) as u128;
        let width: u128 = sample_size as u128;
        let max_samples: u128 = span / width;
        proof {
            lemma_fundamental_div_mod(span as int, width as int);
            lemma_mod_pos_bound(span as int, width as int);
            assert(width * max_samples <= span);
            assert(max_samples <= span) by (nonlinear_arith)
                requires width * max_samples <= span, width >= 1, max_samples >= 0;
            assert((sample_size as int) * (max_samples + 1) == width * max_samples + width) by (nonlinear_arith)
                requires width == sample_size;
        }
        let back: i128 = (sample_size as i128) * (max_samples as i128 + 1);
        let start_date: i128 = now as i128 - back;
        let r = ReportSample { reports, sample_size, curr_sample: 1, start_date, now };
        proof {
            assert forall|i: int| 0 <= i < r.reports@.len() implies r.edge(0) < #[trigger] r.reports@[i].time
                <= now by {
                assert(r.reports@[0].time <= r.reports@[i].time);
            }
        }
        r
    }

    /// Hands out the next window, or `None` once every record has been
    /// handed out. The window holds the leading records that are no later
    /// than the right edge of window `index()`; the rest stay.
    pub fn next(&mut self) -> (r: Option<Vec<Report>>)
        requires
            old(self).wf(),
        ensures
            final(self).wf(),
            final(self).width() == old(self).width(),
            final(self).start() == old(self).start(),
            final(self).anchor() == old(self).anchor(),
            old(self).remaining().len() == 0 ==> r is None && final(self).remaining() == old(self).remaining()
                && final(self).index() == old(self).index(),
            old(self).remaining().len() > 0 ==> r is Some && ({
                let w = r->0@;
                let e = old(self).edge(old(self).index());
                &&& w + final(self).remaining() == old(self).remaining()
                &&& forall|j: int| 0 <= j < w.len() ==> #[trigger] w[j].time <= e
                &&& forall|j: int|
                    0 <= j < final(self).remaining().len() ==> #[trigger] final(self).remaining()[j].time > e
                &&& final(self).index() == old(self).index() + 1
            }),
    {
        if self.reports.len() == 0 {
            return None;
        }
        proof {
            let c = self.curr_sample as int;
            let w = self.sample_size as int;
            let t = self.reports@[0].time as int;
            assert(self.start_date + w * (c - 1) < t);
            assert(w * c < 0x5_0000_0000_0000_0000) by (nonlinear_arith)
                requires
                    self.start_date + w * (c - 1) < t,
                    t <= self.now,
                    self.now - self.start_date <= 0x4_0000_0000_0000_0000,
                    1 <= w < 0x1_0000_0000_0000_0000,
                    c >= 1;
            assert(c <= w * c) by (nonlinear_arith)
                requires w >= 1, c >= 1;
        }
        let split_date: i128 = self.start_date + (self.sample_size as i128) * self.curr_sample;
        let mut split_index: usize = 0;
        while split_index < self.reports.len() && (self.reports[split_index].time as i128) <= split_date
            invariant
                split_index <= self.reports@.len(),
                forall|j: int| 0 <= j < split_index ==> #[trigger] self.reports@[j].time <= split_date,
            decreases self.reports@.len() - split_index,
        {
            split_index = split_index + 1;
        }
        let ghost before = self.reports@;
        let mut sample = self.reports.split_off(split_index);
        std::mem::swap(&mut self.reports, &mut sample);
        self.curr_sample = self.curr_sample + 1;
        proof {
            assert(sample@ + self.reports@ =~= before);
            assert forall|j: int| 0 <= j < self.reports@.len() implies #[trigger] self.reports@[j].time > split_date by {
                assert(before[split_index as int].time > split_date);
                assert(before[split_index as int].time <= before[split_index + j].time);
            }
        }
        Some(sample)
    }
}

proof fn lemma_push_window(ws: Seq<Vec<Report>>, w: Vec<Report>, start: int, width: int)
    requires
        windows_bounded(ws, start, width),
        forall|j: int|
            0 <= j < w@.len() ==> window_edge(start, width, ws.len() as int) < #[trigger] w@[j].time
                <= window_edge(start, width, ws.len() as int + 1),
    ensures
        windows_bounded(ws.push(w), start, width),
        flatten(ws.push(w)) == flatten(ws) + w@,
{
    assert(ws.push(w).drop_last() =~= ws);
    let ws2 = ws.push(w);
    assert forall|i: int, j: int| 0 <= i < ws2.len() && 0 <= j < ws2[i]@.len() implies window_edge(start, width, i)
        < (#[trigger] ws2[i]@[j]).time <= window_edge(start, width, i + 1) by {
        if i < ws.len() {
            assert(ws2[i] == ws[i]);
        }
    }
}

proof fn lemma_last_window(all: Seq<Report>, ws: Seq<Vec<Report>>, now: int, width: int)
    requires
        width > 0,
        all.len() > 0,
        none_after(all, now),
        flatten(ws) == all,
        ws.len() > 0,
        ws.last()@.len() > 0,
        windows_bounded(ws, window_start(all, now, width), width),
    ensures
        window_edge(window_start(all, now, width), width, ws.len() as int) <= now,
        all.last().time > now - width ==> window_edge(window_start(all, now, width), width, ws.len() as int)
            == now,
        forall|i: int, j: int| 0 <= i < ws.len() && 0 <= j < ws[i]@.len() ==> (#[trigger] ws[i]@[j]).time <= now,
{
    let start = window_start(all, now, width);
    let n = ws.len() as int;
    let t = all.last().time as int;
    let k = ws.last()@.len() - 1;
    assert(flatten(ws) == flatten(ws.drop_last()) + ws.last()@);
    assert(all.last() == ws[n - 1]@[k]);
    assert(window_edge(start, width, n - 1) < t <= window_edge(start, width, n));
    let m = window_count(all, now, width);
    assert(window_edge(start, width, n) <= now) by (nonlinear_arith)
        requires
            start + width * (n - 1) < t,
            t <= now,
            start == now - width * (m + 1),
            width > 0;
    assert forall|i: int, j: int| 0 <= i < ws.len() && 0 <= j < ws[i]@.len() implies (#[trigger] ws[i]@[j]).time
        <= now by {
        let e = window_edge(start, width, i + 1);
        assert(e <= window_edge(start, width, n)) by (nonlinear_arith)
            requires e == start + width * (i + 1), i + 1 <= n, width > 0;
    }
    if t > now - width {
        assert(window_edge(start, width, n) == now) by (nonlinear_arith)
            requires
                start + width * (n - 1) < t,
                t <= start + width * n,
                start + width * n <= now,
                t > now - width,
                start == now - width * (m + 1),
                width > 0;
    }
}

/// Splits `reports`, in time order and no later than `now`, into the
/// successive windows of `sample_size` milliseconds that `ReportSample`
/// hands out, empty windows included.
///
/// The windows, read one after another, are `reports` itself; window `i`
/// (0-based) holds exactly the records between the edges of windows `i` and
/// `i + 1`; the last window is not empty and ends no later than `now`, and
/// it ends exactly at `now` when the latest record falls in the last
/// `sample_size` before `now`. No records, no windows.
pub fn partition(reports: Vec<Report>, now: i64, sample_size: i64) -> (ws: Vec<Vec<Report>>)
    requires
        sample_size > 0,
        sorted_by_time(reports@),
        none_after(reports@, now as int),
    ensures
        flatten(ws@) == reports@,
        reports@.len() == 0 <==> ws@.len() == 0,
        reports@.len() > 0 ==> ({
            let start = window_start(reports@, now as int, sample_size as int);
            &&& windows_bounded(ws@, start, sample_size as int)
            &&& ws@.last()@.len() > 0
            &&& window_edge(start, sample_size as int, ws@.len() as int) <= now
            &&& forall|i: int, j: int|
                0 <= i < ws@.len() && 0 <= j < ws@[i]@.len() ==> (#[trigger] ws@[i]@[j]).time <= now
            &&& reports@.last().time > now - sample_size ==> window_edge(
                start,
                sample_size as int,
                ws@.len() as int,
            ) == now
        }),
{
    let ghost all = reports@;
    let mut sampler = ReportSample::new(reports, now, sample_size);
    let mut ws: Vec<Vec<Report>> = Vec::new();
    loop
        invariant
            sampler.wf(),
            sampler.width() == sample_size,
            sampler.anchor() == now,
            all.len() > 0 ==> sampler.start() == window_start(all, now as int, sample_size as int),
            all.len() == 0 ==> sampler.remaining().len() == 0,
            flatten(ws@) + sampler.remaining() == all,
            sampler.index() == ws@.len() + 1,
            windows_bounded(ws@, sampler.start(), sample_size as int),
            ws@.len() > 0 && sampler.remaining().len() == 0 ==> ws@.last()@.len() > 0,
            ws@.len() > 0 ==> sampler.edge(ws@.len() as int) < sampler.anchor()
                || sampler.remaining().len() == 0,
        ensures
            sampler.remaining().len() == 0,
            sampler.width() == sample_size,
            all.len() > 0 ==> sampler.start() == window_start(all, now as int, sample_size as int),
            flatten(ws@) + sampler.remaining() == all,
            windows_bounded(ws@, sampler.start(), sample_size as int),
            ws@.len() > 0 ==> ws@.last()@.len() > 0,
        decreases (if sampler.remaining().len() == 0 {
            0
        } else {
            sampler.anchor() - sampler.edge(sampler.index() - 1)
        }),
    {
        let ghost prev = sampler;
        let ghost prev_ws = ws@;
        match sampler.next() {
            None => {
                break ;
            },
            Some(w) => {
                proof {
                    let c = prev.index();
                    assert(prev.remaining().len() > 0);
                    assert(prev.edge(c - 1) < prev.remaining()[0].time <= prev.anchor());
                    assert(prev.edge(c) == prev.edge(c - 1) + sample_size) by (nonlinear_arith)
                        requires
                            prev.edge(c) == prev.start() + sample_size * c,
                            prev.edge(c - 1) == prev.start() + sample_size * (c - 1);
                }
                proof {
                    let c = prev.index();
                    assert forall|j: int| 0 <= j < w@.len() implies prev.edge(c - 1) < #[trigger] w@[j].time
                        <= prev.edge(c) by {
                        assert(w@[j] == prev.remaining()[j]);
                    }
                    lemma_push_window(ws@, w, sampler.start(), sample_size as int);
                    if sampler.remaining().len() > 0 {
                        assert(sampler.edge(c) < sampler.remaining()[0].time);
                    }
                }
                ws.push(w);
            },
        }
    }
    proof {
        if ws@.len() == 0 {
            assert(flatten(ws@) =~= Seq::<Report>::empty());
        }
        assert(flatten(ws@) + sampler.remaining() =~= flatten(ws@));
        if all.len() > 0 {
            lemma_last_window(all, ws@, now as int, sample_size as int);
        }
    }
    ws
}

} // verus!
