//! In-memory stores with the durable tables' contracts: an append-only
//! activity log ordered by timestamp with a processed flag, and a report
//! table ordered by generation time. The relational engine that makes the
//! tables durable is an external concern; the invariants live here.

use vstd::prelude::*;
use crate::models::ActivityLog;
use crate::models::AiReport;
use crate::models::EventModel;
use crate::models::ReportModel;
use crate::models::copy_event;
use crate::models::copy_report;
use crate::models::wf_event;
use crate::time::valid_ts;

verus! {

broadcast use vstd::seq::group_seq_axioms, vstd::std_specs::vec::group_vec_axioms;

/// The models of a sequence of stored events.
pub open spec fn views_of(s: Seq<ActivityLog>) -> Seq<EventModel> {
    s.map_values(|e: ActivityLog| e@)
}

/// The models of a sequence of stored reports.
pub open spec fn report_views(s: Seq<AiReport>) -> Seq<ReportModel> {
    s.map_values(|r: AiReport| r@)
}

/// An event the unprocessed query keeps: inside the closed window, flag
/// still clear.
pub open spec fn keep_unprocessed(e: EventModel, lo: int, hi: int) -> bool {
    lo <= e.timestamp <= hi && !e.processed
}

/// Rows from position `i` on that the unprocessed query keeps, in order.
pub open spec fn unprocessed_from(rows: Seq<EventModel>, lo: int, hi: int, i: int) -> Seq<
    EventModel,
>
    decreases rows.len() - i,
{
    if i < 0 || i >= rows.len() {
        Seq::empty()
    } else if keep_unprocessed(rows[i], lo, hi) {
        seq![rows[i]] + unprocessed_from(rows, lo, hi, i + 1)
    } else {
        unprocessed_from(rows, lo, hi, i + 1)
    }
}

/// Rows the unprocessed query returns: the closed window, clear flags only,
/// oldest first.
pub open spec fn unprocessed_in(rows: Seq<EventModel>, lo: int, hi: int) -> Seq<EventModel> {
    unprocessed_from(rows, lo, hi, 0)
}

/// Rows of the closed window from position `i` on, whatever their flag.
pub open spec fn window_from(rows: Seq<EventModel>, lo: int, hi: int, i: int) -> Seq<EventModel>
    decreases rows.len() - i,
{
    if i < 0 || i >= rows.len() {
        Seq::empty()
    } else if lo <= rows[i].timestamp <= hi {
        seq![rows[i]] + window_from(rows, lo, hi, i + 1)
    } else {
        window_from(rows, lo, hi, i + 1)
    }
}

/// Every row of the closed window, oldest first.
pub open spec fn all_in(rows: Seq<EventModel>, lo: int, hi: int) -> Seq<EventModel> {
    window_from(rows, lo, hi, 0)
}

/// Rows of the half-open range taken from position `i` downward: with rows
/// ordered oldest first, this is the range newest first.
pub open spec fn range_desc_from(rows: Seq<EventModel>, lo: int, hi: int, i: int) -> Seq<
    EventModel,
>
    decreases i,
{
    if i <= 0 || i > rows.len() {
        Seq::empty()
    } else if lo <= rows[i - 1].timestamp < hi {
        seq![rows[i - 1]] + range_desc_from(rows, lo, hi, i - 1)
    } else {
        range_desc_from(rows, lo, hi, i - 1)
    }
}

/// The day-lookup result: the half-open range, newest first.
pub open spec fn range_desc(rows: Seq<EventModel>, lo: int, hi: int) -> Seq<EventModel> {
    range_desc_from(rows, lo, hi, rows.len() as int)
}

/// The rows after a window is marked processed: flags set inside the
/// window, everything else untouched.
pub open spec fn marked(rows: Seq<EventModel>, lo: int, hi: int) -> Seq<EventModel> {
    Seq::new(
        rows.len(),
        |i: int|
            if lo <= rows[i].timestamp <= hi {
                (EventModel { processed: true, ..rows[i] })
            } else {
                rows[i]
            },
    )
}

/// Every row the unprocessed query returns lies in the window with its flag
/// clear.
pub proof fn lemma_unprocessed_pred(rows: Seq<EventModel>, lo: int, hi: int, i: int)
    requires
        0 <= i <= rows.len(),
    ensures
        forall|k: int|
            0 <= k < unprocessed_from(rows, lo, hi, i).len() ==> keep_unprocessed(
                #[trigger] unprocessed_from(rows, lo, hi, i)[k],
                lo,
                hi,
            ),
    decreases rows.len() - i,
{
    if i < rows.len() {
        lemma_unprocessed_pred(rows, lo, hi, i + 1);
        let out = unprocessed_from(rows, lo, hi, i);
        let rest = unprocessed_from(rows, lo, hi, i + 1);
        if keep_unprocessed(rows[i], lo, hi) {
            assert forall|k: int| 0 <= k < out.len() implies keep_unprocessed(
                #[trigger] out[k],
                lo,
                hi,
            ) by {
                if k > 0 {
                    assert(out[k] == rest[k - 1]);
                }
            }
        }
    }
}

/// If no row from `i` on passes the unprocessed test, the query result is
/// empty.
proof fn lemma_unprocessed_none(rows: Seq<EventModel>, lo: int, hi: int, i: int)
    requires
        0 <= i <= rows.len(),
        forall|k: int| i <= k < rows.len() ==> !keep_unprocessed(#[trigger] rows[k], lo, hi),
    ensures
        unprocessed_from(rows, lo, hi, i) == Seq::<EventModel>::empty(),
    decreases rows.len() - i,
{
    if i < rows.len() {
        lemma_unprocessed_none(rows, lo, hi, i + 1);
    }
}

/// An unprocessed query never returns a processed row or one outside the
/// window; and after the window is marked processed, the same query over it
/// returns nothing.
pub proof fn lemma_unprocessed_query(rows: Seq<EventModel>, lo: int, hi: int)
    ensures
        forall|k: int|
            0 <= k < unprocessed_in(rows, lo, hi).len() ==> !(#[trigger] unprocessed_in(
                rows,
                lo,
                hi,
            )[k]).processed && lo <= unprocessed_in(rows, lo, hi)[k].timestamp <= hi,
        unprocessed_in(marked(rows, lo, hi), lo, hi) == Seq::<EventModel>::empty(),
{
    lemma_unprocessed_pred(rows, lo, hi, 0);
    let m = marked(rows, lo, hi);
    assert forall|k: int| 0 <= k < m.len() implies !keep_unprocessed(#[trigger] m[k], lo, hi) by {
        assert(m[k] == (if lo <= rows[k].timestamp <= hi {
            (EventModel { processed: true, ..rows[k] })
        } else {
            rows[k]
        }));
    }
    lemma_unprocessed_none(m, lo, hi, 0);
}

/// The durable activity-log table: append-only rows ordered by timestamp,
/// each with a monotonically assigned id and a processed flag.
pub struct LogStore {
    events: Vec<ActivityLog>,
    next_id: i64,
}

/// First position of `rows` (from `i` on) whose timestamp is above `t`; the
/// stable insertion point for a new event at `t`.
pub open spec fn insert_pos_from(rows: Seq<EventModel>, t: int, i: int) -> int
    decreases rows.len() - i,
{
    if i < 0 || i >= rows.len() {
        rows.len() as int
    } else if rows[i].timestamp <= t {
        insert_pos_from(rows, t, i + 1)
    } else {
        i
    }
}

pub open spec fn insert_pos(rows: Seq<EventModel>, t: int) -> int {
    insert_pos_from(rows, t, 0)
}

pub proof fn lemma_insert_pos(rows: Seq<EventModel>, t: int, i: int)
    requires
        0 <= i <= rows.len(),
    ensures
        i <= insert_pos_from(rows, t, i) <= rows.len(),
        forall|k: int| i <= k < insert_pos_from(rows, t, i) ==> rows[k].timestamp <= t,
        insert_pos_from(rows, t, i) < rows.len() ==> rows[insert_pos_from(rows, t, i)].timestamp
            > t,
    decreases rows.len() - i,
{
    if i < rows.len() && rows[i].timestamp <= t {
        lemma_insert_pos(rows, t, i + 1);
    }
}

impl LogStore {
    /// The stored rows, oldest timestamp first.
    pub closed spec fn rows(self) -> Seq<EventModel> {
        views_of(self.events@)
    }

    /// The id the next inserted row will get.
    pub closed spec fn next_id_spec(self) -> int {
        self.next_id as int
    }

    /// The id the next inserted row will get, readable at run time so a
    /// caller can test the headroom an insertion asks for.
    pub fn next_row_id(&self) -> (r: i64)
        ensures
            r as int == self.next_id_spec(),
    {
        self.next_id
    }

    /// Store invariant: rows are valid events ordered by timestamp, ids are
    /// unique and below the next id.
    pub open spec fn wf(self) -> bool {
        &&& 1 <= self.next_id_spec() < i64::MAX as int
        &&& forall|i: int|
            0 <= i < self.rows().len() ==> wf_event(#[trigger] self.rows()[i]) && 1
                <= self.rows()[i].id < self.next_id_spec()
        &&& forall|i: int, j: int|
            0 <= i < j < self.rows().len() ==> (#[trigger] self.rows()[i]).id
                != (#[trigger] self.rows()[j]).id
        &&& forall|i: int, j: int|
            0 <= i < j < self.rows().len() ==> (#[trigger] self.rows()[i]).timestamp
                <= (#[trigger] self.rows()[j]).timestamp
    }

    pub fn new() -> (r: LogStore)
        ensures
            r.wf(),
            r.rows() == Seq::<EventModel>::empty(),
            r.next_id_spec() == 1,
    {
        let r = LogStore { events: Vec::new(), next_id: 1 };
        proof {
            assert(r.rows() =~= Seq::<EventModel>::empty());
        }
        r
    }

    /// Append one event. The store assigns the next id and keeps its rows
    /// ordered by timestamp; equal timestamps keep arrival order.
    pub fn insert_event(&mut self, e: ActivityLog) -> (id: i64)
        requires
            old(self).wf(),
            old(self).next_id_spec() + 1 < i64::MAX as int,
            wf_event(e@),
            !e@.processed,
        ensures
            final(self).wf(),
            id as int == old(self).next_id_spec(),
            final(self).next_id_spec() == old(self).next_id_spec() + 1,
            final(self).rows() == old(self).rows().insert(
                insert_pos(old(self).rows(), e@.timestamp),
                (EventModel { id: id as int, ..e@ }),
            ),
    {
        let ghost rows0 = self.rows();
        let n = self.events.len();
        let mut i: usize = 0;
        while i < n && self.events[i].timestamp <= e.timestamp
            invariant
                i <= n,
                n == self.events@.len(),
                n == self.rows().len(),
                rows0 == self.rows(),
                forall|k: int| 0 <= k < n ==> #[trigger] rows0[k] == self.events@[k]@,
                insert_pos(rows0, e@.timestamp) == insert_pos_from(rows0, e@.timestamp, i as int),
            decreases n - i,
        {
            i = i + 1;
        }
        let ghost p = insert_pos(rows0, e@.timestamp);
        proof {
            lemma_insert_pos(rows0, e@.timestamp, 0);
            assert(p == i as int);
        }
        let id = self.next_id;
        let e2 = ActivityLog { id, ..e };
        self.events.insert(i, e2);
        self.next_id = id + 1;
        proof {
            let m = (EventModel { id: id as int, ..e@ });
            let rows1 = self.rows();
            assert(e2@ == m);
            assert(rows1 =~= rows0.insert(p, m));
            assert(forall|k: int| 0 <= k < p ==> rows1[k] == rows0[k]);
            assert(rows1[p] == m);
            assert(forall|k: int| p < k < rows1.len() ==> rows1[k] == rows0[k - 1]);
            assert forall|a: int, b: int| 0 <= a < b < rows1.len() implies (
            #[trigger] rows1[a]).timestamp <= (#[trigger] rows1[b]).timestamp by {
                lemma_insert_pos(rows0, e@.timestamp, 0);
                if a != p && b != p {
                    let a0: int = if a < p { a } else { a - 1 };
                    let b0: int = if b < p { b } else { b - 1 };
                    assert(rows1[a] == rows0[a0] && rows1[b] == rows0[b0]);
                } else if a == p {
                    assert(rows1[b] == rows0[b - 1]);
                    assert(b - 1 >= p);
                    if p < rows0.len() {
                        assert(rows0[p].timestamp <= rows0[b - 1].timestamp);
                    }
                } else {
                    assert(rows1[a] == rows0[a]);
                    assert(a < p);
                }
            }
            assert forall|a: int| 0 <= a < rows1.len() implies wf_event(#[trigger] rows1[a]) && 1
                <= rows1[a].id < self.next_id_spec() by {
                if a != p {
                    let a0: int = if a < p { a } else { a - 1 };
                    assert(rows1[a] == rows0[a0]);
                }
            }
            assert forall|a: int, b: int| 0 <= a < b < rows1.len() implies (#[trigger] rows1[a]).id
                != (#[trigger] rows1[b]).id by {
                if a != p && b != p {
                    let a0: int = if a < p { a } else { a - 1 };
                    let b0: int = if b < p { b } else { b - 1 };
                    assert(rows1[a] == rows0[a0] && rows1[b] == rows0[b0]);
                } else {
                    let c: int = if a == p { b } else { a };
                    let c0: int = if c < p { c } else { c - 1 };
                    assert(rows1[c] == rows0[c0]);
                }
            }
        }
        id
    }

    /// Rows whose processed flag is clear inside the closed window, oldest
    /// first.
    pub fn query_unprocessed(&self, lo: i64, hi: i64) -> (r: Vec<ActivityLog>)
        ensures
            views_of(r@) == unprocessed_in(self.rows(), lo as int, hi as int),
    {
        let n = self.events.len();
        let mut out: Vec<ActivityLog> = Vec::new();
        let mut i: usize = 0;
        while i < n
            invariant
                i <= n,
                n == self.events@.len(),
                n == self.rows().len(),
                forall|k: int| 0 <= k < n ==> #[trigger] self.rows()[k] == self.events@[k]@,
                views_of(out@) + unprocessed_from(self.rows(), lo as int, hi as int, i as int)
                    == unprocessed_in(self.rows(), lo as int, hi as int),
            decreases n - i,
        {
            let ghost pre = views_of(out@);
            let e = &self.events[i];
            if lo <= e.timestamp && e.timestamp <= hi && !e.processed {
                let c = copy_event(e);
                out.push(c);
            }
            proof {
                assert(views_of(out@) + unprocessed_from(
                    self.rows(),
                    lo as int,
                    hi as int,
                    i + 1,
                ) =~= pre + unprocessed_from(self.rows(), lo as int, hi as int, i as int));
            }
            i = i + 1;
        }
        proof {
            assert(views_of(out@) =~= unprocessed_in(self.rows(), lo as int, hi as int));
        }
        out
    }

    /// Every row of the closed window, whatever its processed state, oldest
    /// first.
    pub fn query_window(&self, lo: i64, hi: i64) -> (r: Vec<ActivityLog>)
        ensures
            views_of(r@) == all_in(self.rows(), lo as int, hi as int),
    {
        let n = self.events.len();
        let mut out: Vec<ActivityLog> = Vec::new();
        let mut i: usize = 0;
        while i < n
            invariant
                i <= n,
                n == self.events@.len(),
                n == self.rows().len(),
                forall|k: int| 0 <= k < n ==> #[trigger] self.rows()[k] == self.events@[k]@,
                views_of(out@) + window_from(self.rows(), lo as int, hi as int, i as int) == all_in(
                    self.rows(),
                    lo as int,
                    hi as int,
                ),
            decreases n - i,
        {
            let ghost pre = views_of(out@);
            let e = &self.events[i];
            if lo <= e.timestamp && e.timestamp <= hi {
                let c = copy_event(e);
                out.push(c);
            }
            proof {
                assert(views_of(out@) + window_from(self.rows(), lo as int, hi as int, i + 1)
                    =~= pre + window_from(self.rows(), lo as int, hi as int, i as int));
            }
            i = i + 1;
        }
        proof {
            assert(views_of(out@) =~= all_in(self.rows(), lo as int, hi as int));
        }
        out
    }

    /// Rows of the half-open range, newest first (the ad-hoc day lookup).
    pub fn query_by_date_range(&self, lo: i64, hi: i64) -> (r: Vec<ActivityLog>)
        ensures
            views_of(r@) == range_desc(self.rows(), lo as int, hi as int),
    {
        let n = self.events.len();
        let mut out: Vec<ActivityLog> = Vec::new();
        let mut i: usize = n;
        while i > 0
            invariant
                i <= n,
                n == self.events@.len(),
                n == self.rows().len(),
                forall|k: int| 0 <= k < n ==> #[trigger] self.rows()[k] == self.events@[k]@,
                views_of(out@) + range_desc_from(self.rows(), lo as int, hi as int, i as int)
                    == range_desc(self.rows(), lo as int, hi as int),
            decreases i,
        {
            let ghost pre = views_of(out@);
            let e = &self.events[i - 1];
            if lo <= e.timestamp && e.timestamp < hi {
                let c = copy_event(e);
                out.push(c);
            }
            proof {
                assert(views_of(out@) + range_desc_from(self.rows(), lo as int, hi as int, i - 1)
                    =~= pre + range_desc_from(self.rows(), lo as int, hi as int, i as int));
            }
            i = i - 1;
        }
        proof {
            assert(views_of(out@) =~= range_desc(self.rows(), lo as int, hi as int));
        }
        out
    }

    /// Set the processed flag on every row of the closed window, whatever
    /// its current value; rows outside the window are untouched. Applying it
    /// again changes nothing.
    pub fn mark_processed(&mut self, lo: i64, hi: i64)
        requires
            old(self).wf(),
        ensures
            final(self).wf(),
            final(self).rows() == marked(old(self).rows(), lo as int, hi as int),
            final(self).next_id_spec() == old(self).next_id_spec(),
    {
        let ghost rows0 = self.rows();
        let n = self.events.len();
        let mut i: usize = 0;
        while i < n
            invariant
                i <= n,
                n == self.events@.len(),
                self.next_id == old(self).next_id,
                rows0.len() == n,
                forall|k: int| i <= k < n ==> #[trigger] self.events@[k]@ == rows0[k],
                forall|k: int|
                    0 <= k < i ==> #[trigger] self.events@[k]@ == marked(
                        rows0,
                        lo as int,
                        hi as int,
                    )[k],
            decreases n - i,
        {
            let ghost prev = self.events@;
            let e = self.events.remove(i);
            let flag = e.processed || (lo <= e.timestamp && e.timestamp <= hi);
            let e2 = ActivityLog { processed: flag, ..e };
            self.events.insert(i, e2);
            proof {
                assert(self.events@ =~= prev.update(i as int, e2));
                assert(e@ == rows0[i as int]);
                assert(e2@ == marked(rows0, lo as int, hi as int)[i as int]);
            }
            i = i + 1;
        }
        proof {
            assert(self.rows() =~= marked(rows0, lo as int, hi as int));
            let rows1 = self.rows();
            assert(forall|k: int|
                0 <= k < rows1.len() ==> (#[trigger] rows1[k]).id == rows0[k].id
                    && rows1[k].timestamp == rows0[k].timestamp && rows1[k].session_id
                    == rows0[k].session_id);
        }
    }
}

/// The durable report table: rows ordered by generation time, each with a
/// monotonically assigned id; reports are immutable once written.
pub struct ReportStore {
    reports: Vec<AiReport>,
    next_id: i64,
}

/// Stable insertion point for a report generated at `t`.
pub open spec fn report_pos_from(rows: Seq<ReportModel>, t: int, i: int) -> int
    decreases rows.len() - i,
{
    if i < 0 || i >= rows.len() {
        rows.len() as int
    } else if rows[i].generated_at <= t {
        report_pos_from(rows, t, i + 1)
    } else {
        i
    }
}

pub open spec fn report_pos(rows: Seq<ReportModel>, t: int) -> int {
    report_pos_from(rows, t, 0)
}

pub proof fn lemma_report_pos(rows: Seq<ReportModel>, t: int, i: int)
    requires
        0 <= i <= rows.len(),
    ensures
        i <= report_pos_from(rows, t, i) <= rows.len(),
        forall|k: int| i <= k < report_pos_from(rows, t, i) ==> rows[k].generated_at <= t,
        report_pos_from(rows, t, i) < rows.len() ==> rows[report_pos_from(rows, t, i)].generated_at
            > t,
    decreases rows.len() - i,
{
    if i < rows.len() && rows[i].generated_at <= t {
        lemma_report_pos(rows, t, i + 1);
    }
}

/// The most recent reports, newest first: rows taken from position `i`
/// downward until `cut`.
pub open spec fn recent_desc(rows: Seq<ReportModel>, i: int, cut: int) -> Seq<ReportModel>
    decreases i - cut,
{
    if i <= cut || i > rows.len() || cut < 0 {
        Seq::empty()
    } else {
        seq![rows[i - 1]] + recent_desc(rows, i - 1, cut)
    }
}

/// The most recent `limit` reports, newest first.
pub open spec fn recent_spec(rows: Seq<ReportModel>, limit: int) -> Seq<ReportModel> {
    recent_desc(
        rows,
        rows.len() as int,
        if rows.len() <= limit {
            0
        } else {
            rows.len() - limit
        },
    )
}

impl ReportStore {
    /// The stored reports, oldest generation time first.
    pub closed spec fn list(self) -> Seq<ReportModel> {
        report_views(self.reports@)
    }

    pub closed spec fn next_id_spec(self) -> int {
        self.next_id as int
    }

    pub open spec fn wf(self) -> bool {
        &&& 1 <= self.next_id_spec() < i64::MAX as int
        &&& forall|i: int|
            0 <= i < self.list().len() ==> valid_ts((#[trigger] self.list()[i]).generated_at) && 1
                <= self.list()[i].id < self.next_id_spec()
        &&& forall|i: int, j: int|
            0 <= i < j < self.list().len() ==> (#[trigger] self.list()[i]).id
                != (#[trigger] self.list()[j]).id
        &&& forall|i: int, j: int|
            0 <= i < j < self.list().len() ==> (#[trigger] self.list()[i]).generated_at
                <= (#[trigger] self.list()[j]).generated_at
    }

    pub fn new() -> (r: ReportStore)
        ensures
            r.wf(),
            r.list() == Seq::<ReportModel>::empty(),
            r.next_id_spec() == 1,
    {
        let r = ReportStore { reports: Vec::new(), next_id: 1 };
        proof {
            assert(r.list() =~= Seq::<ReportModel>::empty());
        }
        r
    }

    /// Persist one report; immutable thereafter.
    pub fn append_report(&mut self, summary: String, generated_at: i64) -> (id: i64)
        requires
            old(self).wf(),
            old(self).next_id_spec() + 1 < i64::MAX as int,
            valid_ts(generated_at as int),
        ensures
            final(self).wf(),
            id as int == old(self).next_id_spec(),
            final(self).next_id_spec() == old(self).next_id_spec() + 1,
            final(self).list() == old(self).list().insert(
                report_pos(old(self).list(), generated_at as int),
                (ReportModel {
                    id: id as int,
                    summary: summary@,
                    generated_at: generated_at as int,
                }),
            ),
    {
        let ghost rows0 = self.list();
        let n = self.reports.len();
        let mut i: usize = 0;
        while i < n && self.reports[i].generated_at <= generated_at
            invariant
                i <= n,
                n == self.reports@.len(),
                n == self.list().len(),
                rows0 == self.list(),
                forall|k: int| 0 <= k < n ==> #[trigger] rows0[k] == self.reports@[k]@,
                report_pos(rows0, generated_at as int) == report_pos_from(
                    rows0,
                    generated_at as int,
                    i as int,
                ),
            decreases n - i,
        {
            i = i + 1;
        }
        let ghost p = report_pos(rows0, generated_at as int);
        proof {
            lemma_report_pos(rows0, generated_at as int, 0);
            assert(p == i as int);
        }
        let id = self.next_id;
        let rep = AiReport { id, summary, generated_at };
        self.reports.insert(i, rep);
        self.next_id = id + 1;
        proof {
            let m = (ReportModel {
                id: id as int,
                summary: rep.summary@,
                generated_at: generated_at as int,
            });
            let rows1 = self.list();
            assert(rep@ == m);
            assert(rows1 =~= rows0.insert(p, m));
            assert(forall|k: int| 0 <= k < p ==> rows1[k] == rows0[k]);
            assert(rows1[p] == m);
            assert(forall|k: int| p < k < rows1.len() ==> rows1[k] == rows0[k - 1]);
            assert forall|a: int, b: int| 0 <= a < b < rows1.len() implies (
            #[trigger] rows1[a]).generated_at <= (#[trigger] rows1[b]).generated_at by {
                lemma_report_pos(rows0, generated_at as int, 0);
                if a != p && b != p {
                    let a0: int = if a < p { a } else { a - 1 };
                    let b0: int = if b < p { b } else { b - 1 };
                    assert(rows1[a] == rows0[a0] && rows1[b] == rows0[b0]);
                } else if a == p {
                    assert(rows1[b] == rows0[b - 1]);
                    if p < rows0.len() {
                        assert(rows0[p].generated_at <= rows0[b - 1].generated_at);
                    }
                } else {
                    assert(rows1[a] == rows0[a]);
                }
            }
            assert forall|a: int| 0 <= a < rows1.len() implies valid_ts((
            #[trigger] rows1[a]).generated_at) && 1 <= rows1[a].id < self.next_id_spec() by {
                if a != p {
                    let a0: int = if a < p { a } else { a - 1 };
                    assert(rows1[a] == rows0[a0]);
                }
            }
            assert forall|a: int, b: int| 0 <= a < b < rows1.len() implies (#[trigger] rows1[a]).id
                != (#[trigger] rows1[b]).id by {
                if a != p && b != p {
                    let a0: int = if a < p { a } else { a - 1 };
                    let b0: int = if b < p { b } else { b - 1 };
                    assert(rows1[a] == rows0[a0] && rows1[b] == rows0[b0]);
                } else {
                    let c: int = if a == p { b } else { a };
                    let c0: int = if c < p { c } else { c - 1 };
                    assert(rows1[c] == rows0[c0]);
                }
            }
        }
        id
    }

    /// The most recent `limit` reports, newest first.
    pub fn recent(&self, limit: usize) -> (r: Vec<AiReport>)
        ensures
            report_views(r@) == recent_spec(self.list(), limit as int),
    {
        let n = self.reports.len();
        let cut = if n <= limit {
            0
        } else {
            n - limit
        };
        let mut out: Vec<AiReport> = Vec::new();
        let mut i: usize = n;
        while i > cut
            invariant
                cut <= i <= n,
                n == self.reports@.len(),
                n == self.list().len(),
                (if n <= limit {
                    cut == 0int
                } else {
                    cut == n - limit
                }),
                forall|k: int| 0 <= k < n ==> #[trigger] self.list()[k] == self.reports@[k]@,
                report_views(out@) + recent_desc(self.list(), i as int, cut as int) == recent_spec(
                    self.list(),
                    limit as int,
                ),
            decreases i,
        {
            let ghost pre = report_views(out@);
            let c = copy_report(&self.reports[i - 1]);
            out.push(c);
            proof {
                assert(report_views(out@) + recent_desc(self.list(), i - 1, cut as int) =~= pre
                    + recent_desc(self.list(), i as int, cut as int));
            }
            i = i - 1;
        }
        proof {
            assert(recent_desc(self.list(), cut as int, cut as int) == Seq::<ReportModel>::empty());
            assert(report_views(out@) =~= recent_spec(self.list(), limit as int));
        }
        out
    }
}

} // verus!
