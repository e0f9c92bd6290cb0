//! Batch scheduler: decides when and over what window to summarize, and
//! guarantees each window is summarized at most once. The timer path takes
//! the last ten minutes of unprocessed events; the manual path takes every
//! event of the last fifteen minutes. Both run through one single-flight
//! latch, so at most one summarization is in flight at a time. The provider
//! call itself happens outside the library, between begin and finish.

use vstd::prelude::*;
use crate::models::ActivityLog;
use crate::models::AiReport;
use crate::models::ReportModel;
use crate::models::wf_event;
use crate::settings::AiSettings;
use crate::store::LogStore;
use crate::store::ReportStore;
use crate::store::all_in;
use crate::store::marked;
use crate::store::recent_spec;
use crate::store::report_pos;
use crate::store::report_views;
use crate::store::unprocessed_in;
use crate::store::views_of;
use crate::store::window_from;
use crate::store::unprocessed_from;
use crate::summarize::ChatRequest;
use crate::summarize::build_summary_request;
use crate::summarize::model_for;
use crate::summarize::user_message;
use crate::time::TS_MAX;
use crate::time::day_start_val;
use crate::time::parse_day_start;
use crate::time::valid_ts;

verus! {

broadcast use vstd::seq::group_seq_axioms, vstd::std_specs::vec::group_vec_axioms;

/// Length of the timer path's window: the last ten minutes.
pub const TIMER_WINDOW_SECS: i64 = 600;

/// Length of the manual path's window: the last fifteen minutes.
pub const MANUAL_WINDOW_SECS: i64 = 900;

/// How many recent reports feed the context block of the next request.
pub const RECENT_REPORTS_FOR_CONTEXT: usize = 3;

/// How many reports the read endpoint returns.
pub const REPORTS_PAGE: usize = 20;

/// Start of a window of the given length ending now, clamped at the epoch.
pub open spec fn window_start(now: int, len: int) -> int {
    if now >= len {
        now - len
    } else {
        0
    }
}

/// The pipeline's state: both stores and the single-flight latch that keeps
/// the timer path and manual triggers from racing over overlapping windows.
pub struct Pipeline {
    pub logs: LogStore,
    pub reports: ReportStore,
    /// The single-flight latch: true while a summarization is in flight.
    pub busy: bool,
}

/// A batch under summarization: its window, the events it covers, and the
/// request to send.
pub struct SummaryBatch {
    pub window_start: i64,
    pub window_end: i64,
    pub events: Vec<ActivityLog>,
    pub request: ChatRequest,
    pub manual: bool,
}

/// What beginning a batch produced.
pub enum BeginOutcome {
    /// Another summarization is in flight; nothing was read or marked.
    Busy,
    /// The window holds nothing to summarize; no request exists.
    EmptyWindow,
    /// A batch was opened and the latch set.
    Started(SummaryBatch),
}

proof fn lemma_unprocessed_wf(rows: Seq<crate::models::EventModel>, lo: int, hi: int, i: int)
    requires
        0 <= i <= rows.len(),
        forall|k: int| 0 <= k < rows.len() ==> wf_event(#[trigger] rows[k]),
    ensures
        forall|k: int|
            0 <= k < unprocessed_from(rows, lo, hi, i).len() ==> wf_event(
                #[trigger] unprocessed_from(rows, lo, hi, i)[k],
            ),
    decreases rows.len() - i,
{
    if i < rows.len() {
        lemma_unprocessed_wf(rows, lo, hi, i + 1);
        let out = unprocessed_from(rows, lo, hi, i);
        let rest = unprocessed_from(rows, lo, hi, i + 1);
        if crate::store::keep_unprocessed(rows[i], lo, hi) {
            assert forall|k: int| 0 <= k < out.len() implies wf_event(#[trigger] out[k]) by {
                if k > 0 {
                    assert(out[k] == rest[k - 1]);
                }
            }
        }
    }
}

proof fn lemma_window_wf(rows: Seq<crate::models::EventModel>, lo: int, hi: int, i: int)
    requires
        0 <= i <= rows.len(),
        forall|k: int| 0 <= k < rows.len() ==> wf_event(#[trigger] rows[k]),
    ensures
        forall|k: int|
            0 <= k < window_from(rows, lo, hi, i).len() ==> wf_event(
                #[trigger] window_from(rows, lo, hi, i)[k],
            ),
    decreases rows.len() - i,
{
    if i < rows.len() {
        lemma_window_wf(rows, lo, hi, i + 1);
        let out = window_from(rows, lo, hi, i);
        let rest = window_from(rows, lo, hi, i + 1);
        if lo <= rows[i].timestamp <= hi {
            assert forall|k: int| 0 <= k < out.len() implies wf_event(#[trigger] out[k]) by {
                if k > 0 {
                    assert(out[k] == rest[k - 1]);
                }
            }
        }
    }
}

impl Pipeline {
    /// Both stores are well formed.
    pub open spec fn wf(self) -> bool {
        self.logs.wf() && self.reports.wf()
    }

    /// The single-flight latch is taken.
    pub open spec fn busy_spec(self) -> bool {
        self.busy
    }

    pub fn new() -> (r: Pipeline)
        ensures
            r.wf(),
            !r.busy_spec(),
            r.logs.rows() == Seq::<crate::models::EventModel>::empty(),
            r.reports.list() == Seq::<ReportModel>::empty(),
            r.logs.next_id_spec() == 1,
            r.reports.next_id_spec() == 1,
    {
        Pipeline { logs: LogStore::new(), reports: ReportStore::new(), busy: false }
    }

    /// Open a batch: set the latch, read the window, and build the request.
    /// The timer path reads unprocessed events of the last ten minutes; the
    /// manual path reads every event of the last fifteen. Nothing is marked
    /// here; marking happens only when the batch finishes.
    pub fn begin_batch(&mut self, settings: &AiSettings, now: i64, manual: bool) -> (r:
        BeginOutcome)
        requires
            old(self).wf(),
            valid_ts(now as int),
        ensures
            final(self).wf(),
            final(self).logs == old(self).logs,
            final(self).reports == old(self).reports,
            old(self).busy_spec() ==> (r is Busy && *final(self) == *old(self)),
            !old(self).busy_spec() ==> !(r is Busy),
            !old(self).busy_spec() ==> {
                let lo = window_start(
                    now as int,
                    if manual {
                        MANUAL_WINDOW_SECS as int
                    } else {
                        TIMER_WINDOW_SECS as int
                    },
                );
                let window = if manual {
                    all_in(old(self).logs.rows(), lo, now as int)
                } else {
                    unprocessed_in(old(self).logs.rows(), lo, now as int)
                };
                match r {
                    BeginOutcome::Busy => false,
                    BeginOutcome::EmptyWindow => window.len() == 0 && !final(self).busy_spec(),
                    BeginOutcome::Started(b) => {
                        &&& window.len() > 0
                        &&& final(self).busy_spec()
                        &&& b.manual == manual
                        &&& b.window_start as int == lo
                        &&& b.window_end == now
                        &&& views_of(b.events@) == window
                        &&& b.request.model@ == model_for(
                            settings.model_name@,
                            settings.provider_url@,
                        )
                        &&& b.request.messages@.len() == 2
                        &&& b.request.messages@[1].content@ == user_message(
                            window,
                            recent_spec(
                                old(self).reports.list(),
                                RECENT_REPORTS_FOR_CONTEXT as int,
                            ),
                        )
                    },
                }
            },
    {
        if self.busy {
            return BeginOutcome::Busy;
        }
        let len = if manual {
            MANUAL_WINDOW_SECS
        } else {
            TIMER_WINDOW_SECS
        };
        let lo = if now >= len {
            now - len
        } else {
            0
        };
        let events = if manual {
            self.logs.query_window(lo, now)
        } else {
            self.logs.query_unprocessed(lo, now)
        };
        if events.len() == 0 {
            return BeginOutcome::EmptyWindow;
        }
        let context = self.reports.recent(RECENT_REPORTS_FOR_CONTEXT);
        proof {
            if manual {
                lemma_window_wf(self.logs.rows(), lo as int, now as int, 0);
            } else {
                lemma_unprocessed_wf(self.logs.rows(), lo as int, now as int, 0);
            }
            assert forall|i: int| 0 <= i < events@.len() implies valid_ts(
                #[trigger] events@[i]@.timestamp,
            ) by {
                assert(views_of(events@)[i] == events@[i]@);
                assert(wf_event(views_of(events@)[i]));
            }
        }
        let request = match build_summary_request(settings, &events, &context) {
            Ok(req) => req,
            Err(_) => {
                return BeginOutcome::EmptyWindow;
            },
        };
        self.busy = true;
        BeginOutcome::Started(
            SummaryBatch { window_start: lo, window_end: now, events, request, manual },
        )
    }

    /// Close a batch after a successful provider call: persist the report,
    /// stamped with the batch's own window end, and on the timer path mark
    /// that same window processed. The latch clears again.
    pub fn finish_batch(&mut self, batch: &SummaryBatch, summary: String)
        requires
            old(self).wf(),
            old(self).busy_spec(),
            valid_ts(batch.window_end as int),
            old(self).reports.next_id_spec() + 1 < i64::MAX as int,
        ensures
            final(self).wf(),
            !final(self).busy_spec(),
            final(self).reports.list() == old(self).reports.list().insert(
                report_pos(old(self).reports.list(), batch.window_end as int),
                (ReportModel {
                    id: old(self).reports.next_id_spec(),
                    summary: summary@,
                    generated_at: batch.window_end as int,
                }),
            ),
            batch.manual ==> final(self).logs == old(self).logs,
            !batch.manual ==> final(self).logs.rows() == marked(
                old(self).logs.rows(),
                batch.window_start as int,
                batch.window_end as int,
            ),
    {
        let _id = self.reports.append_report(summary, batch.window_end);
        if !batch.manual {
            self.logs.mark_processed(batch.window_start, batch.window_end);
        }
        self.busy = false;
    }

    /// Close a batch after a failed provider call: nothing is stored,
    /// nothing is marked, and the latch clears again, so the next tick can
    /// try the same window.
    pub fn fail_batch(&mut self)
        requires
            old(self).busy_spec(),
        ensures
            final(self).logs == old(self).logs,
            final(self).reports == old(self).reports,
            !final(self).busy_spec(),
    {
        self.busy = false;
    }

    /// The most recent reports, newest first, one page.
    pub fn get_ai_reports(&self) -> (r: Vec<AiReport>)
        ensures
            report_views(r@) == recent_spec(self.list_reports(), REPORTS_PAGE as int),
    {
        self.reports.recent(REPORTS_PAGE)
    }

    /// The report table's content (for contracts and tests).
    pub open spec fn list_reports(self) -> Seq<ReportModel> {
        self.reports.list()
    }

    /// The events of the written day, newest first; nothing when the text
    /// is no valid date. A real calendar day outside the pipeline's
    /// representable range answers the empty list, since no stored row can
    /// lie in it.
    pub fn get_logs_by_date(&self, date: &str) -> (r: Option<Vec<ActivityLog>>)
        ensures
            (match day_start_val(date@) {
                Some(t) => (match r {
                    Some(v) => if 0 <= t && t + 86400 <= TS_MAX {
                        views_of(v@) == crate::store::range_desc(
                            self.logs.rows(),
                            t as int,
                            t + 86400,
                        )
                    } else {
                        views_of(v@) == Seq::<crate::models::EventModel>::empty()
                    },
                    None => false,
                }),
                None => r is None,
            }),
    {
        let t = match parse_day_start(date) {
            Some(t) => t,
            None => {
                return None;
            },
        };
        if !(0 <= t && t <= TS_MAX - 86400) {
            let empty: Vec<ActivityLog> = Vec::new();
            proof {
                assert(views_of(empty@) =~= Seq::<crate::models::EventModel>::empty());
            }
            return Some(empty);
        }
        Some(self.logs.query_by_date_range(t, t + 86400))
    }
}

} // verus!
