//! The pipeline's data: activity events with their normalized projections,
//! generated reports, and the text rows they occupy at the storage boundary.

use vstd::prelude::*;
use crate::doc::DocValue;
use crate::doc::JsonVal;
use crate::doc::doc_view;
use crate::time::valid_ts;
use crate::time::session_of;

verus! {

broadcast use vstd::seq::group_seq_axioms, vstd::std_specs::vec::group_vec_axioms;

/// Where an event came from.
#[derive(Clone, Copy, PartialEq, Eq, Structural, Debug)]
pub enum LogSource {
    Terminal,
    Browser,
    Editor,
    Other,
}

/// A stored activity event with its normalized projections.
pub struct ActivityLog {
    pub id: i64,
    pub source: LogSource,
    /// Already redacted before it is handed to the store.
    pub payload: DocValue,
    /// Event time, Unix seconds UTC.
    pub timestamp: i64,
    pub log_type: String,
    /// Hour bucket of the event time.
    pub session_id: i64,
    pub command: Option<String>,
    pub url: Option<String>,
    pub domain: Option<String>,
    pub title: Option<String>,
    pub file_path: Option<String>,
    /// False at creation, flipped once a covering batch was summarized.
    pub processed: bool,
}

/// Mathematical model of an event.
pub struct EventModel {
    pub id: int,
    pub source: LogSource,
    pub payload: JsonVal,
    pub timestamp: int,
    pub log_type: Seq<char>,
    pub session_id: int,
    pub command: Option<Seq<char>>,
    pub url: Option<Seq<char>>,
    pub domain: Option<Seq<char>>,
    pub title: Option<Seq<char>>,
    pub file_path: Option<Seq<char>>,
    pub processed: bool,
}

pub open spec fn opt_view(o: Option<String>) -> Option<Seq<char>> {
    match o {
        Some(s) => Some(s@),
        None => None,
    }
}

impl View for ActivityLog {
    type V = EventModel;

    open spec fn view(&self) -> EventModel {
        EventModel {
            id: self.id as int,
            source: self.source,
            payload: doc_view(self.payload),
            timestamp: self.timestamp as int,
            log_type: self.log_type@,
            session_id: self.session_id as int,
            command: opt_view(self.command),
            url: opt_view(self.url),
            domain: opt_view(self.domain),
            title: opt_view(self.title),
            file_path: opt_view(self.file_path),
            processed: self.processed,
        }
    }
}

/// An event the store accepts: its time is in range and its session key is
/// the hour bucket of its time.
pub open spec fn wf_event(e: EventModel) -> bool {
    &&& valid_ts(e.timestamp)
    &&& e.session_id == session_of(e.timestamp)
}

fn copy_opt_string(o: &Option<String>) -> (r: Option<String>)
    ensures
        opt_view(r) == opt_view(*o),
{
    match o {
        Some(s) => Some(s.clone()),
        None => None,
    }
}

/// Copy a payload document; the copy has the same model.
#[verifier::loop_isolation(false)]
pub fn copy_doc(d: &DocValue) -> (r: DocValue)
    ensures
        r@ == d@,
    decreases *d,
{
    match d {
        DocValue::Null => DocValue::Null,
        DocValue::Bool(b) => DocValue::Bool(*b),
        DocValue::Num(t) => DocValue::Num(t.clone()),
        DocValue::Str(t) => DocValue::Str(t.clone()),
        DocValue::Arr(items) => {
            let mut out: Vec<DocValue> = Vec::new();
            let mut i: usize = 0;
            while i < items.len()
                invariant
                    i <= items@.len(),
                    out@.len() == i,
                    forall|k: int| 0 <= k < i ==> out@[k]@ == items@[k]@,
                decreases items@.len() - i,
            {
                proof {
                    assert(decreases_to!(*d => items@[i as int]));
                }
                let c = copy_doc(&items[i]);
                out.push(c);
                i = i + 1;
            }
            proof {
                crate::doc::lemma_doc_views_from(items@, 0);
                crate::doc::lemma_doc_views_from(out@, 0);
                assert(crate::doc::doc_views_from(out@, 0) =~= crate::doc::doc_views_from(
                    items@,
                    0,
                ));
            }
            DocValue::Arr(out)
        },
        DocValue::Obj(fields) => {
            let mut out: Vec<(String, DocValue)> = Vec::new();
            let mut i: usize = 0;
            while i < fields.len()
                invariant
                    i <= fields@.len(),
                    out@.len() == i,
                    forall|k: int|
                        0 <= k < i ==> out@[k].0@ == fields@[k].0@ && out@[k].1@ == fields@[k].1@,
                decreases fields@.len() - i,
            {
                proof {
                    assert(decreases_to!(*d => fields@[i as int].1));
                }
                let key = fields[i].0.clone();
                let c = copy_doc(&fields[i].1);
                out.push((key, c));
                i = i + 1;
            }
            proof {
                crate::doc::lemma_doc_fields_from(fields@, 0);
                crate::doc::lemma_doc_fields_from(out@, 0);
                assert(crate::doc::doc_fields_from(out@, 0) =~= crate::doc::doc_fields_from(
                    fields@,
                    0,
                ));
            }
            DocValue::Obj(out)
        },
    }
}

/// Copy an event; the copy has the same model.
pub fn copy_event(e: &ActivityLog) -> (r: ActivityLog)
    ensures
        r@ == e@,
{
    ActivityLog {
        id: e.id,
        source: e.source,
        payload: copy_doc(&e.payload),
        timestamp: e.timestamp,
        log_type: e.log_type.clone(),
        session_id: e.session_id,
        command: copy_opt_string(&e.command),
        url: copy_opt_string(&e.url),
        domain: copy_opt_string(&e.domain),
        title: copy_opt_string(&e.title),
        file_path: copy_opt_string(&e.file_path),
        processed: e.processed,
    }
}

/// A generated work-log summary.
pub struct AiReport {
    pub id: i64,
    pub summary: String,
    /// Unix seconds UTC.
    pub generated_at: i64,
}

/// Mathematical model of a report.
pub struct ReportModel {
    pub id: int,
    pub summary: Seq<char>,
    pub generated_at: int,
}

impl View for AiReport {
    type V = ReportModel;

    open spec fn view(&self) -> ReportModel {
        ReportModel {
            id: self.id as int,
            summary: self.summary@,
            generated_at: self.generated_at as int,
        }
    }
}

/// Copy a report; the copy has the same model.
pub fn copy_report(r: &AiReport) -> (c: AiReport)
    ensures
        c@ == r@,
{
    AiReport { id: r.id, summary: r.summary.clone(), generated_at: r.generated_at }
}

/// An activity row as it stands in the durable table: payload as JSON text,
/// timestamp as RFC 3339 text.
pub struct ActivityLogRow {
    pub id: i64,
    pub source: String,
    pub payload: String,
    pub timestamp: String,
}

/// A report row as it stands in the durable table.
pub struct AiReportRow {
    pub id: i64,
    pub summary: String,
    pub generated_at: String,
}

/// Why a stored row could not be turned back into a value.
#[derive(Debug)]
pub struct ActivityLogConversionError(pub String);

} // verus!
