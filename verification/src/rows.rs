//! Conversions between events or reports and the text rows they occupy in
//! the durable tables: payloads as JSON text, timestamps as RFC 3339 text.
//! The JSON deserialization of a stored payload happens at the storage
//! boundary outside the library; a rebuilt event takes the parsed document
//! and re-derives its projections from it.

use vstd::prelude::*;
use crate::doc::DocValue;
use crate::doc::json_text;
use crate::doc::to_json;
use crate::ingest::assemble_event;
use crate::ingest::assembled_event;
use crate::ingest::source_of;
use crate::ingest::source_from_str;
use crate::models::ActivityLog;
use crate::models::ActivityLogConversionError;
use crate::models::ActivityLogRow;
use crate::models::AiReport;
use crate::models::AiReportRow;
use crate::models::LogSource;
use crate::models::ReportModel;
use crate::time::TS_MAX;
use crate::time::format_rfc3339;
use crate::time::parse_rfc3339;
use crate::time::rfc3339_of;
use crate::time::rfc3339_val;
use crate::time::valid_ts;

verus! {

/// The source tag a row stores.
pub open spec fn source_label(s: LogSource) -> Seq<char> {
    match s {
        LogSource::Terminal => "terminal"@,
        LogSource::Browser => "browser"@,
        LogSource::Editor => "editor"@,
        LogSource::Other => "other"@,
    }
}

pub fn source_label_str(s: LogSource) -> (r: String)
    ensures
        r@ == source_label(s),
{
    match s {
        LogSource::Terminal => String::from_str("terminal"),
        LogSource::Browser => String::from_str("browser"),
        LogSource::Editor => String::from_str("editor"),
        LogSource::Other => String::from_str("other"),
    }
}

impl ActivityLog {
    /// The table row of this event.
    pub fn to_row(&self) -> (r: ActivityLogRow)
        requires
            valid_ts(self@.timestamp),
        ensures
            r.id == self.id,
            r.source@ == source_label(self@.source),
            r.payload@ == json_text(self@.payload),
            r.timestamp@ == rfc3339_of(self@.timestamp),
    {
        ActivityLogRow {
            id: self.id,
            source: source_label_str(self.source),
            payload: to_json(&self.payload),
            timestamp: format_rfc3339(self.timestamp),
        }
    }

    /// Rebuild an event from its row and the payload document parsed from
    /// the row's text. The stored payload is already redacted, so the
    /// projections are re-derived from it as they stand.
    pub fn from_row(row: &ActivityLogRow, payload: DocValue) -> (r: Result<
        ActivityLog,
        ActivityLogConversionError,
    >)
        ensures
            (match rfc3339_val(row.timestamp@) {
                Some(t) => if valid_ts(t as int) {
                    (match r {
                        Ok(e) => e@ == assembled_event(
                            row.id as int,
                            source_of(row.source@),
                            payload@,
                            t as int,
                        ),
                        Err(_) => false,
                    })
                } else {
                    r is Err
                },
                None => r is Err,
            }),
    {
        let t = match parse_rfc3339(row.timestamp.as_str()) {
            Some(t) => t,
            None => {
                return Err(
                    ActivityLogConversionError(String::from_str("timestamp is not RFC 3339")),
                );
            },
        };
        if !(0 <= t && t < TS_MAX) {
            return Err(ActivityLogConversionError(String::from_str("timestamp out of range")));
        }
        let source = source_from_str(row.source.as_str());
        Ok(assemble_event(row.id, source, payload, t))
    }
}

impl AiReport {
    /// The table row of this report.
    pub fn to_row(&self) -> (r: AiReportRow)
        requires
            valid_ts(self@.generated_at),
        ensures
            r.id == self.id,
            r.summary@ == self.summary@,
            r.generated_at@ == rfc3339_of(self@.generated_at),
    {
        AiReportRow {
            id: self.id,
            summary: self.summary.clone(),
            generated_at: format_rfc3339(self.generated_at),
        }
    }

    /// Rebuild a report from its row.
    pub fn from_row(row: &AiReportRow) -> (r: Result<AiReport, ActivityLogConversionError>)
        ensures
            (match rfc3339_val(row.generated_at@) {
                Some(t) => if valid_ts(t as int) {
                    (match r {
                        Ok(rep) => rep@ == (ReportModel {
                            id: row.id as int,
                            summary: row.summary@,
                            generated_at: t as int,
                        }),
                        Err(_) => false,
                    })
                } else {
                    r is Err
                },
                None => r is Err,
            }),
    {
        let t = match parse_rfc3339(row.generated_at.as_str()) {
            Some(t) => t,
            None => {
                return Err(
                    ActivityLogConversionError(String::from_str("timestamp is not RFC 3339")),
                );
            },
        };
        if !(0 <= t && t < TS_MAX) {
            return Err(ActivityLogConversionError(String::from_str("timestamp out of range")));
        }
        Ok(AiReport { id: row.id, summary: row.summary.clone(), generated_at: t })
    }
}

} // verus!
