//! Ingestion collector: normalizes one incoming event, redacts its payload,
//! and appends it to the log store. The HTTP surface that carries events in
//! hands this module plain values.

use vstd::prelude::*;
use crate::doc::DocValue;
use crate::doc::JsonVal;
use crate::doc::sanitize_doc_spec;
use crate::doc::sanitize_json;
use crate::models::ActivityLog;
use crate::models::EventModel;
use crate::models::LogSource;
use crate::models::opt_view;
use crate::redact::tok_at;
use crate::store::LogStore;
use crate::store::insert_pos;
use crate::time::session_id_of;
use crate::time::session_of;
use crate::time::valid_ts;

verus! {

broadcast use vstd::seq::group_seq_axioms, vstd::std_specs::vec::group_vec_axioms;

/// Why an ingestion call was rejected.
#[derive(Debug, PartialEq, Eq, Structural)]
pub enum IngestError {
    /// The payload was missing or not a parseable structured document.
    BadPayload,
    /// The store could not take the row.
    StorageError,
}

/// Equality of string slices, character by character.
pub fn str_eq(a: &str, b: &str) -> (r: bool)
    ensures
        r == (a@ == b@),
{
    let n = a.unicode_len();
    if n != b.unicode_len() {
        return false;
    }
    let mut i: usize = 0;
    while i < n
        invariant
            i <= n,
            n == a@.len(),
            n == b@.len(),
            forall|k: int| 0 <= k < i ==> a@[k] == b@[k],
        decreases n - i,
    {
        if a.get_char(i) != b.get_char(i) {
            proof {
                assert(a@[i as int] != b@[i as int]);
            }
            return false;
        }
        i = i + 1;
    }
    proof {
        assert(a@ =~= b@);
    }
    true
}

/// The source tag used on the ingestion path.
pub open spec fn source_of(s: Seq<char>) -> LogSource {
    if s == "terminal"@ {
        LogSource::Terminal
    } else if s == "browser"@ {
        LogSource::Browser
    } else if s == "editor"@ || s == "vscode"@ {
        LogSource::Editor
    } else {
        LogSource::Other
    }
}

pub fn source_from_str(s: &str) -> (r: LogSource)
    ensures
        r == source_of(s@),
{
    if str_eq(s, "terminal") {
        LogSource::Terminal
    } else if str_eq(s, "browser") {
        LogSource::Browser
    } else if str_eq(s, "editor") || str_eq(s, "vscode") {
        LogSource::Editor
    } else {
        LogSource::Other
    }
}

/// The normalized log type of each source.
pub open spec fn log_type_of(s: LogSource) -> Seq<char> {
    match s {
        LogSource::Terminal => "command"@,
        LogSource::Browser => "browse"@,
        LogSource::Editor => "file_edit"@,
        LogSource::Other => "unknown"@,
    }
}

pub fn log_type_label(s: LogSource) -> (r: String)
    ensures
        r@ == log_type_of(s),
{
    match s {
        LogSource::Terminal => String::from_str("command"),
        LogSource::Browser => String::from_str("browse"),
        LogSource::Editor => String::from_str("file_edit"),
        LogSource::Other => String::from_str("unknown"),
    }
}

// ---------------------------------------------------------------------------
// Field lookup on documents
// ---------------------------------------------------------------------------

pub open spec fn lookup_from(fields: Seq<(Seq<char>, JsonVal)>, k: Seq<char>, i: int) -> Option<
    JsonVal,
>
    decreases fields.len() - i,
{
    if i < 0 || i >= fields.len() {
        None
    } else if fields[i].0 == k {
        Some(fields[i].1)
    } else {
        lookup_from(fields, k, i + 1)
    }
}

/// The first field named `k` of an object document; none elsewhere.
pub open spec fn obj_lookup(j: JsonVal, k: Seq<char>) -> Option<JsonVal> {
    match j {
        JsonVal::Obj(fields) => lookup_from(fields, k, 0),
        _ => None,
    }
}

/// The content of the field named `k` when it is a string leaf.
pub open spec fn str_field(j: JsonVal, k: Seq<char>) -> Option<Seq<char>> {
    match obj_lookup(j, k) {
        Some(JsonVal::Str(t)) => Some(t),
        _ => None,
    }
}

/// Look up the string field `key`, if the document is an object that has it.
#[verifier::loop_isolation(false)]
pub fn get_str_field(d: &DocValue, key: &str) -> (r: Option<String>)
    ensures
        opt_view(r) == str_field(d@, key@),
{
    match d {
        DocValue::Obj(fields) => {
            let ghost fieldsv = crate::doc::doc_fields_from(fields@, 0);
            proof {
                crate::doc::lemma_doc_fields_from(fields@, 0);
            }
            let n = fields.len();
            let mut i: usize = 0;
            while i < n
                invariant
                    i <= n,
                    n == fields@.len(),
                    fieldsv == crate::doc::doc_fields_from(fields@, 0),
                    fieldsv.len() == n,
                    forall|k: int|
                        0 <= k < n ==> #[trigger] fieldsv[k] == (
                            fields@[k].0@,
                            crate::doc::doc_view(fields@[k].1),
                        ),
                    lookup_from(fieldsv, key@, 0) == lookup_from(fieldsv, key@, i as int),
                decreases n - i,
            {
                if str_eq(fields[i].0.as_str(), key) {
                    proof {
                        assert(fieldsv[i as int].0 == key@);
                        assert(lookup_from(fieldsv, key@, i as int) == Some(fieldsv[i as int].1));
                    }
                    match &fields[i].1 {
                        DocValue::Str(t) => {
                            proof {
                                assert(fieldsv[i as int].1 == JsonVal::Str(t@));
                            }
                            return Some(t.clone());
                        },
                        _ => {
                            proof {
                                assert(!(fieldsv[i as int].1 is Str));
                            }
                            return None;
                        },
                    }
                }
                i = i + 1;
            }
            None
        },
        _ => None,
    }
}

// ---------------------------------------------------------------------------
// Host extraction from a URL
// ---------------------------------------------------------------------------

/// First position at or after `i` where the scheme separator `://` starts,
/// or -1 when it never does.
pub open spec fn find_scheme_sep(s: Seq<char>, i: int) -> int
    decreases s.len() - i,
{
    if i < 0 || i >= s.len() {
        -1
    } else if tok_at(s, i, "://"@) {
        i
    } else {
        find_scheme_sep(s, i + 1)
    }
}

/// True for the characters that end the host part.
pub open spec fn is_host_end(c: char) -> bool {
    c == '/' || c == '?' || c == '#' || c == ':'
}

/// End of the host part: the first delimiter at or after `i`, or the end of
/// the text.
pub open spec fn host_end_from(s: Seq<char>, i: int) -> int
    decreases s.len() - i,
{
    if i < 0 || i >= s.len() {
        s.len() as int
    } else if is_host_end(s[i]) {
        i
    } else {
        host_end_from(s, i + 1)
    }
}

/// Position of the last `@` in `[i, e)`, or -1 when there is none.
pub open spec fn last_at_in(s: Seq<char>, i: int, e: int) -> int
    decreases e - i,
{
    if e <= i || e > s.len() || i < 0 {
        -1
    } else if s[e - 1] == '@' {
        e - 1
    } else {
        last_at_in(s, i, e - 1)
    }
}

/// The host of a URL: the text between `://` and the next `/`, `?`, `#` or
/// `:`, with any user information up to a last `@` dropped; none when there
/// is no scheme separator or the host is empty.
pub open spec fn domain_of_url(u: Seq<char>) -> Option<Seq<char>> {
    let m = find_scheme_sep(u, 0);
    if m < 0 {
        None
    } else {
        let h0 = m + 3;
        let e = host_end_from(u, h0);
        let a = last_at_in(u, h0, e);
        let start = if a < 0 {
            h0
        } else {
            a + 1
        };
        if start >= e {
            None
        } else {
            Some(u.subrange(start, e))
        }
    }
}

proof fn lemma_find_scheme_sep(s: Seq<char>, i: int)
    requires
        0 <= i <= s.len(),
    ensures
        find_scheme_sep(s, i) >= 0 ==> i <= find_scheme_sep(s, i) && find_scheme_sep(s, i) + 3
            <= s.len(),
    decreases s.len() - i,
{
    reveal_strlit("://");
    if i < s.len() && !tok_at(s, i, "://"@) {
        lemma_find_scheme_sep(s, i + 1);
    }
}

proof fn lemma_host_end(s: Seq<char>, i: int)
    requires
        0 <= i <= s.len(),
    ensures
        i <= host_end_from(s, i) <= s.len(),
    decreases s.len() - i,
{
    if i < s.len() && !is_host_end(s[i]) {
        lemma_host_end(s, i + 1);
    }
}

proof fn lemma_last_at(s: Seq<char>, i: int, e: int)
    requires
        0 <= i,
        e <= s.len(),
    ensures
        last_at_in(s, i, e) >= 0 ==> i <= last_at_in(s, i, e) < e,
    decreases e - i,
{
    if !(e <= i || e > s.len() || i < 0) && s[e - 1] != '@' {
        lemma_last_at(s, i, e - 1);
    }
}

fn host_end_exec(s: &str, i: usize) -> (r: usize)
    requires
        i <= s@.len(),
    ensures
        r == host_end_from(s@, i as int),
        i <= r <= s@.len(),
{
    let n = s.unicode_len();
    let mut j: usize = i;
    while j < n
        invariant
            i <= j <= n,
            n == s@.len(),
            host_end_from(s@, i as int) == host_end_from(s@, j as int),
        decreases n - j,
    {
        let c = s.get_char(j);
        if c == '/' || c == '?' || c == '#' || c == ':' {
            return j;
        }
        j = j + 1;
    }
    n
}

fn last_at_exec(s: &str, i: usize, e: usize) -> (r: Option<usize>)
    requires
        i <= e <= s@.len(),
    ensures
        (match r {
            Some(p) => last_at_in(s@, i as int, e as int) == p as int && i <= p < e,
            None => last_at_in(s@, i as int, e as int) == -1,
        }),
{
    let mut j: usize = e;
    while j > i
        invariant
            i <= j <= e <= s@.len(),
            last_at_in(s@, i as int, e as int) == last_at_in(s@, i as int, j as int),
        decreases j,
    {
        if s.get_char(j - 1) == '@' {
            return Some(j - 1);
        }
        j = j - 1;
    }
    None
}

/// The registrable host of `url`, if it parses as a URL with a host part.
pub fn domain_from_url(url: &str) -> (r: Option<String>)
    ensures
        opt_view(r) == domain_of_url(url@),
{
    let n = url.unicode_len();
    let mut m: usize = 0;
    let mut found = false;
    while m < n && !found
        invariant
            m <= n,
            n == url@.len(),
            !found ==> find_scheme_sep(url@, 0) == find_scheme_sep(url@, m as int),
            found ==> find_scheme_sep(url@, 0) == m as int && tok_at(url@, m as int, "://"@),
        decreases n - m, (if found { 0int } else { 1int }),
    {
        if tok_matches_at(url, m, "://") {
            found = true;
        } else {
            m = m + 1;
        }
    }
    if !found {
        return None;
    }
    proof {
        reveal_strlit("://");
    }
    let h0 = m + 3;
    let e = host_end_exec(url, h0);
    let start = match last_at_exec(url, h0, e) {
        Some(a) => a + 1,
        None => h0,
    };
    if start >= e {
        return None;
    }
    let h = String::from_str(url.substring_char(start, e));
    Some(h)
}

/// Token occurrence test shared by the URL and substring helpers.
pub(crate) fn tok_matches_at(s: &str, i: usize, t: &str) -> (r: bool)
    requires
        i <= s@.len(),
    ensures
        r == tok_at(s@, i as int, t@),
{
    let n = s.unicode_len();
    let tl = t.unicode_len();
    if tl > n - i {
        return false;
    }
    let mut k: usize = 0;
    while k < tl
        invariant
            i + tl <= n,
            n == s@.len(),
            tl == t@.len(),
            k <= tl,
            forall|q: int| 0 <= q < k ==> s@[i + q] == t@[q],
        decreases tl - k,
    {
        if s.get_char(i + k) != t.get_char(k) {
            proof {
                assert(s@[i + k as int] != t@[k as int]);
            }
            return false;
        }
        k = k + 1;
    }
    true
}

// ---------------------------------------------------------------------------
// Normalized projections
// ---------------------------------------------------------------------------

/// Terminal events project their command field.
pub open spec fn command_of(s: LogSource, p: JsonVal) -> Option<Seq<char>> {
    if s == LogSource::Terminal {
        str_field(p, "command"@)
    } else {
        None
    }
}

/// Browser events project their url field.
pub open spec fn url_of(s: LogSource, p: JsonVal) -> Option<Seq<char>> {
    if s == LogSource::Browser {
        str_field(p, "url"@)
    } else {
        None
    }
}

/// Browser events derive the domain from the url; null when parsing fails.
pub open spec fn domain_of(s: LogSource, p: JsonVal) -> Option<Seq<char>> {
    match url_of(s, p) {
        Some(u) => domain_of_url(u),
        None => None,
    }
}

/// Browser events project their title; editor events their language tag.
pub open spec fn title_of(s: LogSource, p: JsonVal) -> Option<Seq<char>> {
    if s == LogSource::Browser {
        str_field(p, "title"@)
    } else if s == LogSource::Editor {
        str_field(p, "language"@)
    } else {
        None
    }
}

/// Editor events project the edited file's path.
pub open spec fn file_path_of(s: LogSource, p: JsonVal) -> Option<Seq<char>> {
    if s == LogSource::Editor {
        str_field(p, "file_path"@)
    } else {
        None
    }
}

/// The event an already-redacted payload document assembles into:
/// normalized projections, hour-bucket session, processed clear.
pub open spec fn assembled_event(id: int, s: LogSource, q: JsonVal, t: int) -> EventModel {
    EventModel {
        id: id,
        source: s,
        payload: q,
        timestamp: t,
        log_type: log_type_of(s),
        session_id: session_of(t),
        command: command_of(s, q),
        url: url_of(s, q),
        domain: domain_of(s, q),
        title: title_of(s, q),
        file_path: file_path_of(s, q),
        processed: false,
    }
}

/// The event a raw payload becomes: redacted, then assembled. The id is
/// assigned by the store.
pub open spec fn normalized_event(s: LogSource, p: JsonVal, t: int, id: int) -> EventModel {
    assembled_event(id, s, sanitize_doc_spec(p), t)
}

/// Assemble the event of an already-redacted payload document: derive the
/// projections and the session key, leave the processed flag clear.
pub fn assemble_event(id: i64, source: LogSource, payload: DocValue, t: i64) -> (e: ActivityLog)
    requires
        valid_ts(t as int),
    ensures
        e@ == assembled_event(id as int, source, payload@, t as int),
{
    let log_type = log_type_label(source);
    let session_id = session_id_of(t);
    let command = match source {
        LogSource::Terminal => get_str_field(&payload, "command"),
        _ => None,
    };
    let url = match source {
        LogSource::Browser => get_str_field(&payload, "url"),
        _ => None,
    };
    let domain = match &url {
        Some(u) => domain_from_url(u.as_str()),
        None => None,
    };
    let title = match source {
        LogSource::Browser => get_str_field(&payload, "title"),
        LogSource::Editor => get_str_field(&payload, "language"),
        _ => None,
    };
    let file_path = match source {
        LogSource::Editor => get_str_field(&payload, "file_path"),
        _ => None,
    };
    ActivityLog {
        id,
        source,
        payload,
        timestamp: t,
        log_type,
        session_id,
        command,
        url,
        domain,
        title,
        file_path,
        processed: false,
    }
}

/// Accept one event: redact the payload, normalize the projections, stamp
/// the session, and append the row with its processed flag clear. A missing
/// or unparseable payload is rejected and stores nothing.
pub fn ingest(
    store: &mut LogStore,
    source: LogSource,
    payload: Option<DocValue>,
    timestamp: Option<i64>,
    received_at: i64,
) -> (r: Result<i64, IngestError>)
    requires
        old(store).wf(),
        old(store).next_id_spec() + 1 < i64::MAX as int,
        valid_ts(received_at as int),
        (match timestamp {
            Some(t) => valid_ts(t as int),
            None => true,
        }),
    ensures
        final(store).wf(),
        old(store).next_id_spec() <= final(store).next_id_spec() <= old(store).next_id_spec()
            + 1,
        (payload is None) <==> (r == Err::<i64, IngestError>(IngestError::BadPayload)),
        payload is None ==> *final(store) == *old(store),
        (match (payload, r) {
            (Some(p), Ok(id)) => {
                let t: int = (match timestamp {
                    Some(t0) => t0 as int,
                    None => received_at as int,
                });
                &&& id as int == old(store).next_id_spec()
                &&& final(store).rows() == old(store).rows().insert(
                    insert_pos(old(store).rows(), t),
                    normalized_event(source, p@, t, id as int),
                )
            },
            (Some(_), Err(_)) => false,
            (None, _) => true,
        }),
{
    let doc = match payload {
        Some(d) => d,
        None => {
            return Err(IngestError::BadPayload);
        },
    };
    let t = match timestamp {
        Some(t0) => t0,
        None => received_at,
    };
    let clean = sanitize_json(&doc);
    let e = assemble_event(0, source, clean, t);
    let id = store.insert_event(e);
    proof {
        let tt: int = t as int;
        assert(e@ == (EventModel { id: e@.id, ..normalized_event(source, doc@, tt, e@.id) }));
    }
    Ok(id)
}

} // verus!
