use worklog::doc::DocValue;
use worklog::ingest::ingest;
use worklog::ingest::IngestError;
use worklog::models::LogSource;
use worklog::scheduler::BeginOutcome;
use worklog::scheduler::Pipeline;
use worklog::settings::AiSettings;

const T: i64 = 1_700_000_000;

fn settings() -> AiSettings {
    AiSettings {
        provider_url: "http://localhost:1234/v1".to_string(),
        api_key: None,
        model_name: "test-model".to_string(),
        temperature_milli: None,
        batch_size: None,
        summary_frequency_minutes: None,
    }
}

fn command_payload(cmd: &str) -> DocValue {
    DocValue::Obj(vec![("command".to_string(), DocValue::Str(cmd.to_string()))])
}

#[test]
fn missing_payload_stores_no_row() {
    let mut p = Pipeline::new();
    let r = ingest(&mut p.logs, LogSource::Terminal, None, Some(T), T);
    assert_eq!(r, Err(IngestError::BadPayload));
    assert!(p.logs.query_window(0, T + 1000).is_empty());
}

#[test]
fn ingest_stores_one_normalized_row() {
    let mut p = Pipeline::new();
    let id = ingest(
        &mut p.logs,
        LogSource::Terminal,
        Some(command_payload("git push")),
        Some(T),
        T + 5,
    )
    .expect("accepted");
    let rows = p.logs.query_window(T - 1, T + 1);
    assert_eq!(rows.len(), 1);
    let e = &rows[0];
    assert_eq!(e.id, id);
    assert_eq!(e.timestamp, T);
    assert_eq!(e.log_type, "command");
    assert_eq!(e.command.as_deref(), Some("git push"));
    assert_eq!(e.session_id, T / 3600);
    assert!(!e.processed);
}

#[test]
fn missing_timestamp_defaults_to_receipt_time() {
    let mut p = Pipeline::new();
    ingest(
        &mut p.logs,
        LogSource::Terminal,
        Some(command_payload("ls")),
        None,
        T + 7,
    )
    .expect("accepted");
    let rows = p.logs.query_window(T, T + 100);
    assert_eq!(rows.len(), 1);
    assert_eq!(rows[0].timestamp, T + 7);
}

#[test]
fn same_hour_shares_a_session_and_next_hour_differs() {
    let mut p = Pipeline::new();
    let t0 = 7200 * 3600;
    ingest(&mut p.logs, LogSource::Terminal, Some(command_payload("a")), Some(t0), t0).unwrap();
    ingest(
        &mut p.logs,
        LogSource::Terminal,
        Some(command_payload("b")),
        Some(t0 + 3599),
        t0,
    )
    .unwrap();
    ingest(
        &mut p.logs,
        LogSource::Terminal,
        Some(command_payload("c")),
        Some(t0 + 3600),
        t0,
    )
    .unwrap();
    let rows = p.logs.query_window(t0, t0 + 4000);
    assert_eq!(rows.len(), 3);
    assert_eq!(rows[0].session_id, rows[1].session_id);
    assert_ne!(rows[1].session_id, rows[2].session_id);
}

#[test]
fn stored_payload_is_redacted_before_persistence() {
    let mut p = Pipeline::new();
    let payload = DocValue::Obj(vec![(
        "note".to_string(),
        DocValue::Str("api_key: sk-abcdef0123456789".to_string()),
    )]);
    ingest(&mut p.logs, LogSource::Other, Some(payload), Some(T), T).unwrap();
    let rows = p.logs.query_window(T, T);
    assert_eq!(rows.len(), 1);
    let text = worklog::doc::to_json(&rows[0].payload);
    assert!(text.contains("api_key: [REDACTED_KEY]"), "stored: {text}");
    assert!(!text.contains("sk-abcdef0123456789"), "raw secret leaked: {text}");
}

#[test]
fn browser_events_project_url_domain_and_title() {
    let mut p = Pipeline::new();
    let payload = DocValue::Obj(vec![
        (
            "url".to_string(),
            DocValue::Str("https://docs.example.org/guide?x=1".to_string()),
        ),
        ("title".to_string(), DocValue::Str("The Guide".to_string())),
    ]);
    ingest(&mut p.logs, LogSource::Browser, Some(payload), Some(T), T).unwrap();
    let rows = p.logs.query_window(T, T);
    let e = &rows[0];
    assert_eq!(e.log_type, "browse");
    assert_eq!(e.url.as_deref(), Some("https://docs.example.org/guide?x=1"));
    assert_eq!(e.domain.as_deref(), Some("docs.example.org"));
    assert_eq!(e.title.as_deref(), Some("The Guide"));
    assert_eq!(e.command, None);
}

#[test]
fn unprocessed_query_only_returns_clear_rows_and_marking_empties_the_window() {
    let mut p = Pipeline::new();
    ingest(&mut p.logs, LogSource::Terminal, Some(command_payload("a")), Some(T), T).unwrap();
    ingest(
        &mut p.logs,
        LogSource::Terminal,
        Some(command_payload("b")),
        Some(T + 10),
        T,
    )
    .unwrap();
    assert_eq!(p.logs.query_unprocessed(T, T + 10).len(), 2);
    p.logs.mark_processed(T, T + 10);
    assert!(p.logs.query_unprocessed(T, T + 10).is_empty());
    for e in p.logs.query_window(T, T + 10) {
        assert!(e.processed);
    }
    ingest(
        &mut p.logs,
        LogSource::Terminal,
        Some(command_payload("c")),
        Some(T + 5),
        T,
    )
    .unwrap();
    let unprocessed = p.logs.query_unprocessed(T, T + 10);
    assert_eq!(unprocessed.len(), 1);
    assert_eq!(unprocessed[0].command.as_deref(), Some("c"));
    assert!(!unprocessed[0].processed);
}

#[test]
fn marking_is_idempotent() {
    let mut p = Pipeline::new();
    ingest(&mut p.logs, LogSource::Terminal, Some(command_payload("a")), Some(T), T).unwrap();
    p.logs.mark_processed(T, T);
    p.logs.mark_processed(T, T);
    assert!(p.logs.query_unprocessed(T, T).is_empty());
    assert_eq!(p.logs.query_window(T, T).len(), 1);
}

#[test]
fn empty_window_opens_no_batch() {
    let mut p = Pipeline::new();
    assert!(matches!(
        p.begin_batch(&settings(), T, false),
        BeginOutcome::EmptyWindow
    ));
    assert!(matches!(
        p.begin_batch(&settings(), T, true),
        BeginOutcome::EmptyWindow
    ));
}

#[test]
fn manual_scenario_creates_one_report_backed_by_the_event() {
    let mut p = Pipeline::new();
    ingest(
        &mut p.logs,
        LogSource::Terminal,
        Some(command_payload("git push")),
        Some(T),
        T,
    )
    .unwrap();
    let batch = match p.begin_batch(&settings(), T, true) {
        BeginOutcome::Started(b) => b,
        _ => panic!("expected a started batch"),
    };
    assert!(batch.manual);
    assert_eq!(batch.window_start, T - 900);
    assert_eq!(batch.window_end, T);
    assert_eq!(batch.events.len(), 1);
    assert_eq!(batch.events[0].command.as_deref(), Some("git push"));
    p.finish_batch(&batch, "Pushed the feature branch.".to_string());
    let reports = p.get_ai_reports();
    assert_eq!(reports.len(), 1);
    assert_eq!(reports[0].summary, "Pushed the feature branch.");
    // The report is stamped with its backing window's end.
    assert_eq!(reports[0].generated_at, T);
    // The manual path does not mark the window processed.
    assert_eq!(p.logs.query_unprocessed(T - 900, T).len(), 1);
}

#[test]
fn timer_path_marks_its_window_processed() {
    let mut p = Pipeline::new();
    ingest(&mut p.logs, LogSource::Terminal, Some(command_payload("a")), Some(T), T).unwrap();
    let batch = match p.begin_batch(&settings(), T, false) {
        BeginOutcome::Started(b) => b,
        _ => panic!("expected a started batch"),
    };
    assert!(!batch.manual);
    assert_eq!(batch.window_start, T - 600);
    p.finish_batch(&batch, "tick".to_string());
    let reports = p.get_ai_reports();
    assert_eq!(reports[0].generated_at, T);
    assert!(p.logs.query_unprocessed(T - 600, T).is_empty());
    assert!(matches!(
        p.begin_batch(&settings(), T, false),
        BeginOutcome::EmptyWindow
    ));
}

#[test]
fn the_latch_admits_one_batch_at_a_time() {
    let mut p = Pipeline::new();
    ingest(&mut p.logs, LogSource::Terminal, Some(command_payload("a")), Some(T), T).unwrap();
    let batch = match p.begin_batch(&settings(), T, true) {
        BeginOutcome::Started(b) => b,
        _ => panic!("expected a started batch"),
    };
    assert!(matches!(
        p.begin_batch(&settings(), T, false),
        BeginOutcome::Busy
    ));
    assert!(matches!(
        p.begin_batch(&settings(), T, true),
        BeginOutcome::Busy
    ));
    p.fail_batch();
    // A failed call stores nothing and clears the latch for the next try.
    assert!(p.get_ai_reports().is_empty());
    assert!(matches!(
        p.begin_batch(&settings(), T, true),
        BeginOutcome::Started(_)
    ));
    drop(batch);
}

#[test]
fn reports_come_back_newest_first() {
    let mut p = Pipeline::new();
    for k in 0..3i64 {
        ingest(
            &mut p.logs,
            LogSource::Terminal,
            Some(command_payload("x")),
            Some(T + k),
            T,
        )
        .unwrap();
        let batch = match p.begin_batch(&settings(), T + k, true) {
            BeginOutcome::Started(b) => b,
            _ => panic!("expected a started batch"),
        };
        p.finish_batch(&batch, format!("report {k}"));
    }
    let reports = p.get_ai_reports();
    assert_eq!(reports.len(), 3);
    assert_eq!(reports[0].summary, "report 2");
    assert_eq!(reports[1].summary, "report 1");
    assert_eq!(reports[2].summary, "report 0");
}

#[test]
fn day_lookup_parses_the_date_and_returns_newest_first() {
    let mut p = Pipeline::new();
    // 2023-11-14T22:13:20 UTC is inside the day 2023-11-14.
    ingest(&mut p.logs, LogSource::Terminal, Some(command_payload("a")), Some(T), T).unwrap();
    ingest(
        &mut p.logs,
        LogSource::Terminal,
        Some(command_payload("b")),
        Some(T + 60),
        T,
    )
    .unwrap();
    let rows = p.get_logs_by_date("2023-11-14").expect("valid date");
    assert_eq!(rows.len(), 2);
    assert_eq!(rows[0].command.as_deref(), Some("b"));
    assert_eq!(rows[1].command.as_deref(), Some("a"));
    assert!(p.get_logs_by_date("2023-11-13").expect("valid date").is_empty());
    // A real calendar day outside the representable range holds nothing.
    assert!(p.get_logs_by_date("0001-01-01").expect("valid date").is_empty());
    assert!(p.get_logs_by_date("not-a-date").is_none());
}
