use worklog::doc::DocValue;
use worklog::history::{browser_label, Browser, HistoryDump, HistoryEntry};
use worklog::ingest::{ingest, source_from_str};
use worklog::models::LogSource;
use worklog::redact::sanitize_text;
use worklog::scheduler::{BeginOutcome, Pipeline};
use worklog::settings::{AiSettings, AiSettingsRow};

const T: i64 = 1_700_000_000;

fn settings() -> AiSettings {
    AiSettings {
        provider_url: "http://localhost:1234/v1".to_string(),
        api_key: None,
        model_name: "m".to_string(),
        temperature_milli: None,
        batch_size: None,
        summary_frequency_minutes: None,
    }
}

#[test]
fn empty_text_passes_through() {
    assert_eq!(sanitize_text(""), "");
}

#[test]
fn text_outside_all_rules_passes_through() {
    let text = "ordinary notes about the build, nothing else";
    assert_eq!(sanitize_text(text), text);
    let wide = "zname pojistky \u{17e}lu\u{165}ou\u{10d}k\u{fd} k\u{16f}\u{148} 42";
    assert_eq!(sanitize_text(wide), wide);
}

#[test]
fn long_text_is_handled_whole() {
    let mut text = String::new();
    for _ in 0..200 {
        text.push_str("filler words 10.0.0.1 and 8.8.8.8 end. ");
    }
    let out = sanitize_text(&text);
    assert!(out.contains("10.0.0.1"));
    assert!(!out.contains("8.8.8.8"));
    assert_eq!(out.matches("[IP_REDACTED]").count(), 200);
}

#[test]
fn equal_timestamps_keep_arrival_order() {
    let mut p = Pipeline::new();
    for name in ["first", "second", "third"] {
        ingest(
            &mut p.logs,
            LogSource::Terminal,
            Some(DocValue::Obj(vec![(
                "command".to_string(),
                DocValue::Str(name.to_string()),
            )])),
            Some(T),
            T,
        )
        .unwrap();
    }
    let rows = p.logs.query_window(T, T);
    let names: Vec<_> = rows.iter().map(|e| e.command.clone().unwrap()).collect();
    assert_eq!(names, ["first", "second", "third"]);
}

#[test]
fn editor_events_project_path_and_language() {
    let mut p = Pipeline::new();
    let payload = DocValue::Obj(vec![
        (
            "file_path".to_string(),
            DocValue::Str("/src/main.rs".to_string()),
        ),
        ("language".to_string(), DocValue::Str("rust".to_string())),
    ]);
    ingest(&mut p.logs, LogSource::Editor, Some(payload), Some(T), T).unwrap();
    let rows = p.logs.query_window(T, T);
    let e = &rows[0];
    assert_eq!(e.log_type, "file_edit");
    assert_eq!(e.file_path.as_deref(), Some("/src/main.rs"));
    assert_eq!(e.title.as_deref(), Some("rust"));
    assert_eq!(e.url, None);
    assert_eq!(e.domain, None);
}

#[test]
fn unknown_sources_get_no_projections() {
    let mut p = Pipeline::new();
    let payload = DocValue::Obj(vec![(
        "command".to_string(),
        DocValue::Str("ls".to_string()),
    )]);
    ingest(&mut p.logs, LogSource::Other, Some(payload), Some(T), T).unwrap();
    let rows = p.logs.query_window(T, T);
    let e = &rows[0];
    assert_eq!(e.log_type, "unknown");
    assert_eq!(e.command, None);
}

#[test]
fn source_tags_map_to_their_sources() {
    assert!(matches!(source_from_str("terminal"), LogSource::Terminal));
    assert!(matches!(source_from_str("browser"), LogSource::Browser));
    assert!(matches!(source_from_str("editor"), LogSource::Editor));
    assert!(matches!(source_from_str("vscode"), LogSource::Editor));
    assert!(matches!(source_from_str("watch"), LogSource::Other));
}

#[test]
fn reports_page_is_capped() {
    let mut p = Pipeline::new();
    for k in 0..25i64 {
        ingest(
            &mut p.logs,
            LogSource::Terminal,
            Some(DocValue::Null),
            Some(T + k),
            T,
        )
        .unwrap();
        let batch = match p.begin_batch(&settings(), T + k, true) {
            BeginOutcome::Started(b) => b,
            _ => panic!("expected a batch"),
        };
        p.finish_batch(&batch, format!("r{k}"));
    }
    let reports = p.get_ai_reports();
    assert_eq!(reports.len(), 20);
    assert_eq!(reports[0].summary, "r24");
    assert_eq!(reports[19].summary, "r5");
}

#[test]
fn settings_rows_convert_without_tuning_knobs() {
    let row = AiSettingsRow {
        provider_url: "http://x".to_string(),
        api_key: Some("k".to_string()),
        model_name: "m".to_string(),
    };
    let s = AiSettings::from(row);
    assert_eq!(s.provider_url, "http://x");
    assert_eq!(s.api_key.as_deref(), Some("k"));
    assert_eq!(s.model_name, "m");
    assert_eq!(s.temperature_milli, None);
}

#[test]
fn browser_labels_are_fixed() {
    assert_eq!(browser_label(Browser::Chrome), "Chrome");
    assert_eq!(browser_label(Browser::Edge), "Edge");
    assert_eq!(browser_label(Browser::Firefox), "Firefox");
    let dump = HistoryDump {
        browser: browser_label(Browser::Edge),
        entries: vec![HistoryEntry {
            url: "https://example.com".to_string(),
            title: None,
            visit_time: 1,
            browser: browser_label(Browser::Edge),
        }],
    };
    assert_eq!(dump.entries.len(), 1);
}
