use worklog::doc::DocValue;
use worklog::ingest::domain_from_url;
use worklog::models::ActivityLog;
use worklog::models::AiReport;
use worklog::models::LogSource;
use worklog::settings::AiSettings;
use worklog::settings::SaveAiSettingsPayload;
use worklog::settings::ValidationError;
use worklog::settings::validate_settings;
use worklog::summarize::ConnectionTest;
use worklog::summarize::SummarizeError;
use worklog::summarize::build_summary_request;
use worklog::summarize::build_test_request;
use worklog::summarize::completion_endpoint;
use worklog::summarize::decode_chat_response;
use worklog::summarize::interpret_test_response;
use worklog::summarize::select_model;
use worklog::summarize::SYSTEM_PROMPT;

fn settings_for(url: &str, model: &str) -> AiSettings {
    AiSettings {
        provider_url: url.to_string(),
        api_key: None,
        model_name: model.to_string(),
        temperature_milli: None,
        batch_size: None,
        summary_frequency_minutes: None,
    }
}

#[test]
fn configured_model_name_wins() {
    let s = settings_for("https://api.openai.com/v1", "my-model");
    assert_eq!(select_model(&s), "my-model");
}

#[test]
fn empty_model_name_falls_back_to_url_heuristics() {
    assert_eq!(
        select_model(&settings_for("https://api.openai.com/v1", "  ")),
        "gpt-4o-mini"
    );
    assert_eq!(
        select_model(&settings_for("https://api.anthropic.com/v1", "")),
        "anthropic-default-model"
    );
    assert_eq!(
        select_model(&settings_for("http://localhost:1234/v1", "")),
        "local-model"
    );
}

#[test]
fn endpoint_drops_trailing_slashes() {
    assert_eq!(
        completion_endpoint(&settings_for("http://localhost:1234/v1///", "m")),
        "http://localhost:1234/v1/chat/completions"
    );
    assert_eq!(
        completion_endpoint(&settings_for("http://x", "m")),
        "http://x/chat/completions"
    );
}

#[test]
fn empty_window_is_rejected_without_a_request() {
    let events: Vec<ActivityLog> = Vec::new();
    let reports: Vec<AiReport> = Vec::new();
    let r = build_summary_request(&settings_for("http://x", "m"), &events, &reports);
    assert!(matches!(r, Err(SummarizeError::EmptyInput)));
}

#[test]
fn request_carries_system_prompt_and_rendered_events() {
    let mut p = worklog::scheduler::Pipeline::new();
    let t: i64 = 1_700_000_000;
    worklog::ingest::ingest(
        &mut p.logs,
        LogSource::Terminal,
        Some(DocValue::Obj(vec![(
            "command".to_string(),
            DocValue::Str("cargo test".to_string()),
        )])),
        Some(t),
        t,
    )
    .unwrap();
    let events = p.logs.query_window(t, t);
    let reports: Vec<AiReport> = Vec::new();
    let req = build_summary_request(&settings_for("http://x", "m"), &events, &reports)
        .expect("non-empty window");
    assert_eq!(req.model, "m");
    assert_eq!(req.temperature_milli, 200);
    assert_eq!(req.max_tokens, None);
    assert_eq!(req.messages.len(), 2);
    assert_eq!(req.messages[0].role, "system");
    assert_eq!(req.messages[0].content, SYSTEM_PROMPT);
    assert_eq!(req.messages[1].role, "user");
    let user = &req.messages[1].content;
    assert!(user.contains("Terminal commands:\n"));
    assert!(user.contains("cargo test"));
    assert!(user.contains("2023-11-14T22:13:20+00:00"));
    assert!(!user.contains("Recent context:"));
}

#[test]
fn recent_reports_feed_the_context_block() {
    let mut p = worklog::scheduler::Pipeline::new();
    let t: i64 = 1_700_000_000;
    worklog::ingest::ingest(
        &mut p.logs,
        LogSource::Other,
        Some(DocValue::Null),
        Some(t),
        t,
    )
    .unwrap();
    let window = p.logs.query_window(t, t);
    let reports = vec![AiReport {
        id: 1,
        summary: "Earlier work.".to_string(),
        generated_at: t - 600,
    }];
    let req = build_summary_request(&settings_for("http://x", "m"), &window, &reports).unwrap();
    let user = &req.messages[1].content;
    assert!(user.starts_with("Recent context:\n- Earlier work.\n"));
}

#[test]
fn provider_failure_keeps_status_and_body() {
    let r = decode_chat_response(500, "boom", Some(vec!["hi".to_string()]));
    assert_eq!(r, Err(SummarizeError::ProviderError(500, "boom".to_string())));
}

#[test]
fn unreadable_body_is_a_decode_error() {
    assert_eq!(
        decode_chat_response(200, "???", None),
        Err(SummarizeError::DecodeError)
    );
}

#[test]
fn first_non_empty_choice_is_returned_trimmed() {
    let r = decode_chat_response(
        200,
        "",
        Some(vec!["".to_string(), "  a summary  ".to_string(), "later".to_string()]),
    );
    assert_eq!(r, Ok("a summary".to_string()));
}

#[test]
fn all_blank_choices_are_an_empty_response() {
    let r = decode_chat_response(200, "", Some(vec!["".to_string(), "   ".to_string()]));
    assert_eq!(r, Err(SummarizeError::EmptyResponse));
}

#[test]
fn connection_test_reports_status_and_shape() {
    assert_eq!(
        interpret_test_response(200, "", Some(true)),
        ConnectionTest::Success(200)
    );
    assert_eq!(
        interpret_test_response(200, "", Some(false)),
        ConnectionTest::BadFormat(200)
    );
    assert_eq!(
        interpret_test_response(200, "", None),
        ConnectionTest::BadFormat(200)
    );
    assert_eq!(
        interpret_test_response(503, "down", Some(true)),
        ConnectionTest::BadStatus(503, "down".to_string())
    );
}

#[test]
fn connection_test_request_is_minimal_and_fixed() {
    let req = build_test_request(&settings_for("https://api.openai.com/v1", "ignored"));
    assert_eq!(req.model, "gpt-3.5-turbo");
    assert_eq!(req.max_tokens, Some(10));
    assert_eq!(req.temperature_milli, 100);
    assert_eq!(req.messages.len(), 1);
    let local = build_test_request(&settings_for("http://localhost:1234", "ignored"));
    assert_eq!(local.model, "llama-3-8b-instruct");
}

#[test]
fn settings_validation_names_the_empty_field() {
    let base = || SaveAiSettingsPayload {
        provider_url: "http://x".to_string(),
        api_key: None,
        model_name: "m".to_string(),
        temperature_milli: None,
        batch_size: None,
        summary_frequency_minutes: None,
    };
    let mut p = base();
    p.provider_url = "   ".to_string();
    assert!(matches!(
        validate_settings(p),
        Err(ValidationError::EmptyProviderUrl)
    ));
    let mut p = base();
    p.model_name = "\t".to_string();
    assert!(matches!(
        validate_settings(p),
        Err(ValidationError::EmptyModelName)
    ));
}

#[test]
fn settings_validation_trims_and_normalizes_the_key() {
    let p = SaveAiSettingsPayload {
        provider_url: "  http://x  ".to_string(),
        api_key: Some("  ".to_string()),
        model_name: " m ".to_string(),
        temperature_milli: Some(700),
        batch_size: Some(10),
        summary_frequency_minutes: Some(15),
    };
    let s = validate_settings(p).expect("valid");
    assert_eq!(s.provider_url, "http://x");
    assert_eq!(s.model_name, "m");
    assert_eq!(s.api_key, None);
    assert_eq!(s.temperature_milli, Some(700));
    let p2 = SaveAiSettingsPayload {
        provider_url: "http://x".to_string(),
        api_key: Some(" SECRET-REDACTED ".to_string()),
        model_name: "m".to_string(),
        temperature_milli: None,
        batch_size: None,
        summary_frequency_minutes: None,
    };
    let s2 = validate_settings(p2).expect("valid");
    assert_eq!(s2.api_key.as_deref(), Some("SECRET-REDACTED"));
}

#[test]
fn domains_come_from_the_url_host() {
    assert_eq!(
        domain_from_url("https://sub.example.com/path?q=1").as_deref(),
        Some("sub.example.com")
    );
    assert_eq!(
        domain_from_url("http://user@host.com:8080/").as_deref(),
        Some("host.com")
    );
    assert_eq!(domain_from_url("notaurl"), None);
    assert_eq!(domain_from_url("http://"), None);
}

#[test]
fn rows_round_trip_through_rfc3339_and_json_text() {
    let t: i64 = 1_700_000_000;
    let mut p = worklog::scheduler::Pipeline::new();
    worklog::ingest::ingest(
        &mut p.logs,
        LogSource::Terminal,
        Some(DocValue::Obj(vec![(
            "command".to_string(),
            DocValue::Str("make".to_string()),
        )])),
        Some(t),
        t,
    )
    .unwrap();
    let rows = p.logs.query_window(t, t);
    let e = &rows[0];
    let row = e.to_row();
    assert_eq!(row.source, "terminal");
    assert_eq!(row.timestamp, "2023-11-14T22:13:20+00:00");
    assert_eq!(row.payload, "{\"command\":\"make\"}");
    let payload = DocValue::Obj(vec![(
        "command".to_string(),
        DocValue::Str("make".to_string()),
    )]);
    let back = ActivityLog::from_row(&row, payload).expect("row converts");
    assert_eq!(back.id, e.id);
    assert_eq!(back.timestamp, t);
    assert_eq!(back.command.as_deref(), Some("make"));
    assert!(matches!(back.source, LogSource::Terminal));

    let rep = AiReport {
        id: 7,
        summary: "s".to_string(),
        generated_at: t,
    };
    let rrow = rep.to_row();
    assert_eq!(rrow.generated_at, "2023-11-14T22:13:20+00:00");
    let rback = AiReport::from_row(&rrow).expect("row converts");
    assert_eq!(rback.id, 7);
    assert_eq!(rback.generated_at, t);
    assert_eq!(rback.summary, "s");
}

#[test]
fn bad_row_timestamps_are_rejected() {
    let row = worklog::models::AiReportRow {
        id: 1,
        summary: "s".to_string(),
        generated_at: "yesterday".to_string(),
    };
    assert!(AiReport::from_row(&row).is_err());
}
