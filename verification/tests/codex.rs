use token_cost_analyzer::codex::{
    codex_step, parse_codex_events, parse_codex_file, CodexEvent, CodexInfo, CodexPayload, CodexState,
    CodexUsage,
};
use token_cost_analyzer::record::{Timestamp, TokenRecord};

fn payload() -> CodexPayload {
    CodexPayload { id: None, cwd: None, model: None, msg_type: None, info: CodexInfo::Absent }
}

fn event(ts: &str, ty: &str, p: CodexPayload) -> CodexEvent {
    CodexEvent { timestamp: ts.to_string(), event_type: ty.to_string(), payload: p }
}

fn meta(id: Option<&str>, cwd: Option<&str>) -> CodexEvent {
    let mut p = payload();
    p.id = id.map(|s| s.to_string());
    p.cwd = cwd.map(|s| s.to_string());
    event("2025-05-01T00:00:00Z", "session_meta", p)
}

fn turn(model: &str) -> CodexEvent {
    let mut p = payload();
    p.model = Some(model.to_string());
    event("2025-05-01T00:00:01Z", "turn_context", p)
}

fn count(ts: &str, input: i64, output: i64, cached: Option<i64>) -> CodexEvent {
    let mut p = payload();
    p.msg_type = Some("token_count".to_string());
    p.info = CodexInfo::Usage(Some(CodexUsage { input_tokens: input, output_tokens: output, cached_input_tokens: cached }));
    event(ts, "event_msg", p)
}

fn record(session: &str, ts: i64, model: Option<&str>, input: i64, output: i64, cached: i64, project: &str) -> TokenRecord {
    TokenRecord {
        source: "codex".to_string(),
        session_id: session.to_string(),
        agent_type: "root".to_string(),
        agent_id: None,
        timestamp: Timestamp::Seconds(ts),
        model: model.map(|s| s.to_string()),
        input_tokens: input,
        output_tokens: output,
        cache_read_tokens: cached,
        cache_creation_tokens: 0,
        project_path: Some(project.to_string()),
        message_id: None,
    }
}

#[test]
fn codex_full_session() {
    let events = vec![
        meta(Some("sess-1"), Some("/work/proj")),
        turn("gpt-5.4"),
        count("2025-05-01T00:00:10Z", 100, 20, Some(30)),
        count("2025-05-01T00:00:20+08:00", 5, 0, None),
    ];
    let recs = parse_codex_events(&events, "rollout-x", "2025/05/01/rollout-x.jsonl");
    assert_eq!(
        recs,
        vec![
            record("sess-1", 1746057610, Some("gpt-5.4"), 100, 20, 30, "/work/proj"),
            record("sess-1", 1746028820, Some("gpt-5.4"), 5, 0, 0, "/work/proj"),
        ]
    );
}

#[test]
fn codex_fallbacks_before_metadata() {
    let events = vec![count("not a time", 1, 2, None), meta(Some("real"), None), count("2025-05-01T00:00:10Z", 3, 4, None)];
    let recs = parse_codex_events(&events, "from-file", "rel/path.jsonl");
    assert_eq!(
        recs,
        vec![
            record("from-file", 0, None, 1, 2, 0, "rel/path.jsonl"),
            record("real", 1746057610, None, 3, 4, 0, "rel/path.jsonl"),
        ]
    );
}

#[test]
fn codex_skips_non_usage_events() {
    let mut zero = count("2025-05-01T00:00:10Z", 0, 0, Some(7));
    let mut other_msg = count("2025-05-01T00:00:10Z", 1, 1, None);
    other_msg.payload.msg_type = Some("agent_message".to_string());
    let mut no_info = count("2025-05-01T00:00:10Z", 1, 1, None);
    no_info.payload.info = CodexInfo::Absent;
    let mut bad_info = count("2025-05-01T00:00:10Z", 1, 1, None);
    bad_info.payload.info = CodexInfo::Unreadable;
    let mut no_last = count("2025-05-01T00:00:10Z", 1, 1, None);
    no_last.payload.info = CodexInfo::Usage(None);
    let mut wrong_type = count("2025-05-01T00:00:10Z", 1, 1, None);
    wrong_type.event_type = "response_item".to_string();
    zero.payload.id = Some("ignored".to_string());
    let events = vec![zero, other_msg, no_info, bad_info, no_last, wrong_type];
    assert_eq!(parse_codex_events(&events, "f", "p"), vec![]);
}

#[test]
fn codex_output_only_is_kept() {
    let events = vec![count("2025-05-01T00:00:10Z", 0, 9, None)];
    assert_eq!(parse_codex_events(&events, "f", "p"), vec![record("f", 1746057610, None, 0, 9, 0, "p")]);
}

#[test]
fn codex_step_updates_state() {
    let mut st = CodexState { session_id: "a".to_string(), model: None, cwd: None };
    assert_eq!(codex_step(&mut st, &meta(None, Some("/d")), None, "p"), None);
    assert_eq!(st, CodexState { session_id: "a".to_string(), model: None, cwd: Some("/d".to_string()) });
    assert_eq!(codex_step(&mut st, &turn("m1"), None, "p"), None);
    assert_eq!(codex_step(&mut st, &turn("m2"), None, "p"), None);
    assert_eq!(st.model, Some("m2".to_string()));
    let r = codex_step(&mut st, &count("x", 1, 1, None), Some(77), "p");
    assert_eq!(r, Some(record("a", 77, Some("m2"), 1, 1, 0, "/d")));
}

#[test]
fn codex_file_uses_name_and_relative_path() {
    let events = vec![count("2025-05-01T00:00:10Z", 1, 2, None)];
    let recs = parse_codex_file("/home/u/.codex/sessions/2025/05/rollout-abc.jsonl", "/home/u/.codex/sessions", &events);
    assert_eq!(recs, vec![record("rollout-abc", 1746057610, None, 1, 2, 0, "2025/05/rollout-abc.jsonl")]);
    let recs = parse_codex_file("/elsewhere/rollout-abc.jsonl", "/home/u/.codex/sessions", &events);
    assert_eq!(recs, vec![record("rollout-abc", 1746057610, None, 1, 2, 0, "/elsewhere/rollout-abc.jsonl")]);
}

#[test]
fn codex_parsing_in_two_parts_matches_whole() {
    let events = vec![
        meta(Some("s"), None),
        count("2025-05-01T00:00:10Z", 1, 2, None),
        turn("m"),
        count("2025-05-01T00:00:11Z", 3, 4, Some(1)),
    ];
    let whole = parse_codex_events(&events, "f", "p");
    let mut st = CodexState { session_id: "f".to_string(), model: None, cwd: None };
    let mut parts = Vec::new();
    for ev in &events {
        let ts = chrono::DateTime::parse_from_rfc3339(&ev.timestamp).ok().map(|d| d.timestamp());
        if let Some(r) = codex_step(&mut st, ev, ts, "p") {
            parts.push(r);
        }
    }
    assert_eq!(whole, parts);
    assert_eq!(whole.len(), 2);
}

#[test]
fn codex_other_events_change_nothing() {
    let base = vec![meta(Some("s"), Some("/d")), turn("m"), count("2025-05-01T00:00:10Z", 1, 2, None)];
    let mut with_other = base.clone();
    let mut p = payload();
    p.id = Some("not-a-session".to_string());
    p.model = Some("not-a-model".to_string());
    p.msg_type = Some("token_count".to_string());
    p.info = CodexInfo::Usage(Some(CodexUsage { input_tokens: 5, output_tokens: 5, cached_input_tokens: None }));
    with_other.insert(1, event("2025-05-01T00:00:05Z", "response_item", p));
    assert_eq!(parse_codex_events(&with_other, "f", "p"), parse_codex_events(&base, "f", "p"));
}

#[test]
fn codex_records_have_codex_shape() {
    let events = vec![
        count("2025-05-01T00:00:10Z", 1, 0, Some(3)),
        meta(None, Some("/x")),
        count("2025-05-01T00:00:11Z", 0, 4, None),
        count("2025-05-01T00:00:12Z", 0, 0, None),
    ];
    let recs = parse_codex_events(&events, "f", "p");
    assert!(recs.len() <= events.len());
    assert_eq!(recs.len(), 2);
    for r in &recs {
        assert_eq!(r.source, "codex");
        assert_eq!(r.agent_type, "root");
        assert_eq!(r.agent_id, None);
        assert_eq!(r.cache_creation_tokens, 0);
        assert_eq!(r.message_id, None);
        assert!(r.project_path.is_some());
        assert!(r.input_tokens != 0 || r.output_tokens != 0);
    }
}
