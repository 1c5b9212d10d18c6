use token_cost_analyzer::kimi::{
    default_model_from_config, kimi_default_model, kimi_file_info, kimi_file_info_for_path, parse_kimi_file,
    KimiFileInfo, KimiMessage, KimiPayload, KimiUsage,
};
use token_cost_analyzer::record::{Timestamp, TokenRecord};

fn parts(v: &[&str]) -> Vec<String> {
    v.iter().map(|s| s.to_string()).collect()
}

#[test]
fn kimi_root_log_info() {
    let info = kimi_file_info(&parts(&["md5dir", "sess-9", "wire.jsonl"]));
    assert_eq!(
        info,
        KimiFileInfo {
            session_id: "sess-9".to_string(),
            agent_type: "root".to_string(),
            agent_id: None,
            work_dir: "md5dir".to_string()
        }
    );
}

#[test]
fn kimi_subagent_log_info() {
    let info = kimi_file_info(&parts(&["md5dir", "sess-9", "subagents", "agent-3", "wire.jsonl"]));
    assert_eq!(info.agent_type, "subagent");
    assert_eq!(info.agent_id, Some("agent-3".to_string()));
    let info = kimi_file_info(&parts(&["md5dir", "sess-9", "subagents"]));
    assert_eq!(info.agent_type, "subagent");
    assert_eq!(info.agent_id, None);
    let info = kimi_file_info(&parts(&["w", "s", "subagents", "a", "subagents", "b"]));
    assert_eq!(info.agent_id, Some("a".to_string()));
}

#[test]
fn kimi_short_paths_default_to_unknown() {
    let info = kimi_file_info(&parts(&[]));
    assert_eq!(info.session_id, "unknown");
    assert_eq!(info.work_dir, "unknown");
    let info = kimi_file_info(&parts(&["wire.jsonl"]));
    assert_eq!(info.session_id, "unknown");
    assert_eq!(info.work_dir, "wire.jsonl");
}

#[test]
fn kimi_info_from_path() {
    let info = kimi_file_info_for_path("/home/u/.kimi/sessions/abc/s1/wire.jsonl", "/home/u/.kimi/sessions");
    assert_eq!(info.work_dir, "abc");
    assert_eq!(info.session_id, "s1");
    assert_eq!(info.agent_type, "root");
}

#[test]
fn kimi_config_default_model() {
    let cfg = "default_model = \"kimi-code/kimi-for-coding\"\n\n[models.\"kimi-code/kimi-for-coding\"]\nprovider = \"kimi-code\"\nmodel = \"kimi-for-coding\"\n";
    assert_eq!(default_model_from_config(cfg), Some("kimi-for-coding".to_string()));
    assert_eq!(default_model_from_config("  default_model=plain\r\n"), Some("plain".to_string()));
    assert_eq!(default_model_from_config("default_model = \"a/b\"\ndefault_model = \"c/d/e\"\n"), Some("d/e".to_string()));
    assert_eq!(default_model_from_config("model = \"x\"\n"), None);
    assert_eq!(default_model_from_config("default_model\n"), None);
    assert_eq!(default_model_from_config(""), None);
}

#[test]
fn kimi_model_falls_back_to_unknown() {
    assert_eq!(kimi_default_model(None), "unknown");
    assert_eq!(kimi_default_model(Some("theme = \"dark\"\n")), "unknown");
    assert_eq!(kimi_default_model(Some("default_model = \"p/k2\"")), "k2");
}

fn msg(ty: &str, usage: Option<KimiUsage>, id: Option<&str>, with_payload: bool) -> KimiMessage {
    KimiMessage {
        timestamp_bits: 1746057610.25f64.to_bits(),
        msg_type: ty.to_string(),
        payload: if with_payload {
            Some(KimiPayload { token_usage: usage, message_id: id.map(|s| s.to_string()) })
        } else {
            None
        },
    }
}

#[test]
fn kimi_records_from_status_updates() {
    let u = KimiUsage { input_other: 10, output: 20, input_cache_read: 30, input_cache_creation: 40 };
    let msgs = vec![
        msg("StatusUpdate", Some(u), Some("m1"), true),
        msg("StatusUpdate", None, Some("m2"), true),
        msg("StatusUpdate", Some(u), None, false),
        msg("TurnBegin", Some(u), Some("m3"), true),
        msg("StatusUpdate", Some(u), None, true),
    ];
    let recs = parse_kimi_file(
        "/home/u/.kimi/sessions/w/s/subagents/ag/wire.jsonl",
        "/home/u/.kimi/sessions",
        "kimi-for-coding",
        &msgs,
    );
    let expected = |id: Option<&str>| TokenRecord {
        source: "kimi".to_string(),
        session_id: "s".to_string(),
        agent_type: "subagent".to_string(),
        agent_id: Some("ag".to_string()),
        timestamp: Timestamp::FloatBits(1746057610.25f64.to_bits()),
        model: Some("kimi-for-coding".to_string()),
        input_tokens: 10,
        output_tokens: 20,
        cache_read_tokens: 30,
        cache_creation_tokens: 40,
        project_path: Some("w".to_string()),
        message_id: id.map(|s| s.to_string()),
    };
    assert_eq!(recs, vec![expected(Some("m1")), expected(None)]);
}

#[test]
fn kimi_records_split_and_other_messages() {
    let info = kimi_file_info(&parts(&["w", "s", "wire.jsonl"]));
    let u = KimiUsage { input_other: 1, output: 2, input_cache_read: 3, input_cache_creation: 4 };
    let a = vec![msg("StatusUpdate", Some(u), Some("a"), true)];
    let b = vec![msg("StatusUpdate", Some(u), Some("b"), true), msg("StatusUpdate", Some(u), None, true)];
    let whole: Vec<KimiMessage> = a.iter().chain(b.iter()).cloned().collect();
    let mut joined = token_cost_analyzer::kimi::parse_kimi_messages(&info, "k", &a);
    joined.extend(token_cost_analyzer::kimi::parse_kimi_messages(&info, "k", &b));
    assert_eq!(token_cost_analyzer::kimi::parse_kimi_messages(&info, "k", &whole), joined);
    let mut with_other = whole.clone();
    with_other.insert(1, msg("ContentPart", Some(u), Some("x"), true));
    assert_eq!(
        token_cost_analyzer::kimi::parse_kimi_messages(&info, "k", &with_other),
        token_cost_analyzer::kimi::parse_kimi_messages(&info, "k", &whole)
    );
    assert_eq!(joined.len(), 3);
    for r in &joined {
        assert_eq!(r.source, "kimi");
        assert_eq!(r.model, Some("k".to_string()));
        assert_eq!(r.project_path, Some("w".to_string()));
    }
}
