use token_cost_analyzer::paths::{
    extract_session_id_from_filename, file_stem_of_name, is_codex_session_file, is_kimi_wire_file,
};

#[test]
fn session_id_is_the_file_stem() {
    assert_eq!(
        extract_session_id_from_filename("/home/u/.codex/sessions/2025/05/01/rollout-2025-05-01T10-00-00-abc.jsonl"),
        Some("rollout-2025-05-01T10-00-00-abc".to_string())
    );
    assert_eq!(extract_session_id_from_filename("dir/name"), Some("name".to_string()));
    assert_eq!(extract_session_id_from_filename("dir/.hidden"), Some(".hidden".to_string()));
    assert_eq!(extract_session_id_from_filename("dir/a.b.c"), Some("a.b".to_string()));
    assert_eq!(extract_session_id_from_filename("dir/.."), None);
    assert_eq!(extract_session_id_from_filename("/"), None);
}

#[test]
fn file_stem_rules() {
    assert_eq!(file_stem_of_name("foo.rs"), "foo");
    assert_eq!(file_stem_of_name("foo"), "foo");
    assert_eq!(file_stem_of_name(".foo"), ".foo");
    assert_eq!(file_stem_of_name(".foo.rs"), ".foo");
    assert_eq!(file_stem_of_name("foo."), "foo");
    assert_eq!(file_stem_of_name(".."), "..");
}

#[test]
fn codex_session_file_names() {
    assert!(is_codex_session_file("rollout-2025-05-01.jsonl"));
    assert!(!is_codex_session_file("rollout-2025-05-01.json"));
    assert!(!is_codex_session_file("session-2025.jsonl"));
    assert!(!is_codex_session_file("rollout-.jsonl.bak"));
    assert!(is_codex_session_file("rollout-.jsonl"));
    assert!(!is_codex_session_file(""));
}

#[test]
fn kimi_wire_file_names() {
    assert!(is_kimi_wire_file("wire.jsonl"));
    assert!(!is_kimi_wire_file("wire.json"));
    assert!(!is_kimi_wire_file("context.jsonl"));
}
