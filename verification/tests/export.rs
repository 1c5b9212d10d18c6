use token_cost_analyzer::export::{export_csv, export_row};
use token_cost_analyzer::record::{Timestamp, TokenRecord};

fn rec(project: Option<&str>) -> TokenRecord {
    TokenRecord {
        source: "codex".to_string(),
        session_id: "s1".to_string(),
        agent_type: "root".to_string(),
        agent_id: None,
        timestamp: Timestamp::Seconds(1746057610),
        model: Some("m".to_string()),
        input_tokens: 100,
        output_tokens: -2,
        cache_read_tokens: 0,
        cache_creation_tokens: 7,
        project_path: project.map(|s| s.to_string()),
        message_id: None,
    }
}

#[test]
fn export_row_fields() {
    let row = export_row(&rec(Some("/p")), "1746057610", "0.000123");
    assert_eq!(
        row,
        vec!["codex", "s1", "root", "", "1746057610", "m", "100", "-2", "0", "7", "/p", "", "0.000123"]
    );
}

#[test]
fn export_csv_text() {
    let rows = vec![
        export_row(&rec(Some("/p")), "1746057610", "0.000000"),
        export_row(&rec(Some("a,b")), "1.5", "1.000000"),
    ];
    let text = export_csv(&rows).unwrap();
    assert_eq!(
        text,
        "source,session_id,agent_type,agent_id,timestamp,model,input_tokens,output_tokens,cache_read_tokens,cache_creation_tokens,project_path,message_id,cost_estimate\n\
         codex,s1,root,,1746057610,m,100,-2,0,7,/p,,0.000000\n\
         codex,s1,root,,1.5,m,100,-2,0,7,\"a,b\",,1.000000\n"
    );
}

#[test]
fn export_csv_header_only() {
    let text = export_csv(&vec![]).unwrap();
    assert_eq!(text.lines().count(), 1);
    assert!(text.starts_with("source,session_id,"));
}

#[test]
fn export_csv_reads_back() {
    let tricky = rec(Some("line one\nline \"two\", end\r"));
    let rows = vec![
        export_row(&rec(Some("/p")), "1746057610", "0.000000"),
        export_row(&tricky, "1.25", "2.500000"),
        export_row(&rec(None), "3", "0.000001"),
    ];
    let text = export_csv(&rows).unwrap();
    assert!(text.contains("\"line one\nline \"\"two\"\", end\r\""));
    let mut reader = csv::ReaderBuilder::new().has_headers(false).from_reader(text.as_bytes());
    let back: Vec<Vec<String>> = reader
        .records()
        .map(|r| r.unwrap().iter().map(|f| f.to_string()).collect())
        .collect();
    assert_eq!(back.len(), 4);
    assert_eq!(back[0][0], "source");
    assert_eq!(back[0][12], "cost_estimate");
    assert_eq!(&back[1..], &rows[..]);
}
