use token_cost_analyzer::commands::{check_session_page, export_format, tray_token_labels, ExportFormat};

#[test]
fn export_known_formats() {
    assert_eq!(export_format(10, "csv"), Ok(ExportFormat::Csv));
    assert_eq!(export_format(100_000, "json"), Ok(ExportFormat::Json));
}

#[test]
fn export_unknown_format() {
    assert_eq!(export_format(1, "xlsx"), Err("unsupported format, use 'csv' or 'json'".to_string()));
    assert_eq!(export_format(1, "CSV"), Err("unsupported format, use 'csv' or 'json'".to_string()));
}

#[test]
fn export_too_many_records() {
    assert_eq!(
        export_format(100_001, "csv"),
        Err("导出数据量过大 (100001 条记录)，请缩小筛选范围后重试".to_string())
    );
    assert_eq!(
        export_format(123_456, "xlsx"),
        Err("导出数据量过大 (123456 条记录)，请缩小筛选范围后重试".to_string())
    );
}

#[test]
fn session_page_checks() {
    assert_eq!(check_session_page(20, 0), Ok(()));
    let msg = Err("limit must be > 0 and offset must be >= 0".to_string());
    assert_eq!(check_session_page(0, 0), msg);
    assert_eq!(check_session_page(10, -1), msg);
    assert_eq!(check_session_page(-5, 3), msg);
}

#[test]
fn tray_labels() {
    let l = tray_token_labels(1_234_567, 42, 5_500);
    assert_eq!(l.today_tokens, "  今日 Token: 1.2M");
    assert_eq!(l.today_requests, "  今日请求数: 42");
    assert_eq!(l.total_tokens, "  总计 Token: 5.5k");
}
