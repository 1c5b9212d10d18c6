//! The checks and texts of the application's commands and tray menu.
use vstd::prelude::*;

use crate::format::{fmt_tokens, token_text};
use crate::text::{chars_of, decimal, push_decimal, push_signed_decimal, signed_decimal, string_of, text_eq};

verus! {

/// The most records that one export may hold.
pub const MAX_EXPORT_RECORDS: usize = 100_000;

/// The formats that records can be exported in.
#[derive(Clone, Copy, Debug, PartialEq, Eq)]
pub enum ExportFormat {
    Csv,
    Json,
}

/// The message that refuses an export of `count` records.
pub open spec fn too_many_records_message(count: nat) -> Seq<char> {
    "导出数据量过大 ("@ + decimal(count) + " 条记录)，请缩小筛选范围后重试"@
}

/// The message that refuses an unknown export format.
pub open spec fn unsupported_format_message() -> Seq<char> {
    "unsupported format, use 'csv' or 'json'"@
}

/// Decides an export of `record_count` records in the format named
/// `format`: more than `MAX_EXPORT_RECORDS` records are refused whatever
/// the format; otherwise `csv` and `json` are the formats known.
pub fn export_format(record_count: usize, format: &str) -> (r: Result<ExportFormat, String>)
    ensures
        record_count > MAX_EXPORT_RECORDS ==> (r matches Err(m) && m@ == too_many_records_message(
            record_count as nat,
        )),
        record_count <= MAX_EXPORT_RECORDS ==> {
            if format@ == "csv"@ {
                r == Ok::<ExportFormat, String>(ExportFormat::Csv)
            } else if format@ == "json"@ {
                r == Ok::<ExportFormat, String>(ExportFormat::Json)
            } else {
                (r matches Err(m) && m@ == unsupported_format_message())
            }
        },
{
    if record_count > MAX_EXPORT_RECORDS {
        let mut out = chars_of("导出数据量过大 (");
        push_decimal(&mut out, record_count as u128);
        let tail = chars_of(" 条记录)，请缩小筛选范围后重试");
        let ghost before = out@;
        let mut i: usize = 0;
        while i < tail.len()
            invariant
                i <= tail.len(),
                out@ == before + tail@.take(i as int),
            decreases tail.len() - i,
        {
            out.push(tail[i]);
            i = i + 1;
            assert(out@ =~= before + tail@.take(i as int));
        }
        assert(tail@.take(tail.len() as int) =~= tail@);
        return Err(string_of(&out));
    }
    if text_eq(format, "csv") {
        Ok(ExportFormat::Csv)
    } else if text_eq(format, "json") {
        Ok(ExportFormat::Json)
    } else {
        Err("unsupported format, use 'csv' or 'json'".to_owned())
    }
}

/// The message that refuses a page of the session list.
pub open spec fn bad_page_message() -> Seq<char> {
    "limit must be > 0 and offset must be >= 0"@
}

/// Checks a request for a page of the session list: the page must hold at
/// least one session and start at a non-negative offset.
pub fn check_session_page(limit: i64, offset: i64) -> (r: Result<(), String>)
    ensures
        (limit > 0 && offset >= 0) ==> r is Ok,
        !(limit > 0 && offset >= 0) ==> (r matches Err(m) && m@ == bad_page_message()),
{
    if limit <= 0 || offset < 0 {
        return Err("limit must be > 0 and offset must be >= 0".to_owned());
    }
    Ok(())
}

/// The token and request lines of the tray menu.
#[derive(Clone, Debug, PartialEq, Eq)]
pub struct TrayTokenLabels {
    pub today_tokens: String,
    pub today_requests: String,
    pub total_tokens: String,
}

/// Labels the tray menu's token and request lines with today's token
/// count, today's request count and the all-time token count.
pub fn tray_token_labels(today_tokens: i64, today_requests: i64, total_tokens: i64) -> (r:
    TrayTokenLabels)
    ensures
        r.today_tokens@ == "  今日 Token: "@ + token_text(today_tokens as int),
        r.today_requests@ == "  今日请求数: "@ + signed_decimal(today_requests as int),
        r.total_tokens@ == "  总计 Token: "@ + token_text(total_tokens as int),
{
    let mut a = "  今日 Token: ".to_owned();
    let t = fmt_tokens(today_tokens);
    a.append(t.as_str());
    let mut b = chars_of("  今日请求数: ");
    push_signed_decimal(&mut b, today_requests);
    let mut c = "  总计 Token: ".to_owned();
    let u = fmt_tokens(total_tokens);
    c.append(u.as_str());
    TrayTokenLabels { today_tokens: a, today_requests: string_of(&b), total_tokens: c }
}

} // verus!
