//! The uniform token record that every log parser produces.
use vstd::prelude::*;

verus! {

/// When a request happened.  Codex logs give whole seconds since the Unix
/// epoch; Kimi logs give a floating-point number of seconds, which the
/// record carries by its exact IEEE 754 bit pattern.
#[derive(Clone, Copy, Debug, PartialEq, Eq)]
pub enum Timestamp {
    Seconds(i64),
    FloatBits(u64),
}

/// One request's token usage.
#[derive(Clone, Debug, PartialEq, Eq)]
pub struct TokenRecord {
    pub source: String,
    pub session_id: String,
    pub agent_type: String,
    pub agent_id: Option<String>,
    pub timestamp: Timestamp,
    pub model: Option<String>,
    pub input_tokens: i64,
    pub output_tokens: i64,
    pub cache_read_tokens: i64,
    pub cache_creation_tokens: i64,
    pub project_path: Option<String>,
    pub message_id: Option<String>,
}

/// A token record with its texts as character sequences.
pub struct RecordView {
    pub source: Seq<char>,
    pub session_id: Seq<char>,
    pub agent_type: Seq<char>,
    pub agent_id: Option<Seq<char>>,
    pub timestamp: Timestamp,
    pub model: Option<Seq<char>>,
    pub input_tokens: i64,
    pub output_tokens: i64,
    pub cache_read_tokens: i64,
    pub cache_creation_tokens: i64,
    pub project_path: Option<Seq<char>>,
    pub message_id: Option<Seq<char>>,
}

/// The text of an optional string.
pub open spec fn opt_text(o: Option<String>) -> Option<Seq<char>> {
    match o {
        Some(s) => Some(s@),
        None => None,
    }
}

impl View for TokenRecord {
    type V = RecordView;

    open spec fn view(&self) -> RecordView {
        RecordView {
            source: self.source@,
            session_id: self.session_id@,
            agent_type: self.agent_type@,
            agent_id: opt_text(self.agent_id),
            timestamp: self.timestamp,
            model: opt_text(self.model),
            input_tokens: self.input_tokens,
            output_tokens: self.output_tokens,
            cache_read_tokens: self.cache_read_tokens,
            cache_creation_tokens: self.cache_creation_tokens,
            project_path: opt_text(self.project_path),
            message_id: opt_text(self.message_id),
        }
    }
}

/// The views of a sequence of records.
pub open spec fn records_view(v: Seq<TokenRecord>) -> Seq<RecordView> {
    v.map_values(|r: TokenRecord| r@)
}

/// A copy of an optional string.
pub fn copy_opt(o: &Option<String>) -> (r: Option<String>)
    ensures
        opt_text(r) == opt_text(*o),
{
    match o {
        Some(s) => Some(s.clone()),
        None => None,
    }
}

} // verus!
