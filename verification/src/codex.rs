//! Codex session logs (`~/.codex/sessions/**/rollout-*.jsonl`).
//!
//! A log is a stream of events.  `session_meta` names the session and its
//! working directory, `turn_context` names the model in use, and an
//! `event_msg` of type `token_count` reports the usage of one request.  The
//! parser is a state machine over the events: each usage report becomes a
//! record stamped with the session, model and directory in force at that
//! point.
use vstd::prelude::*;

use crate::paths::{extract_session_id_from_filename, path_strip_prefix, session_id_from_path, std_path_strip_prefix};
use crate::record::{copy_opt, opt_text, records_view, RecordView, Timestamp, TokenRecord};
use crate::text::text_eq;

verus! {

/// The `last_token_usage` of a `token_count` event.
#[derive(Clone, Copy, Debug, PartialEq, Eq)]
pub struct CodexUsage {
    pub input_tokens: i64,
    pub output_tokens: i64,
    pub cached_input_tokens: Option<i64>,
}

/// The `info` member of an event's payload.
#[derive(Clone, Copy, Debug, PartialEq, Eq)]
pub enum CodexInfo {
    /// There is no `info`, or it is `null`.
    Absent,
    /// `info` is there but does not have the shape of token count info.
    Unreadable,
    /// `info` has the shape of token count info, with this
    /// `last_token_usage`.
    Usage(Option<CodexUsage>),
}

/// The members of an event's payload that the parser reads; each text is
/// present only where the payload holds a string there.
#[derive(Clone, Debug, PartialEq, Eq)]
pub struct CodexPayload {
    pub id: Option<String>,
    pub cwd: Option<String>,
    pub model: Option<String>,
    pub msg_type: Option<String>,
    pub info: CodexInfo,
}

/// One event of a Codex log.
#[derive(Clone, Debug, PartialEq, Eq)]
pub struct CodexEvent {
    pub timestamp: String,
    pub event_type: String,
    pub payload: CodexPayload,
}

/// What the parser knows at a point of the log.
#[derive(Clone, Debug, PartialEq, Eq)]
pub struct CodexState {
    pub session_id: String,
    pub model: Option<String>,
    pub cwd: Option<String>,
}

pub struct CodexStateView {
    pub session_id: Seq<char>,
    pub model: Option<Seq<char>>,
    pub cwd: Option<Seq<char>>,
}

impl View for CodexState {
    type V = CodexStateView;

    open spec fn view(&self) -> CodexStateView {
        CodexStateView {
            session_id: self.session_id@,
            model: opt_text(self.model),
            cwd: opt_text(self.cwd),
        }
    }
}

/// Seconds since the Unix epoch of the RFC 3339 date and time `s`, as
/// `chrono::DateTime::parse_from_rfc3339` and `DateTime::timestamp` give
/// them, or `None` where `s` is not RFC 3339.
pub uninterp spec fn rfc3339_unix_seconds(s: Seq<char>) -> Option<i64>;

/// Calls `chrono::DateTime::parse_from_rfc3339` on `ts` and, where it
/// parses, `DateTime::timestamp` on the result.  The contract only ties the
/// result to `ts` by a name; chrono's grammar is not restated.
#[verifier::external_body]
fn parse_iso_timestamp(ts: &str) -> (r: Option<i64>)
    ensures
        r == rfc3339_unix_seconds(ts@),
{
    match chrono::DateTime::parse_from_rfc3339(ts) {
        Ok(dt) => Some(dt.timestamp()),
        Err(_) => None,
    }
}

/// The record that a usage report yields: none unless the event is a
/// `token_count` message whose info carries a last usage with some input
/// or output tokens.
pub open spec fn codex_usage_record(
    st: CodexStateView,
    ev: CodexEvent,
    ts: Option<i64>,
    project_path: Seq<char>,
) -> Option<RecordView> {
    if opt_text(ev.payload.msg_type) == Some("token_count"@) {
        match ev.payload.info {
            CodexInfo::Usage(Some(u)) => if u.input_tokens == 0 && u.output_tokens == 0 {
                None
            } else {
                Some(
                    RecordView {
                        source: "codex"@,
                        session_id: st.session_id,
                        agent_type: "root"@,
                        agent_id: None,
                        timestamp: Timestamp::Seconds(
                            match ts {
                                Some(t) => t,
                                None => 0,
                            },
                        ),
                        model: st.model,
                        input_tokens: u.input_tokens,
                        output_tokens: u.output_tokens,
                        cache_read_tokens: match u.cached_input_tokens {
                            Some(c) => c,
                            None => 0,
                        },
                        cache_creation_tokens: 0,
                        project_path: Some(
                            match st.cwd {
                                Some(c) => c,
                                None => project_path,
                            },
                        ),
                        message_id: None,
                    },
                )
            },
            _ => None,
        }
    } else {
        None
    }
}

/// One step of the parser: the state after `ev` and the record it yields,
/// where `ts` is the parsed time of `ev` and `project_path` the directory
/// used when no `session_meta` has named one.
pub open spec fn codex_next(
    st: CodexStateView,
    ev: CodexEvent,
    ts: Option<i64>,
    project_path: Seq<char>,
) -> (CodexStateView, Option<RecordView>) {
    if ev.event_type@ == "session_meta"@ {
        (
            CodexStateView {
                session_id: match ev.payload.id {
                    Some(id) => id@,
                    None => st.session_id,
                },
                model: st.model,
                cwd: match ev.payload.cwd {
                    Some(c) => Some(c@),
                    None => st.cwd,
                },
            },
            None,
        )
    } else if ev.event_type@ == "turn_context"@ {
        (
            CodexStateView {
                session_id: st.session_id,
                model: match ev.payload.model {
                    Some(m) => Some(m@),
                    None => st.model,
                },
                cwd: st.cwd,
            },
            None,
        )
    } else if ev.event_type@ == "event_msg"@ {
        (st, codex_usage_record(st, ev, ts, project_path))
    } else {
        (st, None)
    }
}

/// The state and records after the events `events`, from `init`; each
/// event's time is what chrono reads from its `timestamp`.
pub open spec fn codex_run(init: CodexStateView, events: Seq<CodexEvent>, project_path: Seq<char>) -> (
    CodexStateView,
    Seq<RecordView>,
)
    decreases events.len(),
{
    if events.len() == 0 {
        (init, Seq::empty())
    } else {
        let prev = codex_run(init, events.drop_last(), project_path);
        let ev = events.last();
        let step = codex_next(prev.0, ev, rfc3339_unix_seconds(ev.timestamp@), project_path);
        (
            step.0,
            match step.1 {
                Some(r) => prev.1.push(r),
                None => prev.1,
            },
        )
    }
}

/// The state at the start of a log: the session named by the file, no
/// model and no directory yet.
pub open spec fn codex_initial(session_id: Seq<char>) -> CodexStateView {
    CodexStateView { session_id, model: None, cwd: None }
}

/// The session id that the file at `file_path` starts with.
pub open spec fn codex_fallback_session(file_path: Seq<char>) -> Seq<char> {
    match session_id_from_path(file_path) {
        Some(s) => s,
        None => "unknown"@,
    }
}

/// The directory that records of the file at `file_path` carry until a
/// `session_meta` names one: the file's path relative to `sessions_dir`,
/// or the whole path where it is not under `sessions_dir`.
pub open spec fn codex_relative_path(file_path: Seq<char>, sessions_dir: Seq<char>) -> Seq<char> {
    match std_path_strip_prefix(file_path, sessions_dir) {
        Some(p) => p,
        None => file_path,
    }
}

/// Applies one event to the parser state, given the event's parsed time:
/// returns the record that the event yields, if any.
pub fn codex_step(
    state: &mut CodexState,
    event: &CodexEvent,
    timestamp: Option<i64>,
    project_path: &str,
) -> (r: Option<TokenRecord>)
    ensures
        final(state)@ == codex_next(old(state)@, *event, timestamp, project_path@).0,
        match (r, codex_next(old(state)@, *event, timestamp, project_path@).1) {
            (Some(x), Some(y)) => x@ == y,
            (None, None) => true,
            _ => false,
        },
{
    if text_eq(event.event_type.as_str(), "session_meta") {
        match &event.payload.id {
            Some(id) => {
                state.session_id = id.clone();
            },
            None => {},
        }
        match &event.payload.cwd {
            Some(c) => {
                state.cwd = Some(c.clone());
            },
            None => {},
        }
        None
    } else if text_eq(event.event_type.as_str(), "turn_context") {
        match &event.payload.model {
            Some(m) => {
                state.model = Some(m.clone());
            },
            None => {},
        }
        None
    } else if text_eq(event.event_type.as_str(), "event_msg") {
        let is_count = match &event.payload.msg_type {
            Some(t) => text_eq(t.as_str(), "token_count"),
            None => false,
        };
        if !is_count {
            return None;
        }
        match event.payload.info {
            CodexInfo::Usage(Some(u)) => {
                if u.input_tokens == 0 && u.output_tokens == 0 {
                    return None;
                }
                let cwd = match &state.cwd {
                    Some(c) => c.clone(),
                    None => project_path.to_owned(),
                };
                Some(
                    TokenRecord {
                        source: "codex".to_owned(),
                        session_id: state.session_id.clone(),
                        agent_type: "root".to_owned(),
                        agent_id: None,
                        timestamp: Timestamp::Seconds(
                            match timestamp {
                                Some(t) => t,
                                None => 0,
                            },
                        ),
                        model: copy_opt(&state.model),
                        input_tokens: u.input_tokens,
                        output_tokens: u.output_tokens,
                        cache_read_tokens: match u.cached_input_tokens {
                            Some(c) => c,
                            None => 0,
                        },
                        cache_creation_tokens: 0,
                        project_path: Some(cwd),
                        message_id: None,
                    },
                )
            },
            _ => None,
        }
    } else {
        None
    }
}

/// Runs the parser over the events of one log, starting from the session
/// id `fallback_session_id` and the directory `project_path`.
pub fn parse_codex_events(events: &Vec<CodexEvent>, fallback_session_id: &str, project_path: &str) -> (r:
    Vec<TokenRecord>)
    ensures
        records_view(r@) == codex_run(codex_initial(fallback_session_id@), events@, project_path@).1,
{
    let mut state = CodexState { session_id: fallback_session_id.to_owned(), model: None, cwd: None };
    let mut out: Vec<TokenRecord> = Vec::new();
    let mut i: usize = 0;
    assert(records_view(out@) =~= Seq::<RecordView>::empty());
    while i < events.len()
        invariant
            i <= events.len(),
            state@ == codex_run(codex_initial(fallback_session_id@), events@.take(i as int), project_path@).0,
            records_view(out@) == codex_run(
                codex_initial(fallback_session_id@),
                events@.take(i as int),
                project_path@,
            ).1,
        decreases events.len() - i,
    {
        let ev = &events[i];
        let ts = parse_iso_timestamp(ev.timestamp.as_str());
        let produced = codex_step(&mut state, ev, ts, project_path);
        proof {
            assert(events@.take(i + 1).drop_last() =~= events@.take(i as int));
            assert(events@.take(i + 1).last() == events@[i as int]);
        }
        match produced {
            Some(rec) => {
                let ghost before = out@;
                out.push(rec);
                assert(records_view(out@) =~= records_view(before).push(rec@));
            },
            None => {},
        }
        i = i + 1;
    }
    assert(events@.take(events.len() as int) =~= events@);
    out
}

/// The records of one Codex log: `events` are the log's events in order,
/// `file_path` the log's path and `sessions_dir` the sessions directory.
pub fn parse_codex_file(file_path: &str, sessions_dir: &str, events: &Vec<CodexEvent>) -> (r: Vec<
    TokenRecord,
>)
    ensures
        records_view(r@) == codex_run(
            codex_initial(codex_fallback_session(file_path@)),
            events@,
            codex_relative_path(file_path@, sessions_dir@),
        ).1,
{
    let fallback = match extract_session_id_from_filename(file_path) {
        Some(s) => s,
        None => "unknown".to_owned(),
    };
    let relative = match path_strip_prefix(file_path, sessions_dir) {
        Some(p) => p,
        None => file_path.to_owned(),
    };
    parse_codex_events(events, fallback.as_str(), relative.as_str())
}

/// Every record of a Codex log comes from the `codex` source, belongs to
/// the root agent, has no agent id, no cache creation count and no message
/// id, carries a directory, and reports some input or output tokens.
pub open spec fn is_codex_record(r: RecordView) -> bool {
    &&& r.source == "codex"@
    &&& r.agent_type == "root"@
    &&& r.agent_id is None
    &&& r.cache_creation_tokens == 0
    &&& r.message_id is None
    &&& r.project_path is Some
    &&& (r.input_tokens != 0 || r.output_tokens != 0)
}

/// An event that names the session.
pub open spec fn names_session(ev: CodexEvent) -> bool {
    ev.event_type@ == "session_meta"@ && ev.payload.id is Some
}

/// Parsing a log in two parts, the second part from the state that the
/// first part leaves, gives the state and the records of parsing it whole.
pub proof fn lemma_codex_run_concat(
    init: CodexStateView,
    a: Seq<CodexEvent>,
    b: Seq<CodexEvent>,
    project_path: Seq<char>,
)
    ensures
        codex_run(init, a + b, project_path).0 == codex_run(
            codex_run(init, a, project_path).0,
            b,
            project_path,
        ).0,
        codex_run(init, a + b, project_path).1 == codex_run(init, a, project_path).1 + codex_run(
            codex_run(init, a, project_path).0,
            b,
            project_path,
        ).1,
    decreases b.len(),
{
    let mid = codex_run(init, a, project_path);
    if b.len() == 0 {
        assert(a + b =~= a);
        assert(mid.1 + codex_run(mid.0, b, project_path).1 =~= mid.1);
    } else {
        lemma_codex_run_concat(init, a, b.drop_last(), project_path);
        assert((a + b).drop_last() =~= a + b.drop_last());
        assert((a + b).last() == b.last());
        let prev = codex_run(mid.0, b.drop_last(), project_path);
        let ev = b.last();
        let step = codex_next(prev.0, ev, rfc3339_unix_seconds(ev.timestamp@), project_path);
        match step.1 {
            Some(r) => {
                assert(mid.1 + prev.1.push(r) =~= (mid.1 + prev.1).push(r));
            },
            None => {},
        }
    }
}

/// Every record of a log has the shape of a Codex record, and a log yields
/// at most one record per event.
pub proof fn lemma_codex_records_shape(
    init: CodexStateView,
    events: Seq<CodexEvent>,
    project_path: Seq<char>,
)
    ensures
        codex_run(init, events, project_path).1.len() <= events.len(),
        forall|k: int|
            0 <= k < codex_run(init, events, project_path).1.len() ==> is_codex_record(
                #[trigger] codex_run(init, events, project_path).1[k],
            ),
    decreases events.len(),
{
    if events.len() > 0 {
        lemma_codex_records_shape(init, events.drop_last(), project_path);
    }
}

/// Until an event names the session, the session id is the one the log
/// started with: in a log where no event names the session, every record
/// carries the starting session id.
pub proof fn lemma_codex_session_fallback(
    init: CodexStateView,
    events: Seq<CodexEvent>,
    project_path: Seq<char>,
)
    requires
        forall|k: int| 0 <= k < events.len() ==> !names_session(#[trigger] events[k]),
    ensures
        codex_run(init, events, project_path).0.session_id == init.session_id,
        forall|k: int|
            0 <= k < codex_run(init, events, project_path).1.len() ==> (#[trigger] codex_run(
                init,
                events,
                project_path,
            ).1[k]).session_id == init.session_id,
    decreases events.len(),
{
    if events.len() > 0 {
        assert forall|k: int| 0 <= k < events.drop_last().len() implies !names_session(
            #[trigger] events.drop_last()[k],
        ) by {
            assert(events.drop_last()[k] == events[k]);
        }
        lemma_codex_session_fallback(init, events.drop_last(), project_path);
        assert(!names_session(events[events.len() - 1]));
    }
}

/// An event that the parser passes over: neither `session_meta`,
/// `turn_context` nor `event_msg`.
pub open spec fn is_other_event(ev: CodexEvent) -> bool {
    ev.event_type@ != "session_meta"@ && ev.event_type@ != "turn_context"@ && ev.event_type@
        != "event_msg"@
}

/// Events of other types change nothing: taking one out of a log leaves the
/// final state and the records as they were.
pub proof fn lemma_codex_other_event_ignored(
    init: CodexStateView,
    a: Seq<CodexEvent>,
    ev: CodexEvent,
    b: Seq<CodexEvent>,
    project_path: Seq<char>,
)
    requires
        is_other_event(ev),
    ensures
        codex_run(init, a.push(ev) + b, project_path).0 == codex_run(init, a + b, project_path).0,
        codex_run(init, a.push(ev) + b, project_path).1 == codex_run(init, a + b, project_path).1,
{
    lemma_codex_run_concat(init, a.push(ev), b, project_path);
    lemma_codex_run_concat(init, a, b, project_path);
    assert(a.push(ev).drop_last() =~= a);
}

} // verus!
