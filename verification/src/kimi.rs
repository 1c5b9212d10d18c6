//! Kimi Code session logs (`~/.kimi/sessions/<work dir>/<session>/.../wire.jsonl`).
//!
//! The place of a log under the sessions directory says which working
//! directory and session it belongs to and whether a sub-agent wrote it;
//! every `StatusUpdate` message with token usage becomes a record.  Kimi's
//! logs do not name the model, so every record carries the default model of
//! `~/.kimi/config.toml`.
use vstd::prelude::*;

use crate::paths::{path_components, path_strip_prefix, std_path_components, std_path_strip_prefix};
use crate::record::{copy_opt, opt_text, records_view, RecordView, Timestamp, TokenRecord};
use crate::text::{
    after_first, after_first_char, chars_of, has_prefix, in_trim_set, is_white_space,
    lemma_after_first_absent, lemma_after_first_suffix, lemma_split_on_append,
    lemma_split_on_delim, lemma_split_on_keeps_pieces, lemma_split_on_nonempty, lemma_split_on_one,
    lemma_strip_front_drops_run, lemma_split_on_absent, lemma_split_on_without, lemma_strip_back_run,
    lemma_strip_ends, lemma_strip_front_run, split_chars, split_on, starts_with_text, string_of,
    strip_back, strip_front, strip_front_chars, text_eq, texts, trim_both, trim_chars, TrimSet,
};

verus! {

/// The `token_usage` of a status update.
#[derive(Clone, Copy, Debug, PartialEq, Eq)]
pub struct KimiUsage {
    pub input_other: i64,
    pub output: i64,
    pub input_cache_read: i64,
    pub input_cache_creation: i64,
}

/// The payload of a message.
#[derive(Clone, Debug, PartialEq, Eq)]
pub struct KimiPayload {
    pub token_usage: Option<KimiUsage>,
    pub message_id: Option<String>,
}

/// One message of a wire log; `timestamp_bits` is the IEEE 754 bit
/// pattern of its floating-point timestamp.
#[derive(Clone, Debug, PartialEq, Eq)]
pub struct KimiMessage {
    pub timestamp_bits: u64,
    pub msg_type: String,
    pub payload: Option<KimiPayload>,
}

/// What the place of a log under the sessions directory says.
#[derive(Clone, Debug, PartialEq, Eq)]
pub struct KimiFileInfo {
    pub session_id: String,
    pub agent_type: String,
    pub agent_id: Option<String>,
    pub work_dir: String,
}

pub struct KimiFileInfoView {
    pub session_id: Seq<char>,
    pub agent_type: Seq<char>,
    pub agent_id: Option<Seq<char>>,
    pub work_dir: Seq<char>,
}

impl View for KimiFileInfo {
    type V = KimiFileInfoView;

    open spec fn view(&self) -> KimiFileInfoView {
        KimiFileInfoView {
            session_id: self.session_id@,
            agent_type: self.agent_type@,
            agent_id: opt_text(self.agent_id),
            work_dir: self.work_dir@,
        }
    }
}

/// The index of the first occurrence of `t` in `s`, if `t` occurs.
pub open spec fn position_of(s: Seq<Seq<char>>, t: Seq<char>) -> Option<int>
    decreases s.len(),
{
    if s.len() == 0 {
        None
    } else if s[0] == t {
        Some(0)
    } else {
        match position_of(s.drop_first(), t) {
            Some(k) => Some(k + 1),
            None => None,
        }
    }
}

/// What the components `parts` of a log's path relative to the sessions
/// directory say: the second component is the session and the first the
/// (hashed) working directory; a `subagents` component marks a sub-agent's
/// log, and the component after the first `subagents` is its agent id.
pub open spec fn kimi_info_of_parts(parts: Seq<Seq<char>>) -> KimiFileInfoView {
    let sub = position_of(parts, "subagents"@);
    KimiFileInfoView {
        session_id: if parts.len() > 1 {
            parts[1]
        } else {
            "unknown"@
        },
        agent_type: if sub is Some {
            "subagent"@
        } else {
            "root"@
        },
        agent_id: match sub {
            Some(k) => if k + 1 < parts.len() {
                Some(parts[k + 1])
            } else {
                None
            },
            None => None,
        },
        work_dir: if parts.len() > 0 {
            parts[0]
        } else {
            "unknown"@
        },
    }
}

/// The components of the path of the log at `file_path`, relative to
/// `sessions_dir` where it lies under it.
pub open spec fn kimi_relative_parts(file_path: Seq<char>, sessions_dir: Seq<char>) -> Seq<Seq<char>> {
    match std_path_strip_prefix(file_path, sessions_dir) {
        Some(rel) => std_path_components(rel),
        None => std_path_components(file_path),
    }
}

pub proof fn lemma_position_of_first(s: Seq<Seq<char>>, t: Seq<char>, i: int)
    requires
        0 <= i < s.len(),
        s[i] == t,
        forall|j: int| 0 <= j < i ==> s[j] != t,
    ensures
        position_of(s, t) == Some(i),
    decreases i,
{
    if i > 0 {
        assert forall|j: int| 0 <= j < i - 1 implies s.drop_first()[j] != t by {
            assert(s.drop_first()[j] == s[j + 1]);
        }
        lemma_position_of_first(s.drop_first(), t, i - 1);
        assert(s[0] != t);
    }
}

pub proof fn lemma_position_of_absent(s: Seq<Seq<char>>, t: Seq<char>)
    requires
        forall|j: int| 0 <= j < s.len() ==> s[j] != t,
    ensures
        position_of(s, t) is None,
    decreases s.len(),
{
    if s.len() > 0 {
        assert forall|j: int| 0 <= j < s.drop_first().len() implies s.drop_first()[j] != t by {
            assert(s.drop_first()[j] == s[j + 1]);
        }
        lemma_position_of_absent(s.drop_first(), t);
        assert(s[0] != t);
    }
}

pub proof fn lemma_position_of_found(s: Seq<Seq<char>>, t: Seq<char>)
    ensures
        position_of(s, t) matches Some(k) ==> 0 <= k < s.len() && s[k] == t,
        position_of(s, t) is None <==> !s.contains(t),
    decreases s.len(),
{
    if s.len() > 0 {
        lemma_position_of_found(s.drop_first(), t);
        if s[0] != t {
            if s.contains(t) {
                let j = choose|j: int| 0 <= j < s.len() && s[j] == t;
                assert(s.drop_first()[j - 1] == t);
            }
            if s.drop_first().contains(t) {
                let j = choose|j: int| 0 <= j < s.drop_first().len() && s.drop_first()[j] == t;
                assert(s[j + 1] == t);
            }
        } else {
            assert(s[0] == t);
        }
    }
}

/// What the components `parts` say about a log (see `kimi_info_of_parts`).
pub fn kimi_file_info(parts: &Vec<String>) -> (r: KimiFileInfo)
    ensures
        r@ == kimi_info_of_parts(texts(parts@)),
{
    let ghost ps = texts(parts@);
    let n = parts.len();
    let mut i: usize = 0;
    let mut found: Option<usize> = None;
    while i < n
        invariant
            n == parts.len(),
            ps == texts(parts@),
            ps.len() == n,
            i <= n,
            found is None ==> forall|j: int| 0 <= j < i ==> ps[j] != "subagents"@,
            found matches Some(k) ==> k < n && ps[k as int] == "subagents"@ && forall|j: int|
                0 <= j < k ==> ps[j] != "subagents"@,
        decreases n - i,
    {
        if found.is_none() && text_eq(parts[i].as_str(), "subagents") {
            found = Some(i);
        }
        i = i + 1;
    }
    proof {
        match found {
            Some(k) => {
                lemma_position_of_first(ps, "subagents"@, k as int);
            },
            None => {
                lemma_position_of_absent(ps, "subagents"@);
            },
        }
    }
    let session_id = if n > 1 {
        parts[1].clone()
    } else {
        "unknown".to_owned()
    };
    let work_dir = if n > 0 {
        parts[0].clone()
    } else {
        "unknown".to_owned()
    };
    let (agent_type, agent_id) = match found {
        Some(k) => {
            let id = if k + 1 < n {
                Some(parts[k + 1].clone())
            } else {
                None
            };
            ("subagent".to_owned(), id)
        },
        None => ("root".to_owned(), None),
    };
    KimiFileInfo { session_id, agent_type, agent_id, work_dir }
}

/// What the place of the log at `file_path` under `sessions_dir` says.
pub fn kimi_file_info_for_path(file_path: &str, sessions_dir: &str) -> (r: KimiFileInfo)
    ensures
        r@ == kimi_info_of_parts(kimi_relative_parts(file_path@, sessions_dir@)),
{
    let parts = match path_strip_prefix(file_path, sessions_dir) {
        Some(rel) => path_components(rel.as_str()),
        None => path_components(file_path),
    };
    assert(texts(parts@) =~= kimi_relative_parts(file_path@, sessions_dir@));
    kimi_file_info(&parts)
}

/// The model that a line of the configuration names: the value of a
/// `default_model` line (the text between its first and second `=`, with
/// white space and quotes trimmed), without the provider before its first
/// `/`.  A trailing carriage return is white space, so `\r\n` line ends read
/// alike.
pub open spec fn config_line_model(l: Seq<char>) -> Option<Seq<char>> {
    if has_prefix(strip_front(l, TrimSet::WhiteSpace), "default_model"@) && split_on(l, '=').len()
        >= 2 {
        let v = trim_both(trim_both(split_on(l, '=')[1], TrimSet::WhiteSpace), TrimSet::Quote);
        Some(
            match after_first(v, '/') {
                Some(rest) => rest,
                None => v,
            },
        )
    } else {
        None
    }
}

/// The model that the last naming line among `lines` names.
pub open spec fn config_default_model(lines: Seq<Seq<char>>) -> Option<Seq<char>>
    decreases lines.len(),
{
    if lines.len() == 0 {
        None
    } else {
        match config_line_model(lines.last()) {
            Some(m) => Some(m),
            None => config_default_model(lines.drop_last()),
        }
    }
}

/// The default model of a configuration file's content, read line by line.
pub open spec fn config_content_model(content: Seq<char>) -> Option<Seq<char>> {
    config_default_model(split_on(content, '\n'))
}

/// The model that Kimi's records carry: the configured default model, or
/// `unknown` where there is no configuration or it names none.
pub open spec fn kimi_model(config: Option<Seq<char>>) -> Seq<char> {
    match config {
        Some(c) => match config_content_model(c) {
            Some(m) => m,
            None => "unknown"@,
        },
        None => "unknown"@,
    }
}

fn line_model(l: &Vec<char>) -> (r: Option<Vec<char>>)
    ensures
        match (r, config_line_model(l@)) {
            (Some(x), Some(y)) => x@ == y,
            (None, None) => true,
            _ => false,
        },
{
    let front = strip_front_chars(l, TrimSet::WhiteSpace);
    if !starts_with_text(&front, "default_model") {
        return None;
    }
    let fields = split_chars(l, '=');
    if fields.len() < 2 {
        return None;
    }
    let inner = trim_chars(&fields[1], TrimSet::WhiteSpace);
    let v = trim_chars(&inner, TrimSet::Quote);
    match after_first_char(&v, '/') {
        Some(rest) => Some(rest),
        None => Some(v),
    }
}

/// The default model that the configuration `content` names, if any.
pub fn default_model_from_config(content: &str) -> (r: Option<String>)
    ensures
        match (r, config_content_model(content@)) {
            (Some(x), Some(y)) => x@ == y,
            (None, None) => true,
            _ => false,
        },
{
    let chars = chars_of(content);
    let lines = split_chars(&chars, '\n');
    let ghost ls = split_on(content@, '\n');
    let mut found: Option<Vec<char>> = None;
    let mut i: usize = 0;
    while i < lines.len()
        invariant
            i <= lines@.len(),
            lines@.len() == ls.len(),
            forall|k: int| 0 <= k < lines@.len() ==> #[trigger] lines@[k]@ == ls[k],
            match (found, config_default_model(ls.take(i as int))) {
                (Some(x), Some(y)) => x@ == y,
                (None, None) => true,
                _ => false,
            },
        decreases lines.len() - i,
    {
        proof {
            assert(ls.take(i + 1).drop_last() =~= ls.take(i as int));
            assert(ls.take(i + 1).last() == ls[i as int]);
        }
        match line_model(&lines[i]) {
            Some(m) => {
                found = Some(m);
            },
            None => {},
        }
        i = i + 1;
    }
    assert(ls.take(lines@.len() as int) =~= ls);
    match found {
        Some(m) => Some(string_of(&m)),
        None => None,
    }
}

/// The model for Kimi's records, given the configuration file's content
/// where it could be read.
pub fn kimi_default_model(config: Option<&str>) -> (r: String)
    ensures
        r@ == kimi_model(
            match config {
                Some(c) => Some(c@),
                None => None,
            },
        ),
{
    match config {
        Some(c) => match default_model_from_config(c) {
            Some(m) => m,
            None => "unknown".to_owned(),
        },
        None => "unknown".to_owned(),
    }
}

/// The value of a `default_model` line whose value is `v` (with no `=` in
/// it, and neither beginning nor ending with white space): the white space
/// around the key, the `=` and the value is not part of it.
proof fn lemma_config_line_value(
    ws1: Seq<char>,
    ws2: Seq<char>,
    ws3: Seq<char>,
    ws4: Seq<char>,
    v: Seq<char>,
)
    requires
        forall|i: int| 0 <= i < ws1.len() ==> is_white_space(#[trigger] ws1[i]),
        forall|i: int| 0 <= i < ws2.len() ==> is_white_space(#[trigger] ws2[i]),
        forall|i: int| 0 <= i < ws3.len() ==> is_white_space(#[trigger] ws3[i]),
        forall|i: int| 0 <= i < ws4.len() ==> is_white_space(#[trigger] ws4[i]),
        forall|i: int| 0 <= i < v.len() ==> #[trigger] v[i] != '=',
        v.len() == 0 || (!is_white_space(v[0]) && !is_white_space(v.last())),
    ensures
        config_line_model(ws1 + "default_model"@ + ws2 + "="@ + ws3 + v + ws4) == Some(
            match after_first(trim_both(v, TrimSet::Quote), '/') {
                Some(rest) => rest,
                None => trim_both(v, TrimSet::Quote),
            },
        ),
{
    reveal_strlit("default_model");
    reveal_strlit("=");
    let key = "default_model"@;
    let l = ws1 + key + ws2 + "="@ + ws3 + v + ws4;
    let a = ws1 + key + ws2;
    let b = ws3 + v + ws4;
    assert(l =~= a + seq!['='] + b);
    assert forall|i: int| 0 <= i < a.len() implies a[i] != '=' by {
        if i < ws1.len() {
            assert(is_white_space(ws1[i]));
        } else if i < ws1.len() + key.len() {
            assert(a[i] == key[i - ws1.len()]);
        } else {
            assert(is_white_space(ws2[i - ws1.len() - key.len()]));
        }
    }
    assert forall|i: int| 0 <= i < b.len() implies b[i] != '=' by {
        if i < ws3.len() {
            assert(is_white_space(ws3[i]));
        } else if i < ws3.len() + v.len() {
            assert(b[i] == v[i - ws3.len()]);
        } else {
            assert(is_white_space(ws4[i - ws3.len() - v.len()]));
        }
    }
    lemma_split_on_one(a, b, '=');
    assert(split_on(l, '=')[1] == b);
    // The key, once the line's leading white space is gone.
    let rest = key + ws2 + "="@ + ws3 + v + ws4;
    assert(l =~= ws1 + rest);
    lemma_strip_front_run(ws1, rest, TrimSet::WhiteSpace);
    assert(rest[0] == 'd');
    assert(strip_front(rest, TrimSet::WhiteSpace) == rest);
    assert(rest.take(key.len() as int) =~= key);
    assert(has_prefix(strip_front(l, TrimSet::WhiteSpace), key));
    // The white space around the value.
    let c = v + ws4;
    assert(b =~= ws3 + c);
    lemma_strip_front_run(ws3, c, TrimSet::WhiteSpace);
    lemma_strip_back_run(v, ws4, TrimSet::WhiteSpace);
    if v.len() == 0 {
        assert(c =~= ws4);
        assert(ws4 =~= Seq::<char>::empty() + ws4);
        lemma_strip_front_run(ws4, Seq::<char>::empty(), TrimSet::WhiteSpace);
        assert(ws4 + Seq::<char>::empty() =~= ws4);
        assert(trim_both(b, TrimSet::WhiteSpace) =~= v);
    } else {
        assert(c[0] == v[0]);
        assert(strip_front(c, TrimSet::WhiteSpace) == c);
        assert(v.last() == v[v.len() - 1]);
        assert(strip_back(v, TrimSet::WhiteSpace) == v);
        assert(trim_both(b, TrimSet::WhiteSpace) == v);
    }
}

/// Trimming quotes from a quoted text without quotes gives the text.
proof fn lemma_trim_quotes(q: Seq<char>)
    requires
        forall|i: int| 0 <= i < q.len() ==> #[trigger] q[i] != '"',
    ensures
        trim_both(seq!['"'] + q + seq!['"'], TrimSet::Quote) == q,
        trim_both(q, TrimSet::Quote) == q,
{
    let d = seq!['"'] + q + seq!['"'];
    let e = q + seq!['"'];
    assert(d =~= seq!['"'] + e);
    lemma_strip_front_run(seq!['"'], e, TrimSet::Quote);
    assert(strip_back(e, TrimSet::Quote) == strip_back(q, TrimSet::Quote)) by {
        lemma_strip_back_run(q, seq!['"'], TrimSet::Quote);
    }
    if q.len() == 0 {
        assert(e =~= seq!['"'] + q);
        lemma_strip_front_run(seq!['"'], q, TrimSet::Quote);
        assert(strip_front(e, TrimSet::Quote) == q);
        assert(strip_back(q, TrimSet::Quote) == q);
        assert(strip_front(q, TrimSet::Quote) == q);
    } else {
        assert(e[0] == q[0]);
        assert(strip_front(e, TrimSet::Quote) == e);
        assert(strip_front(q, TrimSet::Quote) == q);
        assert(q.last() == q[q.len() - 1]);
        assert(strip_back(q, TrimSet::Quote) == q);
    }
}

/// The value of a `default_model` line whose quoted value is `q`: the
/// quotes and the white space around the line, the key, the `=` and the
/// value are not part of it.
proof fn lemma_config_line_quoted(
    ws1: Seq<char>,
    ws2: Seq<char>,
    ws3: Seq<char>,
    ws4: Seq<char>,
    q: Seq<char>,
)
    requires
        forall|i: int| 0 <= i < ws1.len() ==> is_white_space(#[trigger] ws1[i]),
        forall|i: int| 0 <= i < ws2.len() ==> is_white_space(#[trigger] ws2[i]),
        forall|i: int| 0 <= i < ws3.len() ==> is_white_space(#[trigger] ws3[i]),
        forall|i: int| 0 <= i < ws4.len() ==> is_white_space(#[trigger] ws4[i]),
        forall|i: int| 0 <= i < q.len() ==> #[trigger] q[i] != '"' && q[i] != '=',
    ensures
        config_line_model(
            ws1 + "default_model"@ + ws2 + "="@ + ws3 + seq!['"'] + q + seq!['"'] + ws4,
        ) == Some(
            match after_first(q, '/') {
                Some(rest) => rest,
                None => q,
            },
        ),
{
    let v = seq!['"'] + q + seq!['"'];
    assert forall|i: int| 0 <= i < v.len() implies #[trigger] v[i] != '=' by {
        if 0 < i < v.len() - 1 {
            assert(v[i] == q[i - 1]);
        }
    }
    assert(v.last() == '"');
    lemma_config_line_value(ws1, ws2, ws3, ws4, v);
    lemma_trim_quotes(q);
    assert(ws1 + "default_model"@ + ws2 + "="@ + ws3 + seq!['"'] + q + seq!['"'] + ws4
        =~= ws1 + "default_model"@ + ws2 + "="@ + ws3 + v + ws4);
}

/// A `default_model` line with a bare model name `m` (no quote, `=` or
/// `/` in it, neither beginning nor ending with white space) names exactly
/// `m`, whatever white space stands around the key, the `=` and the value.
pub proof fn lemma_config_line_bare_model(
    ws1: Seq<char>,
    ws2: Seq<char>,
    ws3: Seq<char>,
    ws4: Seq<char>,
    m: Seq<char>,
)
    requires
        forall|i: int| 0 <= i < ws1.len() ==> is_white_space(#[trigger] ws1[i]),
        forall|i: int| 0 <= i < ws2.len() ==> is_white_space(#[trigger] ws2[i]),
        forall|i: int| 0 <= i < ws3.len() ==> is_white_space(#[trigger] ws3[i]),
        forall|i: int| 0 <= i < ws4.len() ==> is_white_space(#[trigger] ws4[i]),
        forall|i: int| 0 <= i < m.len() ==> #[trigger] m[i] != '"' && m[i] != '=' && m[i] != '/',
        m.len() == 0 || (!is_white_space(m[0]) && !is_white_space(m.last())),
    ensures
        config_line_model(ws1 + "default_model"@ + ws2 + "="@ + ws3 + m + ws4) == Some(m),
{
    lemma_config_line_value(ws1, ws2, ws3, ws4, m);
    lemma_trim_quotes(m);
    lemma_after_first_absent(m, '/');
}

/// The key `default_model` stands at `i` in `l`, after nothing but white
/// space.
pub open spec fn key_at(l: Seq<char>, i: int) -> bool {
    &&& 0 <= i
    &&& i + "default_model"@.len() <= l.len()
    &&& forall|j: int| 0 <= j < i ==> is_white_space(#[trigger] l[j])
    &&& l.subrange(i, i + "default_model"@.len()) == "default_model"@
}

/// A line names a model exactly when, after leading white space, it begins
/// with the key `default_model` and holds an `=` somewhere.
pub proof fn lemma_config_line_names_iff(l: Seq<char>)
    ensures
        config_line_model(l) is Some <==> (exists|i: int| key_at(l, i)) && (exists|j: int|
            0 <= j < l.len() && l[j] == '='),
{
    reveal_strlit("default_model");
    let key = "default_model"@;
    let f = strip_front(l, TrimSet::WhiteSpace);
    lemma_strip_front_drops_run(l, TrimSet::WhiteSpace);
    let k = l.len() - f.len();
    if config_line_model(l) is Some {
        assert(l.subrange(k, k + key.len()) =~= f.take(key.len() as int));
        assert(key_at(l, k));
        if !(exists|j: int| 0 <= j < l.len() && l[j] == '=') {
            lemma_split_on_absent(l, '=');
        }
    }
    if (exists|i: int| key_at(l, i)) && (exists|j: int| 0 <= j < l.len() && l[j] == '=') {
        let i = choose|i: int| key_at(l, i);
        let j = choose|j: int| 0 <= j < l.len() && l[j] == '=';
        lemma_split_on_delim(l, '=', j);
        assert(l =~= l.take(i) + l.skip(i));
        assert forall|t: int| 0 <= t < l.take(i).len() implies in_trim_set(
            TrimSet::WhiteSpace,
            #[trigger] l.take(i)[t],
        ) by {
            assert(l.take(i)[t] == l[t]);
        }
        lemma_strip_front_run(l.take(i), l.skip(i), TrimSet::WhiteSpace);
        assert(l.skip(i)[0] == l.subrange(i, i + key.len())[0]);
        assert(strip_front(l.skip(i), TrimSet::WhiteSpace) == l.skip(i));
        assert(l.skip(i).take(key.len() as int) =~= l.subrange(i, i + key.len()));
    }
}

proof fn lemma_key_before_first_eq(a: Seq<char>, t: Seq<char>, i: int)
    requires
        key_at(a + seq!['='] + t, i),
    ensures
        i + "default_model"@.len() <= a.len(),
{
    reveal_strlit("default_model");
    let l = a + seq!['='] + t;
    let n = "default_model"@.len();
    assert(l[a.len() as int] == '=');
    if i > a.len() {
        assert(is_white_space(l[a.len() as int]));
    } else if i + n > a.len() {
        assert(l.subrange(i, i + n)[a.len() - i] == l[a.len() as int]);
    }
}

/// Only the text between the first and the second `=` is read: whatever
/// follows a second `=` does not change the model a line names.
pub proof fn lemma_config_line_ignores_second_eq(a: Seq<char>, b: Seq<char>, c: Seq<char>)
    requires
        forall|i: int| 0 <= i < a.len() ==> a[i] != '=',
        forall|i: int| 0 <= i < b.len() ==> b[i] != '=',
    ensures
        config_line_model(a + seq!['='] + b + seq!['='] + c) == config_line_model(
            a + seq!['='] + b,
        ),
{
    let x = a + seq!['='] + b;
    let y = a + seq!['='] + b + seq!['='] + c;
    lemma_split_on_one(a, b, '=');
    assert(x.push('=').drop_last() =~= x);
    assert(split_on(x.push('='), '=') == split_on(x, '=').push(Seq::<char>::empty()));
    assert(y =~= x.push('=') + c);
    lemma_split_on_keeps_pieces(x.push('='), c, '=');
    assert(split_on(y, '=')[1] == b);
    assert(x[a.len() as int] == '=');
    assert(y[a.len() as int] == '=');
    lemma_config_line_names_iff(x);
    lemma_config_line_names_iff(y);
    let n = "default_model"@.len();
    if exists|i: int| key_at(x, i) {
        let i = choose|i: int| key_at(x, i);
        assert(x =~= a + seq!['='] + b);
        lemma_key_before_first_eq(a, b, i);
        assert(y.subrange(i, i + n) =~= x.subrange(i, i + n));
        assert forall|j: int| 0 <= j < i implies is_white_space(#[trigger] y[j]) by {
            assert(y[j] == x[j]);
        }
        assert(key_at(y, i));
    }
    if exists|i: int| key_at(y, i) {
        let i = choose|i: int| key_at(y, i);
        assert(y =~= a + seq!['='] + (b + seq!['='] + c));
        lemma_key_before_first_eq(a, b + seq!['='] + c, i);
        assert(y.subrange(i, i + n) =~= x.subrange(i, i + n));
        assert forall|j: int| 0 <= j < i implies is_white_space(#[trigger] x[j]) by {
            assert(y[j] == x[j]);
        }
        assert(key_at(x, i));
    }
}

/// A `default_model` line with a quoted model name `m` (no quote, `=` or
/// `/` in it) names exactly `m`, whatever white space stands around the
/// key, the `=` and the value, a line end's carriage return included.
pub proof fn lemma_config_line_names_model(
    ws1: Seq<char>,
    ws2: Seq<char>,
    ws3: Seq<char>,
    ws4: Seq<char>,
    m: Seq<char>,
)
    requires
        forall|i: int| 0 <= i < ws1.len() ==> is_white_space(#[trigger] ws1[i]),
        forall|i: int| 0 <= i < ws2.len() ==> is_white_space(#[trigger] ws2[i]),
        forall|i: int| 0 <= i < ws3.len() ==> is_white_space(#[trigger] ws3[i]),
        forall|i: int| 0 <= i < ws4.len() ==> is_white_space(#[trigger] ws4[i]),
        forall|i: int| 0 <= i < m.len() ==> #[trigger] m[i] != '"' && m[i] != '=' && m[i] != '/',
    ensures
        config_line_model(
            ws1 + "default_model"@ + ws2 + "="@ + ws3 + seq!['"'] + m + seq!['"'] + ws4,
        ) == Some(m),
{
    lemma_config_line_quoted(ws1, ws2, ws3, ws4, m);
    lemma_after_first_absent(m, '/');
}

/// A configuration whose last line, with or without a line end after it,
/// is `default_model = "m"` (with any white space but line ends around its
/// parts) names exactly `m`, whatever the lines before it say.
pub proof fn lemma_config_last_line_wins(
    before: Seq<char>,
    ws1: Seq<char>,
    ws2: Seq<char>,
    ws3: Seq<char>,
    ws4: Seq<char>,
    m: Seq<char>,
)
    requires
        before.len() == 0 || before.last() == '\n',
        forall|i: int| 0 <= i < ws1.len() ==> is_white_space(#[trigger] ws1[i]) && ws1[i] != '\n',
        forall|i: int| 0 <= i < ws2.len() ==> is_white_space(#[trigger] ws2[i]) && ws2[i] != '\n',
        forall|i: int| 0 <= i < ws3.len() ==> is_white_space(#[trigger] ws3[i]) && ws3[i] != '\n',
        forall|i: int| 0 <= i < ws4.len() ==> is_white_space(#[trigger] ws4[i]) && ws4[i] != '\n',
        forall|i: int|
            0 <= i < m.len() ==> #[trigger] m[i] != '"' && m[i] != '=' && m[i] != '/' && m[i]
                != '\n',
    ensures
        config_content_model(
            before + (ws1 + "default_model"@ + ws2 + "="@ + ws3 + seq!['"'] + m + seq!['"'] + ws4),
        ) == Some(m),
        config_content_model(
            before + (ws1 + "default_model"@ + ws2 + "="@ + ws3 + seq!['"'] + m + seq!['"'] + ws4)
                + seq!['\n'],
        ) == Some(m),
{
    reveal_strlit("default_model");
    reveal_strlit("=");
    let key = "default_model"@;
    let l = ws1 + key + ws2 + "="@ + ws3 + seq!['"'] + m + seq!['"'] + ws4;
    lemma_config_line_names_model(ws1, ws2, ws3, ws4, m);
    assert forall|i: int| 0 <= i < l.len() implies l[i] != '\n' by {
        let n1 = ws1.len();
        let n2 = n1 + key.len();
        let n3 = n2 + ws2.len();
        let n4 = n3 + 1;
        let n5 = n4 + ws3.len();
        let n6 = n5 + 1;
        let n7 = n6 + m.len();
        let n8 = n7 + 1;
        if i < n1 {
            assert(l[i] == ws1[i]);
        } else if i < n2 {
            assert(l[i] == key[i - n1]);
        } else if i < n3 {
            assert(l[i] == ws2[i - n2]);
        } else if i < n4 {
            assert(l[i] == '=');
        } else if i < n5 {
            assert(l[i] == ws3[i - n4]);
        } else if i < n6 {
            assert(l[i] == '"');
        } else if i < n7 {
            assert(l[i] == m[i - n6]);
        } else if i < n8 {
            assert(l[i] == '"');
        } else {
            assert(l[i] == ws4[i - n8]);
        }
    }
    let sb = split_on(before, '\n');
    lemma_split_on_nonempty(before, '\n');
    if before.len() > 0 {
        assert(sb.last() == Seq::<char>::empty());
    } else {
        assert(sb.last() == Seq::<char>::empty());
    }
    lemma_split_on_append(before, l, '\n');
    let x = before + l;
    assert(sb.last() + l =~= l);
    assert(split_on(x, '\n').last() == l);
    assert(config_default_model(split_on(x, '\n')) == Some(m));
    let y = x + seq!['\n'];
    assert(y.drop_last() =~= x);
    assert(y.last() == '\n');
    assert(split_on(y, '\n') == split_on(x, '\n').push(Seq::<char>::empty()));
    assert(config_line_model(Seq::<char>::empty()) is None);
    assert(split_on(y, '\n').drop_last() =~= split_on(x, '\n'));
}

/// A quoted value `provider/m` names the model `m`: the provider before the
/// first `/` is dropped.
pub proof fn lemma_config_line_drops_provider(
    ws1: Seq<char>,
    ws2: Seq<char>,
    ws3: Seq<char>,
    ws4: Seq<char>,
    provider: Seq<char>,
    m: Seq<char>,
)
    requires
        forall|i: int| 0 <= i < ws1.len() ==> is_white_space(#[trigger] ws1[i]),
        forall|i: int| 0 <= i < ws2.len() ==> is_white_space(#[trigger] ws2[i]),
        forall|i: int| 0 <= i < ws3.len() ==> is_white_space(#[trigger] ws3[i]),
        forall|i: int| 0 <= i < ws4.len() ==> is_white_space(#[trigger] ws4[i]),
        forall|i: int|
            0 <= i < provider.len() ==> #[trigger] provider[i] != '"' && provider[i] != '='
                && provider[i] != '/',
        forall|i: int| 0 <= i < m.len() ==> #[trigger] m[i] != '"' && m[i] != '=',
    ensures
        config_line_model(
            ws1 + "default_model"@ + ws2 + "="@ + ws3 + seq!['"'] + (provider + seq!['/'] + m)
                + seq!['"'] + ws4,
        ) == Some(m),
{
    let q = provider + seq!['/'] + m;
    assert forall|i: int| 0 <= i < q.len() implies #[trigger] q[i] != '"' && q[i] != '=' by {
        if i < provider.len() {
            assert(q[i] == provider[i]);
        } else if i > provider.len() {
            assert(q[i] == m[i - provider.len() - 1]);
        }
    }
    lemma_config_line_quoted(ws1, ws2, ws3, ws4, q);
    lemma_after_first_skips(provider, m, '/');
}

proof fn lemma_after_first_skips(p: Seq<char>, m: Seq<char>, c: char)
    requires
        forall|i: int| 0 <= i < p.len() ==> p[i] != c,
    ensures
        after_first(p + seq![c] + m, c) == Some(m),
    decreases p.len(),
{
    let s = p + seq![c] + m;
    if p.len() == 0 {
        assert(s[0] == c);
        assert(s.drop_first() =~= m);
    } else {
        assert(s[0] == p[0]);
        assert(s.drop_first() =~= p.drop_first() + seq![c] + m);
        assert forall|i: int| 0 <= i < p.drop_first().len() implies p.drop_first()[i] != c by {
            assert(p.drop_first()[i] == p[i + 1]);
        }
        lemma_after_first_skips(p.drop_first(), m, c);
    }
}

/// A model read from a line never ends with a quote, and where the line
/// holds no `/` it does not begin with one either: the quotes around a value
/// are never part of the model.
pub proof fn lemma_config_model_unquoted(l: Seq<char>)
    ensures
        config_line_model(l) matches Some(m) ==> m.len() == 0 || m.last() != '"',
        config_line_model(l) matches Some(m) ==> ((forall|j: int| 0 <= j < l.len() ==> l[j] != '/')
            ==> m.len() == 0 || m[0] != '"'),
{
    if config_line_model(l) is Some {
        let piece = split_on(l, '=')[1];
        let w0 = strip_front(piece, TrimSet::WhiteSpace);
        let w = strip_back(w0, TrimSet::WhiteSpace);
        let f = strip_front(w, TrimSet::Quote);
        let v = strip_back(f, TrimSet::Quote);
        lemma_strip_ends(f, TrimSet::Quote);
        lemma_strip_ends(w, TrimSet::Quote);
        lemma_after_first_suffix(v, '/');
        match after_first(v, '/') {
            Some(r) => {
                if r.len() > 0 {
                    assert(r.last() == v.last());
                }
            },
            None => {},
        }
        if forall|j: int| 0 <= j < l.len() ==> l[j] != '/' {
            lemma_split_on_without(l, '=', '/');
            assert(forall|i: int| 0 <= i < piece.len() ==> piece[i] != '/');
            lemma_strip_front_drops_run(piece, TrimSet::WhiteSpace);
            assert forall|i: int| 0 <= i < w0.len() implies w0[i] != '/' by {
                assert(w0[i] == piece[i + piece.len() - w0.len()]);
            }
            lemma_strip_ends(w0, TrimSet::WhiteSpace);
            assert forall|i: int| 0 <= i < w.len() implies w[i] != '/' by {
                assert(w[i] == w0[i]);
            }
            lemma_strip_front_drops_run(w, TrimSet::Quote);
            assert forall|i: int| 0 <= i < f.len() implies f[i] != '/' by {
                assert(f[i] == w[i + w.len() - f.len()]);
            }
            assert forall|i: int| 0 <= i < v.len() implies v[i] != '/' by {
                assert(v[i] == f[i]);
            }
            lemma_after_first_absent(v, '/');
            if v.len() > 0 {
                assert(v[0] == f[0]);
            }
        }
    }
}

/// The record of a message: only a `StatusUpdate` with a payload that
/// carries token usage yields one.
pub open spec fn kimi_record(info: KimiFileInfoView, model: Seq<char>, m: KimiMessage) -> Option<
    RecordView,
> {
    if m.msg_type@ == "StatusUpdate"@ {
        match m.payload {
            Some(p) => match p.token_usage {
                Some(u) => Some(
                    RecordView {
                        source: "kimi"@,
                        session_id: info.session_id,
                        agent_type: info.agent_type,
                        agent_id: info.agent_id,
                        timestamp: Timestamp::FloatBits(m.timestamp_bits),
                        model: Some(model),
                        input_tokens: u.input_other,
                        output_tokens: u.output,
                        cache_read_tokens: u.input_cache_read,
                        cache_creation_tokens: u.input_cache_creation,
                        project_path: Some(info.work_dir),
                        message_id: opt_text(p.message_id),
                    },
                ),
                None => None,
            },
            None => None,
        }
    } else {
        None
    }
}

/// The records of the messages `msgs`, in order.
pub open spec fn kimi_records(info: KimiFileInfoView, model: Seq<char>, msgs: Seq<KimiMessage>) -> Seq<
    RecordView,
>
    decreases msgs.len(),
{
    if msgs.len() == 0 {
        Seq::empty()
    } else {
        let prev = kimi_records(info, model, msgs.drop_last());
        match kimi_record(info, model, msgs.last()) {
            Some(r) => prev.push(r),
            None => prev,
        }
    }
}

/// The record of one message, if it yields one.
pub fn kimi_message_record(info: &KimiFileInfo, model: &str, m: &KimiMessage) -> (r: Option<
    TokenRecord,
>)
    ensures
        match (r, kimi_record(info@, model@, *m)) {
            (Some(x), Some(y)) => x@ == y,
            (None, None) => true,
            _ => false,
        },
        r matches Some(x) ==> opt_text(x.message_id) == payload_message_id(*m),
{
    if !text_eq(m.msg_type.as_str(), "StatusUpdate") {
        return None;
    }
    match &m.payload {
        Some(p) => match p.token_usage {
            Some(u) => Some(
                TokenRecord {
                    source: "kimi".to_owned(),
                    session_id: info.session_id.clone(),
                    agent_type: info.agent_type.clone(),
                    agent_id: copy_opt(&info.agent_id),
                    timestamp: Timestamp::FloatBits(m.timestamp_bits),
                    model: Some(model.to_owned()),
                    input_tokens: u.input_other,
                    output_tokens: u.output,
                    cache_read_tokens: u.input_cache_read,
                    cache_creation_tokens: u.input_cache_creation,
                    project_path: Some(info.work_dir.clone()),
                    message_id: copy_opt(&p.message_id),
                },
            ),
            None => None,
        },
        None => None,
    }
}

/// The records of the messages `msgs` of one log.
pub fn parse_kimi_messages(info: &KimiFileInfo, model: &str, msgs: &Vec<KimiMessage>) -> (r: Vec<
    TokenRecord,
>)
    ensures
        records_view(r@) == kimi_records(info@, model@, msgs@),
{
    let mut out: Vec<TokenRecord> = Vec::new();
    let mut i: usize = 0;
    assert(records_view(out@) =~= Seq::<RecordView>::empty());
    while i < msgs.len()
        invariant
            i <= msgs.len(),
            records_view(out@) == kimi_records(info@, model@, msgs@.take(i as int)),
        decreases msgs.len() - i,
    {
        proof {
            assert(msgs@.take(i + 1).drop_last() =~= msgs@.take(i as int));
            assert(msgs@.take(i + 1).last() == msgs@[i as int]);
        }
        match kimi_message_record(info, model, &msgs[i]) {
            Some(rec) => {
                let ghost before = out@;
                out.push(rec);
                assert(records_view(out@) =~= records_view(before).push(rec@));
            },
            None => {},
        }
        i = i + 1;
    }
    assert(msgs@.take(msgs.len() as int) =~= msgs@);
    out
}

/// The records of the wire log at `file_path` under `sessions_dir`, whose
/// messages are `msgs`, with `model` as the default model.
pub fn parse_kimi_file(file_path: &str, sessions_dir: &str, model: &str, msgs: &Vec<KimiMessage>) -> (r:
    Vec<TokenRecord>)
    ensures
        records_view(r@) == kimi_records(
            kimi_info_of_parts(kimi_relative_parts(file_path@, sessions_dir@)),
            model@,
            msgs@,
        ),
{
    let info = kimi_file_info_for_path(file_path, sessions_dir);
    parse_kimi_messages(&info, model, msgs)
}

/// A status update whose payload carries token usage.
pub open spec fn is_usage_update(m: KimiMessage) -> bool {
    &&& m.msg_type@ == "StatusUpdate"@
    &&& m.payload is Some
    &&& m.payload->0.token_usage is Some
}

/// The text of the message id in a message's payload.
pub open spec fn payload_message_id(m: KimiMessage) -> Option<Seq<char>> {
    match m.payload {
        Some(p) => match p.message_id {
            Some(id) => Some(id@),
            None => None,
        },
        None => None,
    }
}

/// A status update with token usage adds exactly one record at the end: it
/// carries the message's own token counts, time and message id (for a root
/// agent's log as for a sub-agent's), the log's session, agent and working
/// directory, and the default model.  Any other message adds nothing, and
/// a log without messages has no records.
pub proof fn lemma_kimi_message_adds_record(
    info: KimiFileInfoView,
    model: Seq<char>,
    msgs: Seq<KimiMessage>,
    m: KimiMessage,
)
    ensures
        is_usage_update(m) ==> kimi_records(info, model, msgs.push(m)) == kimi_records(
            info,
            model,
            msgs,
        ).push(
            RecordView {
                source: "kimi"@,
                session_id: info.session_id,
                agent_type: info.agent_type,
                agent_id: info.agent_id,
                timestamp: Timestamp::FloatBits(m.timestamp_bits),
                model: Some(model),
                input_tokens: m.payload->0.token_usage->0.input_other,
                output_tokens: m.payload->0.token_usage->0.output,
                cache_read_tokens: m.payload->0.token_usage->0.input_cache_read,
                cache_creation_tokens: m.payload->0.token_usage->0.input_cache_creation,
                project_path: Some(info.work_dir),
                message_id: payload_message_id(m),
            },
        ),
        !is_usage_update(m) ==> kimi_records(info, model, msgs.push(m)) == kimi_records(
            info,
            model,
            msgs,
        ),
        kimi_records(info, model, Seq::<KimiMessage>::empty()) == Seq::<RecordView>::empty(),
{
    assert(msgs.push(m).drop_last() =~= msgs);
}

/// Every record of a log carries the message id of the status update it
/// came from: record `k` comes from a usage update preceded by exactly `k`
/// record-yielding messages, and has that message's id.
pub proof fn lemma_kimi_record_message_ids(
    info: KimiFileInfoView,
    model: Seq<char>,
    msgs: Seq<KimiMessage>,
    k: int,
)
    requires
        0 <= k < kimi_records(info, model, msgs).len(),
    ensures
        exists|i: int|
            {
                &&& 0 <= i < msgs.len()
                &&& is_usage_update(#[trigger] msgs[i])
                &&& kimi_records(info, model, msgs.take(i)).len() == k
                &&& kimi_records(info, model, msgs)[k].message_id == payload_message_id(msgs[i])
            },
    decreases msgs.len(),
{
    let n = msgs.len();
    let prev = msgs.drop_last();
    lemma_kimi_message_adds_record(info, model, prev, msgs.last());
    assert(prev.push(msgs.last()) =~= msgs);
    assert(msgs.take(n - 1) =~= prev);
    if k < kimi_records(info, model, prev).len() {
        lemma_kimi_record_message_ids(info, model, prev, k);
        let i = choose|i: int|
            {
                &&& 0 <= i < prev.len()
                &&& is_usage_update(#[trigger] prev[i])
                &&& kimi_records(info, model, prev.take(i)).len() == k
                &&& kimi_records(info, model, prev)[k].message_id == payload_message_id(prev[i])
            };
        assert(prev.take(i) =~= msgs.take(i));
        assert(prev[i] == msgs[i]);
    } else {
        assert(msgs[n - 1] == msgs.last());
    }
}

/// A log is a sub-agent's exactly where its path has a `subagents`
/// component, and only a sub-agent's log has an agent id.
pub proof fn lemma_kimi_agent_kind(parts: Seq<Seq<char>>)
    ensures
        (kimi_info_of_parts(parts).agent_type == "subagent"@) <==> parts.contains("subagents"@),
        kimi_info_of_parts(parts).agent_id is Some ==> kimi_info_of_parts(parts).agent_type
            == "subagent"@,
{
    lemma_position_of_found(parts, "subagents"@);
    reveal_strlit("subagent");
    reveal_strlit("root");
    assert("subagent"@.len() != "root"@.len());
}

/// Every record of a Kimi log comes from the `kimi` source, carries the
/// session, agent and working directory of the log's place and the default
/// model, and a log yields at most one record per message.
pub proof fn lemma_kimi_records_shape(info: KimiFileInfoView, model: Seq<char>, msgs: Seq<KimiMessage>)
    ensures
        kimi_records(info, model, msgs).len() <= msgs.len(),
        forall|k: int|
            0 <= k < kimi_records(info, model, msgs).len() ==> {
                let r = #[trigger] kimi_records(info, model, msgs)[k];
                &&& r.source == "kimi"@
                &&& r.session_id == info.session_id
                &&& r.agent_type == info.agent_type
                &&& r.agent_id == info.agent_id
                &&& r.model == Some(model)
                &&& r.project_path == Some(info.work_dir)
            },
    decreases msgs.len(),
{
    if msgs.len() > 0 {
        lemma_kimi_records_shape(info, model, msgs.drop_last());
    }
}

/// Messages yield their records independently: the records of two runs of
/// messages, one after the other, are the records of the first followed by
/// those of the second.
pub proof fn lemma_kimi_records_concat(
    info: KimiFileInfoView,
    model: Seq<char>,
    a: Seq<KimiMessage>,
    b: Seq<KimiMessage>,
)
    ensures
        kimi_records(info, model, a + b) == kimi_records(info, model, a) + kimi_records(info, model, b),
    decreases b.len(),
{
    if b.len() == 0 {
        assert(a + b =~= a);
        assert(kimi_records(info, model, a) + kimi_records(info, model, b) =~= kimi_records(
            info,
            model,
            a,
        ));
    } else {
        lemma_kimi_records_concat(info, model, a, b.drop_last());
        assert((a + b).drop_last() =~= a + b.drop_last());
        assert((a + b).last() == b.last());
        match kimi_record(info, model, b.last()) {
            Some(r) => {
                assert(kimi_records(info, model, a) + kimi_records(info, model, b.drop_last()).push(r)
                    =~= (kimi_records(info, model, a) + kimi_records(info, model, b.drop_last())).push(
                    r,
                ));
            },
            None => {},
        }
    }
}

/// Messages other than status updates yield nothing: taking one out of a
/// log leaves its records as they were.
pub proof fn lemma_kimi_other_message_ignored(
    info: KimiFileInfoView,
    model: Seq<char>,
    a: Seq<KimiMessage>,
    m: KimiMessage,
    b: Seq<KimiMessage>,
)
    requires
        m.msg_type@ != "StatusUpdate"@,
    ensures
        kimi_records(info, model, a.push(m) + b) == kimi_records(info, model, a + b),
{
    lemma_kimi_records_concat(info, model, a.push(m), b);
    lemma_kimi_records_concat(info, model, a, b);
    assert(a.push(m).drop_last() =~= a);
}

} // verus!
