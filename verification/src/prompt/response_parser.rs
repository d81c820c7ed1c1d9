//! LLM response clean-up and classification.
//!
//! Handles common LLM output issues: markdown code fences, Python-style
//! literals, curly quotes, responses with no JSON, and questions back to the
//! user.

use vstd::prelude::*;
use serde_json::Value;
use crate::text::{
    byte_len, chars_of, contains, contains_seq, lines, lines_of, char_views, lowercase, push_str, replace,
    replace_all, string_of, string_views, to_lowercase, trim, trim_chars, utf8_width,
};

verus! {

#[verifier::external_type_specification]
#[verifier::external_body]
pub struct ExJsonValue(Value);

/// Whether regex_lite compiles a pattern.
pub uninterp spec fn regex_compiles(pattern: Seq<char>) -> bool;

/// The number of successive non-overlapping matches of a pattern in a text
/// (regex_lite `captures_iter`).
pub uninterp spec fn regex_match_count(pattern: Seq<char>, text: Seq<char>) -> nat;

/// The text of capture group `group` of each successive match of a pattern
/// in a text, in order; the empty text where the group took no part
/// (regex_lite `captures_iter`, then `get`).
pub uninterp spec fn regex_group_texts(pattern: Seq<char>, text: Seq<char>, group: nat) -> Seq<Seq<char>>;

/// The texts of one capture group over all matches of a pattern in a text
/// (regex_lite `Regex::new`, `captures_iter`, `get`); `None` when the
/// pattern does not compile.
#[verifier::external_body]
fn regex_group(pattern: &str, text: &str, group: usize) -> (r: Option<Vec<String>>)
    ensures
        r is Some <==> regex_compiles(pattern@),
        r matches Some(v) ==> string_views(v@) == regex_group_texts(pattern@, text@, group as nat)
            && v@.len() == regex_match_count(pattern@, text@),
{
    regex_lite::Regex::new(pattern).ok().map(|re| {
        re.captures_iter(text).map(|c| c.get(group).map_or(String::new(), |m| m.as_str().to_string())).collect()
    })
}

/// The pattern of a markdown-fenced JSON block, its body in group 1.
pub open spec fn fence_pattern() -> Seq<char> {
    r"```(?:json)?\s*\n([\s\S]*?)\n```"@
}

/// The pattern of a tool call `name({...})`: the name in group 1, the
/// arguments in group 2.
pub open spec fn tool_call_pattern() -> Seq<char> {
    r"([a-z_]+)\s*\(\s*(\{[^}]+\}(?:\s*,\s*\{[^}]+\})*)\s*\)"@
}

/// The bodies of the markdown-fenced blocks of a text, in order.
pub open spec fn fenced_json_bodies(text: Seq<char>) -> Seq<Seq<char>> {
    if regex_compiles(fence_pattern()) {
        regex_group_texts(fence_pattern(), text, 1)
    } else {
        Seq::empty()
    }
}

/// The (name, arguments) captures of the tool-call pattern in a text, in
/// order.
pub open spec fn tool_call_captures(text: Seq<char>) -> Seq<(Seq<char>, Seq<char>)> {
    if regex_compiles(tool_call_pattern()) {
        Seq::new(
            regex_match_count(tool_call_pattern(), text),
            |i: int|
                (
                    regex_group_texts(tool_call_pattern(), text, 1)[i],
                    regex_group_texts(tool_call_pattern(), text, 2)[i],
                ),
        )
    } else {
        Seq::empty()
    }
}

/// The views of pairs of strings.
pub open spec fn pair_views(s: Seq<(String, String)>) -> Seq<(Seq<char>, Seq<char>)> {
    s.map_values(|p: (String, String)| (p.0@, p.1@))
}

/// Bodies of the fenced code blocks of a text.
fn fenced_blocks(raw: &str) -> (r: Vec<String>)
    ensures
        string_views(r@) == fenced_json_bodies(raw@),
{
    match regex_group(r"```(?:json)?\s*\n([\s\S]*?)\n```", raw, 1) {
        Some(v) => v,
        None => Vec::new(),
    }
}

/// The (name, arguments) captures of the tool calls of a text.
fn tool_call_matches(raw: &str) -> (r: Vec<(String, String)>)
    ensures
        pair_views(r@) == tool_call_captures(raw@),
{
    let names = regex_group(r"([a-z_]+)\s*\(\s*(\{[^}]+\}(?:\s*,\s*\{[^}]+\})*)\s*\)", raw, 1);
    let args = regex_group(r"([a-z_]+)\s*\(\s*(\{[^}]+\}(?:\s*,\s*\{[^}]+\})*)\s*\)", raw, 2);
    let mut out: Vec<(String, String)> = Vec::new();
    match (names, args) {
        (Some(a), Some(b)) => {
            let ghost g1 = regex_group_texts(tool_call_pattern(), raw@, 1);
            let ghost g2 = regex_group_texts(tool_call_pattern(), raw@, 2);
            let mut i: usize = 0;
            while i < a.len()
                invariant
                    i <= a@.len(),
                    a@.len() == b@.len(),
                    string_views(a@) == g1,
                    string_views(b@) == g2,
                    pair_views(out@) =~= Seq::new(i as nat, |k: int| (g1[k], g2[k])),
                decreases a@.len() - i,
            {
                let ghost before = out@;
                out.push((a[i].clone(), b[i].clone()));
                proof {
                    assert(pair_views(out@) =~= pair_views(before).push((g1[i as int], g2[i as int])));
                }
                i += 1;
            }
        },
        _ => {},
    }
    out
}

/// The JSON value serde_json reads from a text it accepts.
pub uninterp spec fn json_value_of(text: Seq<char>) -> Value;

/// Whether serde_json reads the text as a JSON value.
pub uninterp spec fn json_accepts(text: Seq<char>) -> bool;

/// Parses a JSON value (serde_json `from_str`): `Some` of the value read
/// exactly when the text is accepted.
#[verifier::external_body]
pub(crate) fn parse_json(text: &str) -> (r: Option<Value>)
    ensures
        r is Some <==> json_accepts(text@),
        r matches Some(v) ==> v == json_value_of(text@),
{
    serde_json::from_str::<Value>(text).ok()
}

/// A copy of a JSON value (serde_json's derived `Clone`).
#[verifier::external_body]
pub(crate) fn json_clone(v: &Value) -> (r: Value)
    ensures
        r == *v,
{
    v.clone()
}

/// The views of (key, value) members.
pub open spec fn member_views(members: Seq<(String, Value)>) -> Seq<(Seq<char>, Value)> {
    members.map_values(|m: (String, Value)| (m.0@, m.1))
}

/// The members of a JSON value that is an object, in the object's order,
/// or `None` for any other value (serde_json `as_object`, then iteration).
pub uninterp spec fn json_members_of(v: Value) -> Option<Seq<(Seq<char>, Value)>>;

/// The members of a JSON object, in the object's order (serde_json
/// `Value::as_object`, each member cloned); `None` for any other value.
#[verifier::external_body]
fn json_members(v: &Value) -> (r: Option<Vec<(String, Value)>>)
    ensures
        (match r {
            Some(ms) => Some(member_views(ms@)),
            None => None,
        }) == json_members_of(*v),
{
    v.as_object().map(|m| m.iter().map(|(k, x)| (k.clone(), x.clone())).collect())
}

/// The JSON object that serde_json builds from members inserted in order,
/// a later member replacing an earlier one of the same key.
pub uninterp spec fn json_object_value(members: Seq<(Seq<char>, Value)>) -> Value;

/// A JSON object built from members inserted in order, a later member
/// replacing an earlier one of the same key (serde_json `Map`
/// `FromIterator`, then `Value::Object`): the named object of the members.
#[verifier::external_body]
pub(crate) fn json_object(members: Vec<(String, Value)>) -> (r: Value)
    ensures
        r == json_object_value(member_views(members@)),
{
    Value::Object(members.into_iter().collect())
}

/// The items of the array that serde_json finds under a key of a value
/// (`get`, then `as_array`), or `None` when there is no such array.
pub uninterp spec fn json_array_under(v: Value, key: Seq<char>) -> Option<Seq<Value>>;

/// The items of the array under `key` of a JSON object (serde_json `get`,
/// then `as_array`, the items cloned); `None` when there is no such array.
#[verifier::external_body]
pub(crate) fn json_array_field(v: &Value, key: &str) -> (r: Option<Vec<Value>>)
    ensures
        (match r {
            Some(items) => Some(items@),
            None => None,
        }) == json_array_under(*v, key@),
{
    v.get(key).and_then(|e| e.as_array().cloned())
}

/// The text of the string under a key of a JSON value, or `None` when
/// there is no string there (serde_json `get`, then `as_str`).
pub uninterp spec fn json_str_under(v: Value, key: Seq<char>) -> Option<Seq<char>>;

/// The string under `key` of a JSON value (serde_json `get`, then
/// `as_str`); `None` when there is no string there.
#[verifier::external_body]
pub(crate) fn json_str_field(v: &Value, key: &str) -> (r: Option<String>)
    ensures
        (match r {
            Some(t) => Some(t@),
            None => None,
        }) == json_str_under(*v, key@),
{
    v.get(key).and_then(|x| x.as_str()).map(|t| t.to_string())
}

/// The JSON string value holding a text (serde_json `Value::String`).
pub uninterp spec fn json_string_value(text: Seq<char>) -> Value;

/// A JSON string value holding the text (serde_json `Value::String`).
#[verifier::external_body]
pub(crate) fn json_string(text: &str) -> (r: Value)
    ensures
        r == json_string_value(text@),
{
    Value::String(text.to_owned())
}

/// Errors that can occur during response parsing.
#[derive(Debug, Clone, PartialEq, Eq)]
pub enum ParseError {
    /// No valid JSON found in the response.
    NoJsonFound,
    /// Schema validation failed, with the reason.
    SchemaValidationFailed(String),
    /// The response is shorter than the minimum (its length in bytes).
    TruncatedResponse(usize),
    /// The response is empty or whitespace only.
    EmptyResponse,
    /// More retries than allowed (the limit).
    MaxRetriesExceeded(usize),
    /// The response reads as instructions, not output.
    LikelyInstructions,
}

/// Configuration for the response parser.
#[derive(Debug, Clone, Copy)]
pub struct ParserConfig {
    /// Maximum retries before giving up.
    pub max_retries: usize,
    /// Minimum length (in bytes) of a valid response.
    pub min_response_chars: usize,
    /// Whether to apply the common fix-ups.
    pub auto_fix: bool,
}

impl Default for ParserConfig {
    fn default() -> (c: Self)
        ensures
            c.max_retries == 3,
            c.min_response_chars == 5,
            c.auto_fix,
    {
        ParserConfig { max_retries: 3, min_response_chars: 5, auto_fix: true }
    }
}

/// The text after the common fix-ups, applied in this order: Python
/// literals to JSON ones, code fences removed, curly quotes to straight
/// ones.
pub open spec fn common_fixes(raw: Seq<char>) -> Seq<char> {
    let s1 = replace_all(raw, "True"@, "true"@);
    let s2 = replace_all(s1, "False"@, "false"@);
    let s3 = replace_all(s2, "None"@, "null"@);
    let s4 = replace_all(s3, "```json"@, ""@);
    let s5 = replace_all(s4, "```yaml"@, ""@);
    let s6 = replace_all(s5, "```"@, ""@);
    let s7 = replace_all(s6, "\u{201c}"@, "\""@);
    let s8 = replace_all(s7, "\u{201d}"@, "\""@);
    let s9 = replace_all(s8, "\u{2018}"@, "'"@);
    replace_all(s9, "\u{2019}"@, "'"@)
}

fn replace_str(s: Vec<char>, from: &str, to: &str) -> (r: Vec<char>)
    requires
        from@.len() > 0,
    ensures
        r@ == replace_all(s@, from@, to@),
{
    let f = chars_of(from);
    let t = chars_of(to);
    replace(s.as_slice(), f.as_slice(), t.as_slice())
}

/// Applies the common fixes to LLM output (see `common_fixes`).
pub fn apply_common_fixes(raw: &str) -> (r: String)
    ensures
        r@ == common_fixes(raw@),
{
    proof {
        reveal_strlit("True");
        reveal_strlit("False");
        reveal_strlit("None");
        reveal_strlit("```json");
        reveal_strlit("```yaml");
        reveal_strlit("```");
        reveal_strlit("\u{201c}");
        reveal_strlit("\u{201d}");
        reveal_strlit("\u{2018}");
        reveal_strlit("\u{2019}");
    }
    let s = chars_of(raw);
    let s = replace_str(s, "True", "true");
    let s = replace_str(s, "False", "false");
    let s = replace_str(s, "None", "null");
    let s = replace_str(s, "```json", "");
    let s = replace_str(s, "```yaml", "");
    let s = replace_str(s, "```", "");
    let s = replace_str(s, "\u{201c}", "\"");
    let s = replace_str(s, "\u{201d}", "\"");
    let s = replace_str(s, "\u{2018}", "'");
    let s = replace_str(s, "\u{2019}", "'");
    string_of(s.as_slice())
}

/// Scan for the brace that closes the one opening at depth 1, from char
/// position `i` with the given nesting depth and string/escape state: the
/// char position where the depth returns to zero.
pub open spec fn brace_scan(s: Seq<char>, i: nat, depth: int, in_string: bool, escape: bool) -> Option<nat>
    decreases s.len() - i,
{
    if i >= s.len() {
        None
    } else if escape {
        brace_scan(s, i + 1, depth, in_string, false)
    } else {
        let c = s[i as int];
        if c == '\\' {
            brace_scan(s, i + 1, depth, in_string, true)
        } else if c == '"' {
            brace_scan(s, i + 1, depth, !in_string, false)
        } else if c == '{' && !in_string {
            brace_scan(s, i + 1, depth + 1, in_string, false)
        } else if c == '}' && !in_string {
            if depth - 1 == 0 {
                Some(i)
            } else {
                brace_scan(s, i + 1, depth - 1, in_string, false)
            }
        } else {
            brace_scan(s, i + 1, depth, in_string, false)
        }
    }
}

/// A matching brace found by the scan lies within the text.
pub proof fn lemma_brace_scan_bound(s: Seq<char>, i: nat, depth: int, in_string: bool, escape: bool)
    ensures
        brace_scan(s, i, depth, in_string, escape) matches Some(k) ==> i <= k < s.len(),
    decreases s.len() - i,
{
    if i < s.len() {
        lemma_brace_scan_bound(s, i + 1, depth, in_string, false);
        lemma_brace_scan_bound(s, i + 1, depth, in_string, true);
        lemma_brace_scan_bound(s, i + 1, depth, !in_string, false);
        lemma_brace_scan_bound(s, i + 1, depth + 1, in_string, false);
        lemma_brace_scan_bound(s, i + 1, depth - 1, in_string, false);
    }
}

/// The byte offset of the brace matching the one at the start, if any.
pub open spec fn matching_brace(s: Seq<char>) -> Option<nat> {
    match brace_scan(s, 0, 0, false, false) {
        Some(k) => Some(byte_len(s.take(k as int))),
        None => None,
    }
}

/// Finds the byte position of the closing brace matching the opening brace
/// at the start of `s`; quoted strings and escaped characters are skipped.
pub fn find_matching_brace(s: &str) -> (r: Option<usize>)
    requires
        4 * s@.len() <= usize::MAX,
    ensures
        r == match matching_brace(s@) {
            Some(n) => Some(n as usize),
            None => None::<usize>,
        },
        r matches Some(n) ==> n <= 4 * s@.len(),
{
    let chars = chars_of(s);
    let mut depth: i128 = 0;
    let mut in_string = false;
    let mut escape = false;
    let mut offset: usize = 0;
    let mut i: usize = 0;
    while i < chars.len()
        invariant
            chars@ == s@,
            4 * s@.len() <= usize::MAX,
            i <= chars@.len(),
            -(i as int) <= depth <= i,
            offset == byte_len(s@.take(i as int)),
            offset <= 4 * i,
            brace_scan(s@, 0, 0, false, false) == brace_scan(s@, i as nat, depth as int, in_string, escape),
        decreases chars@.len() - i,
    {
        let c = chars[i];
        proof {
            assert(s@.take(i + 1).drop_last() == s@.take(i as int));
        }
        if escape {
            escape = false;
        } else if c == '\\' {
            escape = true;
        } else if c == '"' {
            in_string = !in_string;
        } else if c == '{' && !in_string {
            depth = depth + 1;
        } else if c == '}' && !in_string {
            depth = depth - 1;
            if depth == 0 {
                return Some(offset);
            }
        }
        offset = offset + crate::text::char_width(c);
        i += 1;
    }
    None
}

/// Whether a name is one of the known MCP tools.
pub open spec fn known_tool(name: Seq<char>) -> bool {
    crate::prompt::default_tools().map_values(|p: (Seq<char>, Seq<char>)| p.0).contains(name)
}

/// Whether `name` is one of the known MCP tool names.
pub fn is_known_tool(name: &str) -> (r: bool)
    ensures
        r == known_tool(name@),
{
    let tools = crate::prompt::default_tool_descriptions();
    let ghost names = crate::prompt::default_tools().map_values(|p: (Seq<char>, Seq<char>)| p.0);
    let mut i: usize = 0;
    while i < tools.len()
        invariant
            i <= tools@.len(),
            crate::prompt::pair_views(tools@) == crate::prompt::default_tools(),
            names == crate::prompt::default_tools().map_values(|p: (Seq<char>, Seq<char>)| p.0),
            forall|k: int| 0 <= k < i ==> names[k] != name@,
        decreases tools@.len() - i,
    {
        proof {
            assert(crate::prompt::pair_views(tools@)[i as int] == (tools@[i as int].0@, tools@[i as int].1@));
        }
        if crate::text::str_eq(tools[i].0.as_str(), name) {
            proof {
                assert(names[i as int] == name@);
            }
            return true;
        }
        i += 1;
    }
    false
}

/// Whether a line mentions an error (case-insensitively).
pub open spec fn mentions_error(line: Seq<char>) -> bool {
    let lower = lowercase(line);
    contains_seq(lower, "error"@) || contains_seq(lower, "failed"@) || contains_seq(lower, "cannot"@)
}

/// Index of the first line that mentions an error, from line `i` on.
pub open spec fn first_error_line(ls: Seq<Seq<char>>, i: nat) -> Option<nat>
    decreases ls.len() - i,
{
    if i >= ls.len() {
        None
    } else if mentions_error(ls[i as int]) {
        Some(i)
    } else {
        first_error_line(ls, i + 1)
    }
}

/// The error message of a failure response: the first line that mentions an
/// error, trimmed; failing that the first line; failing that a default.
pub open spec fn error_message(raw: Seq<char>) -> Seq<char> {
    let ls = lines(raw);
    match first_error_line(ls, 0) {
        Some(k) => trim(ls[k as int]),
        None => if ls.len() > 0 { ls[0] } else { "Unknown error"@ },
    }
}

/// Extracts an error message from a response (see `error_message`).
pub fn extract_error_message(raw: &str) -> (r: String)
    requires
        raw@.len() < usize::MAX,
    ensures
        r@ == error_message(raw@),
{
    let chars = chars_of(raw);
    let ls = lines_of(chars.as_slice());
    let ghost all = lines(raw@);
    let mut i: usize = 0;
    while i < ls.len()
        invariant
            char_views(ls@) == all,
            all == lines(raw@),
            i <= ls@.len(),
            first_error_line(all, 0) == first_error_line(all, i as nat),
        decreases ls@.len() - i,
    {
        let line = string_of(ls[i].as_slice());
        let lower = to_lowercase(line.as_str());
        let lc = chars_of(lower.as_str());
        let e = chars_of("error");
        let f = chars_of("failed");
        let c = chars_of("cannot");
        proof {
            assert(char_views(ls@)[i as int] == ls@[i as int]@);
        }
        if contains(lc.as_slice(), e.as_slice()) || contains(lc.as_slice(), f.as_slice())
            || contains(lc.as_slice(), c.as_slice()) {
            let t = trim_chars(ls[i].as_slice());
            return string_of(t.as_slice());
        }
        i += 1;
    }
    if ls.len() > 0 {
        proof {
            assert(char_views(ls@)[0] == ls@[0]@);
        }
        string_of(ls[0].as_slice())
    } else {
        "Unknown error".to_owned()
    }
}

/// A response reads as a question: once trimmed it contains `?`, is under
/// 500 bytes and holds no `{`.
pub open spec fn likely_question(text: Seq<char>) -> bool {
    let t = trim(text);
    t.contains('?') && byte_len(t) < 500 && !t.contains('{')
}

fn has_char(v: &[char], c: char) -> (r: bool)
    ensures
        r == v@.contains(c),
{
    let mut i: usize = 0;
    while i < v.len()
        invariant
            i <= v@.len(),
            forall|k: int| 0 <= k < i ==> v@[k] != c,
        decreases v@.len() - i,
    {
        if v[i] == c {
            return true;
        }
        i += 1;
    }
    false
}

/// Byte length of a character sequence, stopping once it reaches `cap`.
fn byte_len_capped(v: &[char], cap: usize) -> (n: usize)
    ensures
        n == if byte_len(v@) < cap { byte_len(v@) } else { cap as nat },
{
    let mut n: usize = 0;
    let mut i: usize = 0;
    while i < v.len()
        invariant
            i <= v@.len(),
            n == byte_len(v@.take(i as int)),
            n < cap || i == 0 && cap == 0,
        decreases v@.len() - i,
    {
        if n >= cap {
            proof {
                crate::text::lemma_byte_len_concat(v@.take(i as int), v@.skip(i as int));
                assert(v@.take(i as int) + v@.skip(i as int) == v@);
            }
            return cap;
        }
        proof {
            assert(v@.take(i + 1).drop_last() == v@.take(i as int));
        }
        let w = crate::text::char_width(v[i]);
        if w >= cap - n {
            proof {
                crate::text::lemma_byte_len_concat(v@.take(i + 1), v@.skip(i + 1));
                assert(v@.take(i + 1) + v@.skip(i + 1) == v@);
            }
            return cap;
        }
        n = n + w;
        i += 1;
    }
    proof {
        assert(v@.take(v@.len() as int) == v@);
    }
    if n >= cap { cap } else { n }
}

/// Whether the response looks like a question (see `likely_question`).
pub fn is_likely_question(text: &str) -> (r: bool)
    ensures
        r == likely_question(text@),
{
    let chars = chars_of(text);
    let t = trim_chars(chars.as_slice());
    has_char(t.as_slice(), '?') && byte_len_capped(t.as_slice(), 500) < 500 && !has_char(t.as_slice(), '{')
}

/// The action the model asks for.
#[derive(Debug)]
pub enum AgentAction {
    /// Call one or more MCP tools.
    CallTools(Vec<ToolCall>),
    /// Complete a task with an output.
    CompleteTask { task_id: String, output: Value },
    /// Report a failure.
    FailTask { task_id: String, error: String },
    /// Ask a human for clarification.
    RequestClarification { question: String },
}

/// A tool call extracted from a response.
#[derive(Debug)]
pub struct ToolCall {
    pub name: String,
    pub arguments: Value,
}

/// A parsed response.
#[derive(Debug)]
pub struct ParsedResponse {
    pub action: AgentAction,
    pub entities: Vec<Value>,
    pub raw_text: String,
    pub parse_success: bool,
    pub retries_used: usize,
}

/// Char position of the brace matching the one at the start (see
/// `brace_scan`).
fn matching_brace_index(v: &[char]) -> (r: Option<usize>)
    ensures
        match (r, brace_scan(v@, 0, 0, false, false)) {
            (Some(a), Some(b)) => a == b,
            (None, None) => true,
            _ => false,
        },
{
    let mut depth: i128 = 0;
    let mut in_string = false;
    let mut escape = false;
    let mut i: usize = 0;
    while i < v.len()
        invariant
            i <= v@.len(),
            -(i as int) <= depth <= i,
            brace_scan(v@, 0, 0, false, false) == brace_scan(v@, i as nat, depth as int, in_string, escape),
        decreases v@.len() - i,
    {
        let c = v[i];
        if escape {
            escape = false;
        } else if c == '\\' {
            escape = true;
        } else if c == '"' {
            in_string = !in_string;
        } else if c == '{' && !in_string {
            depth = depth + 1;
        } else if c == '}' && !in_string {
            depth = depth - 1;
            if depth == 0 {
                return Some(i);
            }
        }
        i += 1;
    }
    None
}

/// The inline JSON candidate of a text: from its first `{` to the brace
/// matching it, inclusive.
pub open spec fn inline_candidate(raw: Seq<char>) -> Option<Seq<char>> {
    match raw.index_of_first('{') {
        Some(k) => match brace_scan(raw.skip(k), 0, 0, false, false) {
            Some(e) => Some(raw.skip(k).take(e + 1 as int)),
            None => None,
        },
        None => None,
    }
}

/// How many JSON blocks a text yields: its fenced blocks that parse, or,
/// when there is none, one for an inline candidate that parses.
pub open spec fn json_block_count(raw: Seq<char>) -> nat {
    let n = fenced_json_bodies(raw).filter(|b: Seq<char>| json_accepts(b)).len();
    if n > 0 {
        n
    } else {
        match inline_candidate(raw) {
            Some(c) => if json_accepts(c) { 1 } else { 0 },
            None => 0,
        }
    }
}

/// The JSON values of a text: those of its fenced blocks that parse, in
/// order; when there is none, that of an inline candidate that parses.
pub open spec fn json_blocks_of(raw: Seq<char>) -> Seq<Value> {
    let fenced = fenced_json_bodies(raw).filter(|b: Seq<char>| json_accepts(b));
    if fenced.len() > 0 {
        fenced.map_values(|b: Seq<char>| json_value_of(b))
    } else {
        match inline_candidate(raw) {
            Some(c) => if json_accepts(c) { seq![json_value_of(c)] } else { Seq::empty() },
            None => Seq::empty(),
        }
    }
}

/// Extracts the JSON values of a response: the fenced blocks that parse, in
/// order; with none, the inline object from the first `{` to its matching
/// brace, if it parses.
pub fn extract_json_blocks(raw: &str) -> (blocks: Vec<Value>)
    ensures
        blocks@ == json_blocks_of(raw@),
        blocks@.len() == json_block_count(raw@),
{
    let bodies = fenced_blocks(raw);
    let ghost pred = |b: Seq<char>| json_accepts(b);
    let mut blocks: Vec<Value> = Vec::new();
    let mut i: usize = 0;
    while i < bodies.len()
        invariant
            i <= bodies@.len(),
            pred == (|b: Seq<char>| json_accepts(b)),
            string_views(bodies@) == fenced_json_bodies(raw@),
            blocks@ == string_views(bodies@).take(i as int).filter(pred).map_values(|b: Seq<char>| json_value_of(b)),
        decreases bodies@.len() - i,
    {
        let ghost before = blocks@;
        proof {
            let sv = string_views(bodies@);
            assert(sv.take(i + 1).drop_last() == sv.take(i as int));
            assert(sv.take(i + 1).last() == bodies@[i as int]@);
            reveal_with_fuel(Seq::filter, 1);
        }
        match parse_json(bodies[i].as_str()) {
            Some(v) => blocks.push(v),
            None => {},
        }
        proof {
            let sv = string_views(bodies@);
            if json_accepts(sv[i as int]) {
                assert(sv.take(i + 1).filter(pred) == sv.take(i as int).filter(pred).push(sv[i as int]));
                assert(sv.take(i + 1).filter(pred).map_values(|b: Seq<char>| json_value_of(b)) =~= sv.take(
                    i as int,
                ).filter(pred).map_values(|b: Seq<char>| json_value_of(b)).push(json_value_of(sv[i as int])));
            } else {
                assert(sv.take(i + 1).filter(pred) == sv.take(i as int).filter(pred));
            }
        }
        i += 1;
    }
    proof {
        assert(string_views(bodies@).take(bodies@.len() as int) == string_views(bodies@));
    }
    if blocks.len() > 0 {
        return blocks;
    }
    let chars = chars_of(raw);
    let mut k: usize = 0;
    while k < chars.len() && chars[k] != '{'
        invariant
            chars@ == raw@,
            k <= chars@.len(),
            forall|j: int| 0 <= j < k ==> raw@[j] != '{',
        decreases chars@.len() - k,
    {
        k += 1;
    }
    proof {
        raw@.index_of_first_ensures('{');
    }
    if k == chars.len() {
        proof {
            assert(raw@.index_of_first('{') is None);
        }
        return blocks;
    }
    proof {
        assert(raw@.index_of_first('{') == Some(k as int));
    }
    let slice = slice_chars_from(chars.as_slice(), k);
    match matching_brace_index(slice.as_slice()) {
        Some(e) => {
            proof {
                lemma_brace_scan_bound(slice@, 0, 0, false, false);
            }
            let candidate = crate::text::slice_chars(slice.as_slice(), 0, e + 1);
            let text = string_of(candidate.as_slice());
            proof {
                assert(candidate@ == raw@.skip(k as int).take(e + 1));
            }
            match parse_json(text.as_str()) {
                Some(v) => blocks.push(v),
                None => {},
            }
        },
        None => {},
    }
    blocks
}

fn slice_chars_from(v: &[char], k: usize) -> (r: Vec<char>)
    requires
        k <= v@.len(),
    ensures
        r@ == v@.skip(k as int),
{
    let r = crate::text::slice_chars(v, k, v.len());
    assert(r@ =~= v@.skip(k as int));
    r
}

/// Whether a captured call is kept: a known tool whose arguments parse, as
/// they are or wrapped in braces.
pub open spec fn call_kept(c: (Seq<char>, Seq<char>)) -> bool {
    known_tool(c.0) && (json_accepts(c.1) || json_accepts("{"@ + c.1 + "}"@))
}

/// The names of the tool calls kept from a text, in order.
pub open spec fn kept_call_names(text: Seq<char>) -> Seq<Seq<char>> {
    tool_call_captures(text).filter(|c: (Seq<char>, Seq<char>)| call_kept(c)).map_values(
        |c: (Seq<char>, Seq<char>)| c.0,
    )
}

/// The names of some tool calls.
pub open spec fn call_names(calls: Seq<ToolCall>) -> Seq<Seq<char>> {
    calls.map_values(|c: ToolCall| c.name@)
}

/// The arguments of a kept call: the JSON read from its argument text, or
/// else from that text wrapped in braces.
pub open spec fn call_arguments(args: Seq<char>) -> Value {
    if json_accepts(args) {
        json_value_of(args)
    } else {
        json_value_of("{"@ + args + "}"@)
    }
}

/// The tool calls kept from a text, as (name, arguments), in order.
pub open spec fn kept_calls(text: Seq<char>) -> Seq<(Seq<char>, Value)> {
    tool_call_captures(text).filter(|c: (Seq<char>, Seq<char>)| call_kept(c)).map_values(
        |c: (Seq<char>, Seq<char>)| (c.0, call_arguments(c.1)),
    )
}

/// Tool calls as (name, arguments).
pub open spec fn call_views(calls: Seq<ToolCall>) -> Seq<(Seq<char>, Value)> {
    calls.map_values(|c: ToolCall| (c.name@, c.arguments))
}

/// Extracts the MCP tool calls of a response: each `name({...})` whose name
/// is a known tool and whose arguments parse as JSON (as they are, or else
/// wrapped in braces), in order.
pub fn extract_tool_calls(raw: &str) -> (calls: Vec<ToolCall>)
    ensures
        call_views(calls@) == kept_calls(raw@),
        call_names(calls@) == kept_call_names(raw@),
{
    let caps = tool_call_matches(raw);
    let ghost cv = tool_call_captures(raw@);
    let ghost pred = |c: (Seq<char>, Seq<char>)| call_kept(c);
    let mut calls: Vec<ToolCall> = Vec::new();
    let mut i: usize = 0;
    while i < caps.len()
        invariant
            i <= caps@.len(),
            caps@.map_values(|p: (String, String)| (p.0@, p.1@)) == cv,
            pred == (|c: (Seq<char>, Seq<char>)| call_kept(c)),
            call_names(calls@) == cv.take(i as int).filter(pred).map_values(|c: (Seq<char>, Seq<char>)| c.0),
            call_views(calls@) == cv.take(i as int).filter(pred).map_values(
                |c: (Seq<char>, Seq<char>)| (c.0, call_arguments(c.1)),
            ),
        decreases caps@.len() - i,
    {
        let ghost before = calls@;
        proof {
            assert(cv.take(i + 1).drop_last() == cv.take(i as int));
            assert(cv.take(i + 1).last() == (caps@[i as int].0@, caps@[i as int].1@));
            reveal_with_fuel(Seq::filter, 1);
        }
        let name = &caps[i].0;
        let args = &caps[i].1;
        if is_known_tool(name.as_str()) {
            match parse_json(args.as_str()) {
                Some(v) => {
                    calls.push(ToolCall { name: name.clone(), arguments: v });
                },
                None => {
                    let mut wrapped = "{".to_owned();
                    push_str(&mut wrapped, args.as_str());
                    push_str(&mut wrapped, "}");
                    match parse_json(wrapped.as_str()) {
                        Some(v) => {
                            calls.push(ToolCall { name: name.clone(), arguments: v });
                        },
                        None => {},
                    }
                },
            }
        }
        proof {
            let f_before = cv.take(i as int).filter(pred);
            let f_after = cv.take(i + 1).filter(pred);
            if call_kept(cv[i as int]) {
                assert(f_after == f_before.push(cv[i as int]));
                assert(call_names(calls@) =~= call_names(before).push(name@));
                assert(f_after.map_values(|c: (Seq<char>, Seq<char>)| c.0) =~= f_before.map_values(
                    |c: (Seq<char>, Seq<char>)| c.0,
                ).push(name@));
                assert(call_views(calls@) =~= call_views(before).push((name@, call_arguments(args@))));
                assert(f_after.map_values(|c: (Seq<char>, Seq<char>)| (c.0, call_arguments(c.1))) =~= f_before.map_values(
                    |c: (Seq<char>, Seq<char>)| (c.0, call_arguments(c.1)),
                ).push((name@, call_arguments(args@))));
            } else {
                assert(f_after == f_before);
                assert(calls@ == before);
            }
        }
        i += 1;
    }
    proof {
        assert(cv.take(caps@.len() as int) == cv);
    }
    calls
}

/// The members of those JSON values that are objects, in order.
pub open spec fn merged_members(blocks: Seq<Value>) -> Seq<(Seq<char>, Value)>
    decreases blocks.len(),
{
    if blocks.len() == 0 {
        Seq::empty()
    } else {
        merged_members(blocks.drop_last()) + match json_members_of(blocks.last()) {
            Some(ms) => ms,
            None => Seq::empty(),
        }
    }
}

/// JSON blocks merged into one: a single block as it is; otherwise the
/// object built from the members of the blocks that are objects, in order.
pub open spec fn merged_value(blocks: Seq<Value>) -> Value {
    if blocks.len() == 1 {
        blocks[0]
    } else {
        json_object_value(merged_members(blocks))
    }
}

/// The items of the `entities` array of an output, or none.
pub open spec fn entities_of(output: Value) -> Seq<Value> {
    match json_array_under(output, "entities"@) {
        Some(items) => items,
        None => Seq::empty(),
    }
}

/// The output of a response taken whole: an object with the text under
/// `raw_output`.
pub open spec fn raw_output_value(cleaned: Seq<char>) -> Value {
    json_object_value(seq![("raw_output"@, json_string_value(cleaned))])
}

/// Merges JSON blocks into one: a single block as it is; several blocks
/// into one object holding the members of those that are objects, a later
/// member replacing an earlier one of the same key.
pub fn merge_json_blocks(blocks: &Vec<Value>) -> (merged: Value)
    ensures
        merged == merged_value(blocks@),
{
    if blocks.len() == 1 {
        return json_clone(&blocks[0]);
    }
    let mut members: Vec<(String, Value)> = Vec::new();
    let mut i: usize = 0;
    while i < blocks.len()
        invariant
            i <= blocks@.len(),
            member_views(members@) == merged_members(blocks@.take(i as int)),
        decreases blocks@.len() - i,
    {
        let ghost before = members@;
        proof {
            assert(blocks@.take(i + 1).drop_last() == blocks@.take(i as int));
            assert(blocks@.take(i + 1).last() == blocks@[i as int]);
        }
        match json_members(&blocks[i]) {
            Some(ms) => {
                let mut ms = ms;
                let ghost added = ms@;
                members.append(&mut ms);
                proof {
                    assert(member_views(members@) =~= member_views(before) + member_views(added));
                }
            },
            None => {
                proof {
                    assert(member_views(before) + Seq::empty() =~= member_views(before));
                }
            },
        }
        i += 1;
    }
    proof {
        assert(blocks@.take(blocks@.len() as int) == blocks@);
    }
    json_object(members)
}

/// The `entities` array of an output, or nothing.
fn extract_entities(output: &Value) -> (entities: Vec<Value>)
    ensures
        entities@ == entities_of(*output),
{
    match json_array_field(output, "entities") {
        Some(items) => items,
        None => Vec::new(),
    }
}

/// Whether a cleaned response reads as a failure report: it mentions
/// `fail_task` or `error`, in any case.
pub open spec fn reports_failure(cleaned: Seq<char>) -> bool {
    contains_seq(lowercase(cleaned), "fail_task"@) || contains_seq(lowercase(cleaned), "error"@)
}

/// The text a response is classified on: with auto-fix, after the common
/// fixes.
pub open spec fn cleaned_text(raw: Seq<char>, config: ParserConfig) -> Seq<char> {
    if config.auto_fix { common_fixes(raw) } else { raw }
}

/// The outcome of classifying a cleaned response with the tool calls and
/// JSON blocks extracted from it: an empty (whitespace only) response, or
/// one shorter than the minimum in bytes, is refused; tool calls come
/// first, then JSON blocks (merged, their `entities` kept), then a failure
/// report, then a question; with neither, a retry is asked for while
/// retries remain, and on the last one the whole text is the output. Every
/// success is marked parsed and carries the raw text and the retry count.
pub open spec fn classified(
    r: Result<ParsedResponse, ParseError>,
    raw: Seq<char>,
    cleaned: Seq<char>,
    retry_count: usize,
    config: ParserConfig,
    calls: Seq<(Seq<char>, Value)>,
    blocks: Seq<Value>,
) -> bool {
    &&& (trim(cleaned).len() == 0 ==> r matches Err(ParseError::EmptyResponse))
    &&& (trim(cleaned).len() > 0 && byte_len(cleaned) < config.min_response_chars
        ==> (r matches Err(ParseError::TruncatedResponse(n)) && n == byte_len(cleaned)))
    &&& (trim(cleaned).len() > 0 && byte_len(cleaned) >= config.min_response_chars ==> {
        if calls.len() > 0 {
            r matches Ok(p) && p.action matches AgentAction::CallTools(cs) && call_views(cs@) == calls
                && p.entities@.len() == 0
        } else if blocks.len() > 0 {
            r matches Ok(p) && p.action matches AgentAction::CompleteTask { task_id, output }
                && task_id@.len() == 0 && output == merged_value(blocks) && p.entities@ == entities_of(output)
        } else if reports_failure(cleaned) {
            r matches Ok(p) && p.action matches AgentAction::FailTask { task_id, error }
                && task_id@.len() == 0 && error@ == error_message(cleaned)
                && p.entities@.len() == 0
        } else if cleaned.contains('?') && likely_question(cleaned) {
            r matches Ok(p) && p.action matches AgentAction::RequestClarification { question }
                && question@ == trim(cleaned) && p.entities@.len() == 0
        } else if retry_count < config.max_retries {
            r matches Err(ParseError::NoJsonFound)
        } else {
            r matches Ok(p) && p.action matches AgentAction::CompleteTask { task_id, output }
                && task_id@.len() == 0 && output == raw_output_value(cleaned) && p.entities@.len() == 0
        }
    })
    &&& (r matches Ok(p) ==> p.raw_text@ == raw && p.parse_success && p.retries_used == retry_count)
}

/// Turns a cleaned response, with the tool calls and JSON blocks extracted
/// from it, into a parsed response or an error: an empty (whitespace only)
/// response, or one shorter than the minimum in bytes, is refused; tool
/// calls come first, then JSON blocks (merged, their `entities` kept), then
/// a failure report, then a question; with neither, a retry is asked for
/// while retries remain, and on the last one the whole text is the output.
pub fn classify_response(
    raw: &str,
    cleaned: &str,
    retry_count: usize,
    config: &ParserConfig,
    tool_calls: Vec<ToolCall>,
    json_blocks: Vec<Value>,
) -> (r: Result<ParsedResponse, ParseError>)
    requires
        cleaned@.len() < usize::MAX,
        4 * cleaned@.len() <= usize::MAX,
    ensures
        classified(r, raw@, cleaned@, retry_count, *config, call_views(tool_calls@), json_blocks@),
{
    let chars = chars_of(cleaned);
    let trimmed = trim_chars(chars.as_slice());
    if trimmed.len() == 0 {
        return Err(ParseError::EmptyResponse);
    }
    let bytes = crate::text::byte_len_of(chars.as_slice());
    if bytes < config.min_response_chars {
        return Err(ParseError::TruncatedResponse(bytes));
    }
    let action: AgentAction;
    let mut entities: Vec<Value> = Vec::new();
    if tool_calls.len() > 0 {
        action = AgentAction::CallTools(tool_calls);
    } else if json_blocks.len() > 0 {
        let output = merge_json_blocks(&json_blocks);
        entities = extract_entities(&output);
        action = AgentAction::CompleteTask { task_id: String::new(), output };
    } else {
        let lower = to_lowercase(cleaned);
        let lc = chars_of(lower.as_str());
        let f = chars_of("fail_task");
        let e = chars_of("error");
        if contains(lc.as_slice(), f.as_slice()) || contains(lc.as_slice(), e.as_slice()) {
            action = AgentAction::FailTask { task_id: String::new(), error: extract_error_message(cleaned) };
        } else if has_char(chars.as_slice(), '?') && is_likely_question(cleaned) {
            action = AgentAction::RequestClarification { question: string_of(trimmed.as_slice()) };
        } else if retry_count < config.max_retries {
            return Err(ParseError::NoJsonFound);
        } else {
            let mut members: Vec<(String, Value)> = Vec::new();
            members.push(("raw_output".to_owned(), json_string(cleaned)));
            proof {
                assert(member_views(members@) =~= seq![("raw_output"@, json_string_value(cleaned@))]);
            }
            action = AgentAction::CompleteTask { task_id: String::new(), output: json_object(members) };
        }
    }
    Ok(ParsedResponse {
        action,
        entities,
        raw_text: raw.to_owned(),
        parse_success: true,
        retries_used: retry_count,
    })
}

/// Parses a model response: more retries than allowed is an error;
/// otherwise the response is cleaned (with auto-fix), its tool calls and
/// JSON blocks are extracted, and it is classified as `classify_response`
/// says.
pub fn parse_response(raw: &str, retry_count: usize, config: &ParserConfig) -> (r: Result<ParsedResponse, ParseError>)
    requires
        4 * raw@.len() <= usize::MAX,
        4 * cleaned_text(raw@, *config).len() <= usize::MAX,
    ensures
        retry_count > config.max_retries ==> (r matches Err(ParseError::MaxRetriesExceeded(m)) && m
            == config.max_retries),
        retry_count <= config.max_retries ==> classified(
            r,
            raw@,
            cleaned_text(raw@, *config),
            retry_count,
            *config,
            kept_calls(cleaned_text(raw@, *config)),
            json_blocks_of(cleaned_text(raw@, *config)),
        ),
{
    if retry_count > config.max_retries {
        return Err(ParseError::MaxRetriesExceeded(config.max_retries));
    }
    let cleaned = if config.auto_fix { apply_common_fixes(raw) } else { raw.to_owned() };
    let calls = extract_tool_calls(cleaned.as_str());
    let blocks = extract_json_blocks(cleaned.as_str());
    classify_response(raw, cleaned.as_str(), retry_count, config, calls, blocks)
}

} // verus!
