//! Cleaning and interpretation of raw language-model replies.
//!
//! A reply is trimmed, stripped of a hidden-reasoning block and of markdown
//! fences and backticks, then searched for an embedded JSON tool call.
//! The result is exactly one of a recognized tool invocation or a final
//! string to speak; over-long and empty replies are replaced by fixed
//! fallback messages.

use vstd::prelude::*;
use crate::text::{
    ascii_bytes, bytes_eq, contains_seq, find_first, lit_bytes, matches_at, seq_views,
    slice_range, split_words, starts_with, trim, trim_spec, trim_start, trim_start_spec,
    strip_byte, strip_byte_spec, words_spec,
};

verus! {

/// The index of the first occurrence of `pat` in `s`, if any.
pub open spec fn find_spec(s: Seq<u8>, pat: Seq<u8>) -> Option<int>
    decreases s.len(),
{
    if s.len() < pat.len() {
        None
    } else if s.subrange(0, pat.len() as int) == pat {
        Some(0)
    } else if s.len() == 0 {
        None
    } else {
        match find_spec(s.drop_first(), pat) {
            Some(i) => Some(i + 1),
            None => None,
        }
    }
}

/// `find_spec` returns the first match position, or rules every position
/// out.
pub proof fn lemma_find_spec_props(s: Seq<u8>, pat: Seq<u8>)
    ensures
        match find_spec(s, pat) {
            Some(i) => matches_at(s, pat, i) && forall|j: int| 0 <= j < i ==> !matches_at(
                s,
                pat,
                j,
            ),
            None => forall|j: int| !matches_at(s, pat, j),
        },
    decreases s.len(),
{
    if s.len() < pat.len() {
        assert(forall|j: int| matches_at(s, pat, j) ==> j + pat.len() <= s.len());
    } else if s.subrange(0, pat.len() as int) == pat {
        assert(matches_at(s, pat, 0));
    } else if s.len() == 0 {
        assert(forall|j: int| matches_at(s, pat, j) ==> j == 0);
    } else {
        let t = s.drop_first();
        lemma_find_spec_props(t, pat);
        assert forall|j: int| 0 <= j && matches_at(s, pat, j + 1) implies matches_at(
            t,
            pat,
            j,
        ) by {
            assert(t.subrange(j, j + pat.len() as int) =~= s.subrange(j + 1, j + 1
                + pat.len() as int));
        }
        assert forall|j: int| 0 <= j && matches_at(t, pat, j) implies matches_at(
            s,
            pat,
            j + 1,
        ) by {
            assert(t.subrange(j, j + pat.len() as int) =~= s.subrange(j + 1, j + 1
                + pat.len() as int));
        }
        assert(!matches_at(s, pat, 0));
        match find_spec(t, pat) {
            Some(i) => {
                assert(matches_at(s, pat, i + 1));
                assert forall|j: int| 0 <= j < i + 1 implies !matches_at(s, pat, j) by {
                    if j > 0 {
                        assert(!matches_at(t, pat, j - 1));
                    }
                }
            },
            None => {
                assert forall|j: int| !matches_at(s, pat, j) by {
                    if j > 0 {
                        assert(!matches_at(t, pat, j - 1));
                    }
                }
            },
        }
    }
}

/// The first occurrence of `pat` in `v`, tied to `find_spec`.
pub fn find_pat(v: &Vec<u8>, pat: &Vec<u8>) -> (r: Option<usize>)
    ensures
        match r {
            Some(i) => find_spec(v@, pat@) == Some(i as int) && i + pat@.len() <= v@.len(),
            None => find_spec(v@, pat@) is None,
        },
{
    let r = find_first(v, pat);
    proof {
        lemma_find_spec_props(v@, pat@);
        match r {
            Some(i) => {
                match find_spec(v@, pat@) {
                    Some(k) => {
                        if k < i as int {
                            assert(!matches_at(v@, pat@, k));
                        }
                        if k > i as int {
                            assert(!matches_at(v@, pat@, i as int));
                        }
                    },
                    None => {
                        assert(!matches_at(v@, pat@, i as int));
                    },
                }
            },
            None => {
                match find_spec(v@, pat@) {
                    Some(k) => {
                        assert(contains_seq(v@, pat@)) by {
                            assert(matches_at(v@, pat@, k));
                        }
                    },
                    None => {},
                }
            },
        }
    }
    r
}

/// The hidden-reasoning start marker.
pub open spec fn think_open() -> Seq<u8> {
    ascii_bytes("<think>"@)
}

/// The hidden-reasoning end marker.
pub open spec fn think_close() -> Seq<u8> {
    ascii_bytes("</think>"@)
}

/// The start marker, as bytes.
pub fn think_open_bytes() -> (r: Vec<u8>)
    ensures
        r@ == think_open(),
{
    let s = "<think>";
    proof {
        reveal_strlit("<think>");
    }
    assert(s.is_ascii());
    lit_bytes(s)
}

/// The end marker, as bytes.
pub fn think_close_bytes() -> (r: Vec<u8>)
    ensures
        r@ == think_close(),
{
    let s = "</think>";
    proof {
        reveal_strlit("</think>");
    }
    assert(s.is_ascii());
    lit_bytes(s)
}

/// Positions of the first hidden-reasoning block: the start marker's
/// index and the index of the first end marker after it.
pub open spec fn think_bounds(s: Seq<u8>) -> Option<(int, int)> {
    match find_spec(s, think_open()) {
        None => None,
        Some(i) => match find_spec(s.skip(i + think_open().len() as int), think_close()) {
            None => None,
            Some(d) => Some((i, i + think_open().len() + d)),
        },
    }
}

/// The reply after removing the first hidden-reasoning block: only text
/// after the end marker continues, with leading whitespace dropped.
pub open spec fn strip_think_spec(s: Seq<u8>) -> Seq<u8> {
    match think_bounds(s) {
        None => s,
        Some((i, j)) => trim_start_spec(s.skip(j + think_close().len() as int)),
    }
}

/// The trimmed text enclosed by the hidden-reasoning markers, if present.
pub open spec fn think_text_spec(s: Seq<u8>) -> Option<Seq<u8>> {
    match think_bounds(s) {
        None => None,
        Some((i, j)) => Some(trim_spec(s.subrange(i + think_open().len() as int, j))),
    }
}

/// Remove the first hidden-reasoning block, returning the remaining reply
/// and the enclosed text for the side channel.
pub fn strip_think(v: &Vec<u8>) -> (r: (Vec<u8>, Option<Vec<u8>>))
    ensures
        r.0@ == strip_think_spec(v@),
        match r.1 {
            Some(t) => think_text_spec(v@) == Some(t@),
            None => think_text_spec(v@) is None,
        },
{
    let open = think_open_bytes();
    let close = think_close_bytes();
    let n = v.len();
    match find_pat(v, &open) {
        None => (slice_range(v, 0, n), None),
        Some(i) => {
            let after = slice_range(v, i + open.len(), n);
            proof {
                assert(after@ =~= v@.skip(i + think_open().len() as int));
            }
            match find_pat(&after, &close) {
                None => (slice_range(v, 0, n), None),
                Some(d) => {
                    let j = i + open.len() + d;
                    let think = slice_range(v, i + open.len(), j);
                    let rest = slice_range(v, j + close.len(), n);
                    proof {
                        assert(think_bounds(v@) == Some(
                            (i as int, i + think_open().len() + d as int),
                        ));
                        assert(think@ =~= v@.subrange(i + think_open().len() as int, j as int));
                        assert(rest@ =~= v@.skip(j + think_close().len() as int));
                    }
                    (trim_start(&rest), Some(trim(&think)))
                },
            }
        },
    }
}

/// The marker opening or closing a fenced code block.
pub open spec fn fence_pat() -> Seq<u8> {
    ascii_bytes("```"@)
}

/// The fence marker, as bytes.
pub fn fence_bytes() -> (r: Vec<u8>)
    ensures
        r@ == fence_pat(),
{
    let s = "```";
    proof {
        reveal_strlit("```");
    }
    assert(s.is_ascii());
    lit_bytes(s)
}

/// The lines of `s` when split on newline bytes, with `cur` the partial
/// line read so far. Unlike word splitting, empty lines are kept.
pub open spec fn lines_from(s: Seq<u8>, cur: Seq<u8>) -> Seq<Seq<u8>>
    decreases s.len(),
{
    if s.len() == 0 {
        seq![cur]
    } else if s[0] == 10 {
        seq![cur] + lines_from(s.drop_first(), Seq::empty())
    } else {
        lines_from(s.drop_first(), cur.push(s[0]))
    }
}

/// The lines of `s`, split on newlines.
pub open spec fn lines_spec(s: Seq<u8>) -> Seq<Seq<u8>> {
    lines_from(s, Seq::empty())
}

/// The lines of `v`, split on newlines.
pub fn split_lines(v: &Vec<u8>) -> (r: Vec<Vec<u8>>)
    ensures
        seq_views(r@) == lines_spec(v@),
{
    let n = v.len();
    let mut out: Vec<Vec<u8>> = Vec::new();
    let mut cur: Vec<u8> = Vec::new();
    let mut i: usize = 0;
    proof {
        assert(v@.subrange(0, n as int) =~= v@);
        assert(seq_views(out@) + lines_from(v@, Seq::empty()) =~= lines_from(v@, Seq::empty()));
    }
    while i < n
        invariant
            0 <= i <= n,
            n == v@.len(),
            lines_spec(v@) == seq_views(out@) + lines_from(v@.subrange(i as int, n as int), cur@),
        decreases n - i,
    {
        proof {
            let rest = v@.subrange(i as int, n as int);
            assert(rest.len() > 0 && rest[0] == v@[i as int]);
            assert(rest.drop_first() =~= v@.subrange(i + 1, n as int));
            if v@[i as int] == 10 {
                assert(lines_from(rest, cur@) == seq![cur@] + lines_from(
                    rest.drop_first(),
                    Seq::<u8>::empty(),
                ));
                assert(seq_views(out@.push(cur)) =~= seq_views(out@).push(cur@));
                assert(seq_views(out@) + (seq![cur@] + lines_from(
                    rest.drop_first(),
                    Seq::<u8>::empty(),
                )) =~= seq_views(out@).push(cur@) + lines_from(
                    rest.drop_first(),
                    Seq::<u8>::empty(),
                ));
            } else {
                assert(lines_from(rest, cur@) == lines_from(
                    rest.drop_first(),
                    cur@.push(v@[i as int]),
                ));
            }
        }
        let b = v[i];
        if b == 10 {
            out.push(cur);
            cur = Vec::new();
            proof {
                assert(cur@ =~= Seq::<u8>::empty());
            }
        } else {
            cur.push(b);
        }
        i = i + 1;
    }
    proof {
        assert(v@.subrange(n as int, n as int) =~= Seq::<u8>::empty());
        assert(seq_views(out@.push(cur)) =~= seq_views(out@).push(cur@));
        assert(seq_views(out@) + seq![cur@] =~= seq_views(out@).push(cur@));
    }
    out.push(cur);
    out
}

/// The line with one trailing carriage return removed.
pub open spec fn strip_cr_spec(l: Seq<u8>) -> Seq<u8> {
    if l.len() > 0 && l.last() == 13 {
        l.drop_last()
    } else {
        l
    }
}

/// Copy of `l` with one trailing carriage return removed.
pub fn strip_cr(l: &Vec<u8>) -> (r: Vec<u8>)
    ensures
        r@ == strip_cr_spec(l@),
{
    let n = l.len();
    if n > 0 && l[n - 1] == 13 {
        let r = slice_range(l, 0, n - 1);
        proof {
            assert(l@.subrange(0, n - 1) =~= l@.drop_last());
        }
        r
    } else {
        slice_range(l, 0, n)
    }
}

/// A line that toggles the code fence: after removing the carriage
/// return, its first non-whitespace characters are the fence marker.
pub open spec fn is_fence_line(l: Seq<u8>) -> bool {
    matches_at(trim_start_spec(l), fence_pat(), 0)
}

/// Lines kept outside code fences, joined with newlines; fence-marker
/// lines toggle `in_code` and are dropped, as are lines inside a fence.
pub open spec fn fence_filter(ls: Seq<Seq<u8>>, in_code: bool) -> Seq<u8>
    decreases ls.len(),
{
    if ls.len() == 0 {
        Seq::empty()
    } else {
        let l = strip_cr_spec(ls[0]);
        if is_fence_line(l) {
            fence_filter(ls.drop_first(), !in_code)
        } else if in_code {
            fence_filter(ls.drop_first(), in_code)
        } else {
            l + seq![10u8] + fence_filter(ls.drop_first(), in_code)
        }
    }
}

/// The reply after dropping fenced code blocks: applies only when a fence
/// marker occurs at all, and ends with a full trim.
pub open spec fn strip_fences_spec(s: Seq<u8>) -> Seq<u8> {
    if contains_seq(s, fence_pat()) {
        trim_spec(fence_filter(lines_spec(s), false))
    } else {
        s
    }
}

/// Copy of `v` with fenced code blocks and fence-marker lines removed.
pub fn strip_fences(v: &Vec<u8>) -> (r: Vec<u8>)
    ensures
        r@ == strip_fences_spec(v@),
{
    let fence = fence_bytes();
    match find_pat(v, &fence) {
        None => {
            proof {
                lemma_find_spec_props(v@, fence_pat());
                if contains_seq(v@, fence_pat()) {
                    let j = choose|j: int| matches_at(v@, fence_pat(), j);
                    assert(!matches_at(v@, fence_pat(), j));
                }
            }
            slice_range(v, 0, v.len())
        },
        Some(start) => {
            proof {
                lemma_find_spec_props(v@, fence_pat());
                assert(matches_at(v@, fence_pat(), start as int));
            }
            let lines = split_lines(v);
            let m = lines.len();
            let mut acc: Vec<u8> = Vec::new();
            let mut in_code = false;
            let mut i: usize = 0;
            proof {
                assert(seq_views(lines@).skip(0) =~= seq_views(lines@));
                assert(acc@ + fence_filter(seq_views(lines@), false) =~= fence_filter(
                    seq_views(lines@),
                    false,
                ));
            }
            while i < m
                invariant
                    0 <= i <= m,
                    m == lines@.len(),
                    fence@ == fence_pat(),
                    fence_filter(seq_views(lines@), false) == acc@ + fence_filter(
                        seq_views(lines@).skip(i as int),
                        in_code,
                    ),
                decreases m - i,
            {
                proof {
                    let ls = seq_views(lines@).skip(i as int);
                    assert(ls.len() > 0 && ls[0] == lines@[i as int]@);
                    assert(ls.drop_first() =~= seq_views(lines@).skip(i + 1));
                }
                let line = strip_cr(&lines[i]);
                let lead = trim_start(&line);
                let is_fence = starts_with(&lead, &fence);
                proof {
                    let ls = seq_views(lines@).skip(i as int);
                    let l = strip_cr_spec(ls[0]);
                    assert(line@ == l);
                    assert(is_fence == is_fence_line(l));
                    if is_fence_line(l) {
                        assert(fence_filter(ls, in_code) == fence_filter(
                            ls.drop_first(),
                            !in_code,
                        ));
                    } else if in_code {
                        assert(fence_filter(ls, in_code) == fence_filter(
                            ls.drop_first(),
                            in_code,
                        ));
                    } else {
                        assert(fence_filter(ls, in_code) == l + seq![10u8] + fence_filter(
                            ls.drop_first(),
                            in_code,
                        ));
                    }
                }
                if is_fence {
                    in_code = !in_code;
                } else if !in_code {
                    let ghost acc0 = acc@;
                    crate::text::append_bytes(&mut acc, &line);
                    acc.push(10);
                    proof {
                        let ls = seq_views(lines@).skip(i as int);
                        let l = strip_cr_spec(ls[0]);
                        assert(acc@ =~= acc0 + l + seq![10u8]);
                        assert((acc0 + l + seq![10u8]) + fence_filter(ls.drop_first(), in_code)
                            =~= acc0 + (l + seq![10u8] + fence_filter(ls.drop_first(), in_code)));
                    }
                }
                i = i + 1;
            }
            proof {
                assert(seq_views(lines@).skip(m as int) =~= Seq::<Seq<u8>>::empty());
                assert(acc@ + Seq::<u8>::empty() =~= acc@);
            }
            trim(&acc)
        },
    }
}

/// The JSON key that marks a tool call, quotes included.
pub open spec fn tool_key() -> Seq<u8> {
    ascii_bytes("\"tool\""@)
}

/// The tool key, as bytes.
pub fn tool_key_bytes() -> (r: Vec<u8>)
    ensures
        r@ == tool_key(),
{
    let s = "\"tool\"";
    proof {
        reveal_strlit("\"tool\"");
    }
    assert(s.is_ascii());
    lit_bytes(s)
}

/// The index of the last opening brace strictly before position `t`.
pub open spec fn last_brace_before(s: Seq<u8>, t: int) -> Option<int>
    decreases t,
{
    if t <= 0 || t > s.len() {
        None
    } else if s[t - 1] == 123 {
        Some(t - 1)
    } else {
        last_brace_before(s, t - 1)
    }
}

/// Scanning forward from `i` at nesting `depth`, the index of the brace
/// that brings the nesting back to zero.
pub open spec fn brace_end_from(s: Seq<u8>, i: int, depth: int) -> Option<int>
    decreases s.len() - i,
{
    if i < 0 || i >= s.len() {
        None
    } else if s[i] == 123 {
        brace_end_from(s, i + 1, depth + 1)
    } else if s[i] == 125 {
        if depth == 1 {
            Some(i)
        } else {
            brace_end_from(s, i + 1, depth - 1)
        }
    } else {
        brace_end_from(s, i + 1, depth)
    }
}

/// The last opening brace before `t` in `v`.
fn find_last_brace(v: &Vec<u8>, t: usize) -> (r: Option<usize>)
    requires
        t <= v@.len(),
    ensures
        match r {
            Some(b) => last_brace_before(v@, t as int) == Some(b as int) && b < t
                && v@[b as int] == 123,
            None => last_brace_before(v@, t as int) is None,
        },
{
    let mut k = t;
    while k > 0
        invariant
            0 <= k <= t <= v@.len(),
            last_brace_before(v@, t as int) == last_brace_before(v@, k as int),
        decreases k,
    {
        if v[k - 1] == 123 {
            return Some(k - 1);
        }
        k = k - 1;
    }
    None
}

/// The matching closing brace for the opening brace at `b` in `v`.
fn find_brace_end(v: &Vec<u8>, b: usize) -> (r: Option<usize>)
    requires
        b < v@.len(),
        v@[b as int] == 123,
    ensures
        match r {
            Some(e) => brace_end_from(v@, b as int, 0) == Some(e as int) && b <= e < v@.len(),
            None => brace_end_from(v@, b as int, 0) is None,
        },
{
    let n = v.len();
    let mut i = b + 1;
    let mut depth: usize = 1;
    proof {
        assert(brace_end_from(v@, b as int, 0) == brace_end_from(v@, b + 1, 1));
    }
    while i < n
        invariant
            b + 1 <= i <= n,
            n == v@.len(),
            1 <= depth <= i - b,
            brace_end_from(v@, b as int, 0) == brace_end_from(v@, i as int, depth as int),
        decreases n - i,
    {
        let c = v[i];
        if c == 123 {
            depth = depth + 1;
        } else if c == 125 {
            if depth == 1 {
                return Some(i);
            }
            depth = depth - 1;
        }
        i = i + 1;
    }
    None
}

/// The brace-balanced region around the first occurrence of the tool
/// key: the nearest opening brace before it and its matching closer.
pub open spec fn tool_region(s: Seq<u8>) -> Option<(int, int)> {
    match find_spec(s, tool_key()) {
        None => None,
        Some(t) => match last_brace_before(s, t) {
            None => None,
            Some(b) => match brace_end_from(s, b, 0) {
                None => None,
                Some(e) => Some((b, e)),
            },
        },
    }
}

/// The JSON fields of a tool call: the string under the key `tool` and
/// the string under `command` inside `arguments`, when the bytes parse
/// as a JSON value carrying both.
pub uninterp spec fn tool_fields_of(s: Seq<u8>) -> Option<(Seq<u8>, Seq<u8>)>;

/// Relies on serde_json::from_slice, serde_json::Value::get and
/// serde_json::Value::as_str: whether the bytes parse as JSON with a
/// string field "tool" and a string field "command" under "arguments",
/// and what those two strings are, depend on the bytes alone.
#[verifier::external_body]
fn extract_tool_fields(s: &Vec<u8>) -> (r: Option<(Vec<u8>, Vec<u8>)>)
    ensures
        match r {
            Some(p) => tool_fields_of(s@) == Some((p.0@, p.1@)),
            None => tool_fields_of(s@) is None,
        },
{
    let v: serde_json::Value = match serde_json::from_slice(s.as_slice()) {
        Ok(v) => v,
        Err(_) => return None,
    };
    let name = match v.get("tool").and_then(|t| t.as_str()) {
        Some(t) => t,
        None => return None,
    };
    let cmd = match v.get("arguments").and_then(|a| a.get("command")).and_then(|c| c.as_str()) {
        Some(c) => c,
        None => return None,
    };
    Some((name.as_bytes().to_vec(), cmd.as_bytes().to_vec()))
}

/// The tools the assistant can run.
#[derive(Clone, Copy, PartialEq, Eq, Structural, Debug)]
pub enum ToolName {
    /// Run a raw command through the system shell.
    ShellTask,
    /// Hand an instruction to the code-scaffolding command-line tool.
    CodexCliTask,
}

/// A structured tool invocation extracted from a reply.
pub struct ToolCall {
    /// Which tool to run.
    pub name: ToolName,
    /// The command or instruction handed to it.
    pub command: Vec<u8>,
}

/// What a parsed reply asks for: run a tool, or speak a string.
pub enum Outcome {
    /// A recognized tool invocation.
    Tool(ToolCall),
    /// A final string to speak.
    Speak(Vec<u8>),
}

/// A parsed reply together with hidden-reasoning text for the side
/// channel.
pub struct Parsed {
    /// The tool call or spoken string.
    pub outcome: Outcome,
    /// Text enclosed by the reasoning markers, if any was removed.
    pub hidden: Option<Vec<u8>>,
}

/// The name of the shell tool.
pub open spec fn shell_tool_name() -> Seq<u8> {
    ascii_bytes("shell_task"@)
}

/// The name of the code-scaffolding tool.
pub open spec fn codex_tool_name() -> Seq<u8> {
    ascii_bytes("codex_cli_task"@)
}

/// The tool a JSON tool name denotes, if it is recognized.
pub open spec fn known_tool(n: Seq<u8>) -> Option<ToolName> {
    if n == shell_tool_name() {
        Some(ToolName::ShellTask)
    } else if n == codex_tool_name() {
        Some(ToolName::CodexCliTask)
    } else {
        None
    }
}

/// The tool call carried by the cleaned reply `s`, when the balanced
/// brace region parses to fields naming a recognized tool.
pub open spec fn tool_call_spec(s: Seq<u8>) -> Option<(ToolName, Seq<u8>)> {
    match tool_region(s) {
        None => None,
        Some((b, e)) => match tool_fields_of(s.subrange(b, e + 1)) {
            None => None,
            Some((n, c)) => match known_tool(n) {
                None => None,
                Some(t) => Some((t, c)),
            },
        },
    }
}

/// Turn extracted JSON fields into a tool call; fields naming an
/// unrecognized tool are treated as absent.
pub fn classify_tool(fields: Option<(Vec<u8>, Vec<u8>)>) -> (r: Option<ToolCall>)
    ensures
        match fields {
            None => r is None,
            Some(p) => match known_tool(p.0@) {
                None => r is None,
                Some(t) => r matches Some(tc) && tc.name == t && tc.command@ == p.1@,
            },
        },
{
    match fields {
        None => None,
        Some((name, cmd)) => {
            let shell = {
                let s = "shell_task";
                proof {
                    reveal_strlit("shell_task");
                }
                assert(s.is_ascii());
                lit_bytes(s)
            };
            if bytes_eq(&name, &shell) {
                return Some(ToolCall { name: ToolName::ShellTask, command: cmd });
            }
            let codex = {
                let s = "codex_cli_task";
                proof {
                    reveal_strlit("codex_cli_task");
                }
                assert(s.is_ascii());
                lit_bytes(s)
            };
            if bytes_eq(&name, &codex) {
                return Some(ToolCall { name: ToolName::CodexCliTask, command: cmd });
            }
            None
        },
    }
}

/// Extract the tool call embedded in the cleaned reply `e`, if any.
pub fn extract_tool(e: &Vec<u8>) -> (r: Option<ToolCall>)
    ensures
        match tool_call_spec(e@) {
            None => r is None,
            Some(p) => r matches Some(tc) && tc.name == p.0 && tc.command@ == p.1,
        },
{
    let key = tool_key_bytes();
    match find_pat(e, &key) {
        None => None,
        Some(t) => {
            match find_last_brace(e, t) {
                None => None,
                Some(b) => {
                    match find_brace_end(e, b) {
                        None => None,
                        Some(end) => {
                            let n = e.len();
                            let slice = slice_range(e, b, end + 1);
                            let fields = extract_tool_fields(&slice);
                            proof {
                                assert(slice@ == e@.subrange(b as int, end + 1));
                            }
                            classify_tool(fields)
                        },
                    }
                },
            }
        },
    }
}

/// The fixed reply substituted for an over-long answer.
pub open spec fn clarify_message() -> Seq<u8> {
    ascii_bytes("I'm sorry, I didn't quite understand. Please try again with a simpler command."@)
}

/// The over-long fallback, as bytes.
pub fn clarify_message_bytes() -> (r: Vec<u8>)
    ensures
        r@ == clarify_message(),
{
    let s = "I'm sorry, I didn't quite understand. Please try again with a simpler command.";
    proof {
        reveal_strlit(
            "I'm sorry, I didn't quite understand. Please try again with a simpler command.",
        );
    }
    assert(s.is_ascii());
    lit_bytes(s)
}

/// The fixed reply substituted for an empty answer.
pub open spec fn empty_reply_message() -> Seq<u8> {
    ascii_bytes("I didn't catch that. Could you repeat your command?"@)
}

/// The empty fallback, as bytes.
pub fn empty_reply_message_bytes() -> (r: Vec<u8>)
    ensures
        r@ == empty_reply_message(),
{
    let s = "I didn't catch that. Could you repeat your command?";
    proof {
        reveal_strlit("I didn't catch that. Could you repeat your command?");
    }
    assert(s.is_ascii());
    lit_bytes(s)
}

/// What is spoken when the cleaned reply carries no tool call: the text
/// itself, unless it is over-long (more than 300 bytes or 50 words) or
/// empty, which substitute the fixed fallbacks.
pub open spec fn speak_guard_spec(e: Seq<u8>) -> Seq<u8> {
    if e.len() > 300 || words_spec(e).len() > 50 {
        clarify_message()
    } else if e.len() == 0 {
        empty_reply_message()
    } else {
        e
    }
}

/// The reply after the whole cleaning pipeline: trim, hidden-reasoning
/// strip, fence strip, backtick removal, final trim.
pub open spec fn cleaned_of(s: Seq<u8>) -> Seq<u8> {
    trim_spec(strip_byte_spec(strip_fences_spec(strip_think_spec(trim_spec(s))), 96))
}

/// Parse a raw model reply into exactly one of a recognized tool call or
/// a non-empty string to speak, extracting hidden reasoning on the way.
pub fn parse(raw: &Vec<u8>) -> (r: Parsed)
    ensures
        ({
            let e = cleaned_of(raw@);
            match tool_call_spec(e) {
                Some(p) => r.outcome matches Outcome::Tool(tc) && tc.name == p.0 && tc.command@
                    == p.1,
                None => r.outcome matches Outcome::Speak(m) && m@ == speak_guard_spec(e),
            }
        }),
        match think_text_spec(trim_spec(raw@)) {
            Some(t) => r.hidden matches Some(h) && h@ == t,
            None => r.hidden is None,
        },
{
    let trimmed = trim(raw);
    let (no_think, hidden) = strip_think(&trimmed);
    let no_fence = strip_fences(&no_think);
    let no_tick = strip_byte(&no_fence, 96);
    let e = trim(&no_tick);
    match extract_tool(&e) {
        Some(tc) => Parsed { outcome: Outcome::Tool(tc), hidden },
        None => {
            let words = split_words(&e);
            if e.len() > 300 || words.len() > 50 {
                Parsed { outcome: Outcome::Speak(clarify_message_bytes()), hidden }
            } else if e.len() == 0 {
                Parsed { outcome: Outcome::Speak(empty_reply_message_bytes()), hidden }
            } else {
                Parsed { outcome: Outcome::Speak(e), hidden }
            }
        },
    }
}

/// Law: no dead air. Whatever the cleaned reply was, the string chosen
/// for speaking is never empty: an empty reply is replaced by a fixed
/// message, and the fixed messages are themselves non-empty.
pub proof fn lemma_no_dead_air(e: Seq<u8>)
    ensures
        speak_guard_spec(e).len() > 0,
{
    reveal_strlit(
        "I'm sorry, I didn't quite understand. Please try again with a simpler command.",
    );
    reveal_strlit("I didn't catch that. Could you repeat your command?");
    assert(clarify_message().len() > 0);
    assert(empty_reply_message().len() > 0);
}

/// Law: parsing is idempotent on its own spoken output. When a parse
/// speaks the cleaned text itself (no tool call was found and neither
/// guard replaced it) and no hidden-reasoning pair survived into that
/// text, parsing the spoken text again cleans it to itself, finds the
/// same absence of a tool call, and speaks it unchanged.
pub proof fn lemma_parse_idempotent(s: Seq<u8>)
    requires
        tool_call_spec(cleaned_of(s)) is None,
        speak_guard_spec(cleaned_of(s)) == cleaned_of(s),
        think_bounds(cleaned_of(s)) is None,
    ensures
        cleaned_of(cleaned_of(s)) == cleaned_of(s),
        tool_call_spec(cleaned_of(cleaned_of(s))) is None,
        speak_guard_spec(cleaned_of(cleaned_of(s))) == cleaned_of(s),
{
    let e = cleaned_of(s);
    let ticked = strip_byte_spec(strip_fences_spec(strip_think_spec(trim_spec(s))), 96);
    assert(e == trim_spec(ticked));
    crate::text::lemma_trim_idempotent(ticked);
    assert(trim_spec(e) == e);
    assert(strip_think_spec(e) == e);
    crate::text::lemma_strip_byte_gone(strip_fences_spec(strip_think_spec(trim_spec(s))), 96);
    assert(!crate::text::has_byte(ticked, 96)) by {
        if crate::text::has_byte(ticked, 96) {
            let i = choose|i: int| 0 <= i < ticked.len() && ticked[i] == 96;
            assert(ticked[i] != 96);
        }
    }
    crate::text::lemma_trim_no_byte(ticked, 96);
    assert(!crate::text::has_byte(e, 96));
    assert(!contains_seq(e, fence_pat())) by {
        reveal_strlit("```");
        assert(fence_pat()[0] == 96);
        if contains_seq(e, fence_pat()) {
            let i = choose|i: int| matches_at(e, fence_pat(), i);
            assert(e.subrange(i, i + 3)[0] == fence_pat()[0]);
            assert(e[i] == 96);
            assert(crate::text::has_byte(e, 96));
        }
    }
    assert(strip_fences_spec(e) == e);
    assert(forall|i: int| 0 <= i < e.len() ==> e[i] != 96) by {
        assert(!(exists|i: int| 0 <= i < e.len() && e[i] == 96));
    }
    crate::text::lemma_strip_byte_absent(e, 96);
    assert(strip_byte_spec(e, 96) == e);
    assert(cleaned_of(e) == e);
}

} // verus!
