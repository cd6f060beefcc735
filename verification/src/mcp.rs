//! The agent session over streamable HTTP: finding the JSON-RPC message in
//! a response body (plain JSON or SSE `data:` framing), and judging each
//! step of the session.

use vstd::prelude::*;
use crate::config::{debug_quoted, debug_str};
use crate::prom::split_on;
use crate::text::{
    chars_of, has_prefix, owned, push_decimal, push_str, decimal_digits, string_clone,
    string_of_range, trim_chars, trimmed, starts_with,
};

verus! {

/// What a JSON text says, as the session reads it.
#[derive(Debug)]
pub struct RpcFacts {
    /// It is a JSON-RPC message (it has a `jsonrpc` member).
    pub has_jsonrpc: bool,
    /// It carries an `error` member.
    pub has_error: bool,
    /// Its `result.isError` member, when that is a boolean.
    pub is_error: Option<bool>,
    /// The whole value, re-serialized.
    pub text: String,
    /// Its `result` member, serialized (`null` when absent).
    pub result_text: String,
}

/// The facts of a JSON text (`None` when it does not parse), as
/// `serde_json` reads them: membership of `jsonrpc` and `error`, the
/// `result.isError` flag, and the compact serializations of the value and
/// of its `result`.
pub uninterp spec fn json_facts(text: Seq<char>) -> Option<(bool, bool, Option<bool>, Seq<char>, Seq<char>)>;

/// The view of the facts.
pub open spec fn facts_view(f: RpcFacts) -> (bool, bool, Option<bool>, Seq<char>, Seq<char>) {
    (f.has_jsonrpc, f.has_error, f.is_error, f.text@, f.result_text@)
}

/// `serde_json::from_str::<serde_json::Value>(text)` and what the session
/// reads of the value. The result depends on the text alone; it is named,
/// not stated.
#[verifier::external_body]
fn read_json(text: &str) -> (r: Option<RpcFacts>)
    ensures
        match r {
            Some(f) => json_facts(text@) == Some(facts_view(f)),
            None => json_facts(text@) is None,
        },
{
    let v: serde_json::Value = serde_json::from_str(text).ok()?;
    Some(RpcFacts {
        has_jsonrpc: v.get("jsonrpc").is_some(),
        has_error: v.get("error").is_some(),
        is_error: v["result"]["isError"].as_bool(),
        text: v.to_string(),
        result_text: v["result"].to_string(),
    })
}

/// Is `text` a JSON-RPC message?
pub open spec fn is_rpc(text: Seq<char>) -> bool {
    json_facts(text) matches Some(f) && f.0
}

/// The JSON text an SSE line carries: its `data:` payload, trimmed.
pub open spec fn sse_payload(line: Seq<char>) -> Option<Seq<char>> {
    if has_prefix(line, "data:"@) {
        Some(trimmed(line.skip(5)))
    } else {
        None
    }
}

/// The first line among `lines` whose payload is a JSON-RPC message.
pub open spec fn first_rpc_line(lines: Seq<Seq<char>>) -> Option<Seq<char>>
    decreases lines.len(),
{
    if lines.len() == 0 {
        None
    } else {
        match sse_payload(lines[0]) {
            Some(p) => if is_rpc(p) {
                Some(p)
            } else {
                first_rpc_line(lines.drop_first())
            },
            None => first_rpc_line(lines.drop_first()),
        }
    }
}

/// The JSON-RPC message text of a response body: the body itself when it
/// is one, else the first SSE `data:` line that is.
pub open spec fn rpc_text(body: Seq<char>) -> Option<Seq<char>> {
    if is_rpc(body) {
        Some(body)
    } else {
        first_rpc_line(split_on(body, '\n'))
    }
}

/// The failure when a body holds no JSON-RPC message.
pub open spec fn no_rpc_message(body: Seq<char>) -> Seq<char> {
    "no JSON-RPC message in response body: "@ + debug_str(body)
}

/// The pieces of `body` between newlines.
fn lines_of(body: &str) -> (r: Vec<Vec<char>>)
    ensures
        r@.map_values(|l: Vec<char>| l@) == split_on(body@, '\n'),
{
    let cs = chars_of(body);
    let mut out: Vec<Vec<char>> = Vec::new();
    let mut cur: Vec<char> = Vec::new();
    let mut k: usize = 0;
    assert(cs@.take(0) =~= Seq::<char>::empty());
    while k < cs.len()
        invariant
            k <= cs@.len(),
            split_on(cs@.take(k as int), '\n').len() >= 1,
            cur@ == split_on(cs@.take(k as int), '\n').last(),
            out@.map_values(|l: Vec<char>| l@) == split_on(cs@.take(k as int), '\n').drop_last(),
        decreases cs@.len() - k,
    {
        let ghost before = split_on(cs@.take(k as int), '\n');
        let ghost next = cs@.take(k + 1);
        assert(next.drop_last() =~= cs@.take(k as int));
        assert(next.last() == cs@[k as int]);
        if cs[k] == '\n' {
            assert(split_on(next, '\n') == before.push(Seq::empty()));
            let ghost old_out = out@;
            let done = cur;
            out.push(done);
            proof {
                assert(before.push(Seq::<char>::empty()).drop_last() =~= before);
                assert(before =~= before.drop_last().push(before.last()));
                assert(out@.map_values(|l: Vec<char>| l@) =~= old_out.map_values(|l: Vec<char>| l@).push(
                    before.last(),
                ));
            }
            cur = Vec::new();
        } else {
            let ghost after = before.update(before.len() - 1, before.last().push(cs@[k as int]));
            assert(split_on(next, '\n') == after);
            assert(after.drop_last() =~= before.drop_last());
            cur.push(cs[k]);
        }
        k = k + 1;
    }
    assert(cs@.take(cs@.len() as int) =~= cs@);
    let ghost all = split_on(cs@, '\n');
    let ghost old_out = out@;
    out.push(cur);
    proof {
        assert(all =~= all.drop_last().push(all.last()));
        assert(out@.map_values(|l: Vec<char>| l@) =~= old_out.map_values(|l: Vec<char>| l@).push(
            all.last(),
        ));
    }
    out
}

/// Find the JSON-RPC message in a streamable-HTTP response body.
pub fn rpc_message(body: &str) -> (r: Result<RpcFacts, String>)
    ensures
        match r {
            Ok(f) => rpc_text(body@) matches Some(t) && json_facts(t) == Some(facts_view(f)),
            Err(m) => rpc_text(body@) is None && m@ == no_rpc_message(body@),
        },
{
    match read_json(body) {
        Some(f) => if f.has_jsonrpc {
            return Ok(f);
        },
        None => {},
    }
    let lines = lines_of(body);
    let ghost ls = lines@.map_values(|l: Vec<char>| l@);
    let mut i: usize = 0;
    assert(ls.skip(0) =~= ls);
    while i < lines.len()
        invariant
            i <= lines@.len(),
            ls == lines@.map_values(|l: Vec<char>| l@),
            ls == split_on(body@, '\n'),
            !is_rpc(body@),
            first_rpc_line(ls) == first_rpc_line(ls.skip(i as int)),
        decreases lines@.len() - i,
    {
        let line = &lines[i];
        assert(ls.skip(i as int)[0] == line@);
        assert(ls.skip(i as int).drop_first() =~= ls.skip(i + 1));
        let text = string_of_range(line, 0, line.len());
        assert(text@ =~= line@);
        if starts_with(text.as_str(), "data:") {
            proof {
                reveal_strlit("data:");
            }
            let rest = string_of_range(line, 5, line.len());
            let rest_chars = chars_of(rest.as_str());
            let payload_chars = trim_chars(&rest_chars);
            let payload = crate::text::string_from_chars(&payload_chars);
            assert(rest@ =~= line@.skip(5));
            match read_json(payload.as_str()) {
                Some(f) => if f.has_jsonrpc {
                    return Ok(f);
                },
                None => {},
            }
        }
        i = i + 1;
    }
    let mut m = owned("no JSON-RPC message in response body: ");
    push_str(&mut m, debug_quoted(body).as_str());
    Err(m)
}

/// The failure of one tool call, if any: a non-200 status, a body without
/// a message, a protocol error, or a tool error (`result.isError` is
/// `true`; absent or not a boolean, it is no error).
pub open spec fn tool_failure(tool: Seq<char>, status: u16, body: Seq<char>) -> Option<Seq<char>> {
    if status != 200 {
        Some(tool + ": HTTP "@ + decimal_digits(status as nat) + ": "@ + body)
    } else {
        match rpc_text(body) {
            None => Some(tool + ": "@ + no_rpc_message(body)),
            Some(t) => match json_facts(t) {
                Some(f) => if f.1 {
                    Some(tool + ": protocol error: "@ + f.3)
                } else if f.2 == Some(true) {
                    Some(tool + ": tool error: "@ + f.4)
                } else {
                    None
                },
                None => None,
            },
        }
    }
}

/// A found message (its facts) or why none was found, as plain values.
pub open spec fn reply_view(reply: Result<RpcFacts, String>) -> Result<
    (bool, bool, Option<bool>, Seq<char>, Seq<char>),
    Seq<char>,
> {
    match reply {
        Ok(f) => Ok(facts_view(f)),
        Err(e) => Err(e@),
    }
}

/// The failure a tool call's reply shows, if any: no message, a protocol
/// error (the whole message), or a tool error (its result), which only an
/// `isError` of `true` signals.
pub open spec fn reply_failure(
    tool: Seq<char>,
    reply: Result<(bool, bool, Option<bool>, Seq<char>, Seq<char>), Seq<char>>,
) -> Option<Seq<char>> {
    match reply {
        Err(e) => Some(tool + ": "@ + e),
        Ok(f) => if f.1 {
            Some(tool + ": protocol error: "@ + f.3)
        } else if f.2 == Some(true) {
            Some(tool + ": tool error: "@ + f.4)
        } else {
            None
        },
    }
}

/// Judge the message found in a tool call's 200 response.
pub fn judge_tool_reply(tool: &str, reply: &Result<RpcFacts, String>) -> (r: Result<(), String>)
    ensures
        match r {
            Ok(()) => reply_failure(tool@, reply_view(*reply)) is None,
            Err(m) => reply_failure(tool@, reply_view(*reply)) == Some(m@),
        },
{
    match reply {
        Err(e) => {
            let mut m = owned(tool);
            push_str(&mut m, ": ");
            push_str(&mut m, e.as_str());
            Err(m)
        },
        Ok(f) => {
            if f.has_error {
                let mut m = owned(tool);
                push_str(&mut m, ": protocol error: ");
                push_str(&mut m, f.text.as_str());
                Err(m)
            } else if matches!(f.is_error, Some(true)) {
                let mut m = owned(tool);
                push_str(&mut m, ": tool error: ");
                push_str(&mut m, f.result_text.as_str());
                Err(m)
            } else {
                Ok(())
            }
        },
    }
}

/// Judge one tool call's response.
pub fn check_tool_call(tool: &str, status: u16, body: &str) -> (r: Result<(), String>)
    ensures
        match r {
            Ok(()) => tool_failure(tool@, status, body@) is None,
            Err(m) => tool_failure(tool@, status, body@) == Some(m@),
        },
{
    if status != 200 {
        let mut m = owned(tool);
        push_str(&mut m, ": HTTP ");
        push_decimal(&mut m, status as u64);
        push_str(&mut m, ": ");
        push_str(&mut m, body);
        return Err(m);
    }
    let reply = rpc_message(body);
    assert(reply_failure(tool@, reply_view(reply)) == tool_failure(tool@, status, body@));
    judge_tool_reply(tool, &reply)
}

/// Judge the `initialize` response: it must be a 200 holding a message
/// and name the session.
pub fn check_initialize(status: u16, body: &str, session: Option<String>) -> (r: Result<String, String>)
    ensures
        status != 200 ==> (r matches Err(m) && m@ == "initialize: HTTP "@ + decimal_digits(status as nat) + ": "@ + body@),
        status == 200 && rpc_text(body@) is None ==> (r matches Err(m) && m@ == "initialize: "@ + no_rpc_message(body@)),
        status == 200 && rpc_text(body@) is Some && session is None ==> (r matches Err(m) && m@ == "initialize returned no Mcp-Session-Id"@),
        status == 200 && rpc_text(body@) is Some && session is Some ==> (r matches Ok(s) && s@ == session->0@),
{
    if status != 200 {
        let mut m = owned("initialize: HTTP ");
        push_decimal(&mut m, status as u64);
        push_str(&mut m, ": ");
        push_str(&mut m, body);
        return Err(m);
    }
    match rpc_message(body) {
        Err(e) => {
            let mut m = owned("initialize: ");
            push_str(&mut m, e.as_str());
            return Err(m);
        },
        Ok(_) => {},
    }
    match session {
        Some(s) => Ok(s),
        None => Err(owned("initialize returned no Mcp-Session-Id")),
    }
}

/// Judge the `notifications/initialized` response: it must be a 202.
pub fn check_initialized(status: u16, body: &str) -> (r: Result<(), String>)
    ensures
        status == 202 ==> r is Ok,
        status != 202 ==> (r matches Err(m) && m@ == "notifications/initialized: HTTP "@ + decimal_digits(status as nat) + ": "@ + body@),
{
    if status == 202 {
        return Ok(());
    }
    let mut m = owned("notifications/initialized: HTTP ");
    push_decimal(&mut m, status as u64);
    push_str(&mut m, ": ");
    push_str(&mut m, body);
    Err(m)
}

} // verus!
