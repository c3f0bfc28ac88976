//! What the LLM providers put on the wire that is not I/O: role names, the
//! Ollama address, how a finish reason is read, and the fixed prompts.

use vstd::prelude::*;
use vstd::string::StringExecFns;
use crate::text::{decimal, decimal_of};
use crate::types::Role;

verus! {

/// Why a completion stopped.
#[derive(Debug, Clone, Copy, PartialEq, Eq, Structural)]
pub enum FinishReason {
    Stop,
    ToolCall,
    Length,
}

/// The finish reason an OpenAI answer gives: `tool_calls` and `length` are
/// read as such, anything else (or nothing) as a stop.
pub open spec fn finish_reason_of(reason: Option<Seq<char>>) -> FinishReason {
    match reason {
        Some(r) => if r == "tool_calls"@ {
            FinishReason::ToolCall
        } else if r == "length"@ {
            FinishReason::Length
        } else {
            FinishReason::Stop
        },
        None => FinishReason::Stop,
    }
}

/// Reads the finish reason of an OpenAI answer.
pub fn finish_reason(reason: Option<&str>) -> (r: FinishReason)
    ensures
        r == finish_reason_of(
            match reason {
                Some(s) => Some(s@),
                None => None,
            },
        ),
{
    match reason {
        Some(s) => if crate::text::eq_str(s, "tool_calls") {
            FinishReason::ToolCall
        } else if crate::text::eq_str(s, "length") {
            FinishReason::Length
        } else {
            FinishReason::Stop
        },
        None => FinishReason::Stop,
    }
}

/// The role name in the OpenAI chat format.
pub fn openai_role(role: Role) -> (r: &'static str)
    ensures
        r@ == match role {
            Role::System => "system"@,
            Role::User => "user"@,
            Role::Assistant => "assistant"@,
            Role::Tool => "tool"@,
        },
{
    match role {
        Role::System => "system",
        Role::User => "user",
        Role::Assistant => "assistant",
        Role::Tool => "tool",
    }
}

/// The role name in the Anthropic messages format (system messages travel apart;
/// anything but an assistant message is sent as the user's).
pub fn anthropic_role(role: Role) -> (r: &'static str)
    ensures
        r@ == match role {
            Role::Assistant => "assistant"@,
            _ => "user"@,
        },
{
    match role {
        Role::User => "user",
        Role::Assistant => "assistant",
        _ => "user",
    }
}

/// The system prompt of an Anthropic request: the content of the first system
/// message, or nothing when there is none.
pub open spec fn anthropic_system_of(messages: Seq<(Role, Seq<char>)>) -> Seq<char>
    decreases messages.len(),
{
    if messages.len() == 0 {
        seq![]
    } else if messages[0].0 == Role::System {
        messages[0].1
    } else {
        anthropic_system_of(messages.drop_first())
    }
}

/// The turns of an Anthropic request: every message but the system ones, in
/// order, each with its Anthropic role name.
pub open spec fn anthropic_turns_of(messages: Seq<(Role, Seq<char>)>) -> Seq<(Seq<char>, Seq<char>)>
    decreases messages.len(),
{
    if messages.len() == 0 {
        seq![]
    } else {
        let rest = anthropic_turns_of(messages.drop_last());
        let m = messages.last();
        if m.0 == Role::System {
            rest
        } else {
            rest.push((if m.0 == Role::Assistant { "assistant"@ } else { "user"@ }, m.1))
        }
    }
}

/// A message as plain values.
pub open spec fn message_view(m: (Role, String)) -> (Role, Seq<char>) {
    (m.0, m.1@)
}

/// Splits the messages of a request the Anthropic way: the system prompt apart,
/// the other messages as (role name, content) turns.
pub fn anthropic_request_parts(messages: &Vec<(Role, String)>) -> (r: (String, Vec<(&'static str, String)>))
    ensures
        r.0@ == anthropic_system_of(messages@.map_values(|m: (Role, String)| message_view(m))),
        r.1@.map_values(|t: (&'static str, String)| (t.0@, t.1@)) == anthropic_turns_of(
            messages@.map_values(|m: (Role, String)| message_view(m)),
        ),
{
    let ghost ms = messages@.map_values(|m: (Role, String)| message_view(m));
    let mut system: Option<String> = None;
    let mut turns: Vec<(&'static str, String)> = Vec::new();
    let mut i: usize = 0;
    assert(ms.skip(0) =~= ms);
    while i < messages.len()
        invariant
            i <= messages@.len(),
            ms == messages@.map_values(|m: (Role, String)| message_view(m)),
            turns@.map_values(|t: (&'static str, String)| (t.0@, t.1@)) == anthropic_turns_of(
                ms.take(i as int),
            ),
            match system {
                Some(sys) => anthropic_system_of(ms) == sys@,
                None => anthropic_system_of(ms) == anthropic_system_of(ms.skip(i as int)),
            },
        decreases messages.len() - i,
    {
        let ghost tk = ms.take(i + 1);
        assert(tk.drop_last() =~= ms.take(i as int));
        assert(tk.last() == ms[i as int]);
        assert(ms.skip(i as int).drop_first() =~= ms.skip(i + 1));
        assert(ms.skip(i as int)[0] == ms[i as int]);
        let role = messages[i].0;
        if role == Role::System {
            if system.is_none() {
                system = Some(messages[i].1.clone());
            }
        } else {
            let name = anthropic_role(role);
            let content = messages[i].1.clone();
            let ghost before = turns@;
            turns.push((name, content));
            assert(turns@.map_values(|t: (&'static str, String)| (t.0@, t.1@)) =~= before.map_values(
                |t: (&'static str, String)| (t.0@, t.1@),
            ).push((name@, content@)));
        }
        i = i + 1;
    }
    assert(ms.take(i as int) =~= ms);
    let sys = match system {
        Some(sys) => sys,
        None => {
            assert(ms.skip(i as int) =~= Seq::<(Role, Seq<char>)>::empty());
            String::new()
        },
    };
    (sys, turns)
}

/// The role name in the Ollama chat format (tool messages are sent as the user's).
pub fn ollama_role(role: Role) -> (r: &'static str)
    ensures
        r@ == match role {
            Role::System => "system"@,
            Role::User => "user"@,
            Role::Assistant => "assistant"@,
            Role::Tool => "user"@,
        },
{
    match role {
        Role::System => "system",
        Role::User => "user",
        Role::Assistant => "assistant",
        Role::Tool => "user",
    }
}

/// The address of an Ollama server: `http://<host>:<port>`.
pub fn ollama_base_url(host: &str, port: u16) -> (r: String)
    ensures
        r@ == "http://"@ + host@ + ":"@ + decimal_of(port as nat),
{
    let mut r = String::from_str("http://");
    r.append(host);
    r.append(":");
    let p = decimal(port as usize);
    r.append(p.as_str());
    r
}

/// The user message asking the categorizer about a query.
pub fn categorize_request(query: &str) -> (r: String)
    ensures
        r@ == "Categorize this research query: "@ + query@,
{
    let mut r = String::from_str("Categorize this research query: ");
    r.append(query);
    r
}

/// The reason-act-observe prompt for a query.
pub fn react_prompt(query: &str) -> (r: String)
    ensures
        r@ == "You are an autonomous ReAct agent.\nFollow this format strictly:\nThought: think about what to do\nAction: the action to take (e.g., search Google)\nObservation: the result of the action\n\nBegin!\n\nUser Query: "@
            + query@,
{
    let mut r = String::from_str(
        "You are an autonomous ReAct agent.\nFollow this format strictly:\nThought: think about what to do\nAction: the action to take (e.g., search Google)\nObservation: the result of the action\n\nBegin!\n\nUser Query: ",
    );
    r.append(query);
    r
}

/// The prompt asking an evaluator whether findings establish the ultimate owner.
pub fn evaluation_prompt(query: &str, findings: &str) -> (r: String)
    ensures
        r@ == "Goal: "@ + query@ + "\nFindings:\n"@ + findings@
            + "\n\nEvaluate if these findings are sufficient to establish the UBO."@,
{
    let mut r = String::from_str("Goal: ");
    r.append(query);
    r.append("\nFindings:\n");
    r.append(findings);
    r.append("\n\nEvaluate if these findings are sufficient to establish the UBO.");
    r
}

/// `s` with every space replaced by `+`.
pub open spec fn plus_for_space(s: Seq<char>) -> Seq<char> {
    s.map_values(|c: char| if c == ' ' { '+' } else { c })
}

/// The arXiv API query for a search.
pub fn arxiv_query_url(query: &str, max_results: usize) -> (r: String)
    ensures
        r@ == "http://export.arxiv.org/api/query?search_query=all:"@ + plus_for_space(query@)
            + "&start=0&max_results="@ + decimal_of(max_results as nat),
{
    let v = crate::text::chars_of(query);
    let mut r = String::from_str("http://export.arxiv.org/api/query?search_query=all:");
    let ghost start = r@;
    let mut i: usize = 0;
    while i < v.len()
        invariant
            i <= v@.len(),
            v@ == query@,
            r@ == start + plus_for_space(v@.take(i as int)),
        decreases v.len() - i,
    {
        let c = if v[i] == ' ' {
            '+'
        } else {
            v[i]
        };
        crate::text::push_char(&mut r, c);
        assert(plus_for_space(v@.take(i + 1)) =~= plus_for_space(v@.take(i as int)).push(c));
        i = i + 1;
    }
    assert(v@.take(i as int) =~= v@);
    r.append("&start=0&max_results=");
    let n = decimal(max_results);
    r.append(n.as_str());
    r
}

/// The DuckDuckGo HTML search address for a query.
pub fn ddg_search_url(query: &str) -> (r: String)
    ensures
        r@ == "https://html.duckduckgo.com/html/?q="@ + crate::urlencoding::url_encoded(query@),
{
    let mut r = String::from_str("https://html.duckduckgo.com/html/?q=");
    let e = crate::urlencoding::encode(query);
    r.append(e.as_str());
    r
}

} // verus!
