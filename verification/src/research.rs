//! The research agent's own logic (the prompts it writes and how it tallies
//! step results) and the multi-agent investigation loop.

use vstd::prelude::*;
use vstd::string::StringExecFns;
use crate::categorizer::{delimited_span, extract_delimited, opt_view, span_is_ordered};
use crate::text::{chars_of, decimal, decimal_of, join, seq_join, starts_with, starts_with_seq, trim, trim_seq};

verus! {

/// The research agent: plans with, and synthesizes through, the model `P`.
pub struct ResearchAgent<P> {
    llm: P,
    name: String,
}

impl<P> ResearchAgent<P> {
    /// The model the agent reasons with.
    pub closed spec fn llm(&self) -> P {
        self.llm
    }

    /// The agent's name.
    pub closed spec fn agent_name(&self) -> Seq<char> {
        self.name@
    }

    /// An agent named `OmniscientResearcher` reasoning with `llm`.
    pub fn new(llm: P) -> (r: Self)
        ensures
            r.llm() == llm,
            r.agent_name() == "OmniscientResearcher"@,
    {
        ResearchAgent { llm, name: "OmniscientResearcher".to_owned() }
    }

    /// The agent's name.
    pub fn name(&self) -> (r: &str)
        ensures
            r@ == self.agent_name(),
    {
        self.name.as_str()
    }

    /// What the agent does.
    pub fn description(&self) -> (r: &'static str)
        ensures
            r@ == "Deep research agent that combines web search, crawling, and LLM analysis for comprehensive research"@,
    {
        "Deep research agent that combines web search, crawling, and LLM analysis for comprehensive research"
    }

    /// The model, for the driver that sends it the prompts.
    pub fn model(&self) -> (r: &P)
        ensures
            *r == self.llm(),
    {
        &self.llm
    }
}

/// Each finding as a `- ` bullet.
pub open spec fn bullets(contents: Seq<Seq<char>>) -> Seq<Seq<char>> {
    contents.map_values(|c: Seq<char>| "- "@ + c)
}

/// The part of the planning prompt that recalls earlier findings: nothing when
/// there are none, otherwise a `Previous findings:` list of bullets.
pub open spec fn planning_context_of(contents: Seq<Seq<char>>) -> Seq<char> {
    if contents.len() == 0 {
        seq![]
    } else {
        "\n\nPrevious findings:\n"@ + seq_join(bullets(contents), "\n"@)
    }
}

/// The user message that asks for a research plan.
pub open spec fn plan_request_of(query: Seq<char>, contents: Seq<Seq<char>>) -> Seq<char> {
    "Create a research plan for: "@ + query + planning_context_of(contents)
}

/// Writes the user message that asks for a research plan, recalling the
/// contents of the findings in working memory.
pub fn plan_request(query: &str, finding_contents: &Vec<String>) -> (r: String)
    ensures
        r@ == plan_request_of(query@, finding_contents@.map_values(|s: String| s@)),
{
    let ghost cs = finding_contents@.map_values(|s: String| s@);
    let mut r = String::from_str("Create a research plan for: ");
    r.append(query);
    if finding_contents.len() > 0 {
        let mut lines: Vec<String> = Vec::new();
        let mut i: usize = 0;
        while i < finding_contents.len()
            invariant
                i <= finding_contents@.len(),
                cs == finding_contents@.map_values(|s: String| s@),
                lines@.map_values(|s: String| s@) == bullets(cs).take(i as int),
            decreases finding_contents.len() - i,
        {
            let mut b = String::from_str("- ");
            b.append(finding_contents[i].as_str());
            let ghost before = lines@;
            lines.push(b);
            assert(lines@.map_values(|s: String| s@) =~= before.map_values(|s: String| s@).push(
                b@,
            ));
            assert(bullets(cs).take(i + 1) =~= bullets(cs).take(i as int).push(b@));
            i = i + 1;
        }
        assert(bullets(cs).take(i as int) =~= bullets(cs));
        r.append("\n\nPrevious findings:\n");
        let joined = join(&lines, "\n");
        r.append(joined.as_str());
    }
    r
}

/// One step of a research plan. `tool_input` holds the step's tool parameters as
/// JSON text.
#[derive(Debug, Clone)]
pub struct PlanStep {
    pub id: usize,
    pub description: String,
    pub tool_name: String,
    pub tool_input: String,
    pub depends_on: Vec<usize>,
}

/// A plan step as plain values: id, description, tool name, tool input, dependencies.
pub open spec fn step_view(s: PlanStep) -> (usize, Seq<char>, Seq<char>, Seq<char>, Seq<usize>) {
    (s.id, s.description@, s.tool_name@, s.tool_input@, s.depends_on@)
}

/// A research plan: its steps, why, and how long it should take.
#[derive(Debug, Clone)]
pub struct AgentPlan {
    pub steps: Vec<PlanStep>,
    pub reasoning: String,
    pub estimated_duration_secs: Option<u64>,
}

/// What is read off one element of a plan written as a JSON array: the `id` when
/// it is an unsigned integer, the `description` and `tool_name` when they are
/// strings, the `tool_input` member as JSON text (`null` when missing), and the
/// `depends_on` array with each element read as an unsigned integer, when it is
/// an array.
pub struct PlanItem {
    pub id: Option<u64>,
    pub description: Option<String>,
    pub tool_name: Option<String>,
    pub tool_input: String,
    pub depends_on: Option<Vec<Option<u64>>>,
}

/// A plan element as plain values.
pub open spec fn plan_item_view(i: PlanItem) -> (
    Option<u64>,
    Option<Seq<char>>,
    Option<Seq<char>>,
    Seq<char>,
    Option<Seq<Option<u64>>>,
) {
    (
        i.id,
        opt_view(i.description),
        opt_view(i.tool_name),
        i.tool_input@,
        match i.depends_on {
            Some(d) => Some(d@),
            None => None,
        },
    )
}

/// The elements read off `text` parsed as a JSON array, or `None` when it does
/// not parse as one.
pub uninterp spec fn plan_items_of(text: Seq<char>) -> Option<
    Seq<(Option<u64>, Option<Seq<char>>, Option<Seq<char>>, Seq<char>, Option<Seq<Option<u64>>>)>,
>;

/// `serde_json::from_str::<Vec<serde_json::Value>>(text)`, with each element's
/// members read off (`as_u64`, `as_str`, `as_array`, and the `tool_input` member
/// written back as JSON text): the claim is only that they are a function of the text.
#[verifier::external_body]
fn parse_plan_json(text: &str) -> (r: Option<Vec<PlanItem>>)
    ensures
        r matches Some(v) ==> plan_items_of(text@) == Some(
            v@.map_values(|i: PlanItem| plan_item_view(i)),
        ),
        r is None ==> plan_items_of(text@) is None,
{
    match serde_json::from_str::<Vec<serde_json::Value>>(text) {
        Ok(steps) => Some(steps.iter().map(|v| PlanItem {
            id: v["id"].as_u64(),
            description: v["description"].as_str().map(|d| d.to_string()),
            tool_name: v["tool_name"].as_str().map(|t| t.to_string()),
            tool_input: v["tool_input"].to_string(),
            depends_on: v["depends_on"].as_array().map(|a| a.iter().map(|d| d.as_u64()).collect()),
        }).collect()),
        Err(_) => None,
    }
}

/// Lower-case hexadecimal digit for `n < 16`.
pub open spec fn hex_lower(n: u32) -> char {
    if n < 10 {
        (48 + n) as char
    } else {
        (87 + n) as char
    }
}

/// How JSON writes one character inside a string: `"` and `\` behind a
/// backslash, backspace, form feed, newline, carriage return and tab as `\b`,
/// `\f`, `\n`, `\r`, `\t`, the other control characters below `U+0020` as
/// `\u00` and two lower-case hexadecimal digits, every other character as it is.
pub open spec fn json_escape_char(c: char) -> Seq<char> {
    if c == '"' {
        seq!['\\', '"']
    } else if c == '\\' {
        seq!['\\', '\\']
    } else if c == '\u{8}' {
        seq!['\\', 'b']
    } else if c == '\u{c}' {
        seq!['\\', 'f']
    } else if c == '\n' {
        seq!['\\', 'n']
    } else if c == '\r' {
        seq!['\\', 'r']
    } else if c == '\t' {
        seq!['\\', 't']
    } else if (c as u32) < 0x20 {
        seq!['\\', 'u', '0', '0', hex_lower((c as u32) / 16), hex_lower((c as u32) % 16)]
    } else {
        seq![c]
    }
}

/// The characters of `s`, each as JSON writes it inside a string.
pub open spec fn json_escaped(s: Seq<char>) -> Seq<char>
    decreases s.len(),
{
    if s.len() == 0 {
        seq![]
    } else {
        json_escaped(s.drop_last()) + json_escape_char(s.last())
    }
}

/// `s` written as a JSON string literal: between double quotes, escaped.
pub open spec fn json_quoted_of(s: Seq<char>) -> Seq<char> {
    seq!['"'] + json_escaped(s) + seq!['"']
}

/// `serde_json::to_string` of a string slice (which cannot fail): a double
/// quote, the characters escaped as serde_json's escape table says (`ser.rs`,
/// `ESCAPE` and `write_char_escape`), and a closing double quote.
#[verifier::external_body]
fn json_quoted(s: &str) -> (r: String)
    ensures
        r@ == json_quoted_of(s@),
{
    serde_json::to_string(s).unwrap_or_default()
}

/// The dependency ids that are present, in order.
pub open spec fn present_ids(ids: Seq<Option<u64>>) -> Seq<usize>
    decreases ids.len(),
{
    if ids.len() == 0 {
        seq![]
    } else {
        let rest = present_ids(ids.drop_last());
        match ids.last() {
            Some(n) => rest.push(n as usize),
            None => rest,
        }
    }
}

/// The step made of the plan element at `index`: a missing id is the position
/// counted from one, a missing description `Research step`, a missing tool
/// `web_search`, missing dependencies none.
pub open spec fn plan_step_of(
    index: int,
    item: (Option<u64>, Option<Seq<char>>, Option<Seq<char>>, Seq<char>, Option<Seq<Option<u64>>>),
) -> (usize, Seq<char>, Seq<char>, Seq<char>, Seq<usize>) {
    (
        match item.0 {
            Some(n) => n as usize,
            None => (index + 1) as usize,
        },
        match item.1 {
            Some(d) => d,
            None => "Research step"@,
        },
        match item.2 {
            Some(t) => t,
            None => "web_search"@,
        },
        item.3,
        match item.4 {
            Some(ids) => present_ids(ids),
            None => seq![],
        },
    )
}

/// The plan used when the answer holds no JSON array: search for the whole
/// answer, analyze, synthesize, each step depending on the one before.
pub open spec fn fallback_plan(response: Seq<char>) -> Seq<
    (usize, Seq<char>, Seq<char>, Seq<char>, Seq<usize>),
> {
    let q = json_quoted_of(response);
    seq![
        (
            1usize,
            "Search the web for relevant information"@,
            "web_search"@,
            "{\"query\":"@ + q + "}"@,
            seq![],
        ),
        (
            2usize,
            "Analyze the search results"@,
            "analyze"@,
            "{\"content\":\"\",\"question\":"@ + q + "}"@,
            seq![1usize],
        ),
        (
            3usize,
            "Synthesize findings into a report"@,
            "synthesize"@,
            "{\"findings\":[],\"question\":"@ + q + "}"@,
            seq![2usize],
        ),
    ]
}

/// The steps of the plan in a model's answer: the elements of the JSON array
/// that runs from its first `[` to its last `]`, or the fallback plan when that
/// does not parse.
pub open spec fn plan_steps_of(response: Seq<char>) -> Seq<
    (usize, Seq<char>, Seq<char>, Seq<char>, Seq<usize>),
> {
    match plan_items_of(delimited_span(response, '[', ']')) {
        Some(items) => Seq::new(items.len(), |i: int| plan_step_of(i, items[i])),
        None => fallback_plan(response),
    }
}

/// The dependency ids of a plan element that are present.
fn present_dependencies(ids: &Vec<Option<u64>>) -> (r: Vec<usize>)
    ensures
        r@ == present_ids(ids@),
{
    let mut r: Vec<usize> = Vec::new();
    let mut i: usize = 0;
    while i < ids.len()
        invariant
            i <= ids@.len(),
            r@ == present_ids(ids@.take(i as int)),
        decreases ids.len() - i,
    {
        assert(ids@.take(i + 1).drop_last() =~= ids@.take(i as int));
        match ids[i] {
            Some(n) => r.push(n as usize),
            None => {},
        }
        i = i + 1;
    }
    assert(ids@.take(i as int) =~= ids@);
    r
}

/// The step made of the plan element at `index`.
fn plan_step(index: usize, item: &PlanItem) -> (s: PlanStep)
    requires
        index < usize::MAX,
    ensures
        step_view(s) == plan_step_of(index as int, plan_item_view(*item)),
{
    let id: usize = match item.id {
        Some(n) => n as usize,
        None => index + 1,
    };
    let description = match &item.description {
        Some(d) => d.clone(),
        None => "Research step".to_owned(),
    };
    let tool_name = match &item.tool_name {
        Some(t) => t.clone(),
        None => "web_search".to_owned(),
    };
    let depends_on = match &item.depends_on {
        Some(ids) => present_dependencies(ids),
        None => Vec::new(),
    };
    PlanStep { id, description, tool_name, tool_input: item.tool_input.clone(), depends_on }
}

/// One step of the fallback plan.
fn fallback_step(
    id: usize,
    description: &str,
    tool_name: &str,
    input_head: &str,
    quoted: &str,
    depends_on: Vec<usize>,
) -> (s: PlanStep)
    ensures
        step_view(s) == (id, description@, tool_name@, input_head@ + quoted@ + "}"@, depends_on@),
{
    let mut input = input_head.to_owned();
    input.append(quoted);
    input.append("}");
    PlanStep {
        id,
        description: description.to_owned(),
        tool_name: tool_name.to_owned(),
        tool_input: input,
        depends_on,
    }
}

/// Reads the plan in a model's answer: each element of the JSON array found
/// between the first `[` and the last `]` becomes a step, with defaults for what
/// is missing; an answer without such an array gets the fallback plan.
pub fn parse_plan_steps(response: &str) -> (r: Vec<PlanStep>)
    requires
        span_is_ordered(response@, '[', ']'),
    ensures
        r@.map_values(|s: PlanStep| step_view(s)) == plan_steps_of(response@),
{
    let json = extract_delimited(response, '[', ']');
    match parse_plan_json(json.as_str()) {
        Some(items) => {
            let ghost iv = items@.map_values(|i: PlanItem| plan_item_view(i));
            let mut steps: Vec<PlanStep> = Vec::new();
            let mut i: usize = 0;
            while i < items.len()
                invariant
                    i <= items@.len(),
                    iv == items@.map_values(|i: PlanItem| plan_item_view(i)),
                    steps@.map_values(|s: PlanStep| step_view(s)) =~= Seq::new(
                        i as nat,
                        |k: int| plan_step_of(k, iv[k]),
                    ),
                decreases items.len() - i,
            {
                let step = plan_step(i, &items[i]);
                let ghost before = steps@;
                steps.push(step);
                assert(steps@.map_values(|s: PlanStep| step_view(s)) =~= before.map_values(
                    |s: PlanStep| step_view(s),
                ).push(step_view(step)));
                i = i + 1;
            }
            steps
        },
        None => {
            let q = json_quoted(response);
            let mut steps: Vec<PlanStep> = Vec::new();
            steps.push(
                fallback_step(
                    1,
                    "Search the web for relevant information",
                    "web_search",
                    "{\"query\":",
                    q.as_str(),
                    Vec::new(),
                ),
            );
            let mut d1: Vec<usize> = Vec::new();
            d1.push(1);
            steps.push(
                fallback_step(
                    2,
                    "Analyze the search results",
                    "analyze",
                    "{\"content\":\"\",\"question\":",
                    q.as_str(),
                    d1,
                ),
            );
            let mut d2: Vec<usize> = Vec::new();
            d2.push(2);
            steps.push(
                fallback_step(
                    3,
                    "Synthesize findings into a report",
                    "synthesize",
                    "{\"findings\":[],\"question\":",
                    q.as_str(),
                    d2,
                ),
            );
            proof {
                reveal_strlit("Search the web for relevant information");
                reveal_strlit("web_search");
                reveal_strlit("{\"query\":");
                reveal_strlit("Analyze the search results");
                reveal_strlit("analyze");
                reveal_strlit("{\"content\":\"\",\"question\":");
                reveal_strlit("Synthesize findings into a report");
                reveal_strlit("synthesize");
                reveal_strlit("{\"findings\":[],\"question\":");
            }
            assert(steps@.map_values(|s: PlanStep| step_view(s)) =~= fallback_plan(response@));
            steps
        },
    }
}

/// The plan an agent makes of a model's answer to its planning request.
pub fn plan_from_response(query: &str, response: &str) -> (r: AgentPlan)
    requires
        span_is_ordered(response@, '[', ']'),
    ensures
        r.steps@.map_values(|s: PlanStep| step_view(s)) == plan_steps_of(response@),
        r.reasoning@ == "Research plan for: "@ + query@,
        r.estimated_duration_secs == Some(60u64),
{
    let steps = parse_plan_steps(response);
    let mut reasoning = String::from_str("Research plan for: ");
    reasoning.append(query);
    AgentPlan { steps, reasoning, estimated_duration_secs: Some(60) }
}

/// The result of one executed step, as the synthesis reads it.
pub struct StepOutcome {
    pub success: bool,
    pub output: String,
}

/// What a step reports from what its tool returned: the tool's text summary on
/// success, the error behind `Error: ` on failure (a failed step asks for
/// follow-up).
pub fn step_outcome(result: Result<String, String>) -> (r: StepOutcome)
    ensures
        match result {
            Ok(summary) => r.success && r.output@ == summary@,
            Err(e) => !r.success && r.output@ == "Error: "@ + e@,
        },
{
    match result {
        Ok(summary) => StepOutcome { success: true, output: summary },
        Err(e) => {
            let mut output = String::from_str("Error: ");
            output.append(e.as_str());
            StepOutcome { success: false, output }
        },
    }
}

/// The `## Finding` sections of the successful steps, in order.
pub open spec fn finding_sections(outcomes: Seq<StepOutcome>) -> Seq<Seq<char>>
    decreases outcomes.len(),
{
    if outcomes.len() == 0 {
        seq![]
    } else {
        let rest = finding_sections(outcomes.drop_last());
        if outcomes.last().success {
            rest.push("## Finding\n"@ + outcomes.last().output@)
        } else {
            rest
        }
    }
}

/// The user message that asks for a synthesis: the findings of the successful
/// steps, then the query (or `Unknown query`).
pub open spec fn synthesis_request_of(outcomes: Seq<StepOutcome>, query: Option<Seq<char>>) -> Seq<
    char,
> {
    "Synthesize these research findings:\n\n"@ + seq_join(finding_sections(outcomes), "\n\n"@)
        + "\n\nQuery: "@ + match query {
        Some(q) => q,
        None => "Unknown query"@,
    }
}

/// Writes the user message that asks for a synthesis of the step results.
pub fn synthesis_request(outcomes: &Vec<StepOutcome>, query: Option<&str>) -> (r: String)
    ensures
        r@ == synthesis_request_of(
            outcomes@,
            match query {
                Some(q) => Some(q@),
                None => None,
            },
        ),
{
    let mut sections: Vec<String> = Vec::new();
    let mut i: usize = 0;
    while i < outcomes.len()
        invariant
            i <= outcomes@.len(),
            sections@.map_values(|s: String| s@) == finding_sections(outcomes@.take(i as int)),
        decreases outcomes.len() - i,
    {
        assert(outcomes@.take(i + 1).drop_last() =~= outcomes@.take(i as int));
        assert(outcomes@.take(i + 1).last() == outcomes@[i as int]);
        if outcomes[i].success {
            let mut s = String::from_str("## Finding\n");
            s.append(outcomes[i].output.as_str());
            let ghost before = sections@;
            sections.push(s);
            assert(sections@.map_values(|s: String| s@) =~= before.map_values(|s: String| s@).push(
                s@,
            ));
        }
        i = i + 1;
    }
    assert(outcomes@.take(i as int) =~= outcomes@);
    let mut r = String::from_str("Synthesize these research findings:\n\n");
    let combined = join(&sections, "\n\n");
    r.append(combined.as_str());
    r.append("\n\nQuery: ");
    match query {
        Some(q) => r.append(q),
        None => r.append("Unknown query"),
    }
    r
}

/// The number of failed steps.
pub open spec fn failed_count(outcomes: Seq<StepOutcome>) -> nat
    decreases outcomes.len(),
{
    if outcomes.len() == 0 {
        0
    } else {
        failed_count(outcomes.drop_last()) + if outcomes.last().success {
            0nat
        } else {
            1nat
        }
    }
}

/// The failed steps are counted exactly: the count is the number of outcomes
/// that did not succeed, so it is zero exactly when every step succeeded and
/// equals the number of steps exactly when every step failed.
pub proof fn lemma_failed_count_counts(outcomes: Seq<StepOutcome>)
    ensures
        failed_count(outcomes) == outcomes.filter(|o: StepOutcome| !o.success).len(),
        failed_count(outcomes) <= outcomes.len(),
        failed_count(outcomes) == 0 <==> forall|i: int| 0 <= i < outcomes.len() ==> (#[trigger] outcomes[i]).success,
        failed_count(outcomes) == outcomes.len() <==> forall|i: int|
            0 <= i < outcomes.len() ==> !(#[trigger] outcomes[i]).success,
    decreases outcomes.len(),
{
    reveal(Seq::filter);
    if outcomes.len() > 0 {
        let t = outcomes.drop_last();
        lemma_failed_count_counts(t);
        assert(outcomes[outcomes.len() - 1] == outcomes.last());
        assert forall|i: int| 0 <= i < t.len() implies t[i] == outcomes[i] by {}
        if failed_count(outcomes) == 0 {
            assert forall|i: int| 0 <= i < outcomes.len() implies (#[trigger] outcomes[i]).success by {
                if i < t.len() {
                    assert(t[i] == outcomes[i]);
                }
            }
        }
        if forall|i: int| 0 <= i < outcomes.len() ==> (#[trigger] outcomes[i]).success {
            assert forall|i: int| 0 <= i < t.len() implies (#[trigger] t[i]).success by {
                assert(t[i] == outcomes[i]);
            }
        }
        if failed_count(outcomes) == outcomes.len() {
            assert forall|i: int| 0 <= i < outcomes.len() implies !(#[trigger] outcomes[i]).success by {
                if i < t.len() {
                    assert(t[i] == outcomes[i]);
                }
            }
        }
        if forall|i: int| 0 <= i < outcomes.len() ==> !(#[trigger] outcomes[i]).success {
            assert forall|i: int| 0 <= i < t.len() implies !(#[trigger] t[i]).success by {
                assert(t[i] == outcomes[i]);
            }
        }
    }
}

/// How a synthesis judges the step results: the research gaps it reports, whether
/// every step succeeded (which decides its confidence), and whether more research
/// is needed (more than half of the steps failed).
pub struct SynthesisTally {
    pub gaps: Vec<String>,
    pub all_succeeded: bool,
    pub needs_more_research: bool,
}

/// Tallies the step results for a synthesis.
pub fn tally_steps(outcomes: &Vec<StepOutcome>) -> (r: SynthesisTally)
    ensures
        r.all_succeeded == (failed_count(outcomes@) == 0),
        r.needs_more_research == (failed_count(outcomes@) > outcomes@.len() / 2),
        failed_count(outcomes@) == 0 ==> r.gaps@.len() == 0,
        failed_count(outcomes@) > 0 ==> r.gaps@.len() == 1 && r.gaps@[0]@ == decimal_of(
            failed_count(outcomes@),
        ) + " research steps failed"@,
{
    let mut failed: usize = 0;
    let mut i: usize = 0;
    while i < outcomes.len()
        invariant
            i <= outcomes@.len(),
            failed == failed_count(outcomes@.take(i as int)),
            failed <= i,
        decreases outcomes.len() - i,
    {
        assert(outcomes@.take(i + 1).drop_last() =~= outcomes@.take(i as int));
        if !outcomes[i].success {
            failed = failed + 1;
        }
        i = i + 1;
    }
    assert(outcomes@.take(i as int) =~= outcomes@);
    let mut gaps: Vec<String> = Vec::new();
    if failed > 0 {
        let mut g = decimal(failed);
        g.append(" research steps failed");
        gaps.push(g);
    }
    SynthesisTally {
        gaps,
        all_succeeded: failed == 0,
        needs_more_research: failed > outcomes.len() / 2,
    }
}

/// An evaluator's answer accepts the findings when, trimmed, it starts with `SUFFICIENT:`.
pub fn is_sufficient(response: &str) -> (b: bool)
    ensures
        b == starts_with_seq(trim_seq(response@), "SUFFICIENT:"@),
{
    let t = trim(&chars_of(response));
    starts_with(&t, &chars_of("SUFFICIENT:"))
}

/// The record of an investigation.
#[derive(Debug, Clone)]
pub struct InvestigationState {
    pub user_query: String,
    pub planner_strategy: String,
    pub scraper_findings: String,
    pub evaluator_feedback: String,
    pub final_report: String,
}

/// The agents of an investigation.
#[derive(Debug, Clone, Copy, PartialEq, Eq, Structural)]
pub enum InvestigationRole {
    Planner,
    Scraper,
    Evaluator,
    Synthesizer,
}

/// What the investigation needs next.
pub enum InvestigationStep {
    /// Send this prompt to this agent and report its answer.
    Prompt(InvestigationRole, String),
    /// The investigation is over.
    Done,
}

/// The number of scrape-and-evaluate rounds at most.
pub const MAX_INVESTIGATION_ROUNDS: usize = 3;

/// The prompt for the planner.
pub open spec fn planner_prompt(query: Seq<char>) -> Seq<char> {
    "Create a research plan for: "@ + query
}

/// The prompt for the scraper.
pub open spec fn scraper_prompt(plan: Seq<char>, findings: Seq<char>) -> Seq<char> {
    "Using this strategy: "@ + plan
        + "\nExecute search to find corporate UBO data or relevant details. Previous findings: "@
        + findings
}

/// The prompt for the evaluator.
pub open spec fn evaluator_prompt(findings: Seq<char>, query: Seq<char>) -> Seq<char> {
    "Evaluate these findings against the goal of piercing the corporate veil: "@ + findings
        + ". Goal: "@ + query
        + ". If sufficient, start response with 'SUFFICIENT:'. Otherwise, suggest what else to scrape."@
}

/// The prompt for the synthesizer.
pub open spec fn synthesizer_prompt(findings: Seq<char>, query: Seq<char>) -> Seq<char> {
    "Synthesize a final report based on these verified findings: "@ + findings + "\nGoal: "@
        + query
}

/// The findings after a scrape in round `round`.
pub open spec fn findings_after(findings: Seq<char>, round: nat, answer: Seq<char>) -> Seq<char> {
    findings + "\nIteration "@ + decimal_of(round) + ": "@ + answer
}

/// Where an investigation stands.
#[derive(Debug, Clone, Copy, PartialEq, Eq, Structural)]
pub enum InvestigationPhase {
    Planning,
    Scraping,
    Evaluating,
    Synthesizing,
    Complete,
}

/// An investigation in progress: plan, then scrape and evaluate until the
/// evaluator is satisfied or the rounds run out, then synthesize.
pub struct Investigation {
    state: InvestigationState,
    rounds: usize,
    sufficient: bool,
    phase: InvestigationPhase,
}

impl Investigation {
    /// The record so far.
    pub closed spec fn record(&self) -> InvestigationState {
        self.state
    }

    /// The scrape rounds begun so far.
    pub closed spec fn rounds(&self) -> nat {
        self.rounds as nat
    }

    /// Whether the evaluator accepted the findings.
    pub closed spec fn sufficient(&self) -> bool {
        self.sufficient
    }

    /// Where the investigation stands.
    pub closed spec fn phase(&self) -> InvestigationPhase {
        self.phase
    }

    /// The record of the investigation.
    pub fn state(&self) -> (r: &InvestigationState)
        ensures
            *r == self.record(),
    {
        &self.state
    }

    /// Starts investigating `query`: the planner is asked first.
    pub fn start(query: &str) -> (r: (Investigation, InvestigationStep))
        ensures
            r.0.record().user_query@ == query@,
            r.0.record().planner_strategy@ == Seq::<char>::empty(),
            r.0.record().scraper_findings@ == Seq::<char>::empty(),
            r.0.record().evaluator_feedback@ == Seq::<char>::empty(),
            r.0.record().final_report@ == Seq::<char>::empty(),
            r.0.rounds() == 0,
            !r.0.sufficient(),
            r.0.phase() == InvestigationPhase::Planning,
            r.1 matches InvestigationStep::Prompt(role, p) && role == InvestigationRole::Planner
                && p@ == planner_prompt(query@),
    {
        let mut prompt = String::from_str("Create a research plan for: ");
        prompt.append(query);
        let state = InvestigationState {
            user_query: query.to_owned(),
            planner_strategy: String::new(),
            scraper_findings: String::new(),
            evaluator_feedback: String::new(),
            final_report: String::new(),
        };
        (
            Investigation { state, rounds: 0, sufficient: false, phase: InvestigationPhase::Planning },
            InvestigationStep::Prompt(InvestigationRole::Planner, prompt),
        )
    }

    /// The next round, or the synthesis when the evaluator is satisfied or the
    /// rounds have run out.
    fn next_round(&mut self) -> (step: InvestigationStep)
        requires
            old(self).rounds() <= MAX_INVESTIGATION_ROUNDS,
        ensures
            final(self).record() == old(self).record(),
            final(self).sufficient() == old(self).sufficient(),
            old(self).rounds() < MAX_INVESTIGATION_ROUNDS && !old(self).sufficient() ==> final(self).rounds() == old(self).rounds() + 1 && final(self).phase()
                == InvestigationPhase::Scraping && (step matches InvestigationStep::Prompt(role, p)
                && role == InvestigationRole::Scraper && p@ == scraper_prompt(
                old(self).record().planner_strategy@,
                old(self).record().scraper_findings@,
            )),
            !(old(self).rounds() < MAX_INVESTIGATION_ROUNDS && !old(self).sufficient()) ==> final(self).rounds() == old(self).rounds() && final(self).phase()
                == InvestigationPhase::Synthesizing && (step matches InvestigationStep::Prompt(
                role,
                p,
            ) && role == InvestigationRole::Synthesizer && p@ == synthesizer_prompt(
                old(self).record().scraper_findings@,
                old(self).record().user_query@,
            )),
    {
        if self.rounds < MAX_INVESTIGATION_ROUNDS && !self.sufficient {
            self.rounds = self.rounds + 1;
            self.phase = InvestigationPhase::Scraping;
            let mut p = String::from_str("Using this strategy: ");
            p.append(self.state.planner_strategy.as_str());
            p.append(
                "\nExecute search to find corporate UBO data or relevant details. Previous findings: ",
            );
            p.append(self.state.scraper_findings.as_str());
            InvestigationStep::Prompt(InvestigationRole::Scraper, p)
        } else {
            self.phase = InvestigationPhase::Synthesizing;
            let mut p = String::from_str("Synthesize a final report based on these verified findings: ");
            p.append(self.state.scraper_findings.as_str());
            p.append("\nGoal: ");
            p.append(self.state.user_query.as_str());
            InvestigationStep::Prompt(InvestigationRole::Synthesizer, p)
        }
    }

    /// Takes the planner's answer: it becomes the strategy, and the first round begins.
    pub fn on_plan(&mut self, answer: String) -> (step: InvestigationStep)
        requires
            old(self).phase() == InvestigationPhase::Planning,
            old(self).rounds() == 0,
            !old(self).sufficient(),
        ensures
            final(self).record() == (InvestigationState {
                planner_strategy: answer,
                ..old(self).record()
            }),
            final(self).rounds() == 1,
            final(self).phase() == InvestigationPhase::Scraping,
            step matches InvestigationStep::Prompt(role, p) && role == InvestigationRole::Scraper
                && p@ == scraper_prompt(answer@, old(self).record().scraper_findings@),
    {
        self.state.planner_strategy = answer;
        self.next_round()
    }

    /// Takes the scraper's answer: it is added to the findings, and the evaluator is asked.
    pub fn on_scrape(&mut self, answer: &str) -> (step: InvestigationStep)
        requires
            old(self).phase() == InvestigationPhase::Scraping,
        ensures
            final(self).record().scraper_findings@ == findings_after(
                old(self).record().scraper_findings@,
                old(self).rounds(),
                answer@,
            ),
            final(self).record().user_query == old(self).record().user_query,
            final(self).record().planner_strategy == old(self).record().planner_strategy,
            final(self).record().evaluator_feedback == old(self).record().evaluator_feedback,
            final(self).record().final_report == old(self).record().final_report,
            final(self).rounds() == old(self).rounds(),
            final(self).sufficient() == old(self).sufficient(),
            final(self).phase() == InvestigationPhase::Evaluating,
            step matches InvestigationStep::Prompt(role, p) && role == InvestigationRole::Evaluator
                && p@ == evaluator_prompt(
                final(self).record().scraper_findings@,
                old(self).record().user_query@,
            ),
    {
        self.state.scraper_findings.append("\nIteration ");
        let n = decimal(self.rounds);
        self.state.scraper_findings.append(n.as_str());
        self.state.scraper_findings.append(": ");
        self.state.scraper_findings.append(answer);
        self.phase = InvestigationPhase::Evaluating;
        let mut p = String::from_str(
            "Evaluate these findings against the goal of piercing the corporate veil: ",
        );
        p.append(self.state.scraper_findings.as_str());
        p.append(". Goal: ");
        p.append(self.state.user_query.as_str());
        p.append(". If sufficient, start response with 'SUFFICIENT:'. Otherwise, suggest what else to scrape.");
        InvestigationStep::Prompt(InvestigationRole::Evaluator, p)
    }

    /// Takes the evaluator's answer: it becomes the feedback; an answer that
    /// starts with `SUFFICIENT:` ends the rounds.
    pub fn on_evaluation(&mut self, answer: String) -> (step: InvestigationStep)
        requires
            old(self).phase() == InvestigationPhase::Evaluating,
            old(self).rounds() <= MAX_INVESTIGATION_ROUNDS,
        ensures
            final(self).record() == (InvestigationState {
                evaluator_feedback: answer,
                ..old(self).record()
            }),
            final(self).sufficient() == (old(self).sufficient() || starts_with_seq(
                answer@,
                "SUFFICIENT:"@,
            )),
            final(self).rounds() <= MAX_INVESTIGATION_ROUNDS,
            (old(self).rounds() < MAX_INVESTIGATION_ROUNDS && !final(self).sufficient()) ==> final(self).rounds() == old(self).rounds() + 1 && final(self).phase()
                == InvestigationPhase::Scraping && (step matches InvestigationStep::Prompt(
                role,
                p,
            ) && role == InvestigationRole::Scraper && p@ == scraper_prompt(
                old(self).record().planner_strategy@,
                old(self).record().scraper_findings@,
            )),
            !(old(self).rounds() < MAX_INVESTIGATION_ROUNDS && !final(self).sufficient()) ==> final(self).rounds() == old(self).rounds() && final(self).phase()
                == InvestigationPhase::Synthesizing && (step matches InvestigationStep::Prompt(
                role,
                p,
            ) && role == InvestigationRole::Synthesizer && p@ == synthesizer_prompt(
                old(self).record().scraper_findings@,
                old(self).record().user_query@,
            )),
    {
        let a = chars_of(answer.as_str());
        if starts_with(&a, &chars_of("SUFFICIENT:")) {
            self.sufficient = true;
        }
        self.state.evaluator_feedback = answer;
        self.next_round()
    }

    /// Takes the synthesizer's answer: it becomes the final report.
    pub fn on_synthesis(&mut self, answer: String) -> (step: InvestigationStep)
        requires
            old(self).phase() == InvestigationPhase::Synthesizing,
        ensures
            final(self).record() == (InvestigationState { final_report: answer, ..old(self).record() }),
            final(self).phase() == InvestigationPhase::Complete,
            step is Done,
    {
        self.state.final_report = answer;
        self.phase = InvestigationPhase::Complete;
        InvestigationStep::Done
    }
}

} // verus!
