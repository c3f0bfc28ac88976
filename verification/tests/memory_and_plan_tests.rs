use omniscient::graph::{causal_query, entity_record_id, record_key};
use omniscient::memory::{Memory, MemoryEntry};
use omniscient::orchestrator::{gap_note, report_title};
use omniscient::research::{parse_plan_steps, plan_from_response, step_outcome, PlanStep};
use omniscient::types::{MemoryType, Role};

fn ids(steps: &[PlanStep]) -> Vec<usize> {
    steps.iter().map(|s| s.id).collect()
}

// ---------------------------------------------------------------- plans

#[test]
fn plan_array_is_read_with_defaults() {
    let response = "Here is the plan:\n[{\"id\": 7, \"description\": \"Find it\", \"tool_name\": \"web_search\", \
                    \"tool_input\": {\"query\": \"rust\"}, \"depends_on\": [1, \"x\", 2]}, \
                    {\"description\": 5}]\nDone.";
    let steps = parse_plan_steps(response);
    assert_eq!(steps.len(), 2);
    assert_eq!(steps[0].id, 7);
    assert_eq!(steps[0].description, "Find it");
    assert_eq!(steps[0].tool_name, "web_search");
    assert_eq!(steps[0].tool_input, "{\"query\":\"rust\"}");
    assert_eq!(steps[0].depends_on, vec![1, 2]);
    // the second element has none of its members usable: defaults, id by position
    assert_eq!(steps[1].id, 2);
    assert_eq!(steps[1].description, "Research step");
    assert_eq!(steps[1].tool_name, "web_search");
    assert_eq!(steps[1].tool_input, "null");
    assert!(steps[1].depends_on.is_empty());
}

#[test]
fn plan_without_array_falls_back() {
    let response = "search for \"rust\" please";
    let steps = parse_plan_steps(response);
    assert_eq!(ids(&steps), vec![1, 2, 3]);
    assert_eq!(steps[0].tool_name, "web_search");
    assert_eq!(steps[0].description, "Search the web for relevant information");
    assert_eq!(steps[0].tool_input, "{\"query\":\"search for \\\"rust\\\" please\"}");
    assert!(steps[0].depends_on.is_empty());
    assert_eq!(steps[1].tool_name, "analyze");
    assert_eq!(steps[1].tool_input, "{\"content\":\"\",\"question\":\"search for \\\"rust\\\" please\"}");
    assert_eq!(steps[1].depends_on, vec![1]);
    assert_eq!(steps[2].tool_name, "synthesize");
    assert_eq!(steps[2].description, "Synthesize findings into a report");
    assert_eq!(steps[2].tool_input, "{\"findings\":[],\"question\":\"search for \\\"rust\\\" please\"}");
    assert_eq!(steps[2].depends_on, vec![2]);
}

#[test]
fn plan_with_broken_array_falls_back() {
    let steps = parse_plan_steps("[not json]");
    assert_eq!(ids(&steps), vec![1, 2, 3]);
    assert_eq!(steps[0].tool_input, "{\"query\":\"[not json]\"}");
}

#[test]
fn plan_with_close_right_before_open_falls_back() {
    // the slice between them is empty, which does not parse
    let steps = parse_plan_steps("][");
    assert_eq!(ids(&steps), vec![1, 2, 3]);
    assert_eq!(steps[0].tool_input, "{\"query\":\"][\"}");
}

#[test]
fn plan_from_answer() {
    let plan = plan_from_response("rust", "[{\"id\": 1, \"tool_name\": \"academic_search\"}]");
    assert_eq!(plan.reasoning, "Research plan for: rust");
    assert_eq!(plan.estimated_duration_secs, Some(60));
    assert_eq!(plan.steps.len(), 1);
    assert_eq!(plan.steps[0].tool_name, "academic_search");
    assert_eq!(plan.steps[0].description, "Research step");
}

#[test]
fn step_outcomes() {
    let ok = step_outcome(Ok("found".to_string()));
    assert!(ok.success);
    assert_eq!(ok.output, "found");
    let err = step_outcome(Err("timeout".to_string()));
    assert!(!err.success);
    assert_eq!(err.output, "Error: timeout");
}

#[test]
fn report_strings() {
    assert_eq!(gap_note("no sources"), "Research gap: no sources");
    assert_eq!(report_title("rust"), "Research Report: rust");
}

// ---------------------------------------------------------------- memory

fn contents(entries: &[&MemoryEntry<u32>]) -> Vec<String> {
    entries.iter().map(|e| e.content.clone()).collect()
}

#[test]
fn short_term_evicts_oldest_first() {
    let mut m: Memory<u32, ()> = Memory::new(3);
    m.remember_short("a".to_string(), 5, 0);
    m.remember_short("b".to_string(), 1, 1);
    m.remember_short("c".to_string(), 2, 2);
    assert_eq!(m.stats().short_term_count, 3);
    m.remember_short("d".to_string(), 9, 3);
    let s = m.stats();
    assert_eq!(s.short_term_count, 3);
    assert_eq!(s.short_term_capacity, 3);
    // "a" was the oldest entry, though the most important of the first three
    assert_eq!(contents(&m.search("")), vec!["d", "c", "b"]);
}

#[test]
fn zero_capacity_keeps_nothing() {
    let mut m: Memory<u32, ()> = Memory::new(0);
    m.remember_short("a".to_string(), 5, 0);
    m.remember_short("b".to_string(), 1, 0);
    assert_eq!(m.stats().short_term_count, 0);
    assert_eq!(m.stats().short_term_capacity, 0);
    assert!(m.search("").is_empty());
}

#[test]
fn search_is_case_insensitive_and_ranked() {
    let mut m: Memory<u32, ()> = Memory::default();
    m.remember_short("Rust is fast".to_string(), 1, 0);
    m.remember_short("Go is simple".to_string(), 8, 0);
    m.remember_short("RUST has traits".to_string(), 4, 0);
    m.remember_short("rust again".to_string(), 4, 0);
    let found = m.search("rUsT");
    assert_eq!(contents(&found), vec!["RUST has traits", "rust again", "Rust is fast"]);
    assert!(found.iter().all(|e| e.memory_type == MemoryType::ShortTerm));
}

#[test]
fn consolidate_promotes_important_entries() {
    let mut m: Memory<u32, ()> = Memory::new(10);
    m.remember_short("low".to_string(), 3, 10);
    m.remember_short("high".to_string(), 9, 11);
    m.remember_short("edge".to_string(), 7, 12);
    m.consolidate(7);
    let s = m.stats();
    assert_eq!(s.short_term_count, 3);
    assert_eq!(s.long_term_count, 2);
    let found = m.search("high");
    assert_eq!(found.len(), 2);
    assert_eq!(found[0].memory_type, MemoryType::ShortTerm);
    assert_eq!(found[1].memory_type, MemoryType::LongTerm);
    assert_eq!(found[1].meta, 11);
    assert_eq!(m.search("edge")[1].rank, 7);
    assert!(m.search("low").len() == 1);
}

#[test]
fn context_summary_lists_most_important() {
    let mut m: Memory<u32, ()> = Memory::new(10);
    m.remember_short("one".to_string(), 1, 0);
    m.remember_short("three".to_string(), 3, 0);
    m.remember_short("two".to_string(), 2, 0);
    assert_eq!(m.context_summary(2), "- three\n- two");
    assert_eq!(m.context_summary(10), "- three\n- two\n- one");
    assert_eq!(m.context_summary(0), "");
}

#[test]
fn working_memory_holds_findings() {
    let mut m: Memory<u32, &str> = Memory::new(1);
    m.add_finding("f1");
    m.add_finding("f2");
    assert_eq!(m.get_findings(), &["f1", "f2"]);
    assert_eq!(m.stats().working_count, 2);
    m.clear_working();
    assert!(m.get_findings().is_empty());
}

// ---------------------------------------------------------------- graph

#[test]
fn graph_record_ids() {
    assert_eq!(record_key("a-b-c"), "a_b_c");
    assert_eq!(entity_record_id("12-ab"), "entity_12_ab");
    assert_eq!(
        causal_query(None),
        "SELECT * FROM graph_edges WHERE (from_node = $id OR to_node = $id) AND reasoning != ''"
    );
    assert_eq!(
        causal_query(Some("CAUSED_BY")),
        "SELECT * FROM graph_edges WHERE (from_node = $id OR to_node = $id) AND reasoning != '' AND edge_type = 'CAUSED_BY'"
    );
}

// ---------------------------------------------------------------- commands

#[test]
fn profile_queries() {
    assert_eq!(
        omniscient::commands::profile_query("Ada Lovelace", "person"),
        "Comprehensive profile of Ada Lovelace: career history, achievements, publications, social presence, connections, and influence"
    );
    assert_eq!(
        omniscient::commands::profile_query("Acme", "company"),
        "Full company analysis of Acme: founding story, leadership, products, technology stack, competitors, financials, news, market position"
    );
    assert!(omniscient::commands::profile_query("Acme", "Person").starts_with("Full company analysis of Acme"));
}

#[test]
fn compare_splits_and_trims() {
    assert_eq!(omniscient::commands::compare_entities(" rust, go ,,zig "), vec!["rust", "go", "", "zig"]);
    assert_eq!(omniscient::commands::compare_entities(""), vec![""]);
    let names = omniscient::commands::compare_entities("a,b");
    assert_eq!(omniscient::text::join(&names, " vs "), "a vs b");
}

#[test]
fn enabled_engines_of_default_config() {
    let web = omniscient::config::WebConfig::default();
    assert_eq!(omniscient::commands::enabled_engines(&web.search_engines), vec!["duckduckgo"]);
}

// ---------------------------------------------------------------- wire formats and text

#[test]
fn anthropic_request_is_split() {
    let msgs = vec![
        (Role::User, "hi".to_string()),
        (Role::System, "be brief".to_string()),
        (Role::Assistant, "hello".to_string()),
        (Role::System, "ignored".to_string()),
        (Role::Tool, "42".to_string()),
    ];
    let (system, turns) = omniscient::llm::anthropic_request_parts(&msgs);
    assert_eq!(system, "be brief");
    assert_eq!(
        turns,
        vec![("user", "hi".to_string()), ("assistant", "hello".to_string()), ("user", "42".to_string())]
    );
    let (none, _) = omniscient::llm::anthropic_request_parts(&vec![(Role::User, "x".to_string())]);
    assert_eq!(none, "");
}

#[test]
fn fallback_plan_quotes_the_answer_as_json() {
    let steps = parse_plan_steps("a\u{1}\"\\\n\t\u{7f}é");
    assert_eq!(steps[0].tool_input, "{\"query\":\"a\\u0001\\\"\\\\\\n\\t\u{7f}é\"}");
}

#[test]
fn clean_text_is_joined_words_and_idempotent() {
    let e = omniscient::extractor::ContentExtractor::new();
    for t in ["  one\ttwo \n\n three  ", "", " \u{2003} ", "a", "x  y\u{a0}z"] {
        let c = e.clean_text(t);
        assert_eq!(c, t.split_whitespace().collect::<Vec<_>>().join(" "));
        assert_eq!(e.clean_text(&c), c);
    }
}

#[test]
fn continuing_stops_at_the_iteration_limit() {
    let limit = omniscient::orchestrator::MAX_ITERATIONS;
    assert!(omniscient::orchestrator::should_continue(true, true, limit - 1, limit));
    assert!(!omniscient::orchestrator::should_continue(true, true, limit, limit));
    assert!(!omniscient::orchestrator::should_continue(false, true, 1, limit));
    assert!(!omniscient::orchestrator::should_continue(true, false, 1, limit));
}
