use omniscient::academic::{extract_href, merge_papers, parse_arxiv_feed, AcademicClient};
use omniscient::categorizer::{
    category_from_name, depth_from_name, extract_delimited, keyword_category, parse_category_response,
    parse_depth, span_ordered, SlmCategorizer,
};
use omniscient::config::{
    data_dir_for_home, join_path, GeneralConfig, KnowledgeConfig, OllamaConfig, ResearchConfig, WebConfig,
};
use omniscient::crawler::{
    count_words, digest_page, next_data_payload, normalize_url, page_text, CrawlConfig, CrawlFrontier,
    CrawlStep,
};
use omniscient::extractor::ContentExtractor;
use omniscient::graph::entity_type_table;
use omniscient::llm::{
    anthropic_role, arxiv_query_url, categorize_request, ddg_search_url, evaluation_prompt, finish_reason,
    ollama_base_url, ollama_role, openai_role, react_prompt, FinishReason,
};
use omniscient::orchestrator::{CycleAction, ResearchCycle, SynthesisVerdict, TodoManager, MAX_ITERATIONS};
use omniscient::research::{
    is_sufficient, plan_request, synthesis_request, tally_steps, Investigation, InvestigationRole,
    InvestigationStep, ResearchAgent, StepOutcome,
};
use omniscient::router::{
    anthropic_capabilities, ollama_capabilities, openai_capabilities, request_tokens, ModelCapabilities,
    ModelRouter, ProviderProfile, ProviderSelection, RouterError, RoutingStrategy, SelectionStep,
};
use omniscient::search::{
    ddg_page_results, ddg_result_link, ddg_results, merge_results, rank_results, DdgRow, SearchClient, SearchResult,
};
use omniscient::taint::{PrincipalChecker, UntrustedValue};
use omniscient::tools::ToolRegistry;
use omniscient::types::{EntityType, ResearchDepth, Role, TaskCategory, TaskStatus};
use omniscient::urlencoding::{decode, encode};

fn result(url: &str, rank: usize) -> SearchResult {
    SearchResult {
        title: format!("title {}", url),
        url: url.to_string(),
        snippet: String::new(),
        source_engine: "test".to_string(),
        rank,
    }
}

// ---------------------------------------------------------------- taint

#[test]
fn verify_string_accepts_plain_text() {
    let v = PrincipalChecker::verify_string(UntrustedValue::new("hello world".to_string()));
    assert_eq!(v.unwrap().into_inner(), "hello world");
}

#[test]
fn verify_string_rejects_script_tag() {
    let v = PrincipalChecker::verify_string(UntrustedValue::new("x<script>alert(1)</script>".to_string()));
    assert!(v.is_none());
}

#[test]
fn verify_string_rejects_path_traversal() {
    assert!(PrincipalChecker::verify_string(UntrustedValue::new("../etc/passwd".to_string())).is_none());
    assert!(PrincipalChecker::verify_string(UntrustedValue::new("a/..b".to_string())).is_some());
}

#[test]
fn verify_findings_keeps_value() {
    let v = PrincipalChecker::verify_findings(UntrustedValue::new(vec![1u32, 2, 3]));
    assert_eq!(v.unwrap().into_inner(), vec![1, 2, 3]);
}

// ---------------------------------------------------------------- url encoding

#[test]
fn encode_space_and_reserved() {
    assert_eq!(encode("hello world"), "hello+world");
    assert_eq!(encode("a+b&c=d"), "a%2Bb%26c%3Dd");
    assert_eq!(encode("A-z_0.9~"), "A-z_0.9~");
    assert_eq!(encode("é"), "%C3%A9");
    assert_eq!(encode(""), "");
}

#[test]
fn decode_escapes() {
    assert_eq!(decode("hello+world").unwrap(), "hello world");
    assert_eq!(decode("%41%42c").unwrap(), "ABc");
    assert_eq!(decode("%2f%2F").unwrap(), "//");
    assert_eq!(decode("%zzx").unwrap(), "x");
    assert_eq!(decode("100%").unwrap(), "100");
    assert_eq!(decode("%4").unwrap(), "\u{4}");
    assert_eq!(decode("%+5").unwrap(), "\u{5}");
}

#[test]
fn decode_undoes_encode_for_ascii() {
    for s in ["a b+c", "100% sure?", "x=1&y=2", "~tilde~", "", "plain"] {
        assert_eq!(decode(&encode(s)).unwrap(), s);
    }
}

#[test]
fn decode_of_encoded_non_ascii_gives_bytes() {
    assert_eq!(decode(&encode("é")).unwrap(), "\u{c3}\u{a9}");
}

// ---------------------------------------------------------------- router

fn local(vram: usize) -> ModelCapabilities {
    ModelCapabilities { is_local: true, vram_requirement_mb: vram, context_window: 8192 }
}

fn api() -> ModelCapabilities {
    ModelCapabilities { is_local: false, vram_requirement_mb: 0, context_window: 128_000 }
}

fn run_selection(strategy: RoutingStrategy, caps: Vec<ModelCapabilities>, tokens: usize, avail: &[bool]) -> (SelectionStep, Vec<usize>) {
    let mut probes = Vec::new();
    let (mut sel, mut step) = ProviderSelection::begin(strategy, caps, tokens);
    loop {
        match step {
            SelectionStep::Probe(i) => {
                probes.push(i);
                step = sel.on_availability(avail[i]);
            }
            other => return (other, probes),
        }
    }
}

#[test]
fn router_no_providers() {
    let (step, probes) = run_selection(RoutingStrategy::Auto, vec![], 10, &[]);
    assert_eq!(step, SelectionStep::Failed(RouterError::NoProvidersConfigured));
    assert!(probes.is_empty());
}

#[test]
fn router_first_available_probes_in_order() {
    let (step, probes) = run_selection(RoutingStrategy::FirstAvailable, vec![api(), local(1000), api()], 0, &[false, true, true]);
    assert_eq!(step, SelectionStep::Selected(1));
    assert_eq!(probes, vec![0, 1]);
}

#[test]
fn router_cheapest_prefers_local_then_any() {
    let (step, _) = run_selection(RoutingStrategy::Cheapest, vec![api(), local(8000)], 0, &[true, true]);
    assert_eq!(step, SelectionStep::Selected(1));
    let (step, probes) = run_selection(RoutingStrategy::Cheapest, vec![api(), local(8000)], 0, &[true, false]);
    assert_eq!(step, SelectionStep::Selected(0));
    assert_eq!(probes, vec![1, 0]);
}

#[test]
fn router_best_quality_only_api() {
    let (step, _) = run_selection(RoutingStrategy::BestQuality, vec![local(10), local(20)], 0, &[true, true]);
    assert_eq!(step, SelectionStep::Failed(RouterError::NoProvidersAvailable));
}

#[test]
fn router_auto_small_request_local_within_vram() {
    let caps = vec![local(4096), api(), local(2048)];
    let (step, probes) = run_selection(RoutingStrategy::Auto, caps.clone(), 100, &[true, true, true]);
    assert_eq!(step, SelectionStep::Selected(2));
    assert_eq!(probes, vec![2]);
    let (step, _) = run_selection(RoutingStrategy::Auto, caps.clone(), 5000, &[true, true, true]);
    assert_eq!(step, SelectionStep::Selected(1));
    let (step, probes) = run_selection(RoutingStrategy::Auto, caps, 100, &[true, false, false]);
    assert_eq!(step, SelectionStep::Selected(0));
    assert_eq!(probes, vec![2, 1, 0]);
}

#[test]
fn model_router_registry() {
    let mut router: ModelRouter<u8> = ModelRouter::new(RoutingStrategy::FirstAvailable);
    router.add_provider(7, ProviderProfile { name: "ollama".into(), model: "llama3.2:3b".into(), capabilities: ollama_capabilities() });
    router.add_provider(9, ProviderProfile { name: "openai".into(), model: "gpt-4o".into(), capabilities: openai_capabilities("gpt-4o") });
    assert_eq!(router.list_providers(), vec![("ollama".to_string(), "llama3.2:3b".to_string()), ("openai".to_string(), "gpt-4o".to_string())]);
    assert_eq!(*router.provider(1), 9);
    let (mut sel, step) = router.begin_selection(10);
    assert_eq!(step, SelectionStep::Probe(0));
    assert_eq!(sel.on_availability(false), SelectionStep::Probe(1));
}

#[test]
fn provider_capabilities() {
    assert_eq!(openai_capabilities("gpt-4-turbo").context_window, 128_000);
    assert_eq!(openai_capabilities("gpt-3.5-turbo").context_window, 16_385);
    assert_eq!(openai_capabilities("o1").context_window, 8_192);
    assert!(!anthropic_capabilities().is_local);
    assert_eq!(anthropic_capabilities().context_window, 200_000);
    assert_eq!(ollama_capabilities().vram_requirement_mb, 4096);
}

#[test]
fn request_tokens_counts_messages() {
    let n = request_tokens(&vec!["hello world".to_string(), "".to_string()]);
    assert_eq!(n, Some(2));
    assert_eq!(request_tokens(&vec![]), Some(0));
    // the special end-of-text marker is one token
    assert_eq!(request_tokens(&vec!["<|endoftext|>".to_string()]), Some(1));
}

#[test]
fn selection_tokens_only_count_under_auto() {
    let texts = vec!["hello world".to_string()];
    let auto: ModelRouter<u8> = ModelRouter::new(RoutingStrategy::Auto);
    assert_eq!(auto.selection_tokens(&texts), Some(2));
    let first: ModelRouter<u8> = ModelRouter::new(RoutingStrategy::FirstAvailable);
    assert_eq!(first.selection_tokens(&texts), Some(0));
}

// ---------------------------------------------------------------- orchestrator

#[test]
fn todo_manager_fifo() {
    let mut t: TodoManager<u32> = TodoManager::new();
    assert!(t.is_empty());
    t.push_plan(vec![1, 2]);
    t.push_plan(vec![3]);
    assert_eq!(t.next_step(), Some(1));
    t.prune();
    assert!(t.is_empty());
    assert_eq!(t.next_step(), None);
}

#[test]
fn research_cycle_runs_plan_then_synthesizes() {
    let (mut c, a) = ResearchCycle::<u32>::start();
    assert!(matches!(a, CycleAction::Plan));
    assert_eq!(c.current_iteration(), 1);
    let a = c.on_plan(Some(vec![10, 20]));
    assert!(matches!(a, CycleAction::Execute(10)));
    let a = c.on_step_done(true);
    assert!(matches!(a, CycleAction::Execute(20)));
    assert_eq!(c.current_iteration(), 2);
    let a = c.on_step_done(false);
    assert!(matches!(a, CycleAction::Synthesize));
    assert!(matches!(c.task_status(), TaskStatus::Synthesizing));
    let a = c.on_synthesis(Some(SynthesisVerdict { prune: false, should_continue: true }));
    assert!(matches!(a, CycleAction::Plan));
    assert_eq!(c.current_iteration(), 3);
    let a = c.on_plan(Some(vec![]));
    assert!(matches!(a, CycleAction::Synthesize));
    let a = c.on_synthesis(Some(SynthesisVerdict { prune: true, should_continue: false }));
    assert!(matches!(a, CycleAction::Finish));
    assert!(matches!(c.task_status(), TaskStatus::Completed));
    assert_eq!(c.steps_completed(), 1);
    assert_eq!(MAX_ITERATIONS, 50);
}

#[test]
fn research_cycle_plan_failure_finishes() {
    let (mut c, _) = ResearchCycle::<u32>::start();
    assert!(matches!(c.on_plan(None), CycleAction::Finish));
}

#[test]
fn research_cycle_synthesis_failure_aborts() {
    let (mut c, _) = ResearchCycle::<u32>::start();
    assert!(matches!(c.on_plan(Some(vec![])), CycleAction::Synthesize));
    assert!(matches!(c.on_synthesis(None), CycleAction::Abort));
}

// ---------------------------------------------------------------- crawler

#[test]
fn normalize_trailing_slashes() {
    assert_eq!(normalize_url("https://a.com///"), "https://a.com");
    assert_eq!(normalize_url("https://a.com/x"), "https://a.com/x");
}

#[test]
fn crawl_config_defaults() {
    let c = CrawlConfig::default();
    assert_eq!(c.max_depth, 3);
    assert_eq!(c.max_pages, 50);
    assert_eq!(c.timeout, std::time::Duration::from_secs(30));
    assert_eq!(c.delay_between_requests, std::time::Duration::from_millis(500));
    assert_eq!(c.max_concurrent, 5);
}

#[test]
fn crawl_frontier_breadth_first() {
    let mut config = CrawlConfig::default();
    config.max_depth = 1;
    config.max_pages = 3;
    let mut f = CrawlFrontier::new(&config, "https://a.com/");
    match f.next() {
        CrawlStep::Fetch(u, d) => {
            assert_eq!(u, "https://a.com");
            assert_eq!(d, 0);
        }
        CrawlStep::Done => panic!("expected a page"),
    }
    f.on_fetched(0, &vec!["https://a.com".to_string(), "https://a.com/x".to_string(), "https://b.com/".to_string()]);
    match f.next() {
        CrawlStep::Fetch(u, d) => {
            assert_eq!(u, "https://a.com/x");
            assert_eq!(d, 1);
        }
        CrawlStep::Done => panic!("expected a page"),
    }
    f.on_fetched(1, &vec!["https://c.com".to_string()]);
    match f.next() {
        CrawlStep::Fetch(u, _) => assert_eq!(u, "https://b.com"),
        CrawlStep::Done => panic!("expected a page"),
    }
    assert!(matches!(f.next(), CrawlStep::Done));
}

#[test]
fn crawl_frontier_recognises_trailing_slash_forms() {
    let mut config = CrawlConfig::default();
    config.max_depth = 2;
    config.max_pages = 5;
    let mut f = CrawlFrontier::new(&config, "https://a.com/");
    assert!(matches!(f.next(), CrawlStep::Fetch(ref u, 0) if u == "https://a.com"));
    f.on_fetched(0, &vec!["https://a.com/".to_string(), "https://a.com//".to_string(), "https://a.com/x/".to_string(), "https://a.com/x".to_string()]);
    match f.next() {
        CrawlStep::Fetch(u, d) => {
            assert_eq!(u, "https://a.com/x");
            assert_eq!(d, 1);
        }
        CrawlStep::Done => panic!("expected a page"),
    }
    assert!(matches!(f.next(), CrawlStep::Done));
}

#[test]
fn crawl_frontier_domain_filter_and_page_limit() {
    let mut config = CrawlConfig::default();
    config.allowed_domains = Some(vec!["example.org".to_string()]);
    config.max_pages = 1;
    let mut f = CrawlFrontier::new(&config, "https://other.com");
    assert!(matches!(f.next(), CrawlStep::Done));
    let mut f = CrawlFrontier::new(&config, "https://www.example.org/a");
    assert!(matches!(f.next(), CrawlStep::Fetch(_, 0)));
    f.on_fetched(0, &vec!["https://www.example.org/b".to_string()]);
    assert!(matches!(f.next(), CrawlStep::Done));
}

#[test]
fn words_are_counted() {
    assert_eq!(count_words("  one two\tthree\n"), 3);
    assert_eq!(count_words(""), 0);
    assert_eq!(count_words("   "), 0);
}

#[test]
fn next_data_is_found() {
    let html = r#"<html><script id="__NEXT_DATA__" type="application/json">{"a": 1}</script></html>"#;
    assert_eq!(next_data_payload(html).unwrap(), r#"{"a": 1}"#);
    assert!(next_data_payload("<html></html>").is_none());
    let text = page_text(html, "visible");
    assert!(text.starts_with("SPA JSON Data:\n"));
    assert!(text.ends_with("\n\nExtracted Visible Text:\nvisible"));
    assert_eq!(page_text("<p>x</p>", "visible"), "visible");
}

#[test]
fn page_digest() {
    let html = "<html><head><title> Hello </title><meta name=\"author\" content=\" Ann \"></head><body><p>This paragraph is clearly longer than twenty bytes.</p><a href=\"/x\">x</a><a href=\"#top\">t</a><a href=\"https://b.org/\">b</a><a href=\"/x\">again</a></body></html>";
    let d = digest_page(html, "https://a.com/dir/page");
    assert_eq!(d.title, "Hello");
    assert_eq!(d.author.as_deref(), Some("Ann"));
    assert_eq!(d.content, "This paragraph is clearly longer than twenty bytes.");
    assert_eq!(d.word_count, 8);
    assert_eq!(d.links, vec!["https://a.com/x".to_string(), "https://b.org/".to_string()]);
}

// ---------------------------------------------------------------- search

#[test]
fn merge_dedups_and_truncates() {
    let merged = merge_results(vec![vec![result("u1", 1), result("u2", 2)], vec![result("u2", 1), result("u3", 2)]], 10);
    let urls: Vec<&str> = merged.iter().map(|r| r.url.as_str()).collect();
    assert_eq!(urls, vec!["u1", "u2", "u3"]);
    assert_eq!(merged[1].rank, 2);
    let merged = merge_results(vec![vec![result("u1", 1), result("u1", 2), result("u2", 3)]], 1);
    assert_eq!(merged.len(), 1);
    assert_eq!(merged[0].url, "u1");
}

#[test]
fn search_client_engines() {
    let mut c: SearchClient<&str> = SearchClient::new();
    assert_eq!(c.engine_count(), 0);
    c.add_engine("duckduckgo");
    c.add_engine("brave");
    assert_eq!(c.engine_count(), 2);
    assert_eq!(*c.engine(1), "brave");
}

#[test]
fn ddg_links_are_decoded() {
    assert_eq!(ddg_result_link("//duckduckgo.com/l/?uddg=https%3A%2F%2Fexample.com%2Fa%20b&rut=x"), "https://example.com/a b");
    assert_eq!(ddg_result_link("/l/?uddg=https%3A%2F%2Fx.org"), "https://x.org");
    assert_eq!(ddg_result_link("https://direct.org"), "https://direct.org");
}

#[test]
fn ddg_rows_become_ranked_results() {
    let rows = vec![
        DdgRow { title: "A".into(), link: "https://a".into(), snippet: "s".into() },
        DdgRow { title: "".into(), link: "https://b".into(), snippet: "".into() },
        DdgRow { title: "C".into(), link: "https://c".into(), snippet: "".into() },
        DdgRow { title: "D".into(), link: "https://d".into(), snippet: "".into() },
    ];
    let r = ddg_results(rows, 3);
    assert_eq!(r.len(), 2);
    assert_eq!(r[0].rank, 1);
    assert_eq!(r[1].title, "C");
    assert_eq!(r[1].rank, 3);
    assert_eq!(r[1].source_engine, "duckduckgo");
}

#[test]
fn ddg_page_is_read() {
    let html = r#"<div class="result"><h2 class="result__title"><a href="//duckduckgo.com/l/?uddg=https%3A%2F%2Fex.com&rut=1"> Example </a></h2><a class="result__snippet"> A snippet </a></div><div class="result"><h2 class="result__title"><a href="https://no-title.org"></a></h2></div>"#;
    let r = ddg_page_results(html, 10);
    assert_eq!(r.len(), 1);
    assert_eq!(r[0].title, "Example");
    assert_eq!(r[0].url, "https://ex.com");
    assert_eq!(r[0].snippet, "A snippet");
    assert_eq!(r[0].rank, 1);
}

#[test]
fn ddg_title_text_nodes_are_joined() {
    let html = r#"<div class="result"><h2 class="result__title"><a href="https://a.org"> Rust <b>lang</b> </a><a href="https://second.org">Other</a></h2><div class="result__snippet">one <i>two</i></div></div>"#;
    let r = ddg_page_results(html, 10);
    assert_eq!(r.len(), 1);
    assert_eq!(r[0].title, "Rust lang");
    assert_eq!(r[0].url, "https://a.org");
    assert_eq!(r[0].snippet, "one two");
}

#[test]
fn ddg_page_without_results_is_empty() {
    assert!(ddg_page_results("<html><body><p>nothing</p></body></html>", 10).is_empty());
}

#[test]
fn engine_items_are_limited_and_ranked() {
    let items: Vec<(String, String, String)> = vec![
        ("A".into(), "https://a".into(), "sa".into()),
        ("B".into(), "https://b".into(), "sb".into()),
        ("C".into(), "https://c".into(), "sc".into()),
    ];
    let r = rank_results(&items, Some(2), "serper");
    assert_eq!(r.len(), 2);
    assert_eq!(r[0].title, "A");
    assert_eq!(r[1].url, "https://b");
    assert_eq!(r[1].snippet, "sb");
    assert_eq!(r[1].rank, 2);
    assert_eq!(r[0].source_engine, "serper");
    let all = rank_results(&items, None, "brave");
    assert_eq!(all.len(), 3);
    assert_eq!(all[2].rank, 3);
    assert_eq!(rank_results(&items, Some(10), "searxng").len(), 3);
    assert!(rank_results(&items, Some(0), "searxng").is_empty());
}

// ---------------------------------------------------------------- academic

#[test]
fn href_extraction() {
    assert_eq!(extract_href(r#"<link href="http://x/y" rel="alternate"/>"#).unwrap(), "http://x/y");
    assert!(extract_href(r#"<link href="unclosed"#).is_none());
    assert!(extract_href("<link/>").is_none());
}

#[test]
fn arxiv_feed_is_read() {
    let xml = "<feed>\n<entry>\n  <title>Paper One</title>\n  <summary>About it</summary>\n  <author>\n    <name>Ada</name>\n  </author>\n  <author><name>Bob</name></author>\n  <link href=\"http://arxiv.org/abs/1\" rel=\"alternate\" type=\"text/html\"/>\n  <link title=\"pdf\" href=\"http://arxiv.org/pdf/1\" rel=\"related\"/>\n</entry>\r\n<entry>\n<summary>no title</summary>\n</entry>\n</feed>\n";
    let papers = parse_arxiv_feed(xml);
    assert_eq!(papers.len(), 1);
    let p = &papers[0];
    assert_eq!(p.title, "Paper One");
    assert_eq!(p.abstract_text, "About it");
    // only the name tags are stripped from a line, as the feed reader does
    assert_eq!(p.authors, vec!["Ada".to_string(), "<author>Bob</author>".to_string()]);
    assert_eq!(p.url, "http://arxiv.org/abs/1");
    assert_eq!(p.pdf_url.as_deref(), Some("http://arxiv.org/pdf/1"));
    assert_eq!(p.source, "arxiv");
    assert!(p.year.is_none());
}

#[test]
fn academic_client_sources() {
    let c: AcademicClient<&str> = AcademicClient::default_client("arxiv", "semantic_scholar");
    assert_eq!(c.source_count(), 2);
    assert_eq!(*c.source(0), "arxiv");
    let mut c2: AcademicClient<u8> = AcademicClient::new();
    c2.add_source(4);
    assert_eq!(c2.source_count(), 1);
    assert!(merge_papers(vec![vec![], vec![]]).is_empty());
}

// ---------------------------------------------------------------- categorizer

#[test]
fn keyword_categories() {
    assert_eq!(keyword_category("Tesla Company overview"), TaskCategory::CompanyResearch);
    assert_eq!(keyword_category("Who is Karpathy"), TaskCategory::PersonResearch);
    assert_eq!(keyword_category("Rust programming"), TaskCategory::TechnologyAnalysis);
    assert_eq!(keyword_category("EV market trends"), TaskCategory::MarketAnalysis);
    assert_eq!(keyword_category("React versus Vue"), TaskCategory::CompetitiveIntelligence);
    assert_eq!(keyword_category("How does a GPU work"), TaskCategory::ReverseEngineering);
    assert_eq!(keyword_category("capital of France"), TaskCategory::GeneralKnowledge);
}

#[test]
fn names_to_categories_and_depths() {
    assert_eq!(category_from_name(&Some("FactChecking".into())), TaskCategory::FactChecking);
    assert_eq!(category_from_name(&Some("nonsense".into())), TaskCategory::GeneralKnowledge);
    assert_eq!(category_from_name(&None), TaskCategory::GeneralKnowledge);
    assert_eq!(depth_from_name(&Some("Deep".into())), ResearchDepth::Deep);
    assert_eq!(depth_from_name(&None), ResearchDepth::Standard);
    assert_eq!(parse_depth("QUICK"), ResearchDepth::Quick);
    assert_eq!(parse_depth("e"), ResearchDepth::Exhaustive);
    assert_eq!(parse_depth("whatever"), ResearchDepth::Standard);
}

#[test]
fn json_span_is_cut() {
    assert_eq!(extract_delimited("Sure: {\"a\": {\"b\": 1}} done", '{', '}'), "{\"a\": {\"b\": 1}}");
    assert_eq!(extract_delimited("no json", '{', '}'), "no json");
    assert!(span_ordered("x { y } z", '{', '}'));
    assert!(!span_ordered("} then {", '{', '}'));
    // a closing brace right before the opening one leaves an empty span
    assert!(span_ordered("}{", '{', '}'));
    assert_eq!(extract_delimited("}{", '{', '}'), "");
    let c = parse_category_response("}{", "a startup");
    assert!(!c.from_model);
    assert_eq!(c.category, TaskCategory::CompanyResearch);
}

#[test]
fn unreachable_model_falls_back_to_keywords() {
    let c = omniscient::categorizer::categorize_answer(None, "Compare Go versus Rust");
    assert!(!c.from_model);
    assert_eq!(c.category, TaskCategory::CompetitiveIntelligence);
    assert_eq!(c.suggested_depth, ResearchDepth::Standard);
    assert_eq!(c.suggested_tools, vec!["web_search".to_string(), "web_crawl".to_string()]);
    let m = omniscient::categorizer::categorize_answer(Some("{\"category\": \"FactChecking\"}"), "q");
    assert!(m.from_model);
    assert_eq!(m.category, TaskCategory::FactChecking);
}

#[test]
fn category_response_is_read() {
    let c = parse_category_response(
        "Here: {\"category\": \"MarketAnalysis\", \"confidence\": 0.9, \"depth\": \"Quick\", \"tools\": [\"web_search\", 3, \"academic_search\"]}",
        "q",
    );
    assert_eq!(c.category, TaskCategory::MarketAnalysis);
    assert_eq!(c.suggested_depth, ResearchDepth::Quick);
    assert_eq!(c.suggested_tools, vec!["web_search".to_string(), "academic_search".to_string()]);
    assert!(c.from_model);
    let f = parse_category_response("not json at all", "a startup");
    assert_eq!(f.category, TaskCategory::CompanyResearch);
    assert_eq!(f.suggested_depth, ResearchDepth::Standard);
    assert_eq!(f.suggested_tools, vec!["web_search".to_string(), "web_crawl".to_string()]);
    assert!(!f.from_model);
}

#[test]
fn categorizer_keeps_provider() {
    let c = SlmCategorizer::new(5u8);
    assert_eq!(*c.model(), 5);
}

// ---------------------------------------------------------------- extractor

#[test]
fn extractor_title_fallbacks() {
    let e = ContentExtractor::new();
    assert_eq!(e.extract_title("<title>  T  </title><h1>H</h1>"), "T");
    assert_eq!(e.extract_title("<title> </title><h1> H </h1>"), "H");
    assert_eq!(e.extract_title("<meta property=\"og:title\" content=\"OG\">"), "OG");
    assert_eq!(e.extract_title("<p>nothing</p>"), "Untitled");
}

#[test]
fn extractor_clean_text() {
    let e = ContentExtractor::new();
    assert_eq!(e.clean_text("  a \n\n b\t c  "), "a b c");
    assert_eq!(e.clean_text(""), "");
}

#[test]
fn extractor_clean_text_unicode_whitespace() {
    let e = ContentExtractor::new();
    assert_eq!(e.clean_text("\u{a0}x\u{2003}\u{2003}y\u{3000}"), "x y");
    assert_eq!(e.clean_text(" \n\r\n "), "");
}

#[test]
fn extractor_markdown_and_headings() {
    let e = ContentExtractor::new();
    let html = "<h2>Two</h2><h1>One</h1><p>short</p><p>a paragraph of more than twenty bytes</p><ul><li>item</li></ul>";
    assert_eq!(e.html_to_markdown(html), "# One\n\n## Two\n\na paragraph of more than twenty bytes\n\n- item\n");
    assert_eq!(e.extract_headings(html), vec!["One".to_string(), "Two".to_string()]);
    let c = e.extract(html, "https://x");
    assert_eq!(c.clean_text, "a paragraph of more than twenty bytes");
    assert!(c.author.is_none());
}

#[test]
fn extractor_main_container() {
    let e = ContentExtractor::new();
    let long = "word ".repeat(30);
    let html = format!("<article><p>{}</p></article><p>this other paragraph is long enough</p>", long);
    assert_eq!(e.extract_main_content(&html), long.trim());
    let desc = e.extract("<meta property=\"og:description\" content=\"D\">", "u");
    assert_eq!(desc.description.as_deref(), Some("D"));
}

#[test]
fn extractor_links() {
    let e = ContentExtractor::new();
    let links = e.extract_links("<a href=\"mailto:x@y\">m</a><a href=\"javascript:void(0)\">j</a><a href=\"page\">p</a><a href=\"http://z.org\">z</a>", "https://h.com/a/");
    assert_eq!(links, vec!["https://h.com/a/page".to_string(), "http://z.org".to_string()]);
}

// ---------------------------------------------------------------- config

#[test]
fn config_defaults() {
    let dir = data_dir_for_home("/home/u");
    assert_eq!(dir, "/home/u/.omniscient");
    assert_eq!(join_path("/tmp/", "x"), "/tmp/x");
    assert_eq!(join_path("", "x"), "x");
    let g = GeneralConfig::default_in(&dir);
    assert_eq!(g.max_concurrency, 10);
    assert_eq!(g.log_level, "info");
    let k = KnowledgeConfig::default_in(&dir);
    assert_eq!(k.index_dir, "/home/u/.omniscient/index");
    assert_eq!(k.db_path.as_deref(), Some("/home/u/.omniscient/db"));
    let r = ResearchConfig::default_in(&dir);
    assert_eq!(r.output_dir, "/home/u/.omniscient/reports");
    assert_eq!(r.max_sources, 20);
    let w = WebConfig::default();
    assert_eq!(w.search_engines.len(), 3);
    assert!(w.search_engines[0].enabled);
    assert_eq!(w.search_engines[2].base_url.as_deref(), Some("http://localhost:8888"));
    let o = OllamaConfig::default_local();
    assert_eq!(o.port, 11434);
}

// ---------------------------------------------------------------- research

#[test]
fn agent_identity() {
    let a = ResearchAgent::new(1u8);
    assert_eq!(a.name(), "OmniscientResearcher");
    assert!(a.description().starts_with("Deep research agent"));
}

#[test]
fn plan_request_recalls_findings() {
    assert_eq!(plan_request("q", &vec![]), "Create a research plan for: q");
    assert_eq!(
        plan_request("q", &vec!["a".to_string(), "b".to_string()]),
        "Create a research plan for: q\n\nPrevious findings:\n- a\n- b"
    );
}

#[test]
fn synthesis_request_and_tally() {
    let outcomes = vec![
        StepOutcome { success: true, output: "one".into() },
        StepOutcome { success: false, output: "Error: x".into() },
        StepOutcome { success: true, output: "two".into() },
    ];
    assert_eq!(
        synthesis_request(&outcomes, Some("q")),
        "Synthesize these research findings:\n\n## Finding\none\n\n## Finding\ntwo\n\nQuery: q"
    );
    assert!(synthesis_request(&vec![], None).ends_with("Query: Unknown query"));
    let t = tally_steps(&outcomes);
    assert_eq!(t.gaps, vec!["1 research steps failed".to_string()]);
    assert!(!t.all_succeeded);
    assert!(!t.needs_more_research);
    let t = tally_steps(&vec![StepOutcome { success: false, output: String::new() }]);
    assert!(t.needs_more_research);
    assert!(tally_steps(&vec![]).gaps.is_empty());
}

#[test]
fn sufficiency() {
    assert!(is_sufficient("  SUFFICIENT: owner is X"));
    assert!(!is_sufficient("Not yet SUFFICIENT:"));
}

#[test]
fn investigation_rounds() {
    let (mut inv, step) = Investigation::start("find owner");
    match step {
        InvestigationStep::Prompt(InvestigationRole::Planner, p) => assert_eq!(p, "Create a research plan for: find owner"),
        _ => panic!("planner first"),
    }
    match inv.on_plan("PLAN".to_string()) {
        InvestigationStep::Prompt(InvestigationRole::Scraper, p) => {
            assert_eq!(p, "Using this strategy: PLAN\nExecute search to find corporate UBO data or relevant details. Previous findings: ")
        }
        _ => panic!("scraper next"),
    }
    assert!(matches!(inv.on_scrape("found A"), InvestigationStep::Prompt(InvestigationRole::Evaluator, _)));
    assert_eq!(inv.state().scraper_findings, "\nIteration 1: found A");
    assert!(matches!(inv.on_evaluation("more".to_string()), InvestigationStep::Prompt(InvestigationRole::Scraper, _)));
    inv.on_scrape("found B");
    match inv.on_evaluation("SUFFICIENT: done".to_string()) {
        InvestigationStep::Prompt(InvestigationRole::Synthesizer, p) => {
            assert_eq!(p, "Synthesize a final report based on these verified findings: \nIteration 1: found A\nIteration 2: found B\nGoal: find owner")
        }
        _ => panic!("synthesizer next"),
    }
    assert!(matches!(inv.on_synthesis("REPORT".to_string()), InvestigationStep::Done));
    assert_eq!(inv.state().final_report, "REPORT");
    assert_eq!(inv.state().evaluator_feedback, "SUFFICIENT: done");
}

#[test]
fn investigation_stops_after_three_rounds() {
    let (mut inv, _) = Investigation::start("q");
    inv.on_plan("p".to_string());
    for _ in 0..2 {
        inv.on_scrape("x");
        assert!(matches!(inv.on_evaluation("no".to_string()), InvestigationStep::Prompt(InvestigationRole::Scraper, _)));
    }
    inv.on_scrape("x");
    assert!(matches!(inv.on_evaluation("no".to_string()), InvestigationStep::Prompt(InvestigationRole::Synthesizer, _)));
}

// ---------------------------------------------------------------- tools, llm, graph

#[test]
fn tool_registry_register_and_get() {
    let mut r: ToolRegistry<u32> = ToolRegistry::new();
    r.register("web_search", 1);
    r.register("web_crawl", 2);
    r.register("web_search", 3);
    assert_eq!(r.get("web_search"), Some(&3));
    assert_eq!(r.get("missing"), None);
    assert_eq!(r.count(), 2);
    assert_eq!(r.list(), vec!["web_search".to_string(), "web_crawl".to_string()]);
}

#[test]
fn llm_wire_details() {
    assert_eq!(finish_reason(Some("tool_calls")), FinishReason::ToolCall);
    assert_eq!(finish_reason(Some("length")), FinishReason::Length);
    assert_eq!(finish_reason(Some("stop")), FinishReason::Stop);
    assert_eq!(finish_reason(None), FinishReason::Stop);
    assert_eq!(openai_role(Role::Tool), "tool");
    assert_eq!(anthropic_role(Role::System), "user");
    assert_eq!(ollama_role(Role::Tool), "user");
    assert_eq!(ollama_base_url("localhost", 11434), "http://localhost:11434");
    assert_eq!(categorize_request("x"), "Categorize this research query: x");
    assert!(react_prompt("q").ends_with("User Query: q"));
    assert_eq!(evaluation_prompt("g", "f"), "Goal: g\nFindings:\nf\n\nEvaluate if these findings are sufficient to establish the UBO.");
    assert_eq!(arxiv_query_url("deep learning", 5), "http://export.arxiv.org/api/query?search_query=all:deep+learning&start=0&max_results=5");
    assert_eq!(ddg_search_url("rust lang"), "https://html.duckduckgo.com/html/?q=rust+lang");
}

#[test]
fn entity_table_is_shared() {
    assert_eq!(entity_type_table(&EntityType::Person), "entity");
    assert_eq!(entity_type_table(&EntityType::Money), "entity");
}
