//! Configuration sections and their defaults.
//!
//! Paths are kept as text; `path_join` appends a relative component the way
//! `Path::join` does on Unix.

use vstd::prelude::*;
use vstd::string::StringExecFns;
use crate::text::push_char;

verus! {

/// `base` joined with the relative component `part`: a `/` is put between them
/// unless `base` is empty or already ends with one.
pub open spec fn path_join(base: Seq<char>, part: Seq<char>) -> Seq<char> {
    if base.len() == 0 {
        part
    } else if base.last() == '/' {
        base + part
    } else {
        base + seq!['/'] + part
    }
}

/// Joins a relative component to a path.
pub fn join_path(base: &str, part: &str) -> (r: String)
    ensures
        r@ == path_join(base@, part@),
{
    let mut r = String::from_str(base);
    if !base.is_empty() {
        let v = crate::text::chars_of(base);
        if v[v.len() - 1] != '/' {
            push_char(&mut r, '/');
        }
    }
    r.append(part);
    r
}

/// General settings.
#[derive(Debug, Clone)]
pub struct GeneralConfig {
    /// Data directory for indexes, databases and cache.
    pub data_dir: String,
    /// Maximum concurrent operations.
    pub max_concurrency: usize,
    /// Log level (trace, debug, info, warn, error).
    pub log_level: String,
    /// Show progress reporting.
    pub show_progress: bool,
}

/// An API endpoint of an LLM provider.
#[derive(Debug, Clone)]
pub struct ApiEndpointConfig {
    pub api_key: Option<String>,
    pub base_url: Option<String>,
    pub model: String,
    pub max_retries: usize,
}

/// A local Ollama server.
#[derive(Debug, Clone)]
pub struct OllamaConfig {
    pub host: String,
    pub port: u16,
    pub model: String,
}

/// Web access settings.
#[derive(Debug, Clone)]
pub struct WebConfig {
    /// User agent string for requests.
    pub user_agent: String,
    /// Request timeout in seconds.
    pub timeout_secs: u64,
    /// Maximum pages to crawl per domain.
    pub max_pages_per_domain: usize,
    /// Maximum crawl depth.
    pub max_crawl_depth: usize,
    /// Respect robots.txt.
    pub respect_robots_txt: bool,
    /// Delay between requests (ms) for politeness.
    pub request_delay_ms: u64,
    /// Search engines to use.
    pub search_engines: Vec<SearchEngineConfig>,
    /// Firecrawl API configuration.
    pub firecrawl: Option<FirecrawlConfig>,
    /// Browser-based scraping configuration.
    pub browser: BrowserConfig,
}

/// One search engine ("duckduckgo", "brave", "google", "serper", "searxng").
#[derive(Debug, Clone)]
pub struct SearchEngineConfig {
    pub engine: String,
    pub api_key: Option<String>,
    pub base_url: Option<String>,
    pub enabled: bool,
}

/// The Firecrawl API.
#[derive(Debug, Clone)]
pub struct FirecrawlConfig {
    pub api_key: String,
    pub base_url: String,
}

/// Headless-browser scraping.
#[derive(Debug, Clone)]
pub struct BrowserConfig {
    /// Enable a headless browser for script-heavy pages.
    pub enabled: bool,
    /// Browser to use ("chromium", "firefox").
    pub browser_type: String,
    /// Headless mode.
    pub headless: bool,
}

/// Knowledge store settings.
#[derive(Debug, Clone)]
pub struct KnowledgeConfig {
    /// Directory for search indexes.
    pub index_dir: String,
    /// Storage mode ("memory", "file", "rocksdb").
    pub db_mode: String,
    /// Database path for file-backed modes.
    pub db_path: Option<String>,
    /// Enable vector embeddings.
    pub enable_vectors: bool,
    /// Embedding model name.
    pub embedding_model: Option<String>,
}

/// Research settings.
#[derive(Debug, Clone)]
pub struct ResearchConfig {
    /// Default depth ("quick", "standard", "deep", "exhaustive").
    pub default_depth: String,
    /// Maximum sources per research task.
    pub max_sources: usize,
    /// Enable fact checking and cross-referencing.
    pub enable_fact_checking: bool,
    /// Report format ("markdown", "html", "pdf").
    pub report_format: String,
    /// Output directory for reports.
    pub output_dir: String,
}

/// The data directory under a home directory: `<home>/.omniscient`.
pub fn data_dir_for_home(home: &str) -> (r: String)
    ensures
        r@ == path_join(home@, ".omniscient"@),
{
    join_path(home, ".omniscient")
}

impl GeneralConfig {
    /// Default general settings over `data_dir`: 10 concurrent operations,
    /// `info` logging, progress shown.
    pub fn default_in(data_dir: &str) -> (r: Self)
        ensures
            r.data_dir@ == data_dir@,
            r.max_concurrency == 10,
            r.log_level@ == "info"@,
            r.show_progress,
    {
        GeneralConfig {
            data_dir: data_dir.to_owned(),
            max_concurrency: 10,
            log_level: "info".to_owned(),
            show_progress: true,
        }
    }
}

impl OllamaConfig {
    /// The local server: `localhost:11434`, model `llama3.2:3b`.
    pub fn default_local() -> (r: Self)
        ensures
            r.host@ == "localhost"@,
            r.port == 11434,
            r.model@ == "llama3.2:3b"@,
    {
        OllamaConfig { host: "localhost".to_owned(), port: 11434, model: "llama3.2:3b".to_owned() }
    }
}

impl WebConfig {
    /// Default web settings: 30 s timeout, 50 pages per domain, depth 3,
    /// robots.txt respected, 500 ms between requests; DuckDuckGo enabled, Brave and
    /// a local SearXNG listed but disabled; no Firecrawl; no browser.
    pub fn default() -> (r: Self)
        ensures
            r.user_agent@ == "Omniscient-Research-Agent/0.1 (https://github.com/omniscient-agent)"@,
            r.timeout_secs == 30,
            r.max_pages_per_domain == 50,
            r.max_crawl_depth == 3,
            r.respect_robots_txt,
            r.request_delay_ms == 500,
            r.search_engines@.len() == 3,
            r.search_engines@[0].engine@ == "duckduckgo"@,
            r.search_engines@[0].api_key is None,
            r.search_engines@[0].base_url is None,
            r.search_engines@[0].enabled,
            r.search_engines@[1].engine@ == "brave"@,
            r.search_engines@[1].api_key is None,
            r.search_engines@[1].base_url is None,
            !r.search_engines@[1].enabled,
            r.search_engines@[2].engine@ == "searxng"@,
            r.search_engines@[2].api_key is None,
            r.search_engines@[2].base_url matches Some(u) && u@ == "http://localhost:8888"@,
            !r.search_engines@[2].enabled,
            r.firecrawl is None,
            !r.browser.enabled,
            r.browser.browser_type@ == "chromium"@,
            r.browser.headless,
    {
        let mut engines: Vec<SearchEngineConfig> = Vec::new();
        engines.push(
            SearchEngineConfig {
                engine: "duckduckgo".to_owned(),
                api_key: None,
                base_url: None,
                enabled: true,
            },
        );
        engines.push(
            SearchEngineConfig { engine: "brave".to_owned(), api_key: None, base_url: None, enabled: false },
        );
        engines.push(
            SearchEngineConfig {
                engine: "searxng".to_owned(),
                api_key: None,
                base_url: Some("http://localhost:8888".to_owned()),
                enabled: false,
            },
        );
        WebConfig {
            user_agent: "Omniscient-Research-Agent/0.1 (https://github.com/omniscient-agent)".to_owned(),
            timeout_secs: 30,
            max_pages_per_domain: 50,
            max_crawl_depth: 3,
            respect_robots_txt: true,
            request_delay_ms: 500,
            search_engines: engines,
            firecrawl: None,
            browser: BrowserConfig {
                enabled: false,
                browser_type: "chromium".to_owned(),
                headless: true,
            },
        }
    }
}

impl KnowledgeConfig {
    /// Default knowledge settings over `data_dir`: index in `<data_dir>/index`,
    /// in-memory database with `<data_dir>/db` as its path, no vectors.
    pub fn default_in(data_dir: &str) -> (r: Self)
        ensures
            r.index_dir@ == path_join(data_dir@, "index"@),
            r.db_mode@ == "memory"@,
            r.db_path matches Some(p) && p@ == path_join(data_dir@, "db"@),
            !r.enable_vectors,
            r.embedding_model is None,
    {
        KnowledgeConfig {
            index_dir: join_path(data_dir, "index"),
            db_mode: "memory".to_owned(),
            db_path: Some(join_path(data_dir, "db")),
            enable_vectors: false,
            embedding_model: None,
        }
    }
}

impl ResearchConfig {
    /// Default research settings over `data_dir`: standard depth, 20 sources,
    /// fact checking on, markdown reports in `<data_dir>/reports`.
    pub fn default_in(data_dir: &str) -> (r: Self)
        ensures
            r.default_depth@ == "standard"@,
            r.max_sources == 20,
            r.enable_fact_checking,
            r.report_format@ == "markdown"@,
            r.output_dir@ == path_join(data_dir@, "reports"@),
    {
        ResearchConfig {
            default_depth: "standard".to_owned(),
            max_sources: 20,
            enable_fact_checking: true,
            report_format: "markdown".to_owned(),
            output_dir: join_path(data_dir, "reports"),
        }
    }
}

} // verus!
