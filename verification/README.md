# omniscient

A deep research agent: it plans a research task with a language model, runs
the plan's steps with web search, crawling and academic sources, keeps what it
learns in memory, and synthesizes a report.

The decisions of the agent are a library verified with Verus; the program
around it does the input and output.

## Layout

- `src/` — the verified library.
  - `orchestrator.rs` — the research cycle (plan, execute, synthesize) as a
    state machine, and its step queue.
  - `research.rs` — the research agent's prompts, plan parsing, step outcomes,
    synthesis tallies, and the multi-agent investigation as a state machine.
  - `memory.rs` — short-term memory bounded by capacity, first in first out, working memory, long-term promotion, ranked search.
  - `router.rs` — model capabilities and the provider selection of each routing
    strategy, as a state machine that asks for availability.
  - `crawler.rs` — the crawl frontier (depth, page and domain limits, no page
    twice) and what is read off a fetched page.
  - `search.rs`, `academic.rs` — merging results across engines and sources,
    DuckDuckGo result pages, ranking of the other engines' answers, arXiv feeds.
  - `extractor.rs` — titles, headings, main content, markdown and links of HTML.
  - `categorizer.rs` — reading a model's categorization, and the keyword
    fallback.
  - `urlencoding.rs`, `text.rs` — query encoding and the string operations the
    rest is built on.
  - `config.rs`, `commands.rs`, `graph.rs`, `llm.rs`, `taint.rs`, `tools.rs`,
    `types.rs` — configuration defaults, command arguments, graph record ids,
    provider message formats, taint tracking, the tool registry, shared types.
- `app/` — the command-line program: HTTP providers and engines, the crawler's
  fetching, storage (SQLite, Tantivy), configuration files, and the drivers that
  feed the library's state machines.
- `tests/` — tests of the library on concrete values.
