//! Task categorization: a small language model classifies a research query; its
//! answer is read here, with a keyword classifier as fallback.

use vstd::prelude::*;
use crate::text::{
    chars_of, contains, contains_seq, find_from, first_occurrence_from, last_index_of, occurs_at,
    rfind_char, string_of_range,
};
use crate::types::{ResearchDepth, TaskCategory};

verus! {

/// Categorizer that asks the model `P`.
pub struct SlmCategorizer<P> {
    provider: P,
}

impl<P> SlmCategorizer<P> {
    /// The model asked.
    pub closed spec fn provider(&self) -> P {
        self.provider
    }

    /// A categorizer asking `provider`.
    pub fn new(provider: P) -> (r: Self)
        ensures
            r.provider() == provider,
    {
        SlmCategorizer { provider }
    }

    /// The model asked, for the driver that sends it the prompt.
    pub fn model(&self) -> (r: &P)
        ensures
            *r == self.provider(),
    {
        &self.provider
    }
}

/// The lower-case form of a text (`str::to_lowercase`).
pub uninterp spec fn lowercase_of(s: Seq<char>) -> Seq<char>;

/// `str::to_lowercase`: the claim is only that the result is a function of the text.
#[verifier::external_body]
pub(crate) fn lowercase(s: &str) -> (r: String)
    ensures
        r@ == lowercase_of(s@),
{
    s.to_lowercase()
}

/// The category that the keyword classifier gives to a (lower-case) query.
pub open spec fn keyword_category_of(q: Seq<char>) -> TaskCategory {
    if contains_seq(q, "company"@) || contains_seq(q, "startup"@) || contains_seq(q, "business"@)
        || contains_seq(q, "inc"@) || contains_seq(q, "corp"@) {
        TaskCategory::CompanyResearch
    } else if contains_seq(q, "person"@) || contains_seq(q, "who is"@) || contains_seq(
        q,
        "biography"@,
    ) || contains_seq(q, "career"@) {
        TaskCategory::PersonResearch
    } else if contains_seq(q, "technology"@) || contains_seq(q, "framework"@) || contains_seq(
        q,
        "programming"@,
    ) || contains_seq(q, "software"@) {
        TaskCategory::TechnologyAnalysis
    } else if contains_seq(q, "paper"@) || contains_seq(q, "research"@) || contains_seq(
        q,
        "study"@,
    ) || contains_seq(q, "academic"@) {
        TaskCategory::AcademicLiterature
    } else if contains_seq(q, "market"@) || contains_seq(q, "industry"@) || contains_seq(
        q,
        "trend"@,
    ) {
        TaskCategory::MarketAnalysis
    } else if contains_seq(q, "compare"@) || contains_seq(q, "vs"@) || contains_seq(q, "versus"@)
        || contains_seq(q, "competitor"@) {
        TaskCategory::CompetitiveIntelligence
    } else if contains_seq(q, "reverse engineer"@) || contains_seq(q, "how does"@) || contains_seq(
        q,
        "architecture"@,
    ) || contains_seq(q, "teardown"@) {
        TaskCategory::ReverseEngineering
    } else {
        TaskCategory::GeneralKnowledge
    }
}

/// The query names a company ("company", "startup", "business", "inc", "corp").
pub open spec fn names_company(q: Seq<char>) -> bool {
    contains_seq(q, "company"@) || contains_seq(q, "startup"@) || contains_seq(q, "business"@)
        || contains_seq(q, "inc"@) || contains_seq(q, "corp"@)
}

/// The query asks about a person ("person", "who is", "biography", "career").
pub open spec fn names_person(q: Seq<char>) -> bool {
    contains_seq(q, "person"@) || contains_seq(q, "who is"@) || contains_seq(q, "biography"@)
        || contains_seq(q, "career"@)
}

/// The query asks about technology ("technology", "framework", "programming",
/// "software").
pub open spec fn names_technology(q: Seq<char>) -> bool {
    contains_seq(q, "technology"@) || contains_seq(q, "framework"@) || contains_seq(q, "programming"@)
        || contains_seq(q, "software"@)
}

/// The query asks about literature ("paper", "research", "study", "academic").
pub open spec fn names_literature(q: Seq<char>) -> bool {
    contains_seq(q, "paper"@) || contains_seq(q, "research"@) || contains_seq(q, "study"@)
        || contains_seq(q, "academic"@)
}

/// The query asks about a market ("market", "industry", "trend").
pub open spec fn names_market(q: Seq<char>) -> bool {
    contains_seq(q, "market"@) || contains_seq(q, "industry"@) || contains_seq(q, "trend"@)
}

/// The query asks for a comparison ("compare", "vs", "versus", "competitor").
pub open spec fn names_comparison(q: Seq<char>) -> bool {
    contains_seq(q, "compare"@) || contains_seq(q, "vs"@) || contains_seq(q, "versus"@)
        || contains_seq(q, "competitor"@)
}

/// The query asks how something is built ("reverse engineer", "how does",
/// "architecture", "teardown").
pub open spec fn names_internals(q: Seq<char>) -> bool {
    contains_seq(q, "reverse engineer"@) || contains_seq(q, "how does"@) || contains_seq(
        q,
        "architecture"@,
    ) || contains_seq(q, "teardown"@)
}

/// The keyword classification of a lower-case query: the first group of
/// keywords that the query holds, in the order company, person, technology,
/// literature, market, comparison, internals, decides the category; a query
/// that holds none is general knowledge. So a query about papers or research
/// that names no company, person or technology is academic literature.
pub proof fn lemma_keyword_category_groups(q: Seq<char>)
    ensures
        names_company(q) ==> keyword_category_of(q) == TaskCategory::CompanyResearch,
        !names_company(q) && names_person(q) ==> keyword_category_of(q) == TaskCategory::PersonResearch,
        !names_company(q) && !names_person(q) && names_technology(q) ==> keyword_category_of(q)
            == TaskCategory::TechnologyAnalysis,
        !names_company(q) && !names_person(q) && !names_technology(q) && names_literature(q)
            ==> keyword_category_of(q) == TaskCategory::AcademicLiterature,
        !names_company(q) && !names_person(q) && !names_technology(q) && !names_literature(q)
            && names_market(q) ==> keyword_category_of(q) == TaskCategory::MarketAnalysis,
        !names_company(q) && !names_person(q) && !names_technology(q) && !names_literature(q)
            && !names_market(q) && names_comparison(q) ==> keyword_category_of(q)
            == TaskCategory::CompetitiveIntelligence,
        !names_company(q) && !names_person(q) && !names_technology(q) && !names_literature(q)
            && !names_market(q) && !names_comparison(q) && names_internals(q) ==> keyword_category_of(q)
            == TaskCategory::ReverseEngineering,
        !names_company(q) && !names_person(q) && !names_technology(q) && !names_literature(q)
            && !names_market(q) && !names_comparison(q) && !names_internals(q) ==> keyword_category_of(q)
            == TaskCategory::GeneralKnowledge,
{
}

fn has(q: &Vec<char>, word: &str) -> (b: bool)
    ensures
        b == contains_seq(q@, word@),
{
    contains(q, &chars_of(word))
}

/// Keyword classification of a query, used when the model's answer cannot be
/// read: the first matching keyword group, in the order company, person,
/// technology, academic, market, comparison, reverse engineering, decides.
pub fn keyword_category(query: &str) -> (r: TaskCategory)
    ensures
        r == keyword_category_of(lowercase_of(query@)),
{
    let lower = lowercase(query);
    let q = chars_of(lower.as_str());
    if has(&q, "company") || has(&q, "startup") || has(&q, "business") || has(&q, "inc") || has(
        &q,
        "corp",
    ) {
        TaskCategory::CompanyResearch
    } else if has(&q, "person") || has(&q, "who is") || has(&q, "biography") || has(&q, "career") {
        TaskCategory::PersonResearch
    } else if has(&q, "technology") || has(&q, "framework") || has(&q, "programming") || has(
        &q,
        "software",
    ) {
        TaskCategory::TechnologyAnalysis
    } else if has(&q, "paper") || has(&q, "research") || has(&q, "study") || has(&q, "academic") {
        TaskCategory::AcademicLiterature
    } else if has(&q, "market") || has(&q, "industry") || has(&q, "trend") {
        TaskCategory::MarketAnalysis
    } else if has(&q, "compare") || has(&q, "vs") || has(&q, "versus") || has(&q, "competitor") {
        TaskCategory::CompetitiveIntelligence
    } else if has(&q, "reverse engineer") || has(&q, "how does") || has(&q, "architecture") || has(
        &q,
        "teardown",
    ) {
        TaskCategory::ReverseEngineering
    } else {
        TaskCategory::GeneralKnowledge
    }
}

/// The category named in a model answer; a missing or unknown name is general knowledge.
pub open spec fn category_named(name: Option<Seq<char>>) -> TaskCategory {
    match name {
        Some(n) => if n == "CompanyResearch"@ {
            TaskCategory::CompanyResearch
        } else if n == "PersonResearch"@ {
            TaskCategory::PersonResearch
        } else if n == "TechnologyAnalysis"@ {
            TaskCategory::TechnologyAnalysis
        } else if n == "AcademicLiterature"@ {
            TaskCategory::AcademicLiterature
        } else if n == "MarketAnalysis"@ {
            TaskCategory::MarketAnalysis
        } else if n == "CompetitiveIntelligence"@ {
            TaskCategory::CompetitiveIntelligence
        } else if n == "ReverseEngineering"@ {
            TaskCategory::ReverseEngineering
        } else if n == "CurrentEvents"@ {
            TaskCategory::CurrentEvents
        } else if n == "FactChecking"@ {
            TaskCategory::FactChecking
        } else {
            TaskCategory::GeneralKnowledge
        },
        None => TaskCategory::GeneralKnowledge,
    }
}

fn same(a: &Vec<char>, b: &str) -> (r: bool)
    ensures
        r == (a@ == b@),
{
    let bv = chars_of(b);
    if a.len() != bv.len() {
        return false;
    }
    let mut i: usize = 0;
    while i < a.len()
        invariant
            i <= a@.len(),
            a@.len() == bv@.len(),
            bv@ == b@,
            forall|j: int| 0 <= j < i ==> a@[j] == bv@[j],
        decreases a.len() - i,
    {
        if a[i] != bv[i] {
            assert(a@[i as int] != b@[i as int]);
            return false;
        }
        i = i + 1;
    }
    assert(a@ =~= bv@);
    true
}

/// The category a model answer names.
pub fn category_from_name(name: &Option<String>) -> (r: TaskCategory)
    ensures
        r == category_named(match name {
            Some(s) => Some(s@),
            None => None,
        }),
{
    match name {
        None => TaskCategory::GeneralKnowledge,
        Some(s) => {
            let n = chars_of(s.as_str());
            if same(&n, "CompanyResearch") {
                TaskCategory::CompanyResearch
            } else if same(&n, "PersonResearch") {
                TaskCategory::PersonResearch
            } else if same(&n, "TechnologyAnalysis") {
                TaskCategory::TechnologyAnalysis
            } else if same(&n, "AcademicLiterature") {
                TaskCategory::AcademicLiterature
            } else if same(&n, "MarketAnalysis") {
                TaskCategory::MarketAnalysis
            } else if same(&n, "CompetitiveIntelligence") {
                TaskCategory::CompetitiveIntelligence
            } else if same(&n, "ReverseEngineering") {
                TaskCategory::ReverseEngineering
            } else if same(&n, "CurrentEvents") {
                TaskCategory::CurrentEvents
            } else if same(&n, "FactChecking") {
                TaskCategory::FactChecking
            } else {
                TaskCategory::GeneralKnowledge
            }
        },
    }
}

/// The depth named in a model answer; a missing or unknown name is standard.
pub open spec fn depth_named(name: Option<Seq<char>>) -> ResearchDepth {
    match name {
        Some(n) => if n == "Quick"@ {
            ResearchDepth::Quick
        } else if n == "Standard"@ {
            ResearchDepth::Standard
        } else if n == "Deep"@ {
            ResearchDepth::Deep
        } else if n == "Exhaustive"@ {
            ResearchDepth::Exhaustive
        } else {
            ResearchDepth::Standard
        },
        None => ResearchDepth::Standard,
    }
}

/// The depth a model answer names.
pub fn depth_from_name(name: &Option<String>) -> (r: ResearchDepth)
    ensures
        r == depth_named(match name {
            Some(s) => Some(s@),
            None => None,
        }),
{
    match name {
        None => ResearchDepth::Standard,
        Some(s) => {
            let n = chars_of(s.as_str());
            if same(&n, "Quick") {
                ResearchDepth::Quick
            } else if same(&n, "Standard") {
                ResearchDepth::Standard
            } else if same(&n, "Deep") {
                ResearchDepth::Deep
            } else if same(&n, "Exhaustive") {
                ResearchDepth::Exhaustive
            } else {
                ResearchDepth::Standard
            }
        },
    }
}

/// The depth given on the command line: `quick`/`q`, `standard`/`s`, `deep`/`d`,
/// `exhaustive`/`e` in any case; anything else is standard.
pub open spec fn depth_arg_of(lower: Seq<char>) -> ResearchDepth {
    if lower == "quick"@ || lower == "q"@ {
        ResearchDepth::Quick
    } else if lower == "standard"@ || lower == "s"@ {
        ResearchDepth::Standard
    } else if lower == "deep"@ || lower == "d"@ {
        ResearchDepth::Deep
    } else if lower == "exhaustive"@ || lower == "e"@ {
        ResearchDepth::Exhaustive
    } else {
        ResearchDepth::Standard
    }
}

/// Reads a research depth from the command line.
pub fn parse_depth(s: &str) -> (r: ResearchDepth)
    ensures
        r == depth_arg_of(lowercase_of(s@)),
{
    let lower = lowercase(s);
    let l = chars_of(lower.as_str());
    if same(&l, "quick") || same(&l, "q") {
        ResearchDepth::Quick
    } else if same(&l, "standard") || same(&l, "s") {
        ResearchDepth::Standard
    } else if same(&l, "deep") || same(&l, "d") {
        ResearchDepth::Deep
    } else if same(&l, "exhaustive") || same(&l, "e") {
        ResearchDepth::Exhaustive
    } else {
        ResearchDepth::Standard
    }
}

/// The first position of `open` and the last position of `close` in `s`, when
/// both occur; `s` is cut there.
pub open spec fn delimited(s: Seq<char>, open: char, close: char, a: int, b: int) -> bool {
    &&& first_occurrence_from(s, seq![open], 0, a)
    &&& last_index_of(s, close, b)
}

/// The part of `s` from its first `open` to its last `close`, both included; the
/// whole of `s` when either is missing.
pub open spec fn delimited_span(s: Seq<char>, open: char, close: char) -> Seq<char> {
    if exists|a: int, b: int| delimited(s, open, close, a, b) {
        let (a, b) = choose|a: int, b: int| delimited(s, open, close, a, b);
        s.subrange(a, b + 1)
    } else {
        s
    }
}

/// The span can be cut: when both delimiters occur, the last `close` comes at
/// most one place before the first `open` (further back, the inclusive slice
/// between them would be inverted; right before, it is empty).
pub open spec fn span_is_ordered(s: Seq<char>, open: char, close: char) -> bool {
    forall|a: int, b: int| delimited(s, open, close, a, b) ==> a <= b + 1
}

proof fn lemma_delimited_unique(s: Seq<char>, open: char, close: char, a: int, b: int)
    requires
        delimited(s, open, close, a, b),
    ensures
        (choose|x: int, y: int| delimited(s, open, close, x, y)) == (a, b),
{
    let (x, y) = choose|x: int, y: int| delimited(s, open, close, x, y);
    if x < a {
        assert(!occurs_at(s, seq![open], x));
    } else if a < x {
        assert(!occurs_at(s, seq![open], a));
    }
    if y < b {
        assert(s[b] != close);
    } else if b < y {
        assert(s[y] != close);
    }
}

/// Whether the span of `s` from its first `open` to its last `close` can be cut.
pub fn span_ordered(s: &str, open: char, close: char) -> (b: bool)
    ensures
        b == span_is_ordered(s@, open, close),
{
    let v = chars_of(s);
    let mut o: Vec<char> = Vec::new();
    o.push(open);
    assert(o@ =~= seq![open]);
    match find_from(&v, &o, 0) {
        None => {
            assert(!exists|a: int, b: int| delimited(s@, open, close, a, b));
            true
        },
        Some(a) => match rfind_char(&v, close) {
            None => {
                assert(!exists|a: int, b: int| delimited(s@, open, close, a, b));
                true
            },
            Some(b) => {
                assert(delimited(s@, open, close, a as int, b as int));
                proof {
                    lemma_delimited_unique(s@, open, close, a as int, b as int);
                    assert forall|x: int, y: int| delimited(s@, open, close, x, y) implies x == a
                        && y == b by {
                        lemma_delimited_unique(s@, open, close, x, y);
                    }
                }
                a <= b + 1
            },
        },
    }
}

/// The part of a model answer from its first `open` to its last `close`.
pub fn extract_delimited(s: &str, open: char, close: char) -> (r: String)
    requires
        span_is_ordered(s@, open, close),
    ensures
        r@ == delimited_span(s@, open, close),
{
    let v = chars_of(s);
    let mut o: Vec<char> = Vec::new();
    o.push(open);
    assert(o@ =~= seq![open]);
    match find_from(&v, &o, 0) {
        None => {
            assert(!exists|a: int, b: int| delimited(s@, open, close, a, b));
            s.to_owned()
        },
        Some(a) => match rfind_char(&v, close) {
            None => {
                assert(!exists|a: int, b: int| delimited(s@, open, close, a, b));
                s.to_owned()
            },
            Some(b) => {
                assert(delimited(s@, open, close, a as int, b as int));
                proof {
                    lemma_delimited_unique(s@, open, close, a as int, b as int);
                }
                string_of_range(&v, a, b + 1)
            },
        },
    }
}

/// The string fields of a model answer parsed as JSON: `category`, `depth`, and
/// `tools` (each array element, when it is a string).
pub struct CategoryJson {
    pub category: Option<String>,
    pub depth: Option<String>,
    pub tools: Option<Vec<Option<String>>>,
}

/// The view of an optional string.
pub open spec fn opt_view(o: Option<String>) -> Option<Seq<char>> {
    match o {
        Some(s) => Some(s@),
        None => None,
    }
}

/// The view of the fields of a parsed answer.
pub open spec fn category_json_view(j: CategoryJson) -> (
    Option<Seq<char>>,
    Option<Seq<char>>,
    Option<Seq<Option<Seq<char>>>>,
) {
    (
        opt_view(j.category),
        opt_view(j.depth),
        match j.tools {
            Some(t) => Some(t@.map_values(|x: Option<String>| opt_view(x))),
            None => None,
        },
    )
}

/// The fields read off `text` parsed as JSON, or `None` when it does not parse.
pub uninterp spec fn category_json_of(text: Seq<char>) -> Option<
    (Option<Seq<char>>, Option<Seq<char>>, Option<Seq<Option<Seq<char>>>>),
>;

/// `serde_json::from_str::<serde_json::Value>(text)`, with the `category` and
/// `depth` members and the `tools` array read off as strings (`as_str`,
/// `as_array`): the claim is only that they are a function of the text.
#[verifier::external_body]
fn parse_category_json(text: &str) -> (r: Option<CategoryJson>)
    ensures
        r matches Some(j) ==> category_json_of(text@) == Some(category_json_view(j)),
        r is None ==> category_json_of(text@) is None,
{
    match serde_json::from_str::<serde_json::Value>(text) {
        Ok(v) => Some(CategoryJson {
            category: v["category"].as_str().map(|s| s.to_string()),
            depth: v["depth"].as_str().map(|s| s.to_string()),
            tools: v["tools"].as_array().map(|a| a.iter().map(|t| t.as_str().map(|s| s.to_string())).collect()),
        }),
        Err(_) => None,
    }
}

/// How a query was categorized.
pub struct CategoryChoice {
    pub category: TaskCategory,
    pub suggested_depth: ResearchDepth,
    pub suggested_tools: Vec<String>,
    /// Whether the model's answer was read; otherwise the keyword classifier decided.
    pub from_model: bool,
}

/// The string elements of a tools array, in order.
pub open spec fn string_tools(t: Seq<Option<Seq<char>>>) -> Seq<Seq<char>>
    decreases t.len(),
{
    if t.len() == 0 {
        seq![]
    } else {
        let rest = string_tools(t.drop_last());
        match t.last() {
            Some(s) => rest.push(s),
            None => rest,
        }
    }
}

/// The categorization of a query from the model's answer: the JSON object in
/// the answer gives category, depth and tools; when it does not parse, the
/// keyword classifier decides, with standard depth and web search and crawl.
pub open spec fn category_choice_of(response: Seq<char>, query: Seq<char>) -> (
    TaskCategory,
    ResearchDepth,
    Seq<Seq<char>>,
    bool,
) {
    match category_json_of(delimited_span(response, '{', '}')) {
        Some((c, d, t)) => (
            category_named(c),
            depth_named(d),
            match t {
                Some(tools) => string_tools(tools),
                None => seq![],
            },
            true,
        ),
        None => keyword_choice_of(query),
    }
}

/// The keyword classifier's categorization: its category for the lower-case
/// query, standard depth, web search and crawl.
pub open spec fn keyword_choice_of(query: Seq<char>) -> (TaskCategory, ResearchDepth, Seq<Seq<char>>, bool) {
    (
        keyword_category_of(lowercase_of(query)),
        ResearchDepth::Standard,
        seq!["web_search"@, "web_crawl"@],
        false,
    )
}

/// The categorization of a query from the model's answer when there is one,
/// and from the keyword classifier when the model could not be reached.
pub open spec fn categorization_of(answer: Option<Seq<char>>, query: Seq<char>) -> (
    TaskCategory,
    ResearchDepth,
    Seq<Seq<char>>,
    bool,
) {
    match answer {
        Some(r) => category_choice_of(r, query),
        None => keyword_choice_of(query),
    }
}

/// Categorizes with the keyword classifier alone.
pub fn keyword_choice(query: &str) -> (r: CategoryChoice)
    ensures
        (r.category, r.suggested_depth, r.suggested_tools@.map_values(|s: String| s@), r.from_model)
            == keyword_choice_of(query@),
{
    let category = keyword_category(query);
    let mut tools: Vec<String> = Vec::new();
    tools.push("web_search".to_owned());
    tools.push("web_crawl".to_owned());
    assert(tools@.map_values(|s: String| s@) =~= seq!["web_search"@, "web_crawl"@]);
    CategoryChoice { category, suggested_depth: ResearchDepth::Standard, suggested_tools: tools, from_model: false }
}

/// Categorizes a query from the model's answer (`Some`), or, when the model
/// could not be reached (`None`), with the keyword classifier.
pub fn categorize_answer(answer: Option<&str>, query: &str) -> (r: CategoryChoice)
    requires
        answer matches Some(a) ==> span_is_ordered(a@, '{', '}'),
    ensures
        (r.category, r.suggested_depth, r.suggested_tools@.map_values(|s: String| s@), r.from_model)
            == categorization_of(
            match answer {
                Some(a) => Some(a@),
                None => None,
            },
            query@,
        ),
{
    match answer {
        Some(a) => parse_category_response(a, query),
        None => keyword_choice(query),
    }
}

/// Reads the model's answer to the categorization prompt.
pub fn parse_category_response(response: &str, query: &str) -> (r: CategoryChoice)
    requires
        span_is_ordered(response@, '{', '}'),
    ensures
        (r.category, r.suggested_depth, r.suggested_tools@.map_values(|s: String| s@), r.from_model)
            == category_choice_of(response@, query@),
{
    let json = extract_delimited(response, '{', '}');
    match parse_category_json(json.as_str()) {
        Some(j) => {
            let category = category_from_name(&j.category);
            let depth = depth_from_name(&j.depth);
            let mut tools: Vec<String> = Vec::new();
            match j.tools {
                Some(t) => {
                    let ghost tv = t@.map_values(|x: Option<String>| opt_view(x));
                    let n = t.len();
                    let mut rest = t;
                    let mut i: usize = 0;
                    while rest.len() > 0
                        invariant
                            i + rest@.len() == tv.len(),
                            tv.len() == n,
                            rest@.map_values(|x: Option<String>| opt_view(x)) == tv.skip(i as int),
                            tools@.map_values(|s: String| s@) == string_tools(tv.take(i as int)),
                        decreases rest.len(),
                    {
                        let ghost rv = rest@;
                        let item = rest.remove(0);
                        assert(tv.take(i + 1).drop_last() =~= tv.take(i as int));
                        assert(rv.map_values(|x: Option<String>| opt_view(x))[0] == opt_view(item));
                        assert(tv.take(i + 1).last() == opt_view(item));
                        let ghost before = tools@;
                        match item {
                            Some(s) => {
                                tools.push(s);
                                assert(tools@.map_values(|s: String| s@) =~= before.map_values(
                                    |s: String| s@,
                                ).push(s@));
                            },
                            None => {},
                        }
                        i = i + 1;
                        assert(rest@ =~= rv.drop_first());
                        let ghost rm = rest@.map_values(|x: Option<String>| opt_view(x));
                        assert forall|k: int| 0 <= k < rest@.len() implies #[trigger] rm[k]
                            == tv.skip(i as int)[k] by {
                            assert(rest@[k] == rv[k + 1]);
                            assert(rv.map_values(|x: Option<String>| opt_view(x))[k + 1] == tv.skip(
                                i - 1,
                            )[k + 1]);
                        }
                        assert(rest@.map_values(|x: Option<String>| opt_view(x)) =~= tv.skip(
                            i as int,
                        ));
                    }
                    assert(tv.take(i as int) =~= tv);
                },
                None => {
                    assert(tools@.map_values(|s: String| s@) =~= Seq::<Seq<char>>::empty());
                },
            }
            CategoryChoice { category, suggested_depth: depth, suggested_tools: tools, from_model: true }
        },
        None => keyword_choice(query),
    }
}

} // verus!
