//! Multi-engine web search: engines are queried one after the other and their
//! results merged, without duplicate URLs.

use vstd::prelude::*;
use crate::text::{
    chars_of, find_from, first_occurrence_from, join, occurs_at, seq_join, string_of, string_of_range,
    trim, trim_seq,
};
use crate::urlencoding::{decode, url_decoded};

verus! {

/// A single search result.
#[derive(Debug, Clone)]
pub struct SearchResult {
    pub title: String,
    pub url: String,
    pub snippet: String,
    pub source_engine: String,
    pub rank: usize,
}

/// Some result before position `k` of `s` has URL `u`.
pub open spec fn url_seen_before(s: Seq<SearchResult>, k: int, u: Seq<char>) -> bool {
    exists|j: int| 0 <= j < k && #[trigger] s[j].url@ == u
}

/// The results of `s` whose URL did not occur before them, in order.
pub open spec fn first_of_each_url(s: Seq<SearchResult>) -> Seq<SearchResult>
    decreases s.len(),
{
    if s.len() == 0 {
        s
    } else {
        let d = first_of_each_url(s.drop_last());
        if url_seen_before(s, s.len() - 1, s.last().url@) {
            d
        } else {
            d.push(s.last())
        }
    }
}

/// The concatenation of the engines' result lists, in engine order.
pub open spec fn concat_results(per_engine: Seq<Vec<SearchResult>>) -> Seq<SearchResult>
    decreases per_engine.len(),
{
    if per_engine.len() == 0 {
        seq![]
    } else {
        concat_results(per_engine.drop_last()) + per_engine.last()@
    }
}

/// What a search across engines returns: all results in engine order, the first
/// result for each URL only, at most `max` of them.
pub open spec fn merged_results(per_engine: Seq<Vec<SearchResult>>, max: nat) -> Seq<SearchResult> {
    let d = first_of_each_url(concat_results(per_engine));
    if d.len() <= max {
        d
    } else {
        d.take(max as int)
    }
}

proof fn lemma_first_of_each_url_urls(s: Seq<SearchResult>, u: Seq<char>)
    ensures
        url_seen_before(s, s.len() as int, u) <==> url_seen_before(
            first_of_each_url(s),
            first_of_each_url(s).len() as int,
            u,
        ),
    decreases s.len(),
{
    if s.len() > 0 {
        let p = s.drop_last();
        let d = first_of_each_url(p);
        lemma_first_of_each_url_urls(p, u);
        lemma_first_of_each_url_urls(p, s.last().url@);
        if url_seen_before(s, s.len() as int, u) {
            let j = choose|j: int| 0 <= j < s.len() && #[trigger] s[j].url@ == u;
            if j < s.len() - 1 {
                assert(p[j].url@ == u);
                let k = choose|k: int| 0 <= k < d.len() && #[trigger] d[k].url@ == u;
                assert(first_of_each_url(s)[k] == d[k]);
            } else {
                if url_seen_before(s, s.len() - 1, s.last().url@) {
                    let k = choose|k: int| 0 <= k < s.len() - 1 && #[trigger] s[k].url@ == u;
                    assert(p[k].url@ == u);
                    let m = choose|m: int| 0 <= m < d.len() && #[trigger] d[m].url@ == u;
                    assert(first_of_each_url(s)[m] == d[m]);
                } else {
                    assert(first_of_each_url(s)[d.len() as int] == s.last());
                }
            }
        }
        if url_seen_before(first_of_each_url(s), first_of_each_url(s).len() as int, u) {
            let k = choose|k: int|
                0 <= k < first_of_each_url(s).len() && #[trigger] first_of_each_url(s)[k].url@ == u;
            if k < d.len() {
                assert(d[k] == first_of_each_url(s)[k]);
                let j = choose|j: int| 0 <= j < p.len() && #[trigger] p[j].url@ == u;
                assert(s[j] == p[j]);
            } else {
                assert(s[s.len() - 1].url@ == u);
            }
        }
    }
}

/// No two results of `first_of_each_url(s)` share a URL.
pub proof fn lemma_first_of_each_url_distinct(s: Seq<SearchResult>)
    ensures
        forall|a: int, b: int|
            0 <= a < b < first_of_each_url(s).len() ==> first_of_each_url(s)[a].url@
                != first_of_each_url(s)[b].url@,
    decreases s.len(),
{
    if s.len() > 0 {
        let p = s.drop_last();
        let d = first_of_each_url(p);
        lemma_first_of_each_url_distinct(p);
        if !url_seen_before(s, s.len() - 1, s.last().url@) {
            lemma_first_of_each_url_urls(p, s.last().url@);
            assert forall|a: int, b: int|
                0 <= a < b < first_of_each_url(s).len() implies first_of_each_url(s)[a].url@
                != first_of_each_url(s)[b].url@ by {
                if b == d.len() {
                    if d[a].url@ == s.last().url@ {
                        let j = choose|j: int|
                            0 <= j < d.len() && #[trigger] d[j].url@ == s.last().url@;
                        let i = choose|i: int| 0 <= i < p.len() && #[trigger] p[i].url@ == s.last().url@;
                        assert(s[i] == p[i]);
                    }
                }
            }
        }
    }
}

/// A merged result list never holds the same URL twice, and never more than
/// `max` results.
pub proof fn lemma_merged_results_distinct(per_engine: Seq<Vec<SearchResult>>, max: nat)
    ensures
        merged_results(per_engine, max).len() <= max,
        forall|a: int, b: int|
            0 <= a < b < merged_results(per_engine, max).len() ==> merged_results(
                per_engine,
                max,
            )[a].url@ != merged_results(per_engine, max)[b].url@,
{
    lemma_first_of_each_url_distinct(concat_results(per_engine));
}

fn url_kept(kept: &Vec<SearchResult>, url: &String) -> (b: bool)
    ensures
        b == url_seen_before(kept@, kept@.len() as int, url@),
{
    let mut i: usize = 0;
    while i < kept.len()
        invariant
            i <= kept@.len(),
            forall|j: int| 0 <= j < i ==> kept@[j].url@ != url@,
        decreases kept.len() - i,
    {
        if kept[i].url == *url {
            assert(kept@[i as int].url@ == url@);
            return true;
        }
        i = i + 1;
    }
    false
}

/// Merges the result lists of the engines that answered, in engine order:
/// the first result for each URL is kept, then the list is cut to `max_results`.
pub fn merge_results(per_engine: Vec<Vec<SearchResult>>, max_results: usize) -> (r: Vec<
    SearchResult,
>)
    ensures
        r@ == merged_results(per_engine@, max_results as nat),
{
    let ghost lists = per_engine@;
    let n_engines = per_engine.len();
    let mut engines = per_engine;
    let mut all: Vec<SearchResult> = Vec::new();
    let mut e: usize = 0;
    while engines.len() > 0
        invariant
            e + engines@.len() == lists.len(),
            lists.len() == n_engines,
            engines@ == lists.skip(e as int),
            all@ == concat_results(lists.take(e as int)),
        decreases engines.len(),
    {
        let mut next = engines.remove(0);
        assert(lists.take(e + 1).drop_last() =~= lists.take(e as int));
        assert(lists.take(e + 1).last() == lists[e as int]);
        all.append(&mut next);
        e = e + 1;
        assert(engines@ =~= lists.skip(e as int));
    }
    assert(lists.take(e as int) =~= lists);
    let ghost s = all@;
    let n_all = all.len();
    let mut kept: Vec<SearchResult> = Vec::new();
    let mut k: usize = 0;
    assert(s.take(0) =~= Seq::<SearchResult>::empty());
    while all.len() > 0
        invariant
            k + all@.len() == s.len(),
            s.len() == n_all,
            all@ == s.skip(k as int),
            kept@ == first_of_each_url(s.take(k as int)),
        decreases all.len(),
    {
        let item = all.remove(0);
        let ghost t = s.take(k + 1);
        assert(t.drop_last() =~= s.take(k as int));
        assert(t.last() == item);
        proof {
            lemma_first_of_each_url_urls(s.take(k as int), item.url@);
            assert(url_seen_before(t, k as int, item.url@) <==> url_seen_before(
                s.take(k as int),
                k as int,
                item.url@,
            )) by {
                if url_seen_before(t, k as int, item.url@) {
                    let j = choose|j: int| 0 <= j < k && #[trigger] t[j].url@ == item.url@;
                    assert(s.take(k as int)[j] == t[j]);
                }
                if url_seen_before(s.take(k as int), k as int, item.url@) {
                    let j = choose|j: int|
                        0 <= j < k && #[trigger] s.take(k as int)[j].url@ == item.url@;
                    assert(s.take(k as int)[j] == t[j]);
                }
            }
        }
        if !url_kept(&kept, &item.url) {
            kept.push(item);
        }
        k = k + 1;
        assert(all@ =~= s.skip(k as int));
    }
    assert(s.take(k as int) =~= s);
    if kept.len() > max_results {
        kept.truncate(max_results);
    }
    kept
}

/// A search client over engines of type `E`, queried in the order they were added.
pub struct SearchClient<E> {
    engines: Vec<E>,
}

impl<E> SearchClient<E> {
    /// The engines, in order.
    pub closed spec fn engines(&self) -> Seq<E> {
        self.engines@
    }

    /// A client with no engine.
    pub fn new() -> (r: Self)
        ensures
            r.engines() == Seq::<E>::empty(),
    {
        SearchClient { engines: Vec::new() }
    }

    /// Adds an engine after the others.
    pub fn add_engine(&mut self, engine: E)
        ensures
            final(self).engines() == old(self).engines().push(engine),
    {
        self.engines.push(engine);
    }

    /// The number of engines.
    pub fn engine_count(&self) -> (r: usize)
        ensures
            r == self.engines().len(),
    {
        self.engines.len()
    }

    /// The engine at position `i`.
    pub fn engine(&self, i: usize) -> (r: &E)
        requires
            i < self.engines().len(),
        ensures
            *r == self.engines()[i as int],
    {
        &self.engines[i]
    }
}

/// Where the link of a DuckDuckGo result points: the `uddg=` parameter of its
/// redirect link, up to the next `&`, URL-decoded; a link without the
/// parameter is taken as it is.
pub open spec fn ddg_link_spec(href: Seq<char>) -> Seq<char> {
    if exists|p: int| first_occurrence_from(href, "uddg="@, 0, p) {
        let p = choose|p: int| first_occurrence_from(href, "uddg="@, 0, p);
        let encoded = href.skip(p + 5);
        if exists|e: int| first_occurrence_from(encoded, "&"@, 0, e) {
            let e = choose|e: int| first_occurrence_from(encoded, "&"@, 0, e);
            url_decoded(encoded.take(e))
        } else {
            url_decoded(encoded)
        }
    } else {
        href
    }
}

proof fn lemma_first_occurrence_choose(s: Seq<char>, pat: Seq<char>, i: int)
    requires
        first_occurrence_from(s, pat, 0, i),
    ensures
        (choose|p: int| first_occurrence_from(s, pat, 0, p)) == i,
{
    let c = choose|p: int| first_occurrence_from(s, pat, 0, p);
    if c < i {
        assert(!occurs_at(s, pat, c));
    } else if i < c {
        assert(!occurs_at(s, pat, i));
    }
}

/// The target of a DuckDuckGo result link.
pub fn ddg_result_link(href: &str) -> (r: String)
    ensures
        r@ == ddg_link_spec(href@),
{
    let v = chars_of(href);
    let marker = chars_of("uddg=");
    proof {
        reveal_strlit("uddg=");
    }
    match find_from(&v, &marker, 0) {
        None => {
            assert(!exists|p: int| first_occurrence_from(href@, "uddg="@, 0, p));
            href.to_owned()
        },
        Some(pos) => {
            proof {
                lemma_first_occurrence_choose(href@, "uddg="@, pos as int);
                assert(occurs_at(v@, marker@, pos as int));
            }
            let n = v.len();
            assert(pos + 5 <= n);
            let start = pos + 5;
            let encoded = string_of_range(&v, start, v.len());
            assert(encoded@ =~= href@.skip(pos + 5));
            let ev = chars_of(encoded.as_str());
            let amp = chars_of("&");
            match find_from(&ev, &amp, 0) {
                Some(end) => {
                    proof {
                        lemma_first_occurrence_choose(encoded@, "&"@, end as int);
                        reveal_strlit("&");
                        assert(occurs_at(ev@, amp@, end as int));
                    }
                    let head = string_of_range(&ev, 0, end);
                    assert(head@ =~= encoded@.take(end as int));
                    match decode(head.as_str()) {
                        Ok(d) => d,
                        Err(_) => String::new(),
                    }
                },
                None => {
                    assert(!exists|e: int| first_occurrence_from(encoded@, "&"@, 0, e));
                    match decode(encoded.as_str()) {
                        Ok(d) => d,
                        Err(_) => String::new(),
                    }
                },
            }
        },
    }
}

/// One `.result` block of a DuckDuckGo page: its title text, link and snippet text.
pub struct DdgRow {
    pub title: String,
    pub link: String,
    pub snippet: String,
}

/// The view of a row: title, link, snippet.
pub open spec fn row_view(r: DdgRow) -> (Seq<char>, Seq<char>, Seq<char>) {
    (r.title@, r.link@, r.snippet@)
}

/// The results built from the rows of a DuckDuckGo page: among the first `max`
/// rows, those with a title and a link, ranked by their row position from 1.
pub open spec fn ddg_results_spec(rows: Seq<(Seq<char>, Seq<char>, Seq<char>)>, max: nat) -> Seq<
    (Seq<char>, Seq<char>, Seq<char>, nat),
>
    decreases rows.len(),
{
    if rows.len() == 0 {
        seq![]
    } else {
        let n = (rows.len() - 1) as nat;
        let before = ddg_results_spec(rows.drop_last(), max);
        let r = rows.last();
        if n < max && r.0.len() > 0 && r.1.len() > 0 {
            before.push((r.0, r.1, r.2, n + 1))
        } else {
            before
        }
    }
}

/// A row that makes a result: it has a title and a link.
pub open spec fn usable_row(r: (Seq<char>, Seq<char>, Seq<char>)) -> bool {
    r.0.len() > 0 && r.1.len() > 0
}

/// The DuckDuckGo results are the usable rows among the first `max`, in page
/// order, each carrying its row's title, link and snippet and ranked by its
/// row's position counted from one: every result comes from such a row, ranks
/// rise strictly, and every such row gives a result.
pub proof fn lemma_ddg_results_are_usable_rows(rows: Seq<(Seq<char>, Seq<char>, Seq<char>)>, max: nat)
    ensures
        forall|i: int| 0 <= i < ddg_results_spec(rows, max).len() ==> {
            let r = #[trigger] ddg_results_spec(rows, max)[i];
            &&& 1 <= r.3 <= max
            &&& r.3 <= rows.len()
            &&& usable_row(rows[r.3 - 1])
            &&& r.0 == rows[r.3 - 1].0 && r.1 == rows[r.3 - 1].1 && r.2 == rows[r.3 - 1].2
        },
        forall|i: int, j: int|
            0 <= i < j < ddg_results_spec(rows, max).len() ==> (#[trigger] ddg_results_spec(rows, max)[i]).3
                < (#[trigger] ddg_results_spec(rows, max)[j]).3,
        forall|k: int|
            0 <= k < rows.len() && k < max && usable_row(#[trigger] rows[k]) ==> exists|i: int|
                0 <= i < ddg_results_spec(rows, max).len() && ddg_results_spec(rows, max)[i].3 == k + 1,
    decreases rows.len(),
{
    if rows.len() > 0 {
        let t = rows.drop_last();
        lemma_ddg_results_are_usable_rows(t, max);
        let b = ddg_results_spec(t, max);
        let res = ddg_results_spec(rows, max);
        let n = (rows.len() - 1) as nat;
        assert(rows[rows.len() - 1] == rows.last());
        assert forall|k: int| 0 <= k < t.len() implies t[k] == rows[k] by {}
        assert forall|i: int| 0 <= i < b.len() implies (#[trigger] b[i]).3 <= n by {}
        if n < max && usable_row(rows.last()) {
            let x = (rows.last().0, rows.last().1, rows.last().2, n + 1);
            assert(res == b.push(x));
            assert(res[b.len() as int] == x);
            assert forall|i: int| 0 <= i < b.len() implies res[i] == b[i] by {}
            assert forall|k: int|
                0 <= k < rows.len() && k < max && usable_row(#[trigger] rows[k]) implies exists|i: int|
                    0 <= i < res.len() && res[i].3 == k + 1 by {
                if k < t.len() {
                    assert(usable_row(t[k]));
                    let i = choose|i: int| 0 <= i < b.len() && b[i].3 == k + 1;
                    assert(res[i] == b[i]);
                } else {
                    assert(res[b.len() as int].3 == k + 1);
                }
            }
        } else {
            assert(res == b);
            assert forall|k: int|
                0 <= k < rows.len() && k < max && usable_row(#[trigger] rows[k]) implies exists|i: int|
                    0 <= i < res.len() && res[i].3 == k + 1 by {
                if k < t.len() {
                    assert(usable_row(t[k]));
                } else {
                    assert(rows[k] == rows.last());
                }
            }
        }
    }
}

/// The view of a result: title, URL, snippet and rank.
pub open spec fn result_view(r: SearchResult) -> (Seq<char>, Seq<char>, Seq<char>, nat) {
    (r.title@, r.url@, r.snippet@, r.rank as nat)
}

/// Builds the DuckDuckGo results from the rows of its result page.
pub fn ddg_results(rows: Vec<DdgRow>, max_results: usize) -> (r: Vec<SearchResult>)
    ensures
        r@.map_values(|x: SearchResult| result_view(x)) == ddg_results_spec(
            rows@.map_values(|x: DdgRow| row_view(x)),
            max_results as nat,
        ),
        forall|i: int| 0 <= i < r@.len() ==> (#[trigger] r@[i]).source_engine@ == "duckduckgo"@,
{
    let ghost all = rows@;
    let ghost allv = rows@.map_values(|x: DdgRow| row_view(x));
    let total = rows.len();
    let mut rows = rows;
    let mut results: Vec<SearchResult> = Vec::new();
    let mut idx: usize = 0;
    while rows.len() > 0
        invariant
            idx + rows@.len() == all.len(),
            all.len() == total,
            rows@ == all.skip(idx as int),
            allv == all.map_values(|x: DdgRow| row_view(x)),
            results@.map_values(|x: SearchResult| result_view(x)) == ddg_results_spec(
                allv.take(idx as int),
                max_results as nat,
            ),
            forall|i: int| 0 <= i < results@.len() ==> (#[trigger] results@[i]).source_engine@
                == "duckduckgo"@,
        decreases rows.len(),
    {
        let row = rows.remove(0);
        assert(allv.take(idx + 1).drop_last() =~= allv.take(idx as int));
        assert(allv.take(idx + 1).last() == row_view(row));
        let ghost before = results@;
        if idx < max_results && !row.title.as_str().is_empty() && !row.link.as_str().is_empty() {
            let res = SearchResult {
                title: row.title,
                url: row.link,
                snippet: row.snippet,
                source_engine: "duckduckgo".to_owned(),
                rank: idx + 1,
            };
            results.push(res);
            assert(results@.map_values(|x: SearchResult| result_view(x)) =~= before.map_values(
                |x: SearchResult| result_view(x),
            ).push(result_view(res)));
        }
        idx = idx + 1;
        assert(rows@ =~= all.skip(idx as int));
    }
    assert(allv.take(idx as int) =~= allv);
    results
}

/// The view of an optional string.
pub open spec fn opt_str(o: Option<String>) -> Option<Seq<char>> {
    match o {
        Some(s) => Some(s@),
        None => None,
    }
}

/// Within each element of `html` that `outer` matches, in document order: for
/// each selector of `inners`, every element inside it that the selector matches,
/// as its text nodes and the value of its attribute `attr`; `None` when a
/// selector does not parse.
pub uninterp spec fn nested_matches_of(
    html: Seq<char>,
    outer: Seq<char>,
    inners: Seq<Seq<char>>,
    attr: Seq<char>,
) -> Option<Seq<Seq<Seq<(Seq<Seq<char>>, Option<Seq<char>>)>>>>;

/// The view of one matched element: its text nodes and attribute value.
pub open spec fn match_view(m: (Vec<String>, Option<String>)) -> (Seq<Seq<char>>, Option<Seq<char>>) {
    (m.0@.map_values(|t: String| t@), opt_str(m.1))
}

/// The view of the matches of one inner selector.
pub open spec fn matches_view(ms: Vec<(Vec<String>, Option<String>)>) -> Seq<
    (Seq<Seq<char>>, Option<Seq<char>>),
> {
    ms@.map_values(|m: (Vec<String>, Option<String>)| match_view(m))
}

/// The view of the matches of each inner selector within one outer element.
pub open spec fn block_view(b: Vec<Vec<(Vec<String>, Option<String>)>>) -> Seq<
    Seq<(Seq<Seq<char>>, Option<Seq<char>>)>,
> {
    b@.map_values(|ms: Vec<(Vec<String>, Option<String>)>| matches_view(ms))
}

/// `scraper::Html::parse_document(html)` selected with `Selector::parse(outer)`;
/// within each element, each `Selector::parse` of `inners` selected, and each
/// element found taken as its `text()` nodes and its `attr(attr)`: the claim is
/// only that the answer is a function of the four arguments.
#[verifier::external_body]
fn select_within(html: &str, outer: &str, inners: &Vec<String>, attr: &str) -> (r: Option<
    Vec<Vec<Vec<(Vec<String>, Option<String>)>>>,
>)
    ensures
        r matches Some(v) ==> nested_matches_of(html@, outer@, inners@.map_values(|s: String| s@), attr@)
            == Some(v@.map_values(|b: Vec<Vec<(Vec<String>, Option<String>)>>| block_view(b))),
        r is None ==> nested_matches_of(html@, outer@, inners@.map_values(|s: String| s@), attr@) is None,
{
    let doc = scraper::Html::parse_document(html);
    let sels: Result<Vec<scraper::Selector>, _> = inners.iter().map(|s| scraper::Selector::parse(s)).collect();
    match (scraper::Selector::parse(outer), sels) {
        (Ok(o), Ok(ins)) => Some(doc.select(&o).map(|b| ins.iter().map(|sel| b.select(sel).map(|e| (
            e.text().map(|t| t.to_string()).collect(),
            e.value().attr(attr).map(|a| a.to_string()),
        )).collect()).collect()).collect()),
        _ => None,
    }
}

/// The first element that the `k`-th inner selector matched in a block, if any.
pub open spec fn first_match(
    block: Seq<Seq<(Seq<Seq<char>>, Option<Seq<char>>)>>,
    k: int,
) -> Option<(Seq<Seq<char>>, Option<Seq<char>>)> {
    if 0 <= k < block.len() && block[k].len() > 0 {
        Some(block[k][0])
    } else {
        None
    }
}

/// How a `.result` block is read: the trimmed text of its first title link, that
/// link's target, and the trimmed text of its first snippet; missing parts are
/// empty.
pub open spec fn ddg_row_of(block: Seq<Seq<(Seq<Seq<char>>, Option<Seq<char>>)>>) -> (
    Seq<char>,
    Seq<char>,
    Seq<char>,
) {
    (
        match first_match(block, 0) {
            Some(m) => trim_seq(seq_join(m.0, seq![])),
            None => seq![],
        },
        match first_match(block, 0) {
            Some(m) => match m.1 {
                Some(h) => ddg_link_spec(h),
                None => seq![],
            },
            None => seq![],
        },
        match first_match(block, 1) {
            Some(m) => trim_seq(seq_join(m.0, seq![])),
            None => seq![],
        },
    )
}

/// The rows of a DuckDuckGo result page: one per `.result` block, its title
/// and link from `.result__title a` and its snippet from `.result__snippet`.
pub open spec fn ddg_rows_of(html: Seq<char>) -> Seq<(Seq<char>, Seq<char>, Seq<char>)> {
    match nested_matches_of(
        html,
        ".result"@,
        seq![".result__title a"@, ".result__snippet"@],
        "href"@,
    ) {
        Some(blocks) => blocks.map_values(
            |b: Seq<Seq<(Seq<Seq<char>>, Option<Seq<char>>)>>| ddg_row_of(b),
        ),
        None => seq![],
    }
}

/// The first element matched by the `k`-th inner selector of a block.
fn first_match_exec(block: &Vec<Vec<(Vec<String>, Option<String>)>>, k: usize) -> (r: Option<
    &(Vec<String>, Option<String>),
>)
    ensures
        match first_match(block_view(*block), k as int) {
            Some(m) => r matches Some(x) && match_view(*x) == m,
            None => r is None,
        },
{
    if k < block.len() && block[k].len() > 0 {
        Some(&block[k][0])
    } else {
        None
    }
}

/// A text made of the text nodes of an element, trimmed.
fn trimmed_text(nodes: &Vec<String>) -> (r: String)
    ensures
        r@ == trim_seq(seq_join(nodes@.map_values(|t: String| t@), seq![])),
{
    let sep = "";
    proof {
        reveal_strlit("");
    }
    assert(sep@ =~= Seq::<char>::empty());
    let all = join(nodes, sep);
    string_of(&trim(&chars_of(all.as_str())))
}

/// Reads one `.result` block into a row.
fn ddg_row(block: &Vec<Vec<(Vec<String>, Option<String>)>>) -> (r: DdgRow)
    ensures
        row_view(r) == ddg_row_of(block_view(*block)),
{
    let t = first_match_exec(block, 0);
    let title = match t {
        Some(m) => trimmed_text(&m.0),
        None => String::new(),
    };
    let link = match t {
        Some(m) => match &m.1 {
            Some(h) => ddg_result_link(h.as_str()),
            None => String::new(),
        },
        None => String::new(),
    };
    let snippet = match first_match_exec(block, 1) {
        Some(m) => trimmed_text(&m.0),
        None => String::new(),
    };
    DdgRow { title, link, snippet }
}

/// The DuckDuckGo results of a result page, at most `max_results` rows considered.
pub fn ddg_page_results(html: &str, max_results: usize) -> (r: Vec<SearchResult>)
    ensures
        r@.map_values(|x: SearchResult| result_view(x)) == ddg_results_spec(
            ddg_rows_of(html@),
            max_results as nat,
        ),
        forall|i: int| 0 <= i < r@.len() ==> (#[trigger] r@[i]).source_engine@ == "duckduckgo"@,
{
    let mut inners: Vec<String> = Vec::new();
    inners.push(".result__title a".to_owned());
    inners.push(".result__snippet".to_owned());
    assert(inners@.map_values(|s: String| s@) =~= seq![".result__title a"@, ".result__snippet"@]);
    let blocks = match select_within(html, ".result", &inners, "href") {
        Some(v) => v,
        None => Vec::new(),
    };
    let ghost target = ddg_rows_of(html@);
    assert(target == blocks@.map_values(
        |b: Vec<Vec<(Vec<String>, Option<String>)>>| block_view(b),
    ).map_values(|b: Seq<Seq<(Seq<Seq<char>>, Option<Seq<char>>)>>| ddg_row_of(b)));
    let mut rows: Vec<DdgRow> = Vec::new();
    let mut i: usize = 0;
    while i < blocks.len()
        invariant
            i <= blocks@.len(),
            target == blocks@.map_values(
                |b: Vec<Vec<(Vec<String>, Option<String>)>>| block_view(b),
            ).map_values(|b: Seq<Seq<(Seq<Seq<char>>, Option<Seq<char>>)>>| ddg_row_of(b)),
            rows@.map_values(|x: DdgRow| row_view(x)) == target.take(i as int),
        decreases blocks.len() - i,
    {
        let row = ddg_row(&blocks[i]);
        assert(row_view(row) == target[i as int]);
        let ghost before = rows@;
        rows.push(row);
        assert(rows@.map_values(|x: DdgRow| row_view(x)) =~= before.map_values(
            |x: DdgRow| row_view(x),
        ).push(row_view(row)));
        assert(target.take(i + 1) =~= target.take(i as int).push(target[i as int]));
        i = i + 1;
    }
    assert(target.take(i as int) =~= target);
    ddg_results(rows, max_results)
}

/// How many of `len` items a limit lets through.
pub open spec fn limited(len: nat, limit: Option<usize>) -> nat {
    match limit {
        Some(l) => if l < len { l as nat } else { len },
        None => len,
    }
}

/// The results of an engine's answer, given as (title, URL, snippet) in the
/// order the engine ranked them: the first `limit` of them (all without a
/// limit), each ranked by its position from 1 and credited to `engine`.
pub fn rank_results(items: &Vec<(String, String, String)>, limit: Option<usize>, engine: &str) -> (r:
    Vec<SearchResult>)
    ensures
        r@.len() == limited(items@.len(), limit),
        forall|i: int|
            0 <= i < r@.len() ==> {
                &&& (#[trigger] r@[i]).title@ == items@[i].0@
                &&& r@[i].url@ == items@[i].1@
                &&& r@[i].snippet@ == items@[i].2@
                &&& r@[i].source_engine@ == engine@
                &&& r@[i].rank == i + 1
            },
{
    let n = match limit {
        Some(l) => if l < items.len() { l } else { items.len() },
        None => items.len(),
    };
    let mut r: Vec<SearchResult> = Vec::new();
    let mut i: usize = 0;
    while i < n
        invariant
            n == limited(items@.len(), limit),
            n <= items@.len(),
            i <= n,
            r@.len() == i,
            forall|k: int|
                0 <= k < i ==> {
                    &&& (#[trigger] r@[k]).title@ == items@[k].0@
                    &&& r@[k].url@ == items@[k].1@
                    &&& r@[k].snippet@ == items@[k].2@
                    &&& r@[k].source_engine@ == engine@
                    &&& r@[k].rank == k + 1
                },
        decreases n - i,
    {
        let item = &items[i];
        r.push(SearchResult {
            title: item.0.clone(),
            url: item.1.clone(),
            snippet: item.2.clone(),
            source_engine: engine.to_owned(),
            rank: i + 1,
        });
        i = i + 1;
    }
    r
}

} // verus!
