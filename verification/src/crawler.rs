//! Breadth-first crawling with depth, page and domain limits.
//!
//! Fetching pages is outside work; `CrawlFrontier` decides which URL is
//! fetched next and which discovered links are queued.

use vstd::prelude::*;
use vstd::string::StringExecFns;
use crate::text::{chars_of, contains, contains_seq, is_whitespace, is_ws, push_char, string_of_range};

verus! {

pub assume_specification[ core::time::Duration::from_secs ](secs: u64) -> core::time::Duration;

pub assume_specification[ core::time::Duration::from_millis ](millis: u64) -> core::time::Duration;

/// `Duration` is `Copy`: a clone is the same duration.
pub assume_specification[ <core::time::Duration as Clone>::clone ](d: &core::time::Duration) -> (r:
    core::time::Duration)
    ensures
        r == *d,
;

/// Configuration of a crawl.
#[derive(Debug, Clone)]
pub struct CrawlConfig {
    pub max_depth: usize,
    pub max_pages: usize,
    pub timeout: core::time::Duration,
    pub delay_between_requests: core::time::Duration,
    pub user_agent: String,
    pub respect_robots_txt: bool,
    pub allowed_domains: Option<Vec<String>>,
    pub max_concurrent: usize,
    pub use_browser: bool,
}

impl CrawlConfig {
    /// Depth 3, 50 pages, 30 s timeout, 500 ms between requests, robots.txt
    /// respected, any domain, 5 concurrent fetches, no browser.
    pub fn default() -> (r: Self)
        ensures
            r.max_depth == 3,
            r.max_pages == 50,
            r.user_agent@ == "Omniscient-Research-Agent/0.1"@,
            r.respect_robots_txt,
            r.allowed_domains is None,
            r.max_concurrent == 5,
            !r.use_browser,
    {
        CrawlConfig {
            max_depth: 3,
            max_pages: 50,
            timeout: core::time::Duration::from_secs(30),
            delay_between_requests: core::time::Duration::from_millis(500),
            user_agent: "Omniscient-Research-Agent/0.1".to_owned(),
            respect_robots_txt: true,
            allowed_domains: None,
            max_concurrent: 5,
            use_browser: false,
        }
    }
}

/// `s` without its trailing `/` characters (`str::trim_end_matches('/')`).
pub open spec fn trim_trailing_slashes(s: Seq<char>) -> Seq<char>
    decreases s.len(),
{
    if s.len() > 0 && s.last() == '/' {
        trim_trailing_slashes(s.drop_last())
    } else {
        s
    }
}

/// Dropping trailing slashes twice drops no more than once.
pub proof fn lemma_trim_trailing_slashes_idempotent(s: Seq<char>)
    ensures
        trim_trailing_slashes(trim_trailing_slashes(s)) == trim_trailing_slashes(s),
    decreases s.len(),
{
    if s.len() > 0 && s.last() == '/' {
        lemma_trim_trailing_slashes_idempotent(s.drop_last());
    }
}

/// The form of a URL used to recognise pages already seen: trailing slashes dropped.
pub fn normalize_url(url: &str) -> (r: String)
    ensures
        r@ == trim_trailing_slashes(url@),
{
    let v = chars_of(url);
    let mut end = v.len();
    assert(v@.subrange(0, end as int) =~= v@);
    while end > 0 && v[end - 1] == '/'
        invariant
            end <= v@.len(),
            trim_trailing_slashes(v@) == trim_trailing_slashes(v@.subrange(0, end as int)),
        decreases end,
    {
        assert(v@.subrange(0, end as int).drop_last() =~= v@.subrange(0, end - 1));
        end = end - 1;
    }
    string_of_range(&v, 0, end)
}

/// The host of `url` when it parses as a URL that has one.
pub uninterp spec fn url_host_of(url: Seq<char>) -> Option<Seq<char>>;

/// `url::Url::parse(url)` followed by `Url::host_str`: the claim is only that the
/// host is a function of the text.
#[verifier::external_body]
fn url_host(url: &str) -> (r: Option<String>)
    ensures
        r matches Some(h) ==> url_host_of(url@) == Some(h@),
        r is None ==> url_host_of(url@) is None,
{
    match url::Url::parse(url) {
        Ok(parsed) => parsed.host_str().map(|h| h.to_string()),
        Err(_) => None,
    }
}

/// Whether a URL may be crawled: with a domain list, a URL whose host is known
/// must hold one of the domains in its host; other URLs pass.
pub open spec fn domain_allowed(domains: Option<Seq<Seq<char>>>, url: Seq<char>) -> bool {
    match domains {
        None => true,
        Some(ds) => match url_host_of(url) {
            None => true,
            Some(h) => host_matches(h, ds),
        },
    }
}

/// Some domain of the list occurs in the host.
pub open spec fn host_matches(host: Seq<char>, domains: Seq<Seq<char>>) -> bool {
    exists|i: int| 0 <= i < domains.len() && contains_seq(host, #[trigger] domains[i])
}

/// A queued URL with the depth at which it was found.
pub open spec fn entry_view(e: (String, usize)) -> (Seq<char>, nat) {
    (e.0@, e.1 as nat)
}

/// What comes off the queue next: the first queued URL that has not been
/// visited, lies within the depth limit and the allowed domains, provided the
/// page limit is not reached; `None` when the crawl ends. Also the queue and
/// the visited list afterwards.
pub open spec fn pop_next(
    queue: Seq<(Seq<char>, nat)>,
    visited: Seq<Seq<char>>,
    max_depth: nat,
    max_pages: nat,
    domains: Option<Seq<Seq<char>>>,
) -> (Option<(Seq<char>, nat)>, Seq<(Seq<char>, nat)>, Seq<Seq<char>>)
    decreases queue.len(),
{
    if queue.len() == 0 {
        (None, queue, visited)
    } else {
        let (url, depth) = queue[0];
        let rest = queue.drop_first();
        if visited.contains(url) {
            pop_next(rest, visited, max_depth, max_pages, domains)
        } else if visited.len() >= max_pages {
            (None, rest, visited)
        } else if depth > max_depth {
            pop_next(rest, visited, max_depth, max_pages, domains)
        } else if !domain_allowed(domains, url) {
            pop_next(rest, visited, max_depth, max_pages, domains)
        } else {
            (Some((url, depth)), rest, visited.push(url))
        }
    }
}

/// A queued URL that may be fetched: not yet visited, within the depth limit
/// and within the allowed domains.
pub open spec fn eligible(
    e: (Seq<char>, nat),
    visited: Seq<Seq<char>>,
    max_depth: nat,
    domains: Option<Seq<Seq<char>>>,
) -> bool {
    !visited.contains(e.0) && e.1 <= max_depth && domain_allowed(domains, e.0)
}

/// The crawl takes the queue in order: the URL handed out is the first
/// eligible one in the queue, fetched only while fewer pages than the limit
/// were visited; it joins the visited list and the queue resumes after it. The
/// crawl ends only when no queued URL is eligible or the page limit is reached.
pub proof fn lemma_pop_next_first_eligible(
    queue: Seq<(Seq<char>, nat)>,
    visited: Seq<Seq<char>>,
    max_depth: nat,
    max_pages: nat,
    domains: Option<Seq<Seq<char>>>,
)
    ensures
        ({
            let (n, q, v) = pop_next(queue, visited, max_depth, max_pages, domains);
            match n {
                Some(e) => {
                    &&& visited.len() < max_pages
                    &&& v == visited.push(e.0)
                    &&& exists|k: int|
                        0 <= k < queue.len() && #[trigger] queue[k] == e && eligible(e, visited, max_depth, domains)
                            && q == queue.skip(k + 1) && forall|j: int|
                            0 <= j < k ==> !eligible(#[trigger] queue[j], visited, max_depth, domains)
                },
                None => {
                    &&& v == visited
                    &&& visited.len() >= max_pages || forall|j: int|
                        0 <= j < queue.len() ==> !eligible(#[trigger] queue[j], visited, max_depth, domains)
                },
            }
        }),
    decreases queue.len(),
{
    if queue.len() > 0 {
        let rest = queue.drop_first();
        lemma_pop_next_first_eligible(rest, visited, max_depth, max_pages, domains);
        assert forall|j: int| 0 <= j < rest.len() implies rest[j] == queue[j + 1] by {}
        let (n, q, v) = pop_next(queue, visited, max_depth, max_pages, domains);
        let skip_head = !eligible(queue[0], visited, max_depth, domains);
        if skip_head && !(visited.contains(queue[0].0)) && visited.len() >= max_pages {
        } else if skip_head {
            assert(pop_next(queue, visited, max_depth, max_pages, domains) == pop_next(rest, visited, max_depth, max_pages, domains));
            match n {
                Some(e) => {
                    let k = choose|k: int|
                        0 <= k < rest.len() && #[trigger] rest[k] == e && eligible(e, visited, max_depth, domains)
                            && pop_next(rest, visited, max_depth, max_pages, domains).1 == rest.skip(k + 1)
                            && forall|j: int| 0 <= j < k ==> !eligible(#[trigger] rest[j], visited, max_depth, domains);
                    assert(queue[k + 1] == e);
                    assert(rest.skip(k + 1) =~= queue.skip(k + 2));
                    assert forall|j: int| 0 <= j < k + 1 implies !eligible(#[trigger] queue[j], visited, max_depth, domains) by {
                        if j > 0 {
                            assert(queue[j] == rest[j - 1]);
                        }
                    }
                },
                None => {
                    if visited.len() < max_pages {
                        assert forall|j: int| 0 <= j < queue.len() implies !eligible(#[trigger] queue[j], visited, max_depth, domains) by {
                            if j > 0 {
                                assert(queue[j] == rest[j - 1]);
                            }
                        }
                    }
                },
            }
        } else if visited.len() >= max_pages {
        } else {
            assert(queue[0] == queue[0]);
            assert(rest =~= queue.skip(1));
        }
    }
}

/// The links of a page fetched at depth `depth` that are queued, at depth
/// `depth + 1`, in page order: each with its trailing slashes dropped, unless
/// that form was visited already.
pub open spec fn links_to_queue(links: Seq<Seq<char>>, visited: Seq<Seq<char>>, depth: nat) -> Seq<
    (Seq<char>, nat),
>
    decreases links.len(),
{
    if links.len() == 0 {
        seq![]
    } else {
        let link = trim_trailing_slashes(links[0]);
        let head = if visited.contains(link) {
            Seq::<(Seq<char>, nat)>::empty()
        } else {
            seq![(link, depth + 1)]
        };
        head + links_to_queue(links.drop_first(), visited, depth)
    }
}

/// The links queued from a page are its links in their form without trailing
/// slashes, one level deeper: a (URL, depth) pair is queued when and only when
/// the depth is one more than the page's, the URL was not visited, and some
/// link of the page has that form; no more are queued than the page has links.
pub proof fn lemma_links_to_queue_members(
    links: Seq<Seq<char>>,
    visited: Seq<Seq<char>>,
    depth: nat,
    e: (Seq<char>, nat),
)
    ensures
        links_to_queue(links, visited, depth).contains(e) <==> e.1 == depth + 1 && !visited.contains(e.0)
            && exists|i: int| 0 <= i < links.len() && trim_trailing_slashes(#[trigger] links[i]) == e.0,
        links_to_queue(links, visited, depth).len() <= links.len(),
    decreases links.len(),
{
    if links.len() > 0 {
        let rest = links.drop_first();
        lemma_links_to_queue_members(rest, visited, depth, e);
        let link = trim_trailing_slashes(links[0]);
        let head = if visited.contains(link) {
            Seq::<(Seq<char>, nat)>::empty()
        } else {
            seq![(link, depth + 1)]
        };
        let tail = links_to_queue(rest, visited, depth);
        let all = head + tail;
        assert(links_to_queue(links, visited, depth) == all);
        assert forall|i: int| 0 <= i < rest.len() implies rest[i] == links[i + 1] by {}
        if tail.contains(e) {
            let k = choose|k: int| 0 <= k < tail.len() && tail[k] == e;
            assert(all[head.len() + k] == e);
        }
        if !visited.contains(link) {
            assert(all[0] == (link, depth + 1));
        }
        if all.contains(e) {
            let k = choose|k: int| 0 <= k < all.len() && all[k] == e;
            if k >= head.len() {
                assert(tail[k - head.len()] == e);
            }
        }
        if exists|i: int| 0 <= i < links.len() && trim_trailing_slashes(#[trigger] links[i]) == e.0 {
            let i = choose|i: int| 0 <= i < links.len() && trim_trailing_slashes(#[trigger] links[i]) == e.0;
            if i > 0 {
                assert(rest[i - 1] == links[i]);
            }
        }
        if exists|i: int| 0 <= i < rest.len() && trim_trailing_slashes(#[trigger] rest[i]) == e.0 {
            let i = choose|i: int| 0 <= i < rest.len() && trim_trailing_slashes(#[trigger] rest[i]) == e.0;
            assert(links[i + 1] == rest[i]);
        }
    }
}

/// What to do next in a crawl.
pub enum CrawlStep {
    /// Fetch this URL, found at this depth.
    Fetch(String, usize),
    /// The crawl is over.
    Done,
}

/// The state of a crawl: URLs queued with their depth, and URLs visited.
pub struct CrawlFrontier {
    queue: Vec<(String, usize)>,
    visited: Vec<String>,
    max_depth: usize,
    max_pages: usize,
    allowed_domains: Option<Vec<String>>,
}

impl CrawlFrontier {
    /// Queued URLs and their depths, the next one first.
    pub closed spec fn queue(&self) -> Seq<(Seq<char>, nat)> {
        self.queue@.map_values(|e: (String, usize)| entry_view(e))
    }

    /// URLs visited, in the order they were handed out.
    pub closed spec fn visited(&self) -> Seq<Seq<char>> {
        self.visited@.map_values(|s: String| s@)
    }

    /// The depth limit.
    pub closed spec fn max_depth(&self) -> nat {
        self.max_depth as nat
    }

    /// The page limit.
    pub closed spec fn max_pages(&self) -> nat {
        self.max_pages as nat
    }

    /// The domain list, if the crawl is restricted.
    pub closed spec fn domains(&self) -> Option<Seq<Seq<char>>> {
        match self.allowed_domains {
            None => None,
            Some(ds) => Some(ds@.map_values(|s: String| s@)),
        }
    }

    /// No URL is visited twice, no more pages than the limit are visited, and
    /// every visited or queued URL is in the form without trailing slashes.
    pub closed spec fn wf(&self) -> bool {
        &&& self.visited().no_duplicates()
        &&& self.visited().len() <= self.max_pages()
        &&& forall|i: int|
            0 <= i < self.visited().len() ==> trim_trailing_slashes(#[trigger] self.visited()[i])
                == self.visited()[i]
        &&& forall|i: int|
            0 <= i < self.queue().len() ==> trim_trailing_slashes(#[trigger] self.queue()[i].0)
                == self.queue()[i].0
    }

    /// A crawl that starts from `start_url`, normalized, at depth 0.
    pub fn new(config: &CrawlConfig, start_url: &str) -> (r: Self)
        ensures
            r.wf(),
            r.queue() == seq![(trim_trailing_slashes(start_url@), 0nat)],
            r.visited() == Seq::<Seq<char>>::empty(),
            r.max_depth() == config.max_depth,
            r.max_pages() == config.max_pages,
            r.domains() == match config.allowed_domains {
                None => None::<Seq<Seq<char>>>,
                Some(ds) => Some(ds@.map_values(|s: String| s@)),
            },
    {
        let start = normalize_url(start_url);
        let mut queue: Vec<(String, usize)> = Vec::new();
        queue.push((start, 0));
        let allowed_domains = match &config.allowed_domains {
            None => None,
            Some(ds) => Some(crate::text::clone_strings(ds)),
        };
        let r = CrawlFrontier {
            queue,
            visited: Vec::new(),
            max_depth: config.max_depth,
            max_pages: config.max_pages,
            allowed_domains,
        };
        assert(r.queue() =~= seq![(trim_trailing_slashes(start_url@), 0nat)]);
        assert(r.visited() =~= Seq::<Seq<char>>::empty());
        proof {
            lemma_trim_trailing_slashes_idempotent(start_url@);
        }
        r
    }

    /// Hands out the next URL to fetch, marking it visited, or ends the crawl.
    pub fn next(&mut self) -> (step: CrawlStep)
        requires
            old(self).wf(),
        ensures
            final(self).wf(),
            final(self).visited().no_duplicates(),
            final(self).visited().len() <= final(self).max_pages(),
            final(self).max_depth() == old(self).max_depth(),
            final(self).max_pages() == old(self).max_pages(),
            final(self).domains() == old(self).domains(),
            ({
                let (n, q, v) = pop_next(
                    old(self).queue(),
                    old(self).visited(),
                    old(self).max_depth(),
                    old(self).max_pages(),
                    old(self).domains(),
                );
                &&& final(self).queue() == q
                &&& final(self).visited() == v
                &&& match step {
                    CrawlStep::Fetch(url, depth) => n == Some((url@, depth as nat)),
                    CrawlStep::Done => n is None,
                }
            }),
            step matches CrawlStep::Fetch(url, depth) ==> !old(self).visited().contains(url@)
                && depth <= old(self).max_depth() && domain_allowed(old(self).domains(), url@)
                && final(self).visited() == old(self).visited().push(url@),
            forall|a: int, b: int|
                0 <= a < b < final(self).visited().len() ==> trim_trailing_slashes(
                    #[trigger] final(self).visited()[a],
                ) != trim_trailing_slashes(#[trigger] final(self).visited()[b]),
    {
        let ghost q0 = self.queue();
        let ghost v0 = self.visited();
        let ghost md = self.max_depth();
        let ghost mp = self.max_pages();
        let ghost ds = self.domains();
        let mut i: usize = 0;
        assert(q0.skip(0) =~= q0);
        while i < self.queue.len()
            invariant
                i <= self.queue@.len(),
                self.queue() == q0,
                self.visited() == v0,
                v0.no_duplicates(),
                v0.len() <= mp,
                md == self.max_depth(),
                mp == self.max_pages(),
                ds == self.domains(),
                q0 == old(self).queue(),
                v0 == old(self).visited(),
                md == old(self).max_depth(),
                mp == old(self).max_pages(),
                ds == old(self).domains(),
                pop_next(q0.skip(i as int), v0, md, mp, ds) == pop_next(q0, v0, md, mp, ds),
                forall|k: int| 0 <= k < q0.len() ==> trim_trailing_slashes(#[trigger] q0[k].0) == q0[k].0,
                forall|k: int| 0 <= k < v0.len() ==> trim_trailing_slashes(#[trigger] v0[k]) == v0[k],
            decreases self.queue.len() - i,
        {
            let ghost rest = q0.skip(i as int);
            assert(rest[0] == entry_view(self.queue@[i as int]));
            assert(rest.drop_first() =~= q0.skip(i + 1));
            let seen = self.is_visited(&self.queue[i].0);
            if seen {
                i = i + 1;
            } else if self.visited.len() >= self.max_pages {
                let ghost v_len = self.visited@.len();
                self.drop_front(i + 1);
                assert forall|k: int| 0 <= k < self.queue().len() implies trim_trailing_slashes(
                    #[trigger] self.queue()[k].0,
                ) == self.queue()[k].0 by {
                    assert(self.queue()[k] == q0[k + i + 1]);
                }
                return CrawlStep::Done;
            } else if self.queue[i].1 > self.max_depth {
                i = i + 1;
            } else if !self.allowed(&self.queue[i].0) {
                i = i + 1;
            } else {
                let url = self.queue[i].0.clone();
                let depth = self.queue[i].1;
                self.drop_front(i + 1);
                let ghost before = self.visited();
                self.visited.push(url.clone());
                assert(self.visited() =~= before.push(url@));
                assert(url@ == q0[i as int].0);
                assert forall|k: int| 0 <= k < self.queue().len() implies trim_trailing_slashes(
                    #[trigger] self.queue()[k].0,
                ) == self.queue()[k].0 by {
                    assert(self.queue()[k] == q0[k + i + 1]);
                }
                assert forall|k: int| 0 <= k < self.visited().len() implies trim_trailing_slashes(
                    #[trigger] self.visited()[k],
                ) == self.visited()[k] by {
                    if k < before.len() {
                        assert(self.visited()[k] == v0[k]);
                    }
                }
                proof {
                    assert forall|a: int, b: int|
                        0 <= a < b < self.visited().len() implies self.visited()[a]
                        != self.visited()[b] by {
                        if b == before.len() {
                            assert(before[a] == self.visited()[a]);
                            if before[a] == url@ {
                                assert(before.contains(url@));
                            }
                        }
                    }
                }
                return CrawlStep::Fetch(url, depth);
            }
        }
        assert(q0.skip(i as int) =~= Seq::<(Seq<char>, nat)>::empty());
        self.queue.clear();
        assert(self.queue() =~= Seq::<(Seq<char>, nat)>::empty());
        CrawlStep::Done
    }

    /// Reports the links found on a page fetched at `depth`; within the depth
    /// limit, those not yet visited are queued at `depth + 1`.
    pub fn on_fetched(&mut self, depth: usize, links: &Vec<String>)
        requires
            old(self).wf(),
        ensures
            final(self).wf(),
            final(self).visited() == old(self).visited(),
            final(self).max_depth() == old(self).max_depth(),
            final(self).max_pages() == old(self).max_pages(),
            final(self).domains() == old(self).domains(),
            depth < old(self).max_depth() ==> final(self).queue() == old(self).queue()
                + links_to_queue(links@.map_values(|s: String| s@), old(self).visited(), depth as nat),
            depth >= old(self).max_depth() ==> final(self).queue() == old(self).queue(),
    {
        if depth >= self.max_depth {
            return;
        }
        let ghost ls = links@.map_values(|s: String| s@);
        let ghost q0 = self.queue();
        let ghost v = self.visited();
        let mut i: usize = 0;
        assert(ls.skip(0) =~= ls);
        while i < links.len()
            invariant
                i <= links@.len(),
                depth < self.max_depth,
                ls == links@.map_values(|s: String| s@),
                v == self.visited(),
                old(self).visited() == v,
                self.max_depth() == old(self).max_depth(),
                self.max_pages() == old(self).max_pages(),
                self.domains() == old(self).domains(),
                self.queue() + links_to_queue(ls.skip(i as int), v, depth as nat) == q0
                    + links_to_queue(ls, v, depth as nat),
                forall|k: int|
                    0 <= k < self.queue().len() ==> trim_trailing_slashes(#[trigger] self.queue()[k].0)
                        == self.queue()[k].0,
                forall|k: int| 0 <= k < v.len() ==> trim_trailing_slashes(#[trigger] v[k]) == v[k],
                v.no_duplicates(),
                v.len() <= self.max_pages(),
            decreases links.len() - i,
        {
            let ghost before = self.queue();
            assert(ls.skip(i as int).drop_first() =~= ls.skip(i + 1));
            assert(ls.skip(i as int)[0] == links@[i as int]@);
            let link = normalize_url(links[i].as_str());
            proof {
                lemma_trim_trailing_slashes_idempotent(links@[i as int]@);
            }
            if !self.is_visited(&link) {
                self.queue.push((link, depth + 1));
                assert(self.queue() =~= before.push((trim_trailing_slashes(links@[i as int]@), (depth + 1) as nat)));
                assert(self.queue() + links_to_queue(ls.skip(i + 1), v, depth as nat) =~= before
                    + links_to_queue(ls.skip(i as int), v, depth as nat));
            } else {
                assert(links_to_queue(ls.skip(i as int), v, depth as nat) =~= links_to_queue(
                    ls.skip(i + 1),
                    v,
                    depth as nat,
                ));
            }
            i = i + 1;
        }
        assert(ls.skip(i as int) =~= Seq::<Seq<char>>::empty());
        assert(self.queue() + Seq::<(Seq<char>, nat)>::empty() =~= self.queue());
    }

    /// Whether `url` was visited.
    fn is_visited(&self, url: &String) -> (b: bool)
        ensures
            b == self.visited().contains(url@),
    {
        let mut i: usize = 0;
        while i < self.visited.len()
            invariant
                i <= self.visited@.len(),
                forall|j: int| 0 <= j < i ==> self.visited()[j] != url@,
            decreases self.visited.len() - i,
        {
            if self.visited[i] == *url {
                assert(self.visited()[i as int] == url@);
                return true;
            }
            i = i + 1;
        }
        false
    }

    /// Whether `url` passes the domain restriction.
    fn allowed(&self, url: &String) -> (b: bool)
        ensures
            b == domain_allowed(self.domains(), url@),
    {
        match &self.allowed_domains {
            None => true,
            Some(ds) => match url_host(url.as_str()) {
                None => true,
                Some(host) => {
                    let h = chars_of(host.as_str());
                    let ghost dv = ds@.map_values(|s: String| s@);
                    assert(url_host_of(url@) == Some(host@));
                    assert(self.domains() == Some(dv));
                    let mut i: usize = 0;
                    while i < ds.len()
                        invariant
                            i <= ds@.len(),
                            url_host_of(url@) == Some(host@),
                            self.domains() == Some(dv),
                            dv == ds@.map_values(|s: String| s@),
                            h@ == host@,
                            forall|j: int| 0 <= j < i ==> !contains_seq(host@, #[trigger] dv[j]),
                        decreases ds.len() - i,
                    {
                        if contains(&h, &chars_of(ds[i].as_str())) {
                            assert(dv.len() == ds@.len());
                            assert(0 <= i < dv.len() && contains_seq(host@, dv[i as int]));
                            assert(host_matches(host@, dv));
                            return true;
                        }
                        i = i + 1;
                    }
                    false
                },
            },
        }
    }

    /// Drops the first `k` queued entries.
    fn drop_front(&mut self, k: usize)
        requires
            k <= old(self).queue@.len(),
        ensures
            final(self).queue() == old(self).queue().skip(k as int),
            final(self).visited@ == old(self).visited@,
            final(self).max_depth == old(self).max_depth,
            final(self).max_pages == old(self).max_pages,
            final(self).allowed_domains == old(self).allowed_domains,
    {
        let mut rest: Vec<(String, usize)> = self.queue.split_off(k);
        std::mem::swap(&mut self.queue, &mut rest);
        assert(self.queue() =~= old(self).queue().skip(k as int));
    }
}

/// The number of whitespace-separated words of `s` (`split_whitespace().count()`).
pub open spec fn word_count(s: Seq<char>) -> nat
    decreases s.len(),
{
    if s.len() == 0 {
        0
    } else if !is_ws(s[0]) && (s.len() == 1 || is_ws(s[1])) {
        1 + word_count(s.drop_first())
    } else {
        word_count(s.drop_first())
    }
}

/// Counts the whitespace-separated words of `text`.
pub fn count_words(text: &str) -> (r: usize)
    ensures
        r == word_count(text@),
{
    let v = chars_of(text);
    let mut n: usize = 0;
    let mut i: usize = v.len();
    assert(v@.skip(v@.len() as int) =~= Seq::<char>::empty());
    while i > 0
        invariant
            i <= v@.len(),
            v@ == text@,
            n == word_count(v@.skip(i as int)),
            n <= v@.len() - i,
        decreases i,
    {
        let j = i - 1;
        assert(v@.skip(j as int).drop_first() =~= v@.skip(i as int));
        if !is_whitespace(v[j]) && (j + 1 == v.len() || is_whitespace(v[j + 1])) {
            n = n + 1;
        }
        i = j;
    }
    assert(v@.skip(0) =~= v@);
    n
}

/// The text of the embedded Next.js state script: whatever stands between the
/// `>` that closes the `<script id="__NEXT_DATA__"` tag and the next `</script>`.
pub open spec fn next_data_span(html: Seq<char>, start: int, open_end: int, close: int) -> bool {
    &&& crate::text::first_occurrence_from(html, "<script id=\"__NEXT_DATA__\""@, 0, start)
    &&& crate::text::first_occurrence_from(html, ">"@, start, open_end)
    &&& crate::text::first_occurrence_from(html, "</script>"@, open_end + 1, close)
}

/// The payload of the Next.js state script of `html`, if it has one.
pub open spec fn next_data_of(html: Seq<char>) -> Option<Seq<char>> {
    if exists|a: int, b: int, c: int| next_data_span(html, a, b, c) {
        let (a, b, c) = choose|a: int, b: int, c: int| next_data_span(html, a, b, c);
        Some(html.subrange(b + 1, c))
    } else {
        None
    }
}

proof fn lemma_first_occurrence_unique(s: Seq<char>, pat: Seq<char>, from: int, i: int, j: int)
    requires
        crate::text::first_occurrence_from(s, pat, from, i),
        crate::text::first_occurrence_from(s, pat, from, j),
    ensures
        i == j,
{
    if i < j {
        assert(!crate::text::occurs_at(s, pat, i));
    } else if j < i {
        assert(!crate::text::occurs_at(s, pat, j));
    }
}

proof fn lemma_next_data_span_unique(html: Seq<char>, a: int, b: int, c: int)
    requires
        next_data_span(html, a, b, c),
    ensures
        next_data_of(html) == Some(html.subrange(b + 1, c)),
{
    let (a2, b2, c2) = choose|a: int, b: int, c: int| next_data_span(html, a, b, c);
    lemma_first_occurrence_unique(html, "<script id=\"__NEXT_DATA__\""@, 0, a, a2);
    lemma_first_occurrence_unique(html, ">"@, a, b, b2);
    lemma_first_occurrence_unique(html, "</script>"@, b + 1, c, c2);
}

/// The payload of the Next.js state script of `html`, if the page has one.
pub fn next_data_payload(html: &str) -> (r: Option<String>)
    ensures
        r matches Some(p) ==> next_data_of(html@) == Some(p@),
        r is None ==> next_data_of(html@) is None,
{
    let v = chars_of(html);
    let marker = chars_of("<script id=\"__NEXT_DATA__\"");
    let gt = chars_of(">");
    let close = chars_of("</script>");
    match crate::text::find_from(&v, &marker, 0) {
        None => None,
        Some(start) => match crate::text::find_from(&v, &gt, start) {
            None => {
                assert forall|a: int, b: int, c: int| !next_data_span(html@, a, b, c) by {
                    if next_data_span(html@, a, b, c) {
                        if a != start as int {
                            if a < start {
                                assert(!crate::text::occurs_at(html@, marker@, a));
                            } else {
                                assert(!crate::text::occurs_at(html@, marker@, start as int));
                            }
                        }
                    }
                }
                None
            },
            Some(open_end) => {
                proof {
                    reveal_strlit(">");
                    assert(gt@.len() == 1);
                    assert(crate::text::occurs_at(v@, gt@, open_end as int));
                }
                let n = v.len();
                assert(open_end + 1 <= n);
                match crate::text::find_from(&v, &close, open_end + 1) {
                    None => {
                        assert forall|a: int, b: int, c: int| !next_data_span(html@, a, b, c) by {
                            if next_data_span(html@, a, b, c) {
                                if a != start as int {
                                    if a < start {
                                        assert(!crate::text::occurs_at(html@, marker@, a));
                                    } else {
                                        assert(!crate::text::occurs_at(
                                            html@,
                                            marker@,
                                            start as int,
                                        ));
                                    }
                                }
                                if b != open_end as int {
                                    if b < open_end {
                                        assert(!crate::text::occurs_at(html@, gt@, b));
                                    } else {
                                        assert(!crate::text::occurs_at(html@, gt@, open_end as int));
                                    }
                                }
                            }
                        }
                        None
                    },
                    Some(end) => {
                        let p = string_of_range(&v, open_end + 1, end);
                        assert(next_data_span(html@, start as int, open_end as int, end as int));
                        proof {
                            lemma_next_data_span_unique(
                                html@,
                                start as int,
                                open_end as int,
                                end as int,
                            );
                        }
                        Some(p)
                    },
                }
            },
        },
    }
}

/// The text kept for a page: the Next.js state, when the page embeds one that
/// parses as JSON, followed by the visible text; otherwise the visible text alone.
pub open spec fn page_text_spec(html: Seq<char>, visible: Seq<char>) -> Seq<char> {
    let state = match next_data_of(html) {
        Some(p) => json_debug_of(p),
        None => None,
    };
    match state {
        Some(d) => "SPA JSON Data:\n"@ + d + "\n\nExtracted Visible Text:\n"@ + visible,
        None => visible,
    }
}

/// Assembles the text kept for a page from its HTML and its visible text.
pub fn page_text(html: &str, visible_text: &str) -> (r: String)
    ensures
        r@ == page_text_spec(html@, visible_text@),
{
    let state = match next_data_payload(html) {
        Some(p) => json_debug(p.as_str()),
        None => None,
    };
    match state {
        Some(d) => {
            let mut text = String::from_str("SPA JSON Data:\n");
            text.append(d.as_str());
            text.append("\n\nExtracted Visible Text:\n");
            text.append(visible_text);
            text
        },
        None => visible_text.to_owned(),
    }
}

/// What is kept of a fetched page: its title, text, author, word count and links.
pub struct PageDigest {
    pub title: String,
    pub content: String,
    pub author: Option<String>,
    pub word_count: usize,
    pub links: Vec<String>,
}

/// Reads a fetched page: title and author from the extractor, the text with the
/// embedded application state (when there is one) ahead of the visible text, the
/// words of the visible text counted, and the page's links resolved against its URL.
pub fn digest_page(html: &str, url: &str) -> (r: PageDigest)
    ensures
        r.title@ == crate::extractor::title_of(html@),
        r.content@ == page_text_spec(html@, crate::extractor::main_content_of(html@)),
        crate::extractor::opt_text(r.author) == crate::extractor::meta_of(html@, "author"@),
        r.word_count == word_count(crate::extractor::main_content_of(html@)),
        r.links@.map_values(|s: String| s@) == crate::extractor::links_of(html@, url@),
{
    let extractor = crate::extractor::ContentExtractor::new();
    let extracted = extractor.extract(html, url);
    let links = extractor.extract_links(html, url);
    let content = page_text(html, extracted.clean_text.as_str());
    let word_count = count_words(extracted.clean_text.as_str());
    PageDigest { title: extracted.title, content, author: extracted.author, word_count, links }
}

/// Debug rendering (`{:#?}`) of `text` parsed as JSON, when it parses.
pub uninterp spec fn json_debug_of(text: Seq<char>) -> Option<Seq<char>>;

/// `serde_json::from_str::<serde_json::Value>(text)` rendered with `{:#?}`:
/// the claim is only that the rendering is a function of the text.
#[verifier::external_body]
fn json_debug(text: &str) -> (r: Option<String>)
    ensures
        r matches Some(d) ==> json_debug_of(text@) == Some(d@),
        r is None ==> json_debug_of(text@) is None,
{
    match serde_json::from_str::<serde_json::Value>(text) {
        Ok(v) => Some(format!("{:#?}", v)),
        Err(_) => None,
    }
}

} // verus!
