//! Academic sources: the multi-source client and the reading of arXiv's Atom feed.

use vstd::prelude::*;
use crate::text::{
    chars_of, clone_strings, contains, contains_seq, find_from, first_occurrence_from, occurs_at,
    remove_all, remove_all_exec, split_newlines, starts_with, starts_with_seq, string_of,
    string_of_range, trim, trim_seq,
};

verus! {

/// An academic paper.
#[derive(Debug, Clone)]
pub struct AcademicPaper {
    pub title: String,
    pub authors: Vec<String>,
    pub abstract_text: String,
    pub year: Option<u32>,
    pub url: String,
    pub pdf_url: Option<String>,
    pub doi: Option<String>,
    pub citation_count: Option<u32>,
    pub source: String,
    pub venue: Option<String>,
}

/// A client over academic sources of type `S`, queried in the order they were added.
pub struct AcademicClient<S> {
    sources: Vec<S>,
}

impl<S> AcademicClient<S> {
    /// The sources, in order.
    pub closed spec fn sources(&self) -> Seq<S> {
        self.sources@
    }

    /// A client with no source.
    pub fn new() -> (r: Self)
        ensures
            r.sources() == Seq::<S>::empty(),
    {
        AcademicClient { sources: Vec::new() }
    }

    /// Adds a source after the others.
    pub fn add_source(&mut self, source: S)
        ensures
            final(self).sources() == old(self).sources().push(source),
    {
        self.sources.push(source);
    }

    /// The default client: arXiv first, then Semantic Scholar.
    pub fn default_client(arxiv: S, semantic_scholar: S) -> (r: Self)
        ensures
            r.sources() == seq![arxiv, semantic_scholar],
    {
        let mut client = Self::new();
        client.add_source(arxiv);
        client.add_source(semantic_scholar);
        assert(client.sources() =~= seq![arxiv, semantic_scholar]);
        client
    }

    /// The number of sources.
    pub fn source_count(&self) -> (r: usize)
        ensures
            r == self.sources().len(),
    {
        self.sources.len()
    }

    /// The source at position `i`.
    pub fn source(&self, i: usize) -> (r: &S)
        requires
            i < self.sources().len(),
        ensures
            *r == self.sources()[i as int],
    {
        &self.sources[i]
    }
}

/// The concatenation of the sources' paper lists, in source order.
pub open spec fn concat_papers(per_source: Seq<Vec<AcademicPaper>>) -> Seq<AcademicPaper>
    decreases per_source.len(),
{
    if per_source.len() == 0 {
        seq![]
    } else {
        concat_papers(per_source.drop_last()) + per_source.last()@
    }
}

/// Collects the papers of the sources that answered, in source order.
pub fn merge_papers(per_source: Vec<Vec<AcademicPaper>>) -> (r: Vec<AcademicPaper>)
    ensures
        r@ == concat_papers(per_source@),
{
    let ghost lists = per_source@;
    let n = per_source.len();
    let mut rest = per_source;
    let mut all: Vec<AcademicPaper> = Vec::new();
    let mut e: usize = 0;
    while rest.len() > 0
        invariant
            e + rest@.len() == lists.len(),
            lists.len() == n,
            rest@ == lists.skip(e as int),
            all@ == concat_papers(lists.take(e as int)),
        decreases rest.len(),
    {
        let mut next = rest.remove(0);
        assert(lists.take(e + 1).drop_last() =~= lists.take(e as int));
        assert(lists.take(e + 1).last() == lists[e as int]);
        all.append(&mut next);
        e = e + 1;
        assert(rest@ =~= lists.skip(e as int));
    }
    assert(lists.take(e as int) =~= lists);
    all
}

/// The value of the first `href="..."` attribute of `line`, if it is closed.
pub open spec fn href_of(line: Seq<char>) -> Option<Seq<char>> {
    if exists|p: int| first_occurrence_from(line, "href=\""@, 0, p) {
        let p = choose|p: int| first_occurrence_from(line, "href=\""@, 0, p);
        let rest = line.skip(p + 6);
        if exists|e: int| first_occurrence_from(rest, "\""@, 0, e) {
            let e = choose|e: int| first_occurrence_from(rest, "\""@, 0, e);
            Some(rest.take(e))
        } else {
            None
        }
    } else {
        None
    }
}

proof fn lemma_choose_first(s: Seq<char>, pat: Seq<char>, i: int)
    requires
        first_occurrence_from(s, pat, 0, i),
    ensures
        (choose|p: int| first_occurrence_from(s, pat, 0, p)) == i,
{
    let c = choose|p: int| first_occurrence_from(s, pat, 0, p);
    if c < i {
        assert(!occurs_at(s, pat, c));
    } else if i < c {
        assert(!occurs_at(s, pat, i));
    }
}

fn href_chars(line: &Vec<char>) -> (r: Option<Vec<char>>)
    ensures
        r matches Some(h) ==> href_of(line@) == Some(h@),
        r is None ==> href_of(line@) is None,
{
    let marker = chars_of("href=\"");
    let quote = chars_of("\"");
    proof {
        reveal_strlit("href=\"");
        reveal_strlit("\"");
    }
    match find_from(line, &marker, 0) {
        None => {
            assert(!exists|p: int| first_occurrence_from(line@, "href=\""@, 0, p));
            None
        },
        Some(start) => {
            proof {
                lemma_choose_first(line@, "href=\""@, start as int);
                assert(occurs_at(line@, marker@, start as int));
            }
            let n = line.len();
            assert(start + 6 <= n);
            let mut rest: Vec<char> = Vec::new();
            let mut k = start + 6;
            while k < n
                invariant
                    start + 6 <= k <= n,
                    n == line@.len(),
                    rest@ == line@.subrange(start + 6, k as int),
                decreases n - k,
            {
                rest.push(line[k]);
                k = k + 1;
                assert(rest@ =~= line@.subrange(start + 6, k as int));
            }
            assert(rest@ =~= line@.skip(start + 6));
            match find_from(&rest, &quote, 0) {
                Some(end) => {
                    proof {
                        lemma_choose_first(rest@, "\""@, end as int);
                        assert(occurs_at(rest@, quote@, end as int));
                    }
                    let mut h: Vec<char> = Vec::new();
                    let mut j: usize = 0;
                    while j < end
                        invariant
                            j <= end <= rest@.len(),
                            h@ == rest@.take(j as int),
                        decreases end - j,
                    {
                        h.push(rest[j]);
                        j = j + 1;
                        assert(h@ =~= rest@.take(j as int));
                    }
                    Some(h)
                },
                None => {
                    assert(!exists|e: int| first_occurrence_from(rest@, "\""@, 0, e));
                    None
                },
            }
        },
    }
}

/// The value of the first closed `href="..."` attribute of an XML line.
pub fn extract_href(line: &str) -> (r: Option<String>)
    ensures
        r matches Some(h) ==> href_of(line@) == Some(h@),
        r is None ==> href_of(line@) is None,
{
    let v = chars_of(line);
    match href_chars(&v) {
        Some(h) => Some(string_of(&h)),
        None => None,
    }
}

/// A paper as read from the feed: title, authors, summary, link and PDF link.
pub struct FeedPaper {
    pub title: Seq<char>,
    pub authors: Seq<Seq<char>>,
    pub summary: Seq<char>,
    pub url: Seq<char>,
    pub pdf: Option<Seq<char>>,
}

/// Where the reading of a feed stands.
pub struct FeedState {
    pub papers: Seq<FeedPaper>,
    pub in_entry: bool,
    pub title: Seq<char>,
    pub summary: Seq<char>,
    pub authors: Seq<Seq<char>>,
    pub url: Seq<char>,
    pub pdf: Option<Seq<char>>,
}

/// The text of a one-line element: the line with its open and close tags
/// removed, trimmed.
pub open spec fn element_text(line: Seq<char>, open: Seq<char>, close: Seq<char>) -> Seq<char> {
    trim_seq(remove_all(remove_all(line, open), close))
}

/// What one (trimmed) line of the feed does to the reading.
pub open spec fn feed_step(st: FeedState, line: Seq<char>) -> FeedState {
    if contains_seq(line, "<entry>"@) {
        FeedState {
            papers: st.papers,
            in_entry: true,
            title: seq![],
            summary: seq![],
            authors: seq![],
            url: seq![],
            pdf: None,
        }
    } else if contains_seq(line, "</entry>"@) && st.in_entry {
        FeedState {
            papers: if st.title.len() > 0 {
                st.papers.push(
                    FeedPaper {
                        title: st.title,
                        authors: st.authors,
                        summary: st.summary,
                        url: st.url,
                        pdf: st.pdf,
                    },
                )
            } else {
                st.papers
            },
            in_entry: false,
            ..st
        }
    } else if st.in_entry {
        if starts_with_seq(line, "<title>"@) {
            FeedState { title: element_text(line, "<title>"@, "</title>"@), ..st }
        } else if starts_with_seq(line, "<summary>"@) {
            FeedState { summary: element_text(line, "<summary>"@, "</summary>"@), ..st }
        } else if contains_seq(line, "<name>"@) {
            FeedState { authors: st.authors.push(element_text(line, "<name>"@, "</name>"@)), ..st }
        } else if contains_seq(line, "rel=\"alternate\""@) {
            match href_of(line) {
                Some(h) => FeedState { url: h, ..st },
                None => st,
            }
        } else if contains_seq(line, "title=\"pdf\""@) {
            match href_of(line) {
                Some(h) => FeedState { pdf: Some(h), ..st },
                None => st,
            }
        } else {
            st
        }
    } else {
        st
    }
}

/// The reading before any line.
pub open spec fn feed_start() -> FeedState {
    FeedState {
        papers: seq![],
        in_entry: false,
        title: seq![],
        summary: seq![],
        authors: seq![],
        url: seq![],
        pdf: None,
    }
}

/// The reading after the given lines, each trimmed first.
pub open spec fn feed_run(lines: Seq<Seq<char>>) -> FeedState
    decreases lines.len(),
{
    if lines.len() == 0 {
        feed_start()
    } else {
        feed_step(feed_run(lines.drop_last()), trim_seq(lines.last()))
    }
}

/// The papers of an arXiv Atom feed, read line by line. (Reading the pieces
/// between newlines, trimmed, is the same as reading `str::lines`, trimmed: a
/// trailing `\r` is whitespace, and an empty line does nothing.)
pub open spec fn arxiv_papers(xml: Seq<char>) -> Seq<FeedPaper> {
    feed_run(split_newlines(xml)).papers
}

/// Two readings that differ only in that the first has read the papers `pre`
/// before the papers of the second.
pub open spec fn reading_after(a: FeedState, b: FeedState, pre: Seq<FeedPaper>) -> bool {
    &&& a.papers == pre + b.papers
    &&& a.in_entry == b.in_entry
    &&& a.title == b.title
    &&& a.summary == b.summary
    &&& a.authors == b.authors
    &&& a.url == b.url
    &&& a.pdf == b.pdf
}

proof fn lemma_step_after(a: FeedState, b: FeedState, pre: Seq<FeedPaper>, line: Seq<char>)
    requires
        reading_after(a, b, pre),
    ensures
        reading_after(feed_step(a, line), feed_step(b, line), pre),
{
    if contains_seq(line, "<entry>"@) {
    } else if contains_seq(line, "</entry>"@) && b.in_entry {
        if b.title.len() > 0 {
            let p = FeedPaper { title: b.title, authors: b.authors, summary: b.summary, url: b.url, pdf: b.pdf };
            assert((pre + b.papers).push(p) =~= pre + b.papers.push(p));
        }
    }
}

proof fn lemma_run_after(l1: Seq<Seq<char>>, l2: Seq<Seq<char>>)
    requires
        l2.len() > 0,
        contains_seq(trim_seq(l2[0]), "<entry>"@),
    ensures
        reading_after(feed_run(l1 + l2), feed_run(l2), feed_run(l1).papers),
    decreases l2.len(),
{
    let pre = feed_run(l1).papers;
    if l2.len() == 1 {
        assert((l1 + l2).drop_last() =~= l1);
        assert((l1 + l2).last() == l2[0]);
        assert(l2.drop_last() =~= Seq::<Seq<char>>::empty());
        assert(pre + Seq::<FeedPaper>::empty() =~= pre);
    } else {
        let l2s = l2.drop_last();
        assert(l2s[0] == l2[0]);
        lemma_run_after(l1, l2s);
        assert((l1 + l2).drop_last() =~= l1 + l2s);
        assert((l1 + l2).last() == l2.last());
        lemma_step_after(feed_run(l1 + l2s), feed_run(l2s), pre, trim_seq(l2.last()));
    }
}

/// Entries are read independently of what precedes them: when the lines `l2`
/// begin with a line that opens an entry, the papers read from `l1` followed by
/// `l2` are the papers read from `l1` alone followed by those read from `l2`
/// alone. No title, summary, author or link of an earlier entry is carried
/// into a later one.
pub proof fn lemma_entries_read_independently(l1: Seq<Seq<char>>, l2: Seq<Seq<char>>)
    requires
        l2.len() > 0,
        contains_seq(trim_seq(l2[0]), "<entry>"@),
    ensures
        feed_run(l1 + l2).papers == feed_run(l1).papers + feed_run(l2).papers,
{
    lemma_run_after(l1, l2);
}

/// A line, once trimmed, that names an author inside an entry and does nothing
/// else: it holds `<name>`, neither opens nor closes an entry, and is neither a
/// title nor a summary.
pub open spec fn author_line(line: Seq<char>) -> bool {
    let t = trim_seq(line);
    &&& contains_seq(t, "<name>"@)
    &&& !contains_seq(t, "<entry>"@)
    &&& !contains_seq(t, "</entry>"@)
    &&& !starts_with_seq(t, "<title>"@)
    &&& !starts_with_seq(t, "<summary>"@)
}

/// The author named on an author line.
pub open spec fn author_named(line: Seq<char>) -> Seq<char> {
    element_text(trim_seq(line), "<name>"@, "</name>"@)
}

proof fn lemma_author_lines(head: Seq<Seq<char>>, names: Seq<Seq<char>>)
    requires
        feed_run(head).in_entry,
        forall|k: int| 0 <= k < names.len() ==> author_line(#[trigger] names[k]),
    ensures
        feed_run(head + names).in_entry,
        feed_run(head + names).authors == feed_run(head).authors + names.map_values(
            |n: Seq<char>| author_named(n),
        ),
        feed_run(head + names).papers == feed_run(head).papers,
        feed_run(head + names).title == feed_run(head).title,
        feed_run(head + names).summary == feed_run(head).summary,
        feed_run(head + names).url == feed_run(head).url,
        feed_run(head + names).pdf == feed_run(head).pdf,
    decreases names.len(),
{
    if names.len() == 0 {
        assert(head + names =~= head);
        assert(feed_run(head).authors + names.map_values(|n: Seq<char>| author_named(n)) =~= feed_run(head).authors);
    } else {
        let ns = names.drop_last();
        lemma_author_lines(head, ns);
        assert((head + names).drop_last() =~= head + ns);
        assert((head + names).last() == names.last());
        assert(author_line(names[names.len() - 1]));
        assert(names.map_values(|n: Seq<char>| author_named(n)) =~= ns.map_values(
            |n: Seq<char>| author_named(n),
        ).push(author_named(names.last())));
    }
}

/// An entry's authors are its own: an entry made of an opening line, a title
/// line, author lines and a closing line gives one paper, whose title is the
/// title line's text and whose authors are the names on its author lines, in
/// order, whatever lines came before it.
pub proof fn lemma_entry_authors(
    before: Seq<Seq<char>>,
    open: Seq<char>,
    title: Seq<char>,
    names: Seq<Seq<char>>,
    close: Seq<char>,
)
    requires
        contains_seq(trim_seq(open), "<entry>"@),
        starts_with_seq(trim_seq(title), "<title>"@),
        !contains_seq(trim_seq(title), "<entry>"@),
        !contains_seq(trim_seq(title), "</entry>"@),
        element_text(trim_seq(title), "<title>"@, "</title>"@).len() > 0,
        forall|k: int| 0 <= k < names.len() ==> author_line(#[trigger] names[k]),
        contains_seq(trim_seq(close), "</entry>"@),
        !contains_seq(trim_seq(close), "<entry>"@),
    ensures
        ({
            let lines = before + (seq![open, title] + names).push(close);
            let ps = feed_run(lines).papers;
            let n = feed_run(before).papers.len();
            &&& ps.len() == n + 1
            &&& ps[n as int].title == element_text(trim_seq(title), "<title>"@, "</title>"@)
            &&& ps[n as int].authors == names.map_values(|x: Seq<char>| author_named(x))
        }),
{
    let entry = (seq![open, title] + names).push(close);
    lemma_entries_read_independently(before, entry);
    let head = seq![open, title];
    assert(head.drop_last() =~= seq![open]);
    assert(head.last() == title);
    assert(seq![open].drop_last() =~= Seq::<Seq<char>>::empty());
    assert(seq![open].last() == open);
    let s1 = feed_run(seq![open]);
    assert(feed_run(seq![open].drop_last()) == feed_start());
    assert(s1 == feed_step(feed_start(), trim_seq(open)));
    assert(s1.in_entry);
    assert(s1.authors =~= Seq::<Seq<char>>::empty());
    let s2 = feed_run(head);
    assert(s2 == feed_step(s1, trim_seq(title)));
    assert(s2.title == element_text(trim_seq(title), "<title>"@, "</title>"@));
    assert(s2.authors =~= Seq::<Seq<char>>::empty());
    lemma_author_lines(head, names);
    assert(entry.drop_last() =~= head + names);
    assert(entry.last() == close);
    let m = feed_run(head + names);
    assert(feed_run(entry) == feed_step(m, trim_seq(close)));
    assert(m.in_entry && m.title.len() > 0);
    assert(m.authors =~= names.map_values(|x: Seq<char>| author_named(x)));
    assert(feed_run(entry).papers =~= seq![FeedPaper {
        title: m.title,
        authors: m.authors,
        summary: m.summary,
        url: m.url,
        pdf: m.pdf,
    }]);
}

/// How a feed paper is returned: source `arxiv`, no year, DOI, citation count or venue.
pub open spec fn paper_matches(p: AcademicPaper, f: FeedPaper) -> bool {
    &&& p.title@ == f.title
    &&& p.authors@.map_values(|a: String| a@) == f.authors
    &&& p.abstract_text@ == f.summary
    &&& p.url@ == f.url
    &&& match (p.pdf_url, f.pdf) {
        (Some(a), Some(b)) => a@ == b,
        (None, None) => true,
        _ => false,
    }
    &&& p.year is None
    &&& p.doi is None
    &&& p.citation_count is None
    &&& p.source@ == "arxiv"@
    &&& p.venue is None
}

struct FeedReader {
    papers: Vec<AcademicPaper>,
    in_entry: bool,
    title: Vec<char>,
    summary: Vec<char>,
    authors: Vec<String>,
    url: Vec<char>,
    pdf: Option<Vec<char>>,
}

impl FeedReader {
    spec fn matches(&self, st: FeedState) -> bool {
        &&& self.papers@.len() == st.papers.len()
        &&& forall|i: int|
            0 <= i < st.papers.len() ==> paper_matches(#[trigger] self.papers@[i], st.papers[i])
        &&& self.in_entry == st.in_entry
        &&& self.title@ == st.title
        &&& self.summary@ == st.summary
        &&& self.authors@.map_values(|a: String| a@) == st.authors
        &&& self.url@ == st.url
        &&& match (self.pdf, st.pdf) {
            (Some(a), Some(b)) => a@ == b,
            (None, None) => true,
            _ => false,
        }
    }

    fn element(line: &Vec<char>, open: &str, close: &str) -> (r: Vec<char>)
        requires
            open@.len() > 0,
            close@.len() > 0,
        ensures
            r@ == element_text(line@, open@, close@),
    {
        let o = chars_of(open);
        let c = chars_of(close);
        let a = remove_all_exec(line, &o);
        let b = remove_all_exec(&a, &c);
        trim(&b)
    }

    fn step(&mut self, raw: &Vec<char>, Ghost(st): Ghost<FeedState>)
        requires
            old(self).matches(st),
        ensures
            final(self).matches(feed_step(st, trim_seq(raw@))),
    {
        let line = trim(raw);
        proof {
            reveal_strlit("<title>");
            reveal_strlit("</title>");
            reveal_strlit("<summary>");
            reveal_strlit("</summary>");
            reveal_strlit("<name>");
            reveal_strlit("</name>");
        }
        if contains(&line, &chars_of("<entry>")) {
            self.in_entry = true;
            self.title = Vec::new();
            self.summary = Vec::new();
            self.authors = Vec::new();
            self.url = Vec::new();
            self.pdf = None;
            assert(self.authors@.map_values(|a: String| a@) =~= Seq::<Seq<char>>::empty());
        } else if contains(&line, &chars_of("</entry>")) && self.in_entry {
            self.in_entry = false;
            if self.title.len() > 0 {
                let ghost before = self.papers@;
                let paper = AcademicPaper {
                    title: string_of(&self.title),
                    authors: clone_strings(&self.authors),
                    abstract_text: string_of(&self.summary),
                    year: None,
                    url: string_of(&self.url),
                    pdf_url: match &self.pdf {
                        Some(p) => Some(string_of(p)),
                        None => None,
                    },
                    doi: None,
                    citation_count: None,
                    source: "arxiv".to_owned(),
                    venue: None,
                };
                self.papers.push(paper);
                assert(self.papers@ == before.push(paper));
            }
        } else if self.in_entry {
            if starts_with(&line, &chars_of("<title>")) {
                self.title = Self::element(&line, "<title>", "</title>");
            } else if starts_with(&line, &chars_of("<summary>")) {
                self.summary = Self::element(&line, "<summary>", "</summary>");
            } else if contains(&line, &chars_of("<name>")) {
                let name = Self::element(&line, "<name>", "</name>");
                let ghost before = self.authors@;
                let s = string_of(&name);
                self.authors.push(s);
                assert(self.authors@.map_values(|a: String| a@) =~= before.map_values(
                    |a: String| a@,
                ).push(s@));
            } else if contains(&line, &chars_of("rel=\"alternate\"")) {
                match href_chars(&line) {
                    Some(h) => {
                        self.url = h;
                    },
                    None => {},
                }
            } else if contains(&line, &chars_of("title=\"pdf\"")) {
                match href_chars(&line) {
                    Some(h) => {
                        self.pdf = Some(h);
                    },
                    None => {},
                }
            }
        }
    }
}

/// Reads the papers of an arXiv Atom feed: each entry with a title gives a
/// paper with its title, authors, summary, alternate link and PDF link.
pub fn parse_arxiv_feed(xml: &str) -> (r: Vec<AcademicPaper>)
    ensures
        r@.len() == arxiv_papers(xml@).len(),
        forall|i: int| 0 <= i < r@.len() ==> paper_matches(#[trigger] r@[i], arxiv_papers(xml@)[i]),
{
    let v = chars_of(xml);
    let mut reader = FeedReader {
        papers: Vec::new(),
        in_entry: false,
        title: Vec::new(),
        summary: Vec::new(),
        authors: Vec::new(),
        url: Vec::new(),
        pdf: None,
    };
    assert(reader.authors@.map_values(|a: String| a@) =~= Seq::<Seq<char>>::empty());
    let mut line: Vec<char> = Vec::new();
    let mut i: usize = 0;
    proof {
        crate::text::lemma_split_newlines_nonempty(v@.take(0));
        assert(v@.take(0) =~= Seq::<char>::empty());
    }
    while i < v.len()
        invariant
            i <= v@.len(),
            v@ == xml@,
            ({
                let pieces = split_newlines(v@.take(i as int));
                &&& pieces.len() > 0
                &&& line@ == pieces.last()
                &&& reader.matches(feed_run(pieces.drop_last()))
            }),
        decreases v.len() - i,
    {
        let ghost pieces = split_newlines(v@.take(i as int));
        assert(v@.take(i + 1).drop_last() =~= v@.take(i as int));
        assert(v@.take(i + 1).last() == v@[i as int]);
        if v[i] == '\n' {
            reader.step(&line, Ghost(feed_run(pieces.drop_last())));
            assert(pieces.push(seq![]).drop_last() =~= pieces);
            assert(feed_run(pieces) == feed_step(feed_run(pieces.drop_last()), trim_seq(pieces.last())));
            line = Vec::new();
            assert(line@ =~= Seq::<char>::empty());
        } else {
            line.push(v[i]);
            let ghost np = pieces.update(pieces.len() - 1, pieces.last().push(v@[i as int]));
            assert(np.drop_last() =~= pieces.drop_last());
        }
        i = i + 1;
    }
    let ghost pieces = split_newlines(v@.take(i as int));
    reader.step(&line, Ghost(feed_run(pieces.drop_last())));
    assert(v@.take(i as int) =~= xml@);
    assert(feed_run(pieces) == feed_step(feed_run(pieces.drop_last()), trim_seq(pieces.last())));
    reader.papers
}

} // verus!
