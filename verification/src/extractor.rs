//! Content extraction: title, metadata, headings, main text, markdown and links
//! of an HTML page.
//!
//! The HTML parser and CSS selector engine (`scraper`), the whitespace regular
//! expression (`regex`) and URL resolution (`url`) are called through the
//! wrappers below; what the extractor decides from their answers is verified.

use vstd::prelude::*;
use vstd::string::StringExecFns;
use vstd::utf8::encode_utf8;
use crate::text::{
    chars_of, is_ws, join, push_char, seq_join, split_newlines, starts_with, starts_with_seq, string_of,
    trim, trim_back, trim_front, trim_seq,
};

verus! {

/// The text nodes of each element of `html` that `selector` matches, in
/// document order; `None` when the selector does not parse.
pub uninterp spec fn element_text_nodes_of(html: Seq<char>, selector: Seq<char>) -> Option<
    Seq<Seq<Seq<char>>>,
>;

/// The value of attribute `attr` of each element of `html` that `selector`
/// matches; `None` when the selector does not parse.
pub uninterp spec fn element_attrs_of(html: Seq<char>, selector: Seq<char>, attr: Seq<char>) -> Option<
    Seq<Option<Seq<char>>>,
>;

/// `text` with each maximal run of whitespace (Unicode `White_Space`) replaced
/// by one space.
pub open spec fn ws_collapsed_of(text: Seq<char>) -> Seq<char>
    decreases text.len(),
{
    if text.len() == 0 {
        text
    } else {
        let rest = ws_collapsed_of(text.drop_last());
        let c = text.last();
        if !is_ws(c) {
            rest.push(c)
        } else if text.len() > 1 && is_ws(text[text.len() - 2]) {
            rest
        } else {
            rest.push(' ')
        }
    }
}

/// `href` resolved against `base`; `None` when either does not parse.
pub uninterp spec fn url_join_of(base: Seq<char>, href: Seq<char>) -> Option<Seq<char>>;

/// `scraper::Html::parse_document(html)` selected with `Selector::parse(selector)`,
/// each element's `text()` nodes collected: the claim is only that they are a
/// function of the two texts.
#[verifier::external_body]
fn select_text_nodes(html: &str, selector: &str) -> (r: Option<Vec<Vec<String>>>)
    ensures
        r matches Some(els) ==> element_text_nodes_of(html@, selector@) == Some(
            els@.map_values(|e: Vec<String>| e@.map_values(|s: String| s@)),
        ),
        r is None ==> element_text_nodes_of(html@, selector@) is None,
{
    let doc = scraper::Html::parse_document(html);
    match scraper::Selector::parse(selector) {
        Ok(sel) => Some(doc.select(&sel).map(|el| el.text().map(|t| t.to_string()).collect()).collect()),
        Err(_) => None,
    }
}

/// `scraper::Html::parse_document(html)` selected with `Selector::parse(selector)`,
/// each element's `attr(attr)` taken: the claim is only that the values are a
/// function of the three texts.
#[verifier::external_body]
fn select_attrs(html: &str, selector: &str, attr: &str) -> (r: Option<Vec<Option<String>>>)
    ensures
        r matches Some(vs) ==> element_attrs_of(html@, selector@, attr@) == Some(
            vs@.map_values(|o: Option<String>| opt_text(o)),
        ),
        r is None ==> element_attrs_of(html@, selector@, attr@) is None,
{
    let doc = scraper::Html::parse_document(html);
    match scraper::Selector::parse(selector) {
        Ok(sel) => Some(doc.select(&sel).map(|el| el.value().attr(attr).map(|a| a.to_string())).collect()),
        Err(_) => None,
    }
}

/// `regex::Regex::new(r"\s+")` with `replace_all(text, " ")`: `\s` is the
/// Unicode `White_Space` class, and the greedy, leftmost-first matches are the
/// maximal runs of it, each replaced by one space.
#[verifier::external_body]
fn collapse_whitespace(text: &str) -> (r: String)
    ensures
        r@ == ws_collapsed_of(text@),
{
    regex::Regex::new(r"\s+").unwrap().replace_all(text, " ").into_owned()
}

/// `url::Url::parse(base)` followed by `Url::join(href)`, rendered with
/// `to_string`: the claim is only that the result is a function of the two texts.
#[verifier::external_body]
fn resolve_url(base: &str, href: &str) -> (r: Option<String>)
    ensures
        r matches Some(u) ==> url_join_of(base@, href@) == Some(u@),
        r is None ==> url_join_of(base@, href@) is None,
{
    match url::Url::parse(base) {
        Ok(b) => match b.join(href) {
            Ok(u) => Some(u.to_string()),
            Err(_) => None,
        },
        Err(_) => None,
    }
}

/// The view of an optional string.
pub open spec fn opt_text(o: Option<String>) -> Option<Seq<char>> {
    match o {
        Some(s) => Some(s@),
        None => None,
    }
}

/// An element's text: its text nodes one after the other.
pub open spec fn element_text(nodes: Seq<Seq<char>>) -> Seq<char> {
    seq_join(nodes, seq![])
}

/// The text of the first element that `selector` matches.
pub open spec fn first_text_of(html: Seq<char>, selector: Seq<char>) -> Option<Seq<char>> {
    match element_text_nodes_of(html, selector) {
        Some(els) => if els.len() > 0 {
            Some(element_text(els[0]))
        } else {
            None
        },
        None => None,
    }
}

/// The trimmed texts of the elements that `selector` matches that satisfy `keep`.
pub open spec fn kept_texts(els: Seq<Seq<Seq<char>>>, keep: spec_fn(Seq<char>) -> bool) -> Seq<
    Seq<char>,
>
    decreases els.len(),
{
    if els.len() == 0 {
        seq![]
    } else {
        let rest = kept_texts(els.drop_last(), keep);
        let t = trim_seq(element_text(els.last()));
        if keep(t) {
            rest.push(t)
        } else {
            rest
        }
    }
}

/// The trimmed texts, kept by `keep`, of all elements `selector` matches.
pub open spec fn texts_of(html: Seq<char>, selector: Seq<char>, keep: spec_fn(Seq<char>) -> bool) -> Seq<
    Seq<char>,
> {
    match element_text_nodes_of(html, selector) {
        Some(els) => kept_texts(els, keep),
        None => seq![],
    }
}

/// Keeps non-empty texts.
pub open spec fn non_empty() -> spec_fn(Seq<char>) -> bool {
    |t: Seq<char>| t.len() > 0
}

/// Keeps texts longer than 20 bytes.
pub open spec fn long_text() -> spec_fn(Seq<char>) -> bool {
    |t: Seq<char>| encode_utf8(t).len() > 20
}

/// The trimmed, non-empty `content` of the first `meta` element matching `selector`.
pub open spec fn meta_content_of(html: Seq<char>, selector: Seq<char>) -> Option<Seq<char>> {
    match element_attrs_of(html, selector, "content"@) {
        Some(vs) => if vs.len() > 0 {
            match vs[0] {
                Some(c) => if trim_seq(c).len() > 0 {
                    Some(trim_seq(c))
                } else {
                    None
                },
                None => None,
            }
        } else {
            None
        },
        None => None,
    }
}

/// `<meta name="...">` content.
pub open spec fn meta_of(html: Seq<char>, name: Seq<char>) -> Option<Seq<char>> {
    meta_content_of(html, "meta[name=\""@ + name + "\"]"@)
}

/// `<meta property="...">` content.
pub open spec fn meta_property_of(html: Seq<char>, property: Seq<char>) -> Option<Seq<char>> {
    meta_content_of(html, "meta[property=\""@ + property + "\"]"@)
}

/// The first trimmed text of the first element that `selector` matches, when it is not empty.
pub open spec fn nonempty_first_text(html: Seq<char>, selector: Seq<char>) -> Option<Seq<char>> {
    match first_text_of(html, selector) {
        Some(t) => if trim_seq(t).len() > 0 {
            Some(trim_seq(t))
        } else {
            None
        },
        None => None,
    }
}

/// The page title: the `<title>`, else the first `<h1>`, else `og:title`, else `Untitled`.
pub open spec fn title_of(html: Seq<char>) -> Seq<char> {
    match nonempty_first_text(html, "title"@) {
        Some(t) => t,
        None => match nonempty_first_text(html, "h1"@) {
            Some(h) => h,
            None => match meta_property_of(html, "og:title"@) {
                Some(m) => m,
                None => "Untitled"@,
            },
        },
    }
}

/// The headings: the non-empty `h1`, then `h2`, then `h3` texts.
pub open spec fn headings_of(html: Seq<char>) -> Seq<Seq<char>> {
    texts_of(html, "h1"@, non_empty()) + texts_of(html, "h2"@, non_empty()) + texts_of(
        html,
        "h3"@,
        non_empty(),
    )
}

/// Text cleaned of layout: whitespace runs collapsed, lines trimmed, empty lines
/// dropped, and the whole trimmed.
pub open spec fn cleaned_of(text: Seq<char>) -> Seq<char> {
    trim_seq(seq_join(kept_lines(split_newlines(ws_collapsed_of(text))), "\n"@))
}

/// `s` holds whitespace only as single spaces between other characters.
pub open spec fn whitespace_normalized(s: Seq<char>) -> bool {
    forall|i: int|
        0 <= i < s.len() && #[trigger] is_ws(s[i]) ==> {
            &&& s[i] == ' '
            &&& 0 < i < s.len() - 1
            &&& !is_ws(s[i - 1])
            &&& !is_ws(s[i + 1])
        }
}

proof fn lemma_collapsed_shape(t: Seq<char>)
    ensures
        ws_collapsed_of(t).len() == 0 <==> t.len() == 0,
        ws_collapsed_of(t).len() > 0 ==> (is_ws(ws_collapsed_of(t).last()) <==> is_ws(t.last())),
        forall|i: int|
            0 <= i < ws_collapsed_of(t).len() && #[trigger] is_ws(ws_collapsed_of(t)[i]) ==> {
                &&& ws_collapsed_of(t)[i] == ' '
                &&& (i + 1 < ws_collapsed_of(t).len() ==> !is_ws(ws_collapsed_of(t)[i + 1]))
            },
    decreases t.len(),
{
    if t.len() > 0 {
        let p = t.drop_last();
        lemma_collapsed_shape(p);
        let rest = ws_collapsed_of(p);
        let r = ws_collapsed_of(t);
        if p.len() > 0 {
            assert(p.last() == t[t.len() - 2]);
        }
        assert forall|i: int| 0 <= i < r.len() && #[trigger] is_ws(r[i]) implies r[i] == ' ' && (i + 1
            < r.len() ==> !is_ws(r[i + 1])) by {
            if i < rest.len() {
                assert(r[i] == rest[i]);
                if i + 1 < rest.len() {
                    assert(r[i + 1] == rest[i + 1]);
                }
            }
        }
    }
}

proof fn lemma_no_newline_split(s: Seq<char>)
    requires
        forall|i: int| 0 <= i < s.len() ==> s[i] != '\n',
    ensures
        split_newlines(s) == seq![s],
    decreases s.len(),
{
    if s.len() == 0 {
        assert(s =~= Seq::<char>::empty());
        assert(split_newlines(s) =~= seq![s]);
    } else {
        let p = s.drop_last();
        assert forall|i: int| 0 <= i < p.len() implies p[i] != '\n' by {
            assert(p[i] == s[i]);
        }
        lemma_no_newline_split(p);
        assert(s.last() != '\n');
        assert(p.push(s.last()) =~= s);
        assert(seq![p].update(0, p.push(s.last())) =~= seq![s]);
    }
}

proof fn lemma_cleaned_is_trimmed_collapse(text: Seq<char>)
    ensures
        cleaned_of(text) == trim_seq(trim_seq(ws_collapsed_of(text))),
{
    let c = ws_collapsed_of(text);
    lemma_collapsed_shape(text);
    assert forall|i: int| 0 <= i < c.len() implies c[i] != '\n' by {
        if c[i] == '\n' {
            assert(is_ws(c[i]));
        }
    }
    lemma_no_newline_split(c);
    let t1 = trim_seq(c);
    let lines = seq![c];
    assert(lines.drop_last() =~= Seq::<Seq<char>>::empty());
    assert(lines.last() == c);
    assert(kept_lines(lines.drop_last()) =~= Seq::<Seq<char>>::empty());
    if t1.len() > 0 {
        assert(kept_lines(lines) =~= seq![t1]);
        assert(seq_join(seq![t1], "\n"@) == t1);
    } else {
        assert(kept_lines(lines) =~= Seq::<Seq<char>>::empty());
        assert(t1 =~= Seq::<char>::empty());
        assert(trim_front(t1) =~= t1);
        assert(trim_back(t1) =~= t1);
    }
}

proof fn lemma_trim_front_shape(s: Seq<char>) -> (k: int)
    ensures
        0 <= k <= s.len(),
        trim_front(s) == s.skip(k),
        k < s.len() ==> !is_ws(s[k]),
    decreases s.len(),
{
    if s.len() > 0 && is_ws(s[0]) {
        let k = lemma_trim_front_shape(s.drop_first());
        assert(s.drop_first().skip(k) =~= s.skip(k + 1));
        if k < s.drop_first().len() {
            assert(s.drop_first()[k] == s[k + 1]);
        }
        k + 1
    } else {
        assert(s.skip(0) =~= s);
        0
    }
}

proof fn lemma_trim_back_shape(s: Seq<char>) -> (m: int)
    ensures
        0 <= m <= s.len(),
        trim_back(s) == s.take(m),
        m > 0 ==> !is_ws(s[m - 1]),
    decreases s.len(),
{
    if s.len() > 0 && is_ws(s.last()) {
        let m = lemma_trim_back_shape(s.drop_last());
        assert(s.drop_last().take(m) =~= s.take(m));
        if m > 0 {
            assert(s.drop_last()[m - 1] == s[m - 1]);
        }
        m
    } else {
        assert(s.take(s.len() as int) =~= s);
        s.len() as int
    }
}

pub(crate) proof fn lemma_trim_shape(s: Seq<char>) -> (ab: (int, int))
    ensures
        0 <= ab.0 <= ab.1 <= s.len(),
        trim_seq(s) == s.subrange(ab.0, ab.1),
        ab.0 < ab.1 ==> !is_ws(s[ab.0]) && !is_ws(s[ab.1 - 1]),
{
    let k = lemma_trim_front_shape(s);
    let f = s.skip(k);
    let m = lemma_trim_back_shape(f);
    assert(f.take(m) =~= s.subrange(k, k + m));
    if m > 0 {
        assert(f[0] == s[k]);
        assert(f[m - 1] == s[k + m - 1]);
    }
    (k, k + m)
}

proof fn lemma_trimmed_spacing(c: Seq<char>)
    requires
        forall|j: int|
            0 <= j < c.len() && #[trigger] is_ws(c[j]) ==> c[j] == ' ' && (j + 1 < c.len() ==> !is_ws(
                c[j + 1],
            )),
    ensures
        whitespace_normalized(trim_seq(trim_seq(c))),
{
    let (a1, b1) = lemma_trim_shape(c);
    let t1 = trim_seq(c);
    let (a2, b2) = lemma_trim_shape(t1);
    let r = trim_seq(t1);
    assert forall|i: int| 0 <= i < r.len() && #[trigger] is_ws(r[i]) implies {
        &&& r[i] == ' '
        &&& 0 < i < r.len() - 1
        &&& !is_ws(r[i - 1])
        &&& !is_ws(r[i + 1])
    } by {
        let j = a1 + a2 + i;
        assert(r[i] == t1[a2 + i]);
        assert(t1[a2 + i] == c[j]);
        assert(r[0] == t1[a2]);
        assert(r[r.len() - 1] == t1[b2 - 1]);
        if i > 0 {
            assert(r[i - 1] == t1[a2 + i - 1]);
            assert(t1[a2 + i - 1] == c[j - 1]);
            if is_ws(c[j - 1]) {
                assert(!is_ws(c[j]));
            }
        }
        if i + 1 < r.len() {
            assert(r[i + 1] == t1[a2 + i + 1]);
            assert(t1[a2 + i + 1] == c[j + 1]);
        }
    }
}

/// Cleaning normalizes whitespace: the cleaned text neither starts nor ends
/// with whitespace, and holds it only as single spaces between other characters.
pub proof fn lemma_cleaned_whitespace_normalized(text: Seq<char>)
    ensures
        whitespace_normalized(cleaned_of(text)),
{
    lemma_collapsed_shape(text);
    lemma_cleaned_is_trimmed_collapse(text);
    lemma_trimmed_spacing(ws_collapsed_of(text));
}

/// The words of `s`: its maximal runs of non-whitespace characters, in order
/// (`str::split_whitespace`).
pub open spec fn words_of(s: Seq<char>) -> Seq<Seq<char>>
    decreases s.len(),
{
    if s.len() == 0 {
        seq![]
    } else {
        let w = words_of(s.drop_last());
        let c = s.last();
        if is_ws(c) {
            w
        } else if s.len() > 1 && !is_ws(s[s.len() - 2]) {
            w.update(w.len() - 1, w.last().push(c))
        } else {
            w.push(seq![c])
        }
    }
}

proof fn lemma_words_nonempty(s: Seq<char>)
    requires
        s.len() > 0,
        !is_ws(s.last()),
    ensures
        words_of(s).len() > 0,
    decreases s.len(),
{
    if s.len() > 1 && !is_ws(s[s.len() - 2]) {
        assert(s.drop_last().last() == s[s.len() - 2]);
        lemma_words_nonempty(s.drop_last());
    }
}

/// A whitespace character in front changes no word.
proof fn lemma_words_ws_front(w: char, s: Seq<char>)
    requires
        is_ws(w),
    ensures
        words_of(seq![w] + s) == words_of(s),
    decreases s.len(),
{
    let t = seq![w] + s;
    if s.len() == 0 {
        assert(t =~= seq![w]);
        assert(t.drop_last() =~= Seq::<char>::empty());
        assert(t.last() == w);
        assert(words_of(t) == words_of(t.drop_last()));
        assert(s =~= Seq::<char>::empty());
    } else {
        let q = s.drop_last();
        lemma_words_ws_front(w, q);
        assert(t.drop_last() =~= seq![w] + q);
        assert(t.last() == s.last());
        assert(words_of(t.drop_last()) == words_of(q));
        if q.len() > 0 {
            assert(t[t.len() - 2] == s[s.len() - 2]);
        } else {
            assert(t[t.len() - 2] == w);
        }
    }
}

proof fn lemma_words_trim_front(s: Seq<char>)
    ensures
        words_of(trim_front(s)) == words_of(s),
    decreases s.len(),
{
    if s.len() > 0 && is_ws(s[0]) {
        lemma_words_trim_front(s.drop_first());
        lemma_words_ws_front(s[0], s.drop_first());
        assert(seq![s[0]] + s.drop_first() =~= s);
    }
}

proof fn lemma_words_trim_back(s: Seq<char>)
    ensures
        words_of(trim_back(s)) == words_of(s),
    decreases s.len(),
{
    if s.len() > 0 && is_ws(s.last()) {
        lemma_words_trim_back(s.drop_last());
    }
}

proof fn lemma_words_trim(s: Seq<char>)
    ensures
        words_of(trim_seq(s)) == words_of(s),
{
    lemma_words_trim_front(s);
    lemma_words_trim_back(trim_front(s));
}

/// Collapsing whitespace runs changes no word.
proof fn lemma_words_collapsed(t: Seq<char>)
    ensures
        words_of(ws_collapsed_of(t)) == words_of(t),
    decreases t.len(),
{
    if t.len() > 0 {
        let p = t.drop_last();
        lemma_words_collapsed(p);
        lemma_collapsed_shape(p);
        let cp = ws_collapsed_of(p);
        let c = t.last();
        if p.len() > 0 {
            assert(t[t.len() - 2] == p.last());
        }
        if !is_ws(c) {
            let r = cp.push(c);
            assert(r.drop_last() =~= cp);
            if cp.len() > 0 {
                assert(r[r.len() - 2] == cp.last());
            }
        } else if t.len() > 1 && is_ws(t[t.len() - 2]) {
        } else {
            let r = cp.push(' ');
            assert(r.drop_last() =~= cp);
            assert(is_ws(' '));
        }
    }
}

/// `seq_join` over one more part.
pub(crate) proof fn lemma_join_push(ws: Seq<Seq<char>>, x: Seq<char>, sep: Seq<char>)
    requires
        ws.len() > 0,
    ensures
        seq_join(ws.push(x), sep) == seq_join(ws, sep) + sep + x,
{
    assert(ws.push(x).drop_last() =~= ws);
}

/// `seq_join` when the last part grows by one character.
pub(crate) proof fn lemma_join_extend_last(ws: Seq<Seq<char>>, c: char, sep: Seq<char>)
    requires
        ws.len() > 0,
    ensures
        seq_join(ws.update(ws.len() - 1, ws.last().push(c)), sep) == seq_join(ws, sep).push(c),
{
    let u = ws.update(ws.len() - 1, ws.last().push(c));
    if ws.len() == 1 {
        assert(u[0] == ws[0].push(c));
    } else {
        assert(u.drop_last() =~= ws.drop_last());
        assert(u.last() == ws.last().push(c));
        assert(seq_join(ws.drop_last(), sep) + sep + ws.last().push(c) =~= (seq_join(
            ws.drop_last(),
            sep,
        ) + sep + ws.last()).push(c));
    }
}

/// Normalized text is its words joined by single spaces.
proof fn lemma_normalized_is_joined_words(s: Seq<char>)
    requires
        whitespace_normalized(s),
    ensures
        seq_join(words_of(s), " "@) == s,
    decreases s.len(),
{
    if s.len() == 0 {
        assert(s =~= Seq::<char>::empty());
    } else {
        let p = s.drop_last();
        let c = s.last();
        assert(!is_ws(c)) by {
            if is_ws(s[s.len() - 1]) {
                assert(s.len() - 1 < s.len() - 1);
            }
        }
        if p.len() == 0 {
            assert(p =~= Seq::<char>::empty());
            assert(words_of(p) == Seq::<Seq<char>>::empty());
            assert(words_of(s) =~= seq![seq![c]]);
            assert(seq![c] =~= s);
        } else if !is_ws(p.last()) {
            assert(s[s.len() - 2] == p.last());
            assert(whitespace_normalized(p)) by {
                assert forall|i: int| 0 <= i < p.len() && #[trigger] is_ws(p[i]) implies {
                    &&& p[i] == ' '
                    &&& 0 < i < p.len() - 1
                    &&& !is_ws(p[i - 1])
                    &&& !is_ws(p[i + 1])
                } by {
                    assert(p[i] == s[i]);
                    assert(is_ws(s[i]));
                    assert(p[i - 1] == s[i - 1]);
                    if i + 1 < p.len() {
                        assert(p[i + 1] == s[i + 1]);
                    }
                }
            }
            lemma_normalized_is_joined_words(p);
            lemma_words_nonempty(p);
            lemma_join_extend_last(words_of(p), c, " "@);
            assert(p.push(c) =~= s);
        } else {
            let q = p.drop_last();
            assert(p.last() == s[s.len() - 2]);
            assert(is_ws(s[s.len() - 2]));
            assert(s[s.len() - 2] == ' ');
            assert(q.len() > 0);
            assert(!is_ws(s[s.len() - 3]));
            assert(q.last() == s[s.len() - 3]);
            assert(whitespace_normalized(q)) by {
                assert forall|i: int| 0 <= i < q.len() && #[trigger] is_ws(q[i]) implies {
                    &&& q[i] == ' '
                    &&& 0 < i < q.len() - 1
                    &&& !is_ws(q[i - 1])
                    &&& !is_ws(q[i + 1])
                } by {
                    assert(q[i] == s[i]);
                    assert(is_ws(s[i]));
                    assert(q[i - 1] == s[i - 1]);
                    if i + 1 < q.len() {
                        assert(q[i + 1] == s[i + 1]);
                    }
                }
            }
            lemma_normalized_is_joined_words(q);
            lemma_words_nonempty(q);
            assert(p.drop_last() =~= q);
            assert(words_of(p) == words_of(q));
            assert(words_of(s) == words_of(q).push(seq![c]));
            lemma_join_push(words_of(q), seq![c], " "@);
            assert(q + " "@ + seq![c] =~= s) by {
                reveal_strlit(" ");
                assert(q.push(' ') =~= p);
                assert(p.push(c) =~= s);
            }
        }
    }
}

/// Cleaned text is the words of the text joined by single spaces
/// (`split_whitespace` then `join(" ")`).
pub proof fn lemma_cleaned_is_joined_words(text: Seq<char>)
    ensures
        cleaned_of(text) == seq_join(words_of(text), " "@),
{
    lemma_cleaned_whitespace_normalized(text);
    lemma_normalized_is_joined_words(cleaned_of(text));
    lemma_cleaned_is_trimmed_collapse(text);
    let c = ws_collapsed_of(text);
    lemma_words_collapsed(text);
    lemma_words_trim(c);
    lemma_words_trim(trim_seq(c));
}

/// Cleaning twice is cleaning once.
pub proof fn lemma_cleaned_idempotent(text: Seq<char>)
    ensures
        cleaned_of(cleaned_of(text)) == cleaned_of(text),
{
    lemma_cleaned_is_joined_words(text);
    lemma_cleaned_is_joined_words(cleaned_of(text));
    lemma_cleaned_is_trimmed_collapse(text);
    let c = ws_collapsed_of(text);
    lemma_words_collapsed(text);
    lemma_words_trim(c);
    lemma_words_trim(trim_seq(c));
}

/// The trimmed non-empty lines, in order.
pub open spec fn kept_lines(lines: Seq<Seq<char>>) -> Seq<Seq<char>>
    decreases lines.len(),
{
    if lines.len() == 0 {
        seq![]
    } else {
        let rest = kept_lines(lines.drop_last());
        let t = trim_seq(lines.last());
        if t.len() > 0 {
            rest.push(t)
        } else {
            rest
        }
    }
}

/// The selectors tried, in order, for the main content of a page.
pub open spec fn content_selectors() -> Seq<Seq<char>> {
    seq![
        "article"@,
        "main"@,
        "[role=\"main\"]"@,
        ".post-content"@,
        ".article-content"@,
        ".entry-content"@,
        ".content"@,
        "#content"@,
    ]
}

/// The main content found by selector `k` and the ones after it: the first
/// selector whose first element, cleaned, is longer than 100 bytes.
pub open spec fn container_content(html: Seq<char>, k: nat) -> Option<Seq<char>>
    decreases 8 - k,
{
    if k >= 8 {
        None
    } else {
        let here = match element_text_nodes_of(html, content_selectors()[k as int]) {
            Some(els) => if els.len() > 0 {
                let c = cleaned_of(seq_join(els[0], " "@));
                if encode_utf8(c).len() > 100 {
                    Some(c)
                } else {
                    None
                }
            } else {
                None
            },
            None => None,
        };
        match here {
            Some(c) => Some(c),
            None => container_content(html, k + 1),
        }
    }
}

/// The main content: a content container, else the paragraphs longer than 20
/// bytes, else the cleaned body text, else nothing.
pub open spec fn main_content_of(html: Seq<char>) -> Seq<char> {
    match container_content(html, 0) {
        Some(c) => c,
        None => {
            let ps = texts_of(html, "p"@, long_text());
            if ps.len() > 0 {
                seq_join(ps, "\n\n"@)
            } else {
                match element_text_nodes_of(html, "body"@) {
                    Some(els) => if els.len() > 0 {
                        cleaned_of(seq_join(els[0], " "@))
                    } else {
                        seq![]
                    },
                    None => seq![],
                }
            }
        }
    }
}

/// The cleaned text of the first element that `selector` matches, when it is
/// longer than 100 bytes: such an element holds a page's main content.
pub open spec fn qualifying_container(html: Seq<char>, selector: Seq<char>) -> Option<Seq<char>> {
    match element_text_nodes_of(html, selector) {
        Some(els) => if els.len() > 0 && encode_utf8(cleaned_of(seq_join(els[0], " "@))).len() > 100 {
            Some(cleaned_of(seq_join(els[0], " "@)))
        } else {
            None
        },
        None => None,
    }
}

/// The trimmed text of each element, in order.
pub open spec fn trimmed_texts(els: Seq<Seq<Seq<char>>>) -> Seq<Seq<char>> {
    els.map_values(|e: Seq<Seq<char>>| trim_seq(element_text(e)))
}

proof fn lemma_container_content_first(html: Seq<char>, k: nat)
    requires
        k <= 8,
    ensures
        container_content(html, k) matches Some(c) ==> exists|j: int|
            k <= j < 8 && qualifying_container(html, #[trigger] content_selectors()[j]) == Some(c)
                && forall|i: int| k <= i < j ==> (#[trigger] qualifying_container(html, content_selectors()[i])) is None,
        container_content(html, k) is None ==> forall|j: int|
            k <= j < 8 ==> (#[trigger] qualifying_container(html, content_selectors()[j])) is None,
    decreases 8 - k,
{
    if k < 8 {
        lemma_container_content_first(html, k + 1);
        if qualifying_container(html, content_selectors()[k as int]) is None {
            if container_content(html, k) is Some {
                let c = container_content(html, k)->0;
                let j = choose|j: int|
                    k + 1 <= j < 8 && qualifying_container(html, #[trigger] content_selectors()[j]) == Some(c)
                        && forall|i: int| k + 1 <= i < j ==> (#[trigger] qualifying_container(html, content_selectors()[i])) is None;
                assert(forall|i: int| k <= i < j ==> (#[trigger] qualifying_container(html, content_selectors()[i])) is None);
            }
        } else {
            assert(forall|i: int| k <= i < k ==> (#[trigger] qualifying_container(html, content_selectors()[i])) is None);
        }
    }
}

proof fn lemma_kept_texts_members(els: Seq<Seq<Seq<char>>>, keep: spec_fn(Seq<char>) -> bool, t: Seq<char>)
    ensures
        kept_texts(els, keep).contains(t) <==> keep(t) && trimmed_texts(els).contains(t),
    decreases els.len(),
{
    if els.len() > 0 {
        let rest = els.drop_last();
        lemma_kept_texts_members(rest, keep, t);
        let l = trim_seq(element_text(els.last()));
        let kr = kept_texts(rest, keep);
        assert(trimmed_texts(els) =~= trimmed_texts(rest).push(l));
        assert(trimmed_texts(rest).push(l)[rest.len() as int] == l);
        assert(kr.push(l)[kr.len() as int] == l);
        if kr.contains(t) {
            let i = choose|i: int| 0 <= i < kr.len() && kr[i] == t;
            assert(kr.push(l)[i] == t);
        }
        if trimmed_texts(rest).contains(t) {
            let i = choose|i: int| 0 <= i < trimmed_texts(rest).len() && trimmed_texts(rest)[i] == t;
            assert(trimmed_texts(rest).push(l)[i] == t);
        }
        if kr.push(l).contains(t) && t != l {
            let i = choose|i: int| 0 <= i < kr.push(l).len() && kr.push(l)[i] == t;
            assert(kr[i] == t);
        }
        if trimmed_texts(rest).push(l).contains(t) && t != l {
            let i = choose|i: int| 0 <= i < trimmed_texts(rest).push(l).len() && trimmed_texts(rest).push(l)[i] == t;
            assert(trimmed_texts(rest)[i] == t);
        }
    }
}

/// How the main content of a page is chosen. The first content selector
/// (`article`, `main`, ...) whose first element's cleaned text is longer than
/// 100 bytes gives it. Failing that, the paragraphs whose trimmed text is
/// longer than 20 bytes give it, each of them and only they, joined by blank
/// lines. Failing that too, the cleaned text of the page's first `body`
/// element (its text nodes joined by spaces) gives it; without a body it is
/// empty.
pub proof fn lemma_main_content_choice(html: Seq<char>)
    ensures
        forall|j: int|
            0 <= j < 8 && (#[trigger] qualifying_container(html, content_selectors()[j])) is Some
                && (forall|i: int| 0 <= i < j ==> (#[trigger] qualifying_container(html, content_selectors()[i])) is None)
                ==> Some(main_content_of(html)) == qualifying_container(html, content_selectors()[j]),
        (forall|j: int| 0 <= j < 8 ==> (#[trigger] qualifying_container(html, content_selectors()[j])) is None)
            ==> match element_text_nodes_of(html, "p"@) {
            Some(ps) => {
                let long = texts_of(html, "p"@, long_text());
                &&& (exists|t: Seq<char>| trimmed_texts(ps).contains(t) && encode_utf8(t).len() > 20)
                    ==> main_content_of(html) == seq_join(long, "\n\n"@)
                &&& forall|t: Seq<char>|
                    long.contains(t) <==> trimmed_texts(ps).contains(t) && encode_utf8(t).len() > 20
            },
            None => true,
        },
        (forall|j: int| 0 <= j < 8 ==> (#[trigger] qualifying_container(html, content_selectors()[j])) is None)
            && (forall|ps: Seq<Seq<Seq<char>>>, t: Seq<char>|
            element_text_nodes_of(html, "p"@) == Some(ps) && #[trigger] trimmed_texts(ps).contains(t)
                ==> encode_utf8(t).len() <= 20) ==> main_content_of(html) == match element_text_nodes_of(
            html,
            "body"@,
        ) {
            Some(bs) => if bs.len() > 0 {
                cleaned_of(seq_join(bs[0], " "@))
            } else {
                seq![]
            },
            None => seq![],
        },
{
    lemma_container_content_first(html, 0);
    assert forall|j: int|
        0 <= j < 8 && (#[trigger] qualifying_container(html, content_selectors()[j])) is Some
            && (forall|i: int| 0 <= i < j ==> (#[trigger] qualifying_container(html, content_selectors()[i])) is None)
        implies Some(main_content_of(html)) == qualifying_container(html, content_selectors()[j]) by {
        if container_content(html, 0) is Some {
            let c = container_content(html, 0)->0;
            let j2 = choose|j2: int|
                0 <= j2 < 8 && qualifying_container(html, #[trigger] content_selectors()[j2]) == Some(c)
                    && forall|i: int| 0 <= i < j2 ==> (#[trigger] qualifying_container(html, content_selectors()[i])) is None;
            if j2 < j {
                assert(qualifying_container(html, content_selectors()[j2]) is None);
            } else if j < j2 {
                assert(qualifying_container(html, content_selectors()[j]) is None);
            }
        }
    }
    if forall|j: int| 0 <= j < 8 ==> (#[trigger] qualifying_container(html, content_selectors()[j])) is None {
        if container_content(html, 0) is Some {
            let c = container_content(html, 0)->0;
            let j2 = choose|j2: int|
                0 <= j2 < 8 && qualifying_container(html, #[trigger] content_selectors()[j2]) == Some(c)
                    && forall|i: int| 0 <= i < j2 ==> (#[trigger] qualifying_container(html, content_selectors()[i])) is None;
            assert(qualifying_container(html, content_selectors()[j2]) is None);
        }
        assert(container_content(html, 0) is None);
        if element_text_nodes_of(html, "p"@) is Some {
            let ps = element_text_nodes_of(html, "p"@)->0;
            let long = texts_of(html, "p"@, long_text());
            assert forall|t: Seq<char>|
                long.contains(t) <==> trimmed_texts(ps).contains(t) && encode_utf8(t).len() > 20 by {
                lemma_kept_texts_members(ps, long_text(), t);
            }
            if exists|t: Seq<char>| trimmed_texts(ps).contains(t) && encode_utf8(t).len() > 20 {
                let t = choose|t: Seq<char>| trimmed_texts(ps).contains(t) && encode_utf8(t).len() > 20;
                assert(long.contains(t));
                assert(long.len() > 0);
            }
            if forall|ps2: Seq<Seq<Seq<char>>>, t: Seq<char>|
                element_text_nodes_of(html, "p"@) == Some(ps2) && #[trigger] trimmed_texts(ps2).contains(t)
                    ==> encode_utf8(t).len() <= 20 {
                if long.len() > 0 {
                    assert(long.contains(long[0]));
                    lemma_kept_texts_members(ps, long_text(), long[0]);
                    assert(trimmed_texts(ps).contains(long[0]));
                }
            }
        }
    }
}

/// Each text with a prefix and a suffix.
pub open spec fn framed(texts: Seq<Seq<char>>, prefix: Seq<char>, suffix: Seq<char>) -> Seq<char>
    decreases texts.len(),
{
    if texts.len() == 0 {
        seq![]
    } else {
        framed(texts.drop_last(), prefix, suffix) + prefix + texts.last() + suffix
    }
}

/// The markdown rendering: `#`, `##`, `###` headings, paragraphs longer than 20
/// bytes, and list items as `- ` bullets.
pub open spec fn markdown_of(html: Seq<char>) -> Seq<char> {
    framed(texts_of(html, "h1"@, non_empty()), "# "@, "\n\n"@) + framed(
        texts_of(html, "h2"@, non_empty()),
        "## "@,
        "\n\n"@,
    ) + framed(texts_of(html, "h3"@, non_empty()), "### "@, "\n\n"@) + framed(
        texts_of(html, "p"@, long_text()),
        seq![],
        "\n\n"@,
    ) + framed(texts_of(html, "li"@, non_empty()), "- "@, "\n"@)
}

/// Extracted content of a web page.
#[derive(Debug, Clone)]
pub struct ExtractedContent {
    pub title: String,
    pub clean_text: String,
    pub markdown: String,
    pub author: Option<String>,
    pub description: Option<String>,
    pub headings: Vec<String>,
}

/// Extracts clean content from HTML pages.
pub struct ContentExtractor;

/// Whether a string's UTF-8 form is longer than `n` bytes.
fn longer_than(s: &String, n: usize) -> (b: bool)
    ensures
        b == (encode_utf8(s@).len() > n),
{
    s.as_str().as_bytes().len() > n
}

/// The link targets a page points to: each `a[href]` value that is not an
/// anchor, script or mail link, taken as it is when absolute (http or https),
/// resolved against the base otherwise (dropped when it does not resolve).
pub open spec fn link_targets(hrefs: Seq<Option<Seq<char>>>, base: Seq<char>) -> Seq<Seq<char>>
    decreases hrefs.len(),
{
    if hrefs.len() == 0 {
        seq![]
    } else {
        let rest = link_targets(hrefs.drop_last(), base);
        match hrefs.last() {
            None => rest,
            Some(h) => if starts_with_seq(h, "#"@) || starts_with_seq(h, "javascript:"@)
                || starts_with_seq(h, "mailto:"@) {
                rest
            } else if starts_with_seq(h, "http://"@) || starts_with_seq(h, "https://"@) {
                rest.push(h)
            } else {
                match url_join_of(base, h) {
                    Some(u) => rest.push(u),
                    None => rest,
                }
            },
        }
    }
}

/// The first occurrence of each element, in order.
pub open spec fn distinct_in_order(s: Seq<Seq<char>>) -> Seq<Seq<char>>
    decreases s.len(),
{
    if s.len() == 0 {
        s
    } else {
        let d = distinct_in_order(s.drop_last());
        if s.drop_last().contains(s.last()) {
            d
        } else {
            d.push(s.last())
        }
    }
}

/// The links of a page: its link targets, each once.
pub open spec fn links_of(html: Seq<char>, base: Seq<char>) -> Seq<Seq<char>> {
    match element_attrs_of(html, "a[href]"@, "href"@) {
        Some(hs) => distinct_in_order(link_targets(hs, base)),
        None => seq![],
    }
}

proof fn lemma_contains_push(p: Seq<Seq<char>>, y: Seq<char>, x: Seq<char>)
    ensures
        p.push(y).contains(x) <==> (p.contains(x) || x == y),
{
    if p.push(y).contains(x) {
        let i = choose|i: int| 0 <= i < p.push(y).len() && p.push(y)[i] == x;
        if i < p.len() {
            assert(p[i] == x);
        }
    }
    if p.contains(x) {
        let i = choose|i: int| 0 <= i < p.len() && p[i] == x;
        assert(p.push(y)[i] == x);
    }
    if x == y {
        assert(p.push(y)[p.len() as int] == x);
    }
}

proof fn lemma_distinct_contains(s: Seq<Seq<char>>, x: Seq<char>)
    ensures
        s.contains(x) <==> distinct_in_order(s).contains(x),
    decreases s.len(),
{
    if s.len() > 0 {
        let p = s.drop_last();
        let y = s.last();
        lemma_distinct_contains(p, x);
        lemma_distinct_contains(p, y);
        assert(s =~= p.push(y));
        lemma_contains_push(p, y, x);
        let d = distinct_in_order(p);
        if !p.contains(y) {
            lemma_contains_push(d, y, x);
        }
    }
}

/// No link is returned twice, and every link of the page is returned.
pub proof fn lemma_links_distinct_and_complete(html: Seq<char>, base: Seq<char>)
    ensures
        links_of(html, base).no_duplicates(),
        element_attrs_of(html, "a[href]"@, "href"@) matches Some(hs) ==> forall|x: Seq<char>|
            link_targets(hs, base).contains(x) <==> #[trigger] links_of(html, base).contains(x),
{
    if let Some(hs) = element_attrs_of(html, "a[href]"@, "href"@) {
        lemma_distinct_no_duplicates(link_targets(hs, base));
        assert forall|x: Seq<char>|
            link_targets(hs, base).contains(x) <==> #[trigger] links_of(html, base).contains(x) by {
            lemma_distinct_contains(link_targets(hs, base), x);
        }
    } else {
        assert(Seq::<Seq<char>>::empty().no_duplicates());
    }
}

proof fn lemma_distinct_no_duplicates(s: Seq<Seq<char>>)
    ensures
        distinct_in_order(s).no_duplicates(),
    decreases s.len(),
{
    if s.len() > 0 {
        let p = s.drop_last();
        lemma_distinct_no_duplicates(p);
        lemma_distinct_contains(p, s.last());
        let d = distinct_in_order(p);
        if !p.contains(s.last()) {
            assert forall|a: int, b: int|
                0 <= a < b < d.push(s.last()).len() implies d.push(s.last())[a] != d.push(
                s.last(),
            )[b] by {
                if b == d.len() {
                    if d[a] == s.last() {
                        assert(d.contains(s.last()));
                    }
                }
            }
        }
    }
}

impl ContentExtractor {
    /// The extractor.
    pub fn new() -> (r: Self) {
        ContentExtractor
    }

    /// The text of the first element `selector` matches, when there is one.
    fn first_text(html: &str, selector: &str) -> (r: Option<String>)
        ensures
            r matches Some(t) ==> first_text_of(html@, selector@) == Some(t@),
            r is None ==> first_text_of(html@, selector@) is None,
    {
        match select_text_nodes(html, selector) {
            Some(els) => {
                if els.len() > 0 {
                    let t = join(&els[0], "");
                    assert(""@ =~= Seq::<char>::empty()) by {
                        reveal_strlit("");
                    }
                    Some(t)
                } else {
                    None
                }
            },
            None => None,
        }
    }

    fn nonempty_first(html: &str, selector: &str) -> (r: Option<String>)
        ensures
            r matches Some(t) ==> nonempty_first_text(html@, selector@) == Some(t@),
            r is None ==> nonempty_first_text(html@, selector@) is None,
    {
        match Self::first_text(html, selector) {
            Some(t) => {
                let tt = trim(&chars_of(t.as_str()));
                if tt.len() > 0 {
                    Some(string_of(&tt))
                } else {
                    None
                }
            },
            None => None,
        }
    }

    /// Trimmed texts of all elements `selector` matches, kept when non-empty
    /// (`long` false) or longer than 20 bytes (`long` true).
    fn texts(html: &str, selector: &str, long: bool) -> (r: Vec<String>)
        ensures
            r@.map_values(|s: String| s@) == texts_of(
                html@,
                selector@,
                if long {
                    long_text()
                } else {
                    non_empty()
                },
            ),
    {
        let ghost keep = if long {
            long_text()
        } else {
            non_empty()
        };
        let mut r: Vec<String> = Vec::new();
        match select_text_nodes(html, selector) {
            None => {
                assert(r@.map_values(|s: String| s@) =~= Seq::<Seq<char>>::empty());
            },
            Some(els) => {
                let ghost ev = els@.map_values(|e: Vec<String>| e@.map_values(|s: String| s@));
                let mut i: usize = 0;
                assert(r@.map_values(|s: String| s@) =~= Seq::<Seq<char>>::empty());
                while i < els.len()
                    invariant
                        i <= els@.len(),
                        ev == els@.map_values(|e: Vec<String>| e@.map_values(|s: String| s@)),
                        keep == if long {
                            long_text()
                        } else {
                            non_empty()
                        },
                        r@.map_values(|s: String| s@) == kept_texts(ev.take(i as int), keep),
                    decreases els.len() - i,
                {
                    assert(ev.take(i + 1).drop_last() =~= ev.take(i as int));
                    assert(ev.take(i + 1).last() == els@[i as int]@.map_values(|s: String| s@));
                    let whole = join(&els[i], "");
                    assert(""@ =~= Seq::<char>::empty()) by {
                        reveal_strlit("");
                    }
                    let t = string_of(&trim(&chars_of(whole.as_str())));
                    let ok = if long {
                        longer_than(&t, 20)
                    } else {
                        !t.as_str().is_empty()
                    };
                    let ghost before = r@;
                    if ok {
                        r.push(t);
                        assert(r@.map_values(|s: String| s@) =~= before.map_values(|s: String| s@).push(
                            t@,
                        ));
                    }
                    i = i + 1;
                }
                assert(ev.take(i as int) =~= ev);
            },
        }
        r
    }

    fn meta_content(html: &str, selector: &str) -> (r: Option<String>)
        ensures
            r matches Some(t) ==> meta_content_of(html@, selector@) == Some(t@),
            r is None ==> meta_content_of(html@, selector@) is None,
    {
        match select_attrs(html, selector, "content") {
            Some(vs) => {
                if vs.len() > 0 {
                    match &vs[0] {
                        Some(c) => {
                            let t = trim(&chars_of(c.as_str()));
                            if t.len() > 0 {
                                Some(string_of(&t))
                            } else {
                                None
                            }
                        },
                        None => None,
                    }
                } else {
                    None
                }
            },
            None => None,
        }
    }

    fn meta(html: &str, name: &str) -> (r: Option<String>)
        ensures
            r matches Some(t) ==> meta_of(html@, name@) == Some(t@),
            r is None ==> meta_of(html@, name@) is None,
    {
        let mut sel = String::from_str("meta[name=\"");
        sel.append(name);
        sel.append("\"]");
        Self::meta_content(html, sel.as_str())
    }

    fn meta_property(html: &str, property: &str) -> (r: Option<String>)
        ensures
            r matches Some(t) ==> meta_property_of(html@, property@) == Some(t@),
            r is None ==> meta_property_of(html@, property@) is None,
    {
        let mut sel = String::from_str("meta[property=\"");
        sel.append(property);
        sel.append("\"]");
        Self::meta_content(html, sel.as_str())
    }

    /// The page title: `<title>`, else first `<h1>`, else `og:title`, else `Untitled`.
    pub fn extract_title(&self, html: &str) -> (r: String)
        ensures
            r@ == title_of(html@),
    {
        match Self::nonempty_first(html, "title") {
            Some(t) => t,
            None => match Self::nonempty_first(html, "h1") {
                Some(h) => h,
                None => match Self::meta_property(html, "og:title") {
                    Some(m) => m,
                    None => "Untitled".to_owned(),
                },
            },
        }
    }

    /// The non-empty `h1`, `h2` and `h3` texts, in that order.
    pub fn extract_headings(&self, html: &str) -> (r: Vec<String>)
        ensures
            r@.map_values(|s: String| s@) == headings_of(html@),
    {
        let mut a = Self::texts(html, "h1", false);
        let mut b = Self::texts(html, "h2", false);
        let mut c = Self::texts(html, "h3", false);
        let ghost av = a@;
        let ghost bv = b@;
        let ghost cv = c@;
        a.append(&mut b);
        a.append(&mut c);
        assert(a@ =~= av + bv + cv);
        assert(a@.map_values(|s: String| s@) =~= av.map_values(|s: String| s@) + bv.map_values(
            |s: String| s@,
        ) + cv.map_values(|s: String| s@));
        a
    }

    /// Text cleaned of layout.
    pub fn clean_text(&self, text: &str) -> (r: String)
        ensures
            r@ == cleaned_of(text@),
    {
        let collapsed = collapse_whitespace(text);
        let v = chars_of(collapsed.as_str());
        let mut lines: Vec<String> = Vec::new();
        let mut line: Vec<char> = Vec::new();
        let mut i: usize = 0;
        proof {
            crate::text::lemma_split_newlines_nonempty(v@.take(0));
            assert(v@.take(0) =~= Seq::<char>::empty());
        }
        while i < v.len()
            invariant
                i <= v@.len(),
                v@ == collapsed@,
                ({
                    let pieces = split_newlines(v@.take(i as int));
                    &&& pieces.len() > 0
                    &&& line@ == pieces.last()
                    &&& lines@.map_values(|s: String| s@) == kept_lines(pieces.drop_last())
                }),
            decreases v.len() - i,
        {
            let ghost pieces = split_newlines(v@.take(i as int));
            assert(v@.take(i + 1).drop_last() =~= v@.take(i as int));
            assert(v@.take(i + 1).last() == v@[i as int]);
            if v[i] == '\n' {
                let t = trim(&line);
                let ghost before = lines@;
                if t.len() > 0 {
                    let s = string_of(&t);
                    lines.push(s);
                    assert(lines@.map_values(|s: String| s@) =~= before.map_values(|s: String| s@).push(
                        s@,
                    ));
                }
                assert(pieces.push(seq![]).drop_last() =~= pieces);
                assert(kept_lines(pieces) == {
                    let rest = kept_lines(pieces.drop_last());
                    if trim_seq(pieces.last()).len() > 0 {
                        rest.push(trim_seq(pieces.last()))
                    } else {
                        rest
                    }
                });
                line = Vec::new();
                assert(line@ =~= Seq::<char>::empty());
            } else {
                line.push(v[i]);
                let ghost np = pieces.update(pieces.len() - 1, pieces.last().push(v@[i as int]));
                assert(np.drop_last() =~= pieces.drop_last());
            }
            i = i + 1;
        }
        let ghost pieces = split_newlines(v@.take(i as int));
        let t = trim(&line);
        let ghost before = lines@;
        if t.len() > 0 {
            let s = string_of(&t);
            lines.push(s);
            assert(lines@.map_values(|s: String| s@) =~= before.map_values(|s: String| s@).push(s@));
        }
        assert(v@.take(i as int) =~= collapsed@);
        let joined = join(&lines, "\n");
        string_of(&trim(&chars_of(joined.as_str())))
    }

    fn container(&self, html: &str, k: usize) -> (r: Option<String>)
        requires
            k <= 8,
        ensures
            r matches Some(c) ==> container_content(html@, k as nat) == Some(c@),
            r is None ==> container_content(html@, k as nat) is None,
        decreases 8 - k,
    {
        if k >= 8 {
            return None;
        }
        let sel = if k == 0 {
            "article"
        } else if k == 1 {
            "main"
        } else if k == 2 {
            "[role=\"main\"]"
        } else if k == 3 {
            ".post-content"
        } else if k == 4 {
            ".article-content"
        } else if k == 5 {
            ".entry-content"
        } else if k == 6 {
            ".content"
        } else {
            "#content"
        };
        assert(sel@ == content_selectors()[k as int]);
        let here = match select_text_nodes(html, sel) {
            Some(els) => {
                if els.len() > 0 {
                    let joined = join(&els[0], " ");
                    let c = self.clean_text(joined.as_str());
                    if longer_than(&c, 100) {
                        Some(c)
                    } else {
                        None
                    }
                } else {
                    None
                }
            },
            None => None,
        };
        match here {
            Some(c) => Some(c),
            None => self.container(html, k + 1),
        }
    }

    /// The main text of a page.
    pub fn extract_main_content(&self, html: &str) -> (r: String)
        ensures
            r@ == main_content_of(html@),
    {
        match self.container(html, 0) {
            Some(c) => c,
            None => {
                let ps = Self::texts(html, "p", true);
                if ps.len() > 0 {
                    join(&ps, "\n\n")
                } else {
                    match select_text_nodes(html, "body") {
                        Some(els) => {
                            if els.len() > 0 {
                                let joined = join(&els[0], " ");
                                self.clean_text(joined.as_str())
                            } else {
                                String::new()
                            }
                        },
                        None => String::new(),
                    }
                }
            },
        }
    }

    fn frame(texts: &Vec<String>, prefix: &str, suffix: &str, out: &mut String)
        ensures
            final(out)@ == old(out)@ + framed(texts@.map_values(|s: String| s@), prefix@, suffix@),
    {
        let ghost ts = texts@.map_values(|s: String| s@);
        let ghost start = out@;
        let mut i: usize = 0;
        while i < texts.len()
            invariant
                i <= texts@.len(),
                ts == texts@.map_values(|s: String| s@),
                out@ == start + framed(ts.take(i as int), prefix@, suffix@),
            decreases texts.len() - i,
        {
            assert(ts.take(i + 1).drop_last() =~= ts.take(i as int));
            out.append(prefix);
            out.append(texts[i].as_str());
            out.append(suffix);
            i = i + 1;
        }
        assert(ts.take(i as int) =~= ts);
    }

    /// The page in basic markdown.
    pub fn html_to_markdown(&self, html: &str) -> (r: String)
        ensures
            r@ == markdown_of(html@),
    {
        let mut md = String::new();
        let ghost a = framed(texts_of(html@, "h1"@, non_empty()), "# "@, "\n\n"@);
        let ghost b = framed(texts_of(html@, "h2"@, non_empty()), "## "@, "\n\n"@);
        let ghost c = framed(texts_of(html@, "h3"@, non_empty()), "### "@, "\n\n"@);
        let ghost d = framed(texts_of(html@, "p"@, long_text()), seq![], "\n\n"@);
        let ghost f = framed(texts_of(html@, "li"@, non_empty()), "- "@, "\n"@);
        proof {
            reveal_strlit("");
            assert(""@ =~= Seq::<char>::empty());
        }
        Self::frame(&Self::texts(html, "h1", false), "# ", "\n\n", &mut md);
        assert(md@ =~= a);
        Self::frame(&Self::texts(html, "h2", false), "## ", "\n\n", &mut md);
        assert(md@ =~= a + b);
        Self::frame(&Self::texts(html, "h3", false), "### ", "\n\n", &mut md);
        assert(md@ =~= a + b + c);
        Self::frame(&Self::texts(html, "p", true), "", "\n\n", &mut md);
        assert(md@ =~= a + b + c + d);
        Self::frame(&Self::texts(html, "li", false), "- ", "\n", &mut md);
        assert(md@ =~= a + b + c + d + f);
        md
    }

    /// Extracts title, text, markdown, author, description and headings of a page.
    pub fn extract(&self, html: &str, url: &str) -> (r: ExtractedContent)
        ensures
            r.title@ == title_of(html@),
            r.clean_text@ == main_content_of(html@),
            r.markdown@ == markdown_of(html@),
            opt_text(r.author) == meta_of(html@, "author"@),
            opt_text(r.description) == match meta_of(html@, "description"@) {
                Some(d) => Some(d),
                None => meta_property_of(html@, "og:description"@),
            },
            r.headings@.map_values(|s: String| s@) == headings_of(html@),
    {
        let title = self.extract_title(html);
        let author = Self::meta(html, "author");
        let description = match Self::meta(html, "description") {
            Some(d) => Some(d),
            None => Self::meta_property(html, "og:description"),
        };
        let headings = self.extract_headings(html);
        let clean_text = self.extract_main_content(html);
        let markdown = self.html_to_markdown(html);
        ExtractedContent { title, clean_text, markdown, author, description, headings }
    }

    /// The links of a page, each once, resolved against `base_url`.
    pub fn extract_links(&self, html: &str, base_url: &str) -> (r: Vec<String>)
        ensures
            r@.map_values(|s: String| s@) == links_of(html@, base_url@),
    {
        let mut targets: Vec<String> = Vec::new();
        match select_attrs(html, "a[href]", "href") {
            None => {
                assert(targets@.map_values(|s: String| s@) =~= Seq::<Seq<char>>::empty());
                targets
            },
            Some(hs) => {
                let ghost hv = hs@.map_values(|o: Option<String>| opt_text(o));
                let mut i: usize = 0;
                assert(targets@.map_values(|s: String| s@) =~= Seq::<Seq<char>>::empty());
                while i < hs.len()
                    invariant
                        i <= hs@.len(),
                        hv == hs@.map_values(|o: Option<String>| opt_text(o)),
                        targets@.map_values(|s: String| s@) == link_targets(
                            hv.take(i as int),
                            base_url@,
                        ),
                    decreases hs.len() - i,
                {
                    assert(hv.take(i + 1).drop_last() =~= hv.take(i as int));
                    assert(hv.take(i + 1).last() == opt_text(hs@[i as int]));
                    let ghost before = targets@;
                    match &hs[i] {
                        None => {},
                        Some(h) => {
                            let hc = chars_of(h.as_str());
                            if starts_with(&hc, &chars_of("#")) || starts_with(
                                &hc,
                                &chars_of("javascript:"),
                            ) || starts_with(&hc, &chars_of("mailto:")) {
                            } else if starts_with(&hc, &chars_of("http://")) || starts_with(
                                &hc,
                                &chars_of("https://"),
                            ) {
                                let c = h.clone();
                                targets.push(c);
                                assert(targets@.map_values(|s: String| s@) =~= before.map_values(
                                    |s: String| s@,
                                ).push(c@));
                            } else {
                                match resolve_url(base_url, h.as_str()) {
                                    Some(u) => {
                                        targets.push(u);
                                        assert(targets@.map_values(|s: String| s@) =~= before.map_values(
                                            |s: String| s@,
                                        ).push(u@));
                                    },
                                    None => {},
                                }
                            }
                        },
                    }
                    i = i + 1;
                }
                assert(hv.take(i as int) =~= hv);
                distinct_strings(targets)
            },
        }
    }
}

/// The first occurrence of each string, in order.
fn distinct_strings(v: Vec<String>) -> (r: Vec<String>)
    ensures
        r@.map_values(|s: String| s@) == distinct_in_order(v@.map_values(|s: String| s@)),
{
    let ghost s = v@.map_values(|s: String| s@);
    let n = v.len();
    let mut rest = v;
    let mut out: Vec<String> = Vec::new();
    let mut k: usize = 0;
    assert(out@.map_values(|s: String| s@) =~= Seq::<Seq<char>>::empty());
    while rest.len() > 0
        invariant
            k + rest@.len() == s.len(),
            s.len() == n,
            rest@.map_values(|s: String| s@) == s.skip(k as int),
            out@.map_values(|s: String| s@) == distinct_in_order(s.take(k as int)),
        decreases rest.len(),
    {
        let ghost rv = rest@;
        let item = rest.remove(0);
        assert(rv.map_values(|s: String| s@)[0] == item@);
        assert(s.take(k + 1).drop_last() =~= s.take(k as int));
        assert(s.take(k + 1).last() == item@);
        let ghost ov = out@.map_values(|s: String| s@);
        proof {
            lemma_distinct_contains(s.take(k as int), item@);
        }
        let mut seen = false;
        let mut j: usize = 0;
        while j < out.len()
            invariant
                j <= out@.len(),
                ov == out@.map_values(|s: String| s@),
                seen <==> exists|m: int| 0 <= m < j && ov[m] == item@,
            decreases out.len() - j,
        {
            if out[j] == item {
                assert(ov[j as int] == item@);
                seen = true;
            }
            j = j + 1;
        }
        assert(seen <==> ov.contains(item@));
        if !seen {
            let ghost before = out@;
            out.push(item);
            assert(out@.map_values(|s: String| s@) =~= before.map_values(|s: String| s@).push(
                item@,
            ));
        }
        k = k + 1;
        assert(rest@ =~= rv.drop_first());
        let ghost rm = rest@.map_values(|s: String| s@);
        assert forall|m: int| 0 <= m < rest@.len() implies #[trigger] rm[m] == s.skip(k as int)[m] by {
            assert(rest@[m] == rv[m + 1]);
            assert(rv.map_values(|s: String| s@)[m + 1] == s.skip(k - 1)[m + 1]);
        }
        assert(rm =~= s.skip(k as int));
    }
    assert(s.take(k as int) =~= s);
    out
}

} // verus!
