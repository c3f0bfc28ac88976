//! The agent's memory: a bounded, first-in first-out short-term tier, a
//! working tier of findings, and a long-term tier that important short-term
//! entries are promoted to.
//!
//! How important an entry is, is held as a rank: a higher rank is more
//! important, and ranks compare as the importances they stand for.
use vstd::prelude::*;
use vstd::string::StringExecFns;
use crate::categorizer::{lowercase, lowercase_of};
use crate::text::{chars_of, clone_strings, contains, contains_seq, join, occurs_at, seq_join};
use crate::types::{MemoryStats, MemoryType};

verus! {

/// A remembered piece of information. `meta` carries what the memory only keeps
/// for its owner (identity, timestamps, the importance as given).
pub struct MemoryEntry<M> {
    pub content: String,
    pub memory_type: MemoryType,
    pub rank: u64,
    pub access_count: u32,
    pub tags: Vec<String>,
    pub meta: M,
}

/// An entry as plain values: content, tier, rank, access count, tags, meta.
pub type EntryView<M> = (Seq<char>, MemoryType, u64, u32, Seq<Seq<char>>, M);

/// The plain values of an entry.
pub open spec fn entry_view<M>(e: MemoryEntry<M>) -> EntryView<M> {
    (e.content@, e.memory_type, e.rank, e.access_count, e.tags@.map_values(|t: String| t@), e.meta)
}

/// The plain values of a sequence of entries.
pub open spec fn entries_view<M>(s: Seq<MemoryEntry<M>>) -> Seq<EntryView<M>> {
    s.map_values(|e: MemoryEntry<M>| entry_view(e))
}

/// `x` placed into `s` after every entry at least as important as it, counted
/// from the back: in a sequence ordered most important first, `x` goes after its
/// equals.
pub open spec fn insert_by_rank<M>(s: Seq<EntryView<M>>, x: EntryView<M>) -> Seq<EntryView<M>>
    decreases s.len(),
{
    if s.len() == 0 {
        seq![x]
    } else if s.last().2 < x.2 {
        insert_by_rank(s.drop_last(), x).push(s.last())
    } else {
        s.push(x)
    }
}

/// `s` ordered most important first, equals kept in their order (a stable sort
/// on the rank, descending).
pub open spec fn by_rank<M>(s: Seq<EntryView<M>>) -> Seq<EntryView<M>>
    decreases s.len(),
{
    if s.len() == 0 {
        seq![]
    } else {
        insert_by_rank(by_rank(s.drop_last()), s.last())
    }
}

/// The entries whose lower-case content holds the lower-case query, in order.
pub open spec fn matching<M>(s: Seq<EntryView<M>>, query: Seq<char>) -> Seq<EntryView<M>>
    decreases s.len(),
{
    if s.len() == 0 {
        seq![]
    } else {
        let rest = matching(s.drop_last(), query);
        if contains_seq(lowercase_of(s.last().0), lowercase_of(query)) {
            rest.push(s.last())
        } else {
            rest
        }
    }
}

/// The entries at least as important as the threshold, in order, moved to the
/// long-term tier.
pub open spec fn promoted<M>(s: Seq<EntryView<M>>, threshold: u64) -> Seq<EntryView<M>>
    decreases s.len(),
{
    if s.len() == 0 {
        seq![]
    } else {
        let rest = promoted(s.drop_last(), threshold);
        let e = s.last();
        if e.2 >= threshold {
            rest.push((e.0, MemoryType::LongTerm, e.2, e.3, e.4, e.5))
        } else {
            rest
        }
    }
}

/// The context summary: a `- ` line for each of the `max` most important
/// entries, most important first.
pub open spec fn summary_of<M>(s: Seq<EntryView<M>>, max: nat) -> Seq<char> {
    let ranked = by_rank(s);
    let shown = if max < ranked.len() {
        ranked.take(max as int)
    } else {
        ranked
    };
    seq_join(shown.map_values(|e: EntryView<M>| "- "@ + e.0), "\n"@)
}

/// `s` is ordered most important first.
pub open spec fn ranked_desc<M>(s: Seq<EntryView<M>>) -> bool {
    forall|i: int, j: int| 0 <= i < j < s.len() ==> #[trigger] s[i].2 >= #[trigger] s[j].2
}

proof fn lemma_insert_by_rank_bound<M>(s: Seq<EntryView<M>>, x: EntryView<M>, b: u64)
    requires
        forall|k: int| 0 <= k < s.len() ==> #[trigger] s[k].2 >= b,
        x.2 >= b,
    ensures
        forall|k: int|
            0 <= k < insert_by_rank(s, x).len() ==> #[trigger] insert_by_rank(s, x)[k].2 >= b,
        insert_by_rank(s, x).len() == s.len() + 1,
    decreases s.len(),
{
    if s.len() > 0 && s.last().2 < x.2 {
        let t = s.drop_last();
        assert forall|k: int| 0 <= k < t.len() implies #[trigger] t[k].2 >= b by {
            assert(t[k] == s[k]);
        }
        lemma_insert_by_rank_bound(t, x, b);
    }
}

proof fn lemma_insert_by_rank_ordered<M>(s: Seq<EntryView<M>>, x: EntryView<M>)
    requires
        ranked_desc(s),
    ensures
        ranked_desc(insert_by_rank(s, x)),
        insert_by_rank(s, x).to_multiset() == s.to_multiset().insert(x),
    decreases s.len(),
{
    broadcast use vstd::seq_lib::group_to_multiset_ensures;

    if s.len() == 0 {
        assert(seq![x] =~= Seq::<EntryView<M>>::empty().push(x));
    } else if s.last().2 < x.2 {
        let t = s.drop_last();
        let l = s.last();
        assert(ranked_desc(t)) by {
            assert forall|i: int, j: int| 0 <= i < j < t.len() implies #[trigger] t[i].2
                >= #[trigger] t[j].2 by {
                assert(t[i] == s[i] && t[j] == s[j]);
            }
        }
        lemma_insert_by_rank_ordered(t, x);
        assert forall|k: int| 0 <= k < t.len() implies #[trigger] t[k].2 >= l.2 by {
            assert(t[k] == s[k]);
            assert(s[k].2 >= s[s.len() - 1].2);
        }
        lemma_insert_by_rank_bound(t, x, l.2);
        let r = insert_by_rank(t, x);
        assert(insert_by_rank(s, x) == r.push(l));
        assert forall|i: int, j: int| 0 <= i < j < r.push(l).len() implies #[trigger] r.push(l)[i].2
            >= #[trigger] r.push(l)[j].2 by {
            if j == r.len() {
                assert(r.push(l)[i] == r[i]);
            } else {
                assert(r.push(l)[i] == r[i] && r.push(l)[j] == r[j]);
            }
        }
        assert(s =~= t.push(l));
        assert(r.push(l).to_multiset() =~= s.to_multiset().insert(x));
    } else {
        assert forall|i: int, j: int| 0 <= i < j < s.push(x).len() implies #[trigger] s.push(x)[i].2
            >= #[trigger] s.push(x)[j].2 by {
            if j == s.len() {
                assert(s.push(x)[i] == s[i]);
                assert(s[i].2 >= s[s.len() - 1].2);
            } else {
                assert(s.push(x)[i] == s[i] && s.push(x)[j] == s[j]);
            }
        }
    }
}

/// Ranking entries (as searches and context summaries do) orders them most
/// important first and neither loses nor adds an entry.
pub proof fn lemma_by_rank_ordered<M>(s: Seq<EntryView<M>>)
    ensures
        ranked_desc(by_rank(s)),
        by_rank(s).to_multiset() == s.to_multiset(),
    decreases s.len(),
{
    broadcast use vstd::seq_lib::group_to_multiset_ensures;

    if s.len() == 0 {
        assert(by_rank(s).to_multiset() =~= s.to_multiset());
    } else {
        lemma_by_rank_ordered(s.drop_last());
        lemma_insert_by_rank_ordered(by_rank(s.drop_last()), s.last());
        assert(s =~= s.drop_last().push(s.last()));
    }
}

proof fn lemma_insert_by_rank<M>(s: Seq<EntryView<M>>, x: EntryView<M>, p: int)
    requires
        0 <= p <= s.len(),
        forall|j: int| p <= j < s.len() ==> #[trigger] s[j].2 < x.2,
        p == 0 || s[p - 1].2 >= x.2,
    ensures
        insert_by_rank(s, x) == s.take(p).push(x) + s.skip(p),
    decreases s.len(),
{
    if p == s.len() {
        if s.len() == 0 {
            assert(s.take(p).push(x) + s.skip(p) =~= seq![x]);
        } else {
            assert(s.take(p).push(x) + s.skip(p) =~= s.push(x));
        }
    } else {
        let t = s.drop_last();
        assert(s.last() == s[s.len() - 1]);
        assert forall|j: int| p <= j < t.len() implies #[trigger] t[j].2 < x.2 by {
            assert(t[j] == s[j]);
        }
        if p > 0 {
            assert(t[p - 1] == s[p - 1]);
        }
        lemma_insert_by_rank(t, x, p);
        assert(t.take(p).push(x) + t.skip(p) + seq![s.last()] =~= s.take(p).push(x) + s.skip(p));
    }
}

/// `pat` is found somewhere in `s`: at some position, the characters of `s`
/// from there on begin with `pat`.
pub open spec fn holds_substring(s: Seq<char>, pat: Seq<char>) -> bool {
    exists|i: int| 0 <= i && i + pat.len() <= s.len() && #[trigger] s.subrange(i, i + pat.len()) == pat
}

proof fn lemma_contains_is_substring(s: Seq<char>, pat: Seq<char>)
    ensures
        contains_seq(s, pat) <==> holds_substring(s, pat),
{
    if contains_seq(s, pat) {
        let i = choose|i: int| #[trigger] occurs_at(s, pat, i);
        assert(s.subrange(i, i + pat.len()) == pat);
    }
    if holds_substring(s, pat) {
        let i = choose|i: int|
            0 <= i && i + pat.len() <= s.len() && #[trigger] s.subrange(i, i + pat.len()) == pat;
        assert(occurs_at(s, pat, i));
    }
}

proof fn lemma_matching_members<M>(s: Seq<EntryView<M>>, query: Seq<char>, x: EntryView<M>)
    ensures
        matching(s, query).contains(x) <==> s.contains(x) && holds_substring(
            lowercase_of(x.0),
            lowercase_of(query),
        ),
    decreases s.len(),
{
    if s.len() > 0 {
        let t = s.drop_last();
        let l = s.last();
        lemma_matching_members(t, query, x);
        lemma_contains_is_substring(lowercase_of(l.0), lowercase_of(query));
        assert(s =~= t.push(l));
        let rest = matching(t, query);
        assert(rest.push(l)[rest.len() as int] == l);
        assert(s[s.len() - 1] == l);
        if rest.contains(x) {
            let k = choose|k: int| 0 <= k < rest.len() && rest[k] == x;
            assert(rest.push(l)[k] == x);
        }
        if t.contains(x) {
            let k = choose|k: int| 0 <= k < t.len() && t[k] == x;
            assert(s[k] == x);
        }
        if s.contains(x) && x != l {
            let k = choose|k: int| 0 <= k < s.len() && s[k] == x;
            assert(t[k] == x);
        }
        if rest.push(l).contains(x) && x != l {
            let k = choose|k: int| 0 <= k < rest.push(l).len() && rest.push(l)[k] == x;
            assert(rest[k] == x);
        }
    }
}

/// A search finds exactly the entries whose content, in lower case, holds the
/// lower-case query at some position (not only at its start), and only those:
/// an entry is in the answer as often as it is stored when it holds the query,
/// and never otherwise.
pub proof fn lemma_search_finds_substring_matches<M>(entries: Seq<EntryView<M>>, query: Seq<char>, x: EntryView<M>)
    ensures
        by_rank(matching(entries, query)).contains(x) <==> entries.contains(x) && holds_substring(
            lowercase_of(x.0),
            lowercase_of(query),
        ),
{
    broadcast use vstd::seq_lib::group_to_multiset_ensures;

    lemma_matching_members(entries, query, x);
    lemma_by_rank_ordered(matching(entries, query));
    assert(by_rank(matching(entries, query)).to_multiset().count(x) == matching(entries, query).to_multiset().count(x));
}

/// Consolidation promotes exactly the important entries: an entry is among the
/// promoted ones when and only when it is a short-term entry at least as
/// important as the threshold, moved to the long-term tier with everything else
/// kept; and at most as many entries are promoted as there were.
pub proof fn lemma_promoted_members<M>(s: Seq<EntryView<M>>, threshold: u64, x: EntryView<M>)
    ensures
        promoted(s, threshold).contains(x) <==> x.1 == MemoryType::LongTerm && x.2 >= threshold
            && exists|k: int|
            0 <= k < s.len() && (#[trigger] s[k]).0 == x.0 && s[k].2 == x.2 && s[k].3 == x.3 && s[k].4
                == x.4 && s[k].5 == x.5,
        promoted(s, threshold).len() <= s.len(),
    decreases s.len(),
{
    if s.len() > 0 {
        let t = s.drop_last();
        let e = s.last();
        let y = (e.0, MemoryType::LongTerm, e.2, e.3, e.4, e.5);
        lemma_promoted_members(t, threshold, x);
        let r = promoted(t, threshold);
        assert(s[s.len() - 1] == e);
        if r.contains(x) {
            let k = choose|k: int| 0 <= k < r.len() && r[k] == x;
            assert(r.push(y)[k] == x);
        }
        if e.2 >= threshold {
            assert(r.push(y)[r.len() as int] == y);
            if r.push(y).contains(x) && x != y {
                let k = choose|k: int| 0 <= k < r.push(y).len() && r.push(y)[k] == x;
                assert(r[k] == x);
            }
        }
        if exists|k: int|
            0 <= k < t.len() && (#[trigger] t[k]).0 == x.0 && t[k].2 == x.2 && t[k].3 == x.3 && t[k].4
                == x.4 && t[k].5 == x.5 {
            let k = choose|k: int|
                0 <= k < t.len() && (#[trigger] t[k]).0 == x.0 && t[k].2 == x.2 && t[k].3 == x.3 && t[k].4
                    == x.4 && t[k].5 == x.5;
            assert(s[k] == t[k]);
        }
        if exists|k: int|
            0 <= k < s.len() && (#[trigger] s[k]).0 == x.0 && s[k].2 == x.2 && s[k].3 == x.3 && s[k].4
                == x.4 && s[k].5 == x.5 {
            let k = choose|k: int|
                0 <= k < s.len() && (#[trigger] s[k]).0 == x.0 && s[k].2 == x.2 && s[k].3 == x.3 && s[k].4
                    == x.4 && s[k].5 == x.5;
            if k < t.len() {
                assert(t[k] == s[k]);
            }
        }
    }
}

/// Places `x` into `v` after every entry at least as important as it, counted from the back.
fn insert_ranked<'a, M>(v: &mut Vec<&'a MemoryEntry<M>>, x: &'a MemoryEntry<M>)
    ensures
        final(v)@.map_values(|e: &MemoryEntry<M>| entry_view(*e)) == insert_by_rank(
            old(v)@.map_values(|e: &MemoryEntry<M>| entry_view(*e)),
            entry_view(*x),
        ),
{
    let ghost s = old(v)@.map_values(|e: &MemoryEntry<M>| entry_view(*e));
    let mut p = v.len();
    while p > 0 && v[p - 1].rank < x.rank
        invariant
            p <= v@.len(),
            v@ == old(v)@,
            s == v@.map_values(|e: &MemoryEntry<M>| entry_view(*e)),
            forall|j: int| p <= j < s.len() ==> #[trigger] s[j].2 < x.rank,
        decreases p,
    {
        assert(s[p - 1] == entry_view(*v@[p - 1]));
        p = p - 1;
    }
    proof {
        if p > 0 {
            assert(s[p - 1] == entry_view(*v@[p - 1]));
        }
        lemma_insert_by_rank(s, entry_view(*x), p as int);
    }
    let ghost before = v@;
    v.insert(p, x);
    assert(v@ == before.take(p as int).push(x) + before.skip(p as int)) by {
        assert(v@ =~= before.take(p as int).push(x) + before.skip(p as int));
    }
    assert(v@.map_values(|e: &MemoryEntry<M>| entry_view(*e)) =~= s.take(p as int).push(
        entry_view(*x),
    ) + s.skip(p as int));
}

/// Orders `v` most important first, equals kept in their order.
fn sort_ranked<'a, M>(v: Vec<&'a MemoryEntry<M>>) -> (r: Vec<&'a MemoryEntry<M>>)
    ensures
        r@.map_values(|e: &MemoryEntry<M>| entry_view(*e)) == by_rank(
            v@.map_values(|e: &MemoryEntry<M>| entry_view(*e)),
        ),
{
    let ghost s = v@.map_values(|e: &MemoryEntry<M>| entry_view(*e));
    let mut r: Vec<&'a MemoryEntry<M>> = Vec::new();
    let mut i: usize = 0;
    while i < v.len()
        invariant
            i <= v@.len(),
            s == v@.map_values(|e: &MemoryEntry<M>| entry_view(*e)),
            r@.map_values(|e: &MemoryEntry<M>| entry_view(*e)) == by_rank(s.take(i as int)),
        decreases v.len() - i,
    {
        assert(s.take(i + 1).drop_last() =~= s.take(i as int));
        assert(s.take(i + 1).last() == entry_view(*v@[i as int]));
        insert_ranked(&mut r, v[i]);
        i = i + 1;
    }
    assert(s.take(i as int) =~= s);
    r
}

/// The three memory tiers. `F` is the type of the findings held in working memory.
pub struct Memory<M, F> {
    short_term: Vec<MemoryEntry<M>>,
    short_term_capacity: usize,
    working: Vec<F>,
    long_term: Vec<MemoryEntry<M>>,
}

impl<M, F> Memory<M, F> {
    /// The short-term entries, oldest first.
    pub closed spec fn short_term(&self) -> Seq<EntryView<M>> {
        entries_view(self.short_term@)
    }

    /// The long-term entries, oldest first.
    pub closed spec fn long_term(&self) -> Seq<EntryView<M>> {
        entries_view(self.long_term@)
    }

    /// The findings in working memory, in the order they were added.
    pub closed spec fn working(&self) -> Seq<F> {
        self.working@
    }

    /// How many short-term entries are kept.
    pub closed spec fn capacity(&self) -> nat {
        self.short_term_capacity as nat
    }

    /// The short-term tier holds no more than its capacity, and each entry sits
    /// in the tier that holds it.
    pub open spec fn wf(&self) -> bool {
        &&& self.short_term().len() <= self.capacity()
        &&& forall|i: int|
            0 <= i < self.short_term().len() ==> #[trigger] self.short_term()[i].1
                == MemoryType::ShortTerm
        &&& forall|i: int|
            0 <= i < self.long_term().len() ==> #[trigger] self.long_term()[i].1
                == MemoryType::LongTerm
    }

    /// An empty memory whose short-term tier keeps `short_term_capacity` entries.
    pub fn new(short_term_capacity: usize) -> (r: Self)
        ensures
            r.wf(),
            r.short_term() == Seq::<EntryView<M>>::empty(),
            r.long_term() == Seq::<EntryView<M>>::empty(),
            r.working() == Seq::<F>::empty(),
            r.capacity() == short_term_capacity,
    {
        let r = Memory {
            short_term: Vec::new(),
            short_term_capacity,
            working: Vec::new(),
            long_term: Vec::new(),
        };
        assert(r.short_term() =~= Seq::<EntryView<M>>::empty());
        assert(r.long_term() =~= Seq::<EntryView<M>>::empty());
        r
    }

    /// Remembers `content` in the short-term tier with importance `rank`. The
    /// tier is bounded and first in, first out: when it is full, its oldest entry
    /// is evicted first, and a tier of capacity zero keeps nothing.
    pub fn remember_short(&mut self, content: String, rank: u64, meta: M)
        requires
            old(self).wf(),
        ensures
            final(self).wf(),
            ({
                let s = old(self).short_term();
                let e = (content@, MemoryType::ShortTerm, rank, 0u32, Seq::<Seq<char>>::empty(), meta);
                if old(self).capacity() == 0 {
                    final(self).short_term() == s
                } else if s.len() >= old(self).capacity() {
                    final(self).short_term() == s.drop_first().push(e)
                } else {
                    final(self).short_term() == s.push(e)
                }
            }),
            final(self).long_term() == old(self).long_term(),
            final(self).working() == old(self).working(),
            final(self).capacity() == old(self).capacity(),
    {
        if self.short_term_capacity == 0 {
            return;
        }
        let ghost s = self.short_term();
        if self.short_term.len() >= self.short_term_capacity {
            self.short_term.remove(0);
            assert(entries_view(self.short_term@) =~= s.drop_first());
        }
        let ghost mid = self.short_term();
        let entry = MemoryEntry {
            content,
            memory_type: MemoryType::ShortTerm,
            rank,
            access_count: 0,
            tags: Vec::new(),
            meta,
        };
        let ghost before = self.short_term@;
        self.short_term.push(entry);
        assert(entry.tags@.map_values(|t: String| t@) =~= Seq::<Seq<char>>::empty());
        assert(entries_view(self.short_term@) =~= mid.push(entry_view(entry)));
    }

    /// Adds a finding to working memory.
    pub fn add_finding(&mut self, finding: F)
        requires
            old(self).wf(),
        ensures
            final(self).wf(),
            final(self).working() == old(self).working().push(finding),
            final(self).short_term() == old(self).short_term(),
            final(self).long_term() == old(self).long_term(),
            final(self).capacity() == old(self).capacity(),
    {
        self.working.push(finding);
    }

    /// The findings in working memory.
    pub fn get_findings(&self) -> (r: &[F])
        ensures
            r@ == self.working(),
    {
        self.working.as_slice()
    }

    /// Empties working memory.
    pub fn clear_working(&mut self)
        requires
            old(self).wf(),
        ensures
            final(self).wf(),
            final(self).working() == Seq::<F>::empty(),
            final(self).short_term() == old(self).short_term(),
            final(self).long_term() == old(self).long_term(),
            final(self).capacity() == old(self).capacity(),
    {
        self.working.clear();
    }

    /// Every entry, short-term then long-term.
    fn all_entries(&self) -> (r: Vec<&MemoryEntry<M>>)
        ensures
            r@.map_values(|e: &MemoryEntry<M>| entry_view(*e)) == self.short_term()
                + self.long_term(),
    {
        let ghost all = self.short_term() + self.long_term();
        let ghost n_short = self.short_term@.len();
        let mut entries: Vec<&MemoryEntry<M>> = Vec::new();
        let mut i: usize = 0;
        while i < self.short_term.len()
            invariant
                i <= self.short_term@.len(),
                n_short == self.short_term@.len(),
                all == entries_view(self.short_term@) + entries_view(self.long_term@),
                entries@.map_values(|e: &MemoryEntry<M>| entry_view(*e)) == all.take(i as int),
            decreases self.short_term.len() - i,
        {
            let ghost before = entries@;
            entries.push(&self.short_term[i]);
            assert(all[i as int] == entry_view(self.short_term@[i as int]));
            assert(entries@ == before.push(&self.short_term@[i as int]));
            assert(entries@.map_values(|e: &MemoryEntry<M>| entry_view(*e)) =~= before.map_values(
                |e: &MemoryEntry<M>| entry_view(*e),
            ).push(all[i as int]));
            assert(all.take(i + 1) =~= all.take(i as int).push(all[i as int]));
            i = i + 1;
        }
        let mut j: usize = 0;
        while j < self.long_term.len()
            invariant
                j <= self.long_term@.len(),
                n_short == self.short_term@.len(),
                all == entries_view(self.short_term@) + entries_view(self.long_term@),
                entries@.map_values(|e: &MemoryEntry<M>| entry_view(*e)) == all.take(n_short + j),
            decreases self.long_term.len() - j,
        {
            let ghost before = entries@;
            entries.push(&self.long_term[j]);
            assert(all[n_short + j] == entry_view(self.long_term@[j as int]));
            assert(entries@ == before.push(&self.long_term@[j as int]));
            assert(entries@.map_values(|e: &MemoryEntry<M>| entry_view(*e)) =~= before.map_values(
                |e: &MemoryEntry<M>| entry_view(*e),
            ).push(all[n_short + j]));
            assert(all.take(n_short + j + 1) =~= all.take(n_short + j).push(all[n_short + j]));
            j = j + 1;
        }
        assert(all.take(n_short + j) =~= all);
        entries
    }

    /// Every entry, short-term then long-term, holding the query in its content
    /// (both compared in lower case), most important first and, among equals, in
    /// that order.
    pub fn search(&self, query: &str) -> (r: Vec<&MemoryEntry<M>>)
        ensures
            r@.map_values(|e: &MemoryEntry<M>| entry_view(*e)) == by_rank(
                matching(self.short_term() + self.long_term(), query@),
            ),
    {
        let q = chars_of(lowercase(query).as_str());
        let ghost all = self.short_term() + self.long_term();
        let entries = self.all_entries();
        let mut found: Vec<&MemoryEntry<M>> = Vec::new();
        let mut i: usize = 0;
        while i < entries.len()
            invariant
                i <= entries@.len(),
                all == entries@.map_values(|e: &MemoryEntry<M>| entry_view(*e)),
                q@ == lowercase_of(query@),
                found@.map_values(|e: &MemoryEntry<M>| entry_view(*e)) == matching(
                    all.take(i as int),
                    query@,
                ),
            decreases entries.len() - i,
        {
            let e: &MemoryEntry<M> = entries[i];
            assert(all[i as int] == entry_view(*e));
            let c = chars_of(lowercase(e.content.as_str()).as_str());
            assert(all.take(i + 1).drop_last() =~= all.take(i as int));
            let ghost before = found@;
            if contains(&c, &q) {
                found.push(e);
                assert(found@.map_values(|e: &MemoryEntry<M>| entry_view(*e)) =~= before.map_values(
                    |e: &MemoryEntry<M>| entry_view(*e),
                ).push(entry_view(*e)));
            }
            i = i + 1;
        }
        assert(all.take(i as int) =~= all);
        sort_ranked(found)
    }

    /// The `max_entries` most important entries, short-term and long-term, as
    /// `- ` lines for a prompt.
    pub fn context_summary(&self, max_entries: usize) -> (r: String)
        ensures
            r@ == summary_of(self.short_term() + self.long_term(), max_entries as nat),
    {
        let entries = self.all_entries();
        let ranked = sort_ranked(entries);
        let ghost rv = ranked@.map_values(|e: &MemoryEntry<M>| entry_view(*e));
        let shown = if max_entries < ranked.len() {
            max_entries
        } else {
            ranked.len()
        };
        let ghost sv = if (max_entries as nat) < rv.len() {
            rv.take(max_entries as int)
        } else {
            rv
        };
        let mut lines: Vec<String> = Vec::new();
        let mut k: usize = 0;
        while k < shown
            invariant
                shown <= ranked@.len(),
                k <= shown,
                rv == ranked@.map_values(|e: &MemoryEntry<M>| entry_view(*e)),
                sv.len() == shown,
                forall|x: int| 0 <= x < shown ==> #[trigger] sv[x] == rv[x],
                lines@.map_values(|s: String| s@) == sv.map_values(
                    |e: EntryView<M>| "- "@ + e.0,
                ).take(k as int),
            decreases shown - k,
        {
            let mut line = String::from_str("- ");
            line.append(ranked[k].content.as_str());
            assert(rv[k as int] == entry_view(*ranked@[k as int]));
            let ghost before = lines@;
            lines.push(line);
            assert(sv[k as int] == rv[k as int]);
            assert(lines@ == before.push(line));
            assert(line@ == "- "@ + sv[k as int].0);
            assert(lines@.map_values(|s: String| s@) =~= before.map_values(|s: String| s@).push(
                line@,
            ));
            assert(sv.map_values(|e: EntryView<M>| "- "@ + e.0).take(k + 1) =~= sv.map_values(
                |e: EntryView<M>| "- "@ + e.0,
            ).take(k as int).push("- "@ + sv[k as int].0));
            k = k + 1;
        }
        assert(sv.map_values(|e: EntryView<M>| "- "@ + e.0).take(k as int) =~= sv.map_values(
            |e: EntryView<M>| "- "@ + e.0,
        ));
        join(&lines, "\n")
    }

    /// How full each tier is.
    pub fn stats(&self) -> (r: MemoryStats)
        ensures
            r.short_term_count == self.short_term().len(),
            r.short_term_capacity == self.capacity(),
            r.working_count == self.working().len(),
            r.long_term_count == self.long_term().len(),
    {
        MemoryStats {
            short_term_count: self.short_term.len(),
            short_term_capacity: self.short_term_capacity,
            working_count: self.working.len(),
            long_term_count: self.long_term.len(),
        }
    }
}

impl<M: Copy, F> Memory<M, F> {
    /// Promotes every short-term entry at least as important as `threshold` to
    /// the long-term tier: a copy of each, in order, is appended there. The
    /// short-term tier keeps its entries.
    pub fn consolidate(&mut self, threshold: u64)
        requires
            old(self).wf(),
        ensures
            final(self).wf(),
            final(self).long_term() == old(self).long_term() + promoted(
                old(self).short_term(),
                threshold,
            ),
            final(self).short_term() == old(self).short_term(),
            final(self).working() == old(self).working(),
            final(self).capacity() == old(self).capacity(),
    {
        let ghost s = self.short_term();
        let ghost l = self.long_term();
        let mut i: usize = 0;
        while i < self.short_term.len()
            invariant
                i <= self.short_term@.len(),
                s == entries_view(self.short_term@),
                self.short_term() == old(self).short_term(),
                self.working() == old(self).working(),
                self.capacity() == old(self).capacity(),
                self.long_term() == l + promoted(s.take(i as int), threshold),
                forall|k: int|
                    0 <= k < self.long_term().len() ==> #[trigger] self.long_term()[k].1
                        == MemoryType::LongTerm,
                old(self).wf(),
            decreases self.short_term.len() - i,
        {
            let ghost st = s.take(i + 1);
            assert(st.drop_last() =~= s.take(i as int));
            assert(st.last() == entry_view(self.short_term@[i as int]));
            if self.short_term[i].rank >= threshold {
                let e = &self.short_term[i];
                let copy = MemoryEntry {
                    content: e.content.clone(),
                    memory_type: MemoryType::LongTerm,
                    rank: e.rank,
                    access_count: e.access_count,
                    tags: clone_strings(&e.tags),
                    meta: e.meta,
                };
                let ghost before = self.long_term@;
                self.long_term.push(copy);
                assert(entries_view(self.long_term@) =~= entries_view(before).push(entry_view(copy)));
            }
            i = i + 1;
        }
        assert(s.take(i as int) =~= s);
    }
}

impl<M, F> Default for Memory<M, F> {
    /// An empty memory whose short-term tier keeps a hundred entries.
    fn default() -> (r: Self)
        ensures
            r.wf(),
            r.short_term() == Seq::<EntryView<M>>::empty(),
            r.long_term() == Seq::<EntryView<M>>::empty(),
            r.working() == Seq::<F>::empty(),
            r.capacity() == 100,
    {
        Self::new(100)
    }
}

} // verus!
