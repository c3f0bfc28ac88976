//! Model router: chooses the LLM backend that serves a request.
//!
//! Choosing is a dialogue with the providers: the router asks one provider at a
//! time whether it is available and decides from the answers. The asking is
//! outside work; `ProviderSelection` holds the decisions, as a state machine
//! whose every answer either selects a provider, asks the next one, or gives up.

use vstd::prelude::*;
use crate::text::{chars_of, contains, contains_seq};

verus! {

/// Routing strategy for model selection.
#[derive(Debug, Clone, Copy, PartialEq, Eq, Structural)]
pub enum RoutingStrategy {
    /// Always use the first available model.
    FirstAvailable,
    /// Use the fastest model (currently the first available one).
    Fastest,
    /// Use the cheapest model: local before API.
    Cheapest,
    /// Use the best quality model: an API model.
    BestQuality,
    /// Small requests to a local model that fits the VRAM budget, large ones to an API.
    Auto,
}

/// What a provider declares about itself.
#[derive(Debug, Clone, Copy, PartialEq, Eq, Structural)]
pub struct ModelCapabilities {
    pub is_local: bool,
    pub vram_requirement_mb: usize,
    pub context_window: usize,
}

/// A registered provider as the router sees it: its name, model and capabilities.
pub struct ProviderProfile {
    pub name: String,
    pub model: String,
    pub capabilities: ModelCapabilities,
}

/// Why no provider was selected.
#[derive(Debug, Clone, Copy, PartialEq, Eq, Structural)]
pub enum RouterError {
    /// "No LLM providers configured".
    NoProvidersConfigured,
    /// "No providers available".
    NoProvidersAvailable,
}

/// The VRAM budget, in MB, that a local model must fit in under `Auto`.
pub const SYSTEM_VRAM_LIMIT_MB: usize = 2048;

/// Under `Auto`, requests with fewer tokens than this may go to a local model.
pub const AUTO_LOCAL_TOKEN_LIMIT: usize = 4096;

/// Which providers one pass of the selection considers.
#[derive(Debug, Clone, Copy, PartialEq, Eq, Structural)]
pub enum ProviderFilter {
    Any,
    Local,
    LocalWithinVram,
    Api,
}

/// Whether a provider with these capabilities is considered by a pass with filter `f`.
pub open spec fn filter_admits(f: ProviderFilter, c: ModelCapabilities) -> bool {
    match f {
        ProviderFilter::Any => true,
        ProviderFilter::Local => c.is_local,
        ProviderFilter::LocalWithinVram => c.is_local && c.vram_requirement_mb <= SYSTEM_VRAM_LIMIT_MB,
        ProviderFilter::Api => !c.is_local,
    }
}

/// The passes that a strategy makes over the providers, in order.
pub open spec fn strategy_passes(strategy: RoutingStrategy, total_tokens: nat) -> Seq<ProviderFilter> {
    match strategy {
        RoutingStrategy::FirstAvailable => seq![ProviderFilter::Any],
        RoutingStrategy::Fastest => seq![ProviderFilter::Any],
        RoutingStrategy::Cheapest => seq![ProviderFilter::Local, ProviderFilter::Any],
        RoutingStrategy::BestQuality => seq![ProviderFilter::Api],
        RoutingStrategy::Auto => if total_tokens < AUTO_LOCAL_TOKEN_LIMIT {
            seq![ProviderFilter::LocalWithinVram, ProviderFilter::Api, ProviderFilter::Any]
        } else {
            seq![ProviderFilter::Api, ProviderFilter::Any]
        },
    }
}

/// The provider chosen when the passes are walked from pass `p`, provider `n`
/// on, and provider `i` answers `avail[i]` whenever it is asked.
pub open spec fn scan(
    passes: Seq<ProviderFilter>,
    caps: Seq<ModelCapabilities>,
    avail: Seq<bool>,
    p: int,
    n: int,
) -> Option<int>
    decreases passes.len() - p, caps.len() - n,
{
    if p < 0 || n < 0 || p >= passes.len() {
        None
    } else if n >= caps.len() {
        scan(passes, caps, avail, p + 1, 0)
    } else if filter_admits(passes[p], caps[n]) && avail[n] {
        Some(n)
    } else {
        scan(passes, caps, avail, p, n + 1)
    }
}

/// The provider that `strategy` selects among providers with capabilities
/// `caps` when provider `i` is available exactly when `avail[i]`.
pub open spec fn selection(
    strategy: RoutingStrategy,
    caps: Seq<ModelCapabilities>,
    total_tokens: nat,
    avail: Seq<bool>,
) -> Option<int> {
    scan(strategy_passes(strategy, total_tokens), caps, avail, 0, 0)
}

/// The first place, walking the passes from pass `p`, provider `n` on, where the
/// pass admits the provider: the (pass, provider) to ask next, or `None` when no
/// pass admits any provider left.
pub open spec fn next_admitted(
    passes: Seq<ProviderFilter>,
    caps: Seq<ModelCapabilities>,
    p: int,
    n: int,
) -> Option<(int, int)>
    decreases passes.len() - p, caps.len() - n,
{
    if p < 0 || n < 0 || p >= passes.len() {
        None
    } else if n >= caps.len() {
        next_admitted(passes, caps, p + 1, 0)
    } else if filter_admits(passes[p], caps[n]) {
        Some((p, n))
    } else {
        next_admitted(passes, caps, p, n + 1)
    }
}

/// The step that asks the next admitted provider, or gives up.
pub open spec fn probe_step(next: Option<(int, int)>) -> SelectionStep {
    match next {
        Some((_, i)) => SelectionStep::Probe(i as usize),
        None => SelectionStep::Failed(RouterError::NoProvidersAvailable),
    }
}

proof fn lemma_next_admitted_later(
    passes: Seq<ProviderFilter>,
    caps: Seq<ModelCapabilities>,
    p: int,
    n: int,
)
    requires
        0 <= p,
        0 <= n,
    ensures
        next_admitted(passes, caps, p, n) matches Some((q, i)) ==> {
            &&& p <= q < passes.len()
            &&& 0 <= i < caps.len()
            &&& (q == p ==> n <= i)
            &&& filter_admits(passes[q], caps[i])
        },
    decreases passes.len() - p, caps.len() - n,
{
    if p >= passes.len() {
    } else if n >= caps.len() {
        lemma_next_admitted_later(passes, caps, p + 1, 0);
    } else if !filter_admits(passes[p], caps[n]) {
        lemma_next_admitted_later(passes, caps, p, n + 1);
    }
}

/// One decision of the selection.
#[derive(Debug, Clone, Copy, PartialEq, Eq, Structural)]
pub enum SelectionStep {
    /// Ask provider `i` whether it is available, and report the answer.
    Probe(usize),
    /// Route the request to provider `i`.
    Selected(usize),
    /// No provider can serve the request.
    Failed(RouterError),
}

/// A selection in progress: the passes still to walk and where it stands.
pub struct ProviderSelection {
    passes: Vec<ProviderFilter>,
    caps: Vec<ModelCapabilities>,
    pass: usize,
    next: usize,
}

fn filter_admits_exec(f: ProviderFilter, c: ModelCapabilities) -> (b: bool)
    ensures
        b == filter_admits(f, c),
{
    match f {
        ProviderFilter::Any => true,
        ProviderFilter::Local => c.is_local,
        ProviderFilter::LocalWithinVram => c.is_local && c.vram_requirement_mb <= SYSTEM_VRAM_LIMIT_MB,
        ProviderFilter::Api => !c.is_local,
    }
}

/// The filters that `strategy` walks for a request of `total_tokens` tokens.
pub fn passes_for(strategy: RoutingStrategy, total_tokens: usize) -> (r: Vec<ProviderFilter>)
    ensures
        r@ == strategy_passes(strategy, total_tokens as nat),
{
    let r = match strategy {
        RoutingStrategy::FirstAvailable => vec![ProviderFilter::Any],
        RoutingStrategy::Fastest => vec![ProviderFilter::Any],
        RoutingStrategy::Cheapest => vec![ProviderFilter::Local, ProviderFilter::Any],
        RoutingStrategy::BestQuality => vec![ProviderFilter::Api],
        RoutingStrategy::Auto => if total_tokens < AUTO_LOCAL_TOKEN_LIMIT {
            vec![ProviderFilter::LocalWithinVram, ProviderFilter::Api, ProviderFilter::Any]
        } else {
            vec![ProviderFilter::Api, ProviderFilter::Any]
        },
    };
    assert(r@ =~= strategy_passes(strategy, total_tokens as nat));
    r
}

impl ProviderSelection {
    /// The capabilities of the providers being chosen among.
    pub closed spec fn caps(&self) -> Seq<ModelCapabilities> {
        self.caps@
    }

    /// The provider whose answer is awaited.
    pub closed spec fn pending(&self) -> int {
        self.next as int
    }

    /// The passes the selection walks, in order.
    pub closed spec fn passes(&self) -> Seq<ProviderFilter> {
        self.passes@
    }

    /// The pass the selection stands in.
    pub closed spec fn pass(&self) -> int {
        self.pass as int
    }

    /// An answer is awaited: the pending provider exists and the current pass admits it.
    pub closed spec fn awaiting(&self) -> bool {
        &&& self.pass < self.passes@.len()
        &&& self.next < self.caps@.len()
        &&& filter_admits(self.passes@[self.pass as int], self.caps@[self.next as int])
    }

    /// The provider that the rest of the selection chooses when every provider
    /// `i` asked from here on answers `avail[i]`.
    pub closed spec fn outcome(&self, avail: Seq<bool>) -> Option<int> {
        scan(self.passes@, self.caps@, avail, self.pass as int, self.next as int)
    }

    /// Walks from pass `p`, provider `n` to the next provider that a pass admits,
    /// and asks it; gives up when none is left.
    fn advance(&mut self, p: usize, n: usize) -> (step: SelectionStep)
        requires
            p <= old(self).passes@.len(),
            n <= old(self).caps@.len(),
        ensures
            final(self).passes@ == old(self).passes@,
            final(self).caps@ == old(self).caps@,
            forall|avail: Seq<bool>|
                avail.len() == old(self).caps@.len() ==> scan(
                    old(self).passes@,
                    old(self).caps@,
                    avail,
                    p as int,
                    n as int,
                ) == match step {
                    SelectionStep::Probe(_) => final(self).outcome(avail),
                    _ => None::<int>,
                },
            step matches SelectionStep::Probe(i) ==> i == final(self).pending() && final(self).awaiting(),
            step == probe_step(next_admitted(old(self).passes@, old(self).caps@, p as int, n as int)),
            next_admitted(old(self).passes@, old(self).caps@, p as int, n as int) matches Some((q, i))
                ==> final(self).pass() == q && final(self).pending() == i,
        decreases old(self).passes@.len() - p, old(self).caps@.len() - n,
    {
        let ghost passes = self.passes@;
        let ghost caps = self.caps@;
        if p >= self.passes.len() {
            return SelectionStep::Failed(RouterError::NoProvidersAvailable);
        }
        if n >= self.caps.len() {
            assert forall|avail: Seq<bool>| avail.len() == caps.len() implies scan(
                passes,
                caps,
                avail,
                p as int,
                n as int,
            ) == scan(passes, caps, avail, p + 1, 0) by {}
            let step = self.advance(p + 1, 0);
            return step;
        }
        if filter_admits_exec(self.passes[p], self.caps[n]) {
            self.pass = p;
            self.next = n;
            SelectionStep::Probe(n)
        } else {
            assert forall|avail: Seq<bool>| avail.len() == caps.len() implies scan(
                passes,
                caps,
                avail,
                p as int,
                n as int,
            ) == scan(passes, caps, avail, p as int, n + 1) by {}
            self.advance(p, n + 1)
        }
    }

    /// Starts choosing among providers with capabilities `caps` for a request of
    /// `total_tokens` tokens.
    pub fn begin(strategy: RoutingStrategy, caps: Vec<ModelCapabilities>, total_tokens: usize) -> (r: (
        ProviderSelection,
        SelectionStep,
    ))
        ensures
            r.0.caps() == caps@,
            caps@.len() == 0 <==> r.1 == SelectionStep::Failed(RouterError::NoProvidersConfigured),
            r.1 matches SelectionStep::Probe(i) ==> i == r.0.pending() && r.0.awaiting() && i
                < caps@.len(),
            r.1 is Selected ==> false,
            r.0.passes() == strategy_passes(strategy, total_tokens as nat),
            caps@.len() > 0 ==> r.1 == probe_step(
                next_admitted(strategy_passes(strategy, total_tokens as nat), caps@, 0, 0),
            ),
            caps@.len() > 0 ==> (next_admitted(strategy_passes(strategy, total_tokens as nat), caps@, 0, 0)
                matches Some((q, _)) ==> r.0.pass() == q),
            forall|avail: Seq<bool>|
                avail.len() == caps@.len() ==> selection(strategy, caps@, total_tokens as nat, avail)
                    == match r.1 {
                    SelectionStep::Probe(_) => r.0.outcome(avail),
                    _ => None::<int>,
                },
    {
        let passes = passes_for(strategy, total_tokens);
        let empty = caps.len() == 0;
        let mut sel = ProviderSelection { passes, caps, pass: 0, next: 0 };
        if empty {
            assert forall|avail: Seq<bool>| avail.len() == sel.caps@.len() implies scan(
                sel.passes@,
                sel.caps@,
                avail,
                0,
                0,
            ) is None by {
                lemma_scan_no_providers(sel.passes@, sel.caps@, avail, 0);
            }
            return (sel, SelectionStep::Failed(RouterError::NoProvidersConfigured));
        }
        let step = sel.advance(0, 0);
        (sel, step)
    }

    /// Takes the answer of the provider that was asked last.
    pub fn on_availability(&mut self, available: bool) -> (step: SelectionStep)
        requires
            old(self).awaiting(),
        ensures
            final(self).caps() == old(self).caps(),
            final(self).passes() == old(self).passes(),
            available ==> step == SelectionStep::Selected(old(self).pending() as usize),
            !available ==> step == probe_step(
                next_admitted(old(self).passes(), old(self).caps(), old(self).pass(), old(self).pending() + 1),
            ),
            !available ==> (next_admitted(
                old(self).passes(),
                old(self).caps(),
                old(self).pass(),
                old(self).pending() + 1,
            ) matches Some((q, i)) ==> final(self).pass() == q && final(self).pending() == i),
            step matches SelectionStep::Probe(i) ==> final(self).pass() > old(self).pass() || (final(
                self).pass() == old(self).pass() && i > old(self).pending()),
            step matches SelectionStep::Probe(i) ==> i == final(self).pending() && final(self).awaiting(),
            forall|avail: Seq<bool>|
                avail.len() == old(self).caps().len() && avail[old(self).pending()] == available
                    ==> old(self).outcome(avail) == match step {
                    SelectionStep::Probe(_) => final(self).outcome(avail),
                    SelectionStep::Selected(i) => Some(i as int),
                    SelectionStep::Failed(_) => None::<int>,
                },
    {
        let p = self.pass;
        let n = self.next;
        let len = self.caps.len();
        if available {
            return SelectionStep::Selected(n);
        }
        let ghost passes = self.passes@;
        let ghost caps = self.caps@;
        assert forall|avail: Seq<bool>|
            avail.len() == caps.len() && avail[n as int] == available implies scan(
            passes,
            caps,
            avail,
            p as int,
            n as int,
        ) == scan(passes, caps, avail, p as int, n + 1) by {}
        proof {
            lemma_next_admitted_later(passes, caps, p as int, n + 1);
        }
        self.advance(p, n + 1)
    }
}

proof fn lemma_scan_no_providers(
    passes: Seq<ProviderFilter>,
    caps: Seq<ModelCapabilities>,
    avail: Seq<bool>,
    p: int,
)
    requires
        caps.len() == 0,
        p >= 0,
    ensures
        scan(passes, caps, avail, p, 0) is None,
    decreases passes.len() - p,
{
    if p < passes.len() {
        lemma_scan_no_providers(passes, caps, avail, p + 1);
    }
}

/// A router over providers of type `P`, each registered with its profile.
pub struct ModelRouter<P> {
    providers: Vec<P>,
    profiles: Vec<ProviderProfile>,
    strategy: RoutingStrategy,
}

impl<P> ModelRouter<P> {
    /// The registered providers, in order.
    pub closed spec fn providers(&self) -> Seq<P> {
        self.providers@
    }

    /// The (name, model) of each registered provider, in order.
    pub closed spec fn names(&self) -> Seq<(Seq<char>, Seq<char>)> {
        self.profiles@.map_values(|p: ProviderProfile| (p.name@, p.model@))
    }

    /// The capabilities of each registered provider, in order.
    pub closed spec fn capabilities(&self) -> Seq<ModelCapabilities> {
        self.profiles@.map_values(|p: ProviderProfile| p.capabilities)
    }

    /// The strategy the router was made with.
    pub closed spec fn strategy(&self) -> RoutingStrategy {
        self.strategy
    }

    /// Providers and profiles go together.
    pub closed spec fn wf(&self) -> bool {
        self.providers@.len() == self.profiles@.len()
    }

    /// A router with no providers.
    pub fn new(strategy: RoutingStrategy) -> (r: Self)
        ensures
            r.wf(),
            r.providers().len() == 0,
            r.names().len() == 0,
            r.capabilities().len() == 0,
            r.strategy() == strategy,
    {
        let r = Self { providers: Vec::new(), profiles: Vec::new(), strategy };
        assert(r.names() =~= Seq::empty());
        assert(r.capabilities() =~= Seq::empty());
        r
    }

    /// Registers a provider at the end of the list.
    pub fn add_provider(&mut self, provider: P, profile: ProviderProfile)
        requires
            old(self).wf(),
        ensures
            final(self).wf(),
            final(self).providers() == old(self).providers().push(provider),
            final(self).names() == old(self).names().push((profile.name@, profile.model@)),
            final(self).capabilities() == old(self).capabilities().push(profile.capabilities),
            final(self).strategy() == old(self).strategy(),
    {
        let ghost caps = profile.capabilities;
        let ghost nm = (profile.name@, profile.model@);
        self.providers.push(provider);
        self.profiles.push(profile);
        assert(self.names() =~= old(self).names().push(nm));
        assert(self.capabilities() =~= old(self).capabilities().push(caps));
    }

    /// The (name, model) of every registered provider, in order.
    pub fn list_providers(&self) -> (r: Vec<(String, String)>)
        ensures
            r@.map_values(|x: (String, String)| (x.0@, x.1@)) == self.names(),
    {
        let mut r: Vec<(String, String)> = Vec::new();
        let mut i: usize = 0;
        while i < self.profiles.len()
            invariant
                i <= self.profiles@.len(),
                r@.map_values(|x: (String, String)| (x.0@, x.1@)) == self.names().take(i as int),
            decreases self.profiles.len() - i,
        {
            let p = &self.profiles[i];
            let ghost before = r@;
            let entry = (p.name.clone(), p.model.clone());
            assert(entry.0@ == p.name@ && entry.1@ == p.model@);
            r.push(entry);
            assert(r@ == before.push(entry));
            assert(self.names()[i as int] == (p.name@, p.model@));
            assert(r@.map_values(|x: (String, String)| (x.0@, x.1@)) =~= before.map_values(
                |x: (String, String)| (x.0@, x.1@),
            ).push((entry.0@, entry.1@)));
            assert(self.names().take(i + 1) =~= self.names().take(i as int).push(
                self.names()[i as int],
            ));
            i = i + 1;
        }
        assert(self.names().take(i as int) =~= self.names());
        r
    }

    /// The provider registered at position `i`.
    pub fn provider(&self, i: usize) -> (r: &P)
        requires
            i < self.providers().len(),
        ensures
            *r == self.providers()[i as int],
    {
        &self.providers[i]
    }

    /// The token count that selecting a provider needs for a request with these
    /// message contents: counted (`None` when a content cannot be tokenized)
    /// under `Auto`, the only strategy that reads it, and zero otherwise.
    pub fn selection_tokens(&self, contents: &Vec<String>) -> (r: Option<usize>)
        ensures
            self.strategy() == RoutingStrategy::Auto ==> r == match total_tokens(
                contents@.map_values(|s: String| s@),
            ) {
                Some(t) => Some(if t <= usize::MAX { t as usize } else { usize::MAX }),
                None => None::<usize>,
            },
            self.strategy() != RoutingStrategy::Auto ==> r == Some(0usize),
    {
        match self.strategy {
            RoutingStrategy::Auto => request_tokens(contents),
            _ => Some(0),
        }
    }

    /// Starts choosing the provider for a request of `total_tokens` tokens.
    pub fn begin_selection(&self, total_tokens: usize) -> (r: (ProviderSelection, SelectionStep))
        requires
            self.wf(),
        ensures
            r.0.caps() == self.capabilities(),
            self.providers().len() == 0 <==> r.1 == SelectionStep::Failed(
                RouterError::NoProvidersConfigured,
            ),
            r.1 matches SelectionStep::Probe(i) ==> i == r.0.pending() && r.0.awaiting() && i
                < self.providers().len(),
            r.1 is Selected ==> false,
            r.0.passes() == strategy_passes(self.strategy(), total_tokens as nat),
            self.providers().len() > 0 ==> r.1 == probe_step(
                next_admitted(strategy_passes(self.strategy(), total_tokens as nat), self.capabilities(), 0, 0),
            ),
            self.providers().len() > 0 ==> (next_admitted(
                strategy_passes(self.strategy(), total_tokens as nat),
                self.capabilities(),
                0,
                0,
            ) matches Some((q, _)) ==> r.0.pass() == q),
            forall|avail: Seq<bool>|
                avail.len() == self.providers().len() ==> selection(
                    self.strategy(),
                    self.capabilities(),
                    total_tokens as nat,
                    avail,
                ) == match r.1 {
                    SelectionStep::Probe(_) => r.0.outcome(avail),
                    _ => None::<int>,
                },
    {
        let mut caps: Vec<ModelCapabilities> = Vec::new();
        let mut i: usize = 0;
        while i < self.profiles.len()
            invariant
                i <= self.profiles@.len(),
                caps@ == self.capabilities().take(i as int),
            decreases self.profiles.len() - i,
        {
            caps.push(self.profiles[i].capabilities);
            assert(caps@ =~= self.capabilities().take(i + 1));
            i = i + 1;
        }
        assert(self.capabilities().take(i as int) =~= self.capabilities());
        ProviderSelection::begin(self.strategy, caps, total_tokens)
    }
}

/// The number of tokens of `text` under the `cl100k_base` encoding (special
/// tokens allowed); `None` when the tokenizer cannot split the text.
pub uninterp spec fn cl100k_token_count(text: Seq<char>) -> Option<nat>;

/// `tiktoken_rs::cl100k_base_singleton().encode(text, &special_tokens())` and the
/// length of the tokens: the claim is only that the count, or the failure (the
/// tokenizer's regular expression giving up), is a function of the text.
#[verifier::external_body]
fn token_count(text: &str) -> (r: Option<usize>)
    ensures
        r matches Some(n) ==> cl100k_token_count(text@) == Some(n as nat),
        r is None ==> cl100k_token_count(text@) is None,
{
    let bpe = tiktoken_rs::cl100k_base_singleton();
    bpe.encode(text, &bpe.special_tokens()).ok().map(|(tokens, _)| tokens.len())
}

/// Total token count of a sequence of texts; `None` when one of them cannot be
/// tokenized.
pub open spec fn total_tokens(texts: Seq<Seq<char>>) -> Option<nat>
    decreases texts.len(),
{
    if texts.len() == 0 {
        Some(0)
    } else {
        match (total_tokens(texts.drop_last()), cl100k_token_count(texts.last())) {
            (Some(a), Some(b)) => Some(a + b),
            _ => None,
        }
    }
}

/// The token total of the message contents of a request, capped at `usize::MAX`;
/// `None` when a content cannot be tokenized.
pub fn request_tokens(contents: &Vec<String>) -> (r: Option<usize>)
    ensures
        match total_tokens(contents@.map_values(|s: String| s@)) {
            Some(t) => r == Some(if t <= usize::MAX { t as usize } else { usize::MAX }),
            None => r is None,
        },
{
    let ghost texts = contents@.map_values(|s: String| s@);
    let mut total: usize = 0;
    let mut exact = true;
    let mut i: usize = 0;
    while i < contents.len()
        invariant
            i <= contents@.len(),
            texts == contents@.map_values(|s: String| s@),
            total_tokens(texts.take(i as int)) is Some,
            exact ==> total_tokens(texts.take(i as int)) == Some(total as nat),
            !exact ==> total == usize::MAX && total_tokens(texts.take(i as int))->0 > usize::MAX,
        decreases contents.len() - i,
    {
        assert(texts.take(i + 1).drop_last() =~= texts.take(i as int));
        assert(texts.take(i + 1).last() == texts[i as int]);
        let n = match token_count(contents[i].as_str()) {
            Some(n) => n,
            None => {
                assert(total_tokens(texts.take(i + 1)) is None);
                assert forall|k: int| i + 1 <= k <= texts.len() implies total_tokens(texts.take(k))
                    is None by {
                    lemma_total_tokens_none_extends(texts, i + 1, k);
                }
                assert(texts.take(texts.len() as int) =~= texts);
                return None;
            },
        };
        if exact && total <= usize::MAX - n {
            total = total + n;
        } else {
            total = usize::MAX;
            exact = false;
        }
        i = i + 1;
    }
    assert(texts.take(i as int) =~= texts);
    Some(total)
}

proof fn lemma_total_tokens_none_extends(texts: Seq<Seq<char>>, j: int, k: int)
    requires
        0 <= j <= k <= texts.len(),
        total_tokens(texts.take(j)) is None,
    ensures
        total_tokens(texts.take(k)) is None,
    decreases k - j,
{
    if j < k {
        lemma_total_tokens_none_extends(texts, j, k - 1);
        assert(texts.take(k).drop_last() =~= texts.take(k - 1));
    }
}

/// The context window that the OpenAI provider reports for `model`.
pub open spec fn openai_context_window_spec(model: Seq<char>) -> usize {
    if contains_seq(model, "gpt-4"@) {
        128_000
    } else if contains_seq(model, "gpt-3.5"@) {
        16_385
    } else {
        8_192
    }
}

/// Capabilities of an OpenAI model: remote, no VRAM, window by model family.
pub fn openai_capabilities(model: &str) -> (r: ModelCapabilities)
    ensures
        !r.is_local,
        r.vram_requirement_mb == 0,
        r.context_window == openai_context_window_spec(model@),
{
    let m = chars_of(model);
    let context_window = if contains(&m, &chars_of("gpt-4")) {
        128_000
    } else if contains(&m, &chars_of("gpt-3.5")) {
        16_385
    } else {
        8_192
    };
    ModelCapabilities { is_local: false, vram_requirement_mb: 0, context_window }
}

/// Capabilities of an Anthropic model: remote, no VRAM, a 200k window.
pub fn anthropic_capabilities() -> (r: ModelCapabilities)
    ensures
        r == (ModelCapabilities { is_local: false, vram_requirement_mb: 0, context_window: 200_000 }),
{
    ModelCapabilities { is_local: false, vram_requirement_mb: 0, context_window: 200_000 }
}

/// Capabilities of an Ollama model: local, 4096 MB of VRAM, an 8192 window.
pub fn ollama_capabilities() -> (r: ModelCapabilities)
    ensures
        r == (ModelCapabilities { is_local: true, vram_requirement_mb: 4096, context_window: 8192 }),
{
    ModelCapabilities { is_local: true, vram_requirement_mb: 4096, context_window: 8192 }
}

proof fn lemma_scan_sound(
    passes: Seq<ProviderFilter>,
    caps: Seq<ModelCapabilities>,
    avail: Seq<bool>,
    p: int,
    n: int,
)
    requires
        0 <= p,
        0 <= n,
        avail.len() == caps.len(),
    ensures
        scan(passes, caps, avail, p, n) matches Some(i) ==> {
            &&& 0 <= i < caps.len()
            &&& avail[i]
            &&& exists|q: int| p <= q < passes.len() && filter_admits(passes[q], #[trigger] caps[i])
        },
    decreases passes.len() - p, caps.len() - n,
{
    if p >= passes.len() {
    } else if n >= caps.len() {
        lemma_scan_sound(passes, caps, avail, p + 1, 0);
    } else if filter_admits(passes[p], caps[n]) && avail[n] {
        assert(filter_admits(passes[p], caps[n]));
    } else {
        lemma_scan_sound(passes, caps, avail, p, n + 1);
    }
}

proof fn lemma_scan_complete(
    passes: Seq<ProviderFilter>,
    caps: Seq<ModelCapabilities>,
    avail: Seq<bool>,
    p: int,
    n: int,
)
    requires
        0 <= p,
        0 <= n,
        avail.len() == caps.len(),
        scan(passes, caps, avail, p, n) is None,
    ensures
        p < passes.len() ==> forall|i: int|
            n <= i < caps.len() ==> !(filter_admits(passes[p], #[trigger] caps[i]) && avail[i]),
        forall|q: int, i: int|
            p < q < passes.len() && 0 <= i < caps.len() ==> !(filter_admits(
                #[trigger] passes[q],
                #[trigger] caps[i],
            ) && avail[i]),
    decreases passes.len() - p, caps.len() - n,
{
    if p >= passes.len() {
    } else if n >= caps.len() {
        lemma_scan_complete(passes, caps, avail, p + 1, 0);
    } else {
        lemma_scan_complete(passes, caps, avail, p, n + 1);
    }
}

proof fn lemma_scan_first(
    passes: Seq<ProviderFilter>,
    caps: Seq<ModelCapabilities>,
    avail: Seq<bool>,
    p: int,
    n: int,
    i: int,
)
    requires
        0 <= p < passes.len(),
        0 <= n <= i < caps.len(),
        avail.len() == caps.len(),
        filter_admits(passes[p], caps[i]),
        avail[i],
    ensures
        scan(passes, caps, avail, p, n) matches Some(j) && n <= j <= i && filter_admits(
            passes[p],
            caps[j],
        ) && avail[j],
    decreases i - n,
{
    if !(filter_admits(passes[p], caps[n]) && avail[n]) {
        lemma_scan_first(passes, caps, avail, p, n + 1, i);
    }
}

/// A selected provider is available, and some pass of the strategy admits it:
/// under `BestQuality` it is an API model, and under `Auto` a small request goes
/// to a local model only when that model fits the VRAM budget.
pub proof fn lemma_selection_admitted(
    strategy: RoutingStrategy,
    caps: Seq<ModelCapabilities>,
    total_tokens: nat,
    avail: Seq<bool>,
)
    requires
        avail.len() == caps.len(),
    ensures
        selection(strategy, caps, total_tokens, avail) matches Some(i) ==> {
            &&& 0 <= i < caps.len()
            &&& avail[i]
            &&& exists|q: int|
                0 <= q < strategy_passes(strategy, total_tokens).len() && filter_admits(
                    strategy_passes(strategy, total_tokens)[q],
                    #[trigger] caps[i],
                )
        },
        strategy == RoutingStrategy::BestQuality ==> (selection(strategy, caps, total_tokens, avail) matches Some(i)
            ==> !caps[i].is_local),
{
    lemma_scan_sound(strategy_passes(strategy, total_tokens), caps, avail, 0, 0);
}

/// The strategy's first preference wins when it can: if an available provider
/// is admitted by the first pass (a local model under `Cheapest`, a local model
/// within the VRAM budget for a small request under `Auto`, an API model under
/// `BestQuality`, any model otherwise), the selection is the first such provider.
pub proof fn lemma_selection_prefers_first_pass(
    strategy: RoutingStrategy,
    caps: Seq<ModelCapabilities>,
    total_tokens: nat,
    avail: Seq<bool>,
    i: int,
)
    requires
        avail.len() == caps.len(),
        0 <= i < caps.len(),
        avail[i],
        filter_admits(strategy_passes(strategy, total_tokens)[0], caps[i]),
    ensures
        selection(strategy, caps, total_tokens, avail) matches Some(j) && j <= i && avail[j]
            && filter_admits(strategy_passes(strategy, total_tokens)[0], caps[j]),
{
    lemma_scan_first(strategy_passes(strategy, total_tokens), caps, avail, 0, 0, i);
}

/// A selection fails only when no available provider is admitted by any pass of
/// the strategy. Under every strategy but `BestQuality` (`Auto` at any request
/// size included, through its last pass over all providers), it fails only when
/// no provider is available at all; under `BestQuality`, only when no API
/// provider is available.
pub proof fn lemma_selection_fails_only_when_none_admitted(
    strategy: RoutingStrategy,
    caps: Seq<ModelCapabilities>,
    total_tokens: nat,
    avail: Seq<bool>,
)
    requires
        avail.len() == caps.len(),
        selection(strategy, caps, total_tokens, avail) is None,
    ensures
        forall|q: int, i: int|
            0 <= q < strategy_passes(strategy, total_tokens).len() && 0 <= i < caps.len() ==> !(
            filter_admits(#[trigger] strategy_passes(strategy, total_tokens)[q], #[trigger] caps[i])
                && avail[i]),
        strategy != RoutingStrategy::BestQuality ==> forall|i: int|
            0 <= i < caps.len() ==> !#[trigger] avail[i],
        strategy == RoutingStrategy::BestQuality ==> forall|i: int|
            0 <= i < caps.len() && #[trigger] avail[i] ==> caps[i].is_local,
{
    let passes = strategy_passes(strategy, total_tokens);
    lemma_scan_complete(passes, caps, avail, 0, 0);
    if strategy == RoutingStrategy::Auto {
        assert forall|i: int| 0 <= i < caps.len() implies !#[trigger] avail[i] by {
            assert(filter_admits(passes[passes.len() - 1], caps[i]));
        }
    }
    if strategy == RoutingStrategy::BestQuality {
        assert forall|i: int| 0 <= i < caps.len() && #[trigger] avail[i] implies caps[i].is_local by {
            assert(!(filter_admits(passes[0], caps[i]) && avail[i]));
        }
    }
    if strategy == RoutingStrategy::Cheapest {
        assert forall|i: int| 0 <= i < caps.len() implies !#[trigger] avail[i] by {
            assert(filter_admits(passes[1], caps[i]));
        }
    }
    if strategy == RoutingStrategy::FirstAvailable || strategy == RoutingStrategy::Fastest {
        assert forall|i: int| 0 <= i < caps.len() implies !#[trigger] avail[i] by {
            assert(filter_admits(passes[0], caps[i]));
        }
    }
}

} // verus!
