//! What the command line makes of its arguments before any research starts.

use vstd::prelude::*;
use vstd::string::StringExecFns;
use crate::config::SearchEngineConfig;
use crate::text::{chars_of, eq_str, is_ws, seq_join, string_of, trim, trim_seq};

verus! {

/// The research query that profiles `name`: a person's career and influence for
/// the kind `person`, a full company analysis for any other kind.
pub open spec fn profile_query_of(name: Seq<char>, kind: Seq<char>) -> Seq<char> {
    if kind == "person"@ {
        "Comprehensive profile of "@ + name
            + ": career history, achievements, publications, social presence, connections, and influence"@
    } else {
        "Full company analysis of "@ + name
            + ": founding story, leadership, products, technology stack, competitors, financials, news, market position"@
    }
}

/// Writes the research query that profiles `name` as a `kind` (`person` or `company`).
pub fn profile_query(name: &str, kind: &str) -> (r: String)
    ensures
        r@ == profile_query_of(name@, kind@),
{
    if eq_str(kind, "person") {
        proof {
            reveal_strlit("person");
        }
        let mut r = String::from_str("Comprehensive profile of ");
        r.append(name);
        r.append(
            ": career history, achievements, publications, social presence, connections, and influence",
        );
        r
    } else {
        proof {
            reveal_strlit("person");
        }
        let mut r = String::from_str("Full company analysis of ");
        r.append(name);
        r.append(
            ": founding story, leadership, products, technology stack, competitors, financials, news, market position",
        );
        r
    }
}

/// `s` split at every `sep` (`str::split`): the pieces between separators, an
/// empty one where two separators meet or at an end that is a separator.
pub open spec fn split_on(s: Seq<char>, sep: char) -> Seq<Seq<char>>
    decreases s.len(),
{
    if s.len() == 0 {
        seq![seq![]]
    } else {
        let p = split_on(s.drop_last(), sep);
        if s.last() == sep {
            p.push(seq![])
        } else {
            p.update(p.len() - 1, p.last().push(s.last()))
        }
    }
}

/// Splitting loses nothing and cuts at every separator: the pieces joined back
/// with the separator give `s` again, there is one more piece than there are
/// separators in `s`, and no piece holds the separator.
pub proof fn lemma_split_rejoins(s: Seq<char>, sep: char)
    ensures
        split_on(s, sep).len() > 0,
        seq_join(split_on(s, sep), seq![sep]) == s,
        split_on(s, sep).len() == s.filter(|c: char| c == sep).len() + 1,
        forall|i: int| 0 <= i < split_on(s, sep).len() ==> !(#[trigger] split_on(s, sep)[i]).contains(sep),
    decreases s.len(),
{
    reveal(Seq::filter);
    if s.len() > 0 {
        let t = s.drop_last();
        let c = s.last();
        let p = split_on(t, sep);
        lemma_split_rejoins(t, sep);
        if c == sep {
            crate::extractor::lemma_join_push(p, seq![], seq![sep]);
            assert(seq_join(p, seq![sep]) + seq![sep] + seq![] =~= s);
            assert forall|i: int| 0 <= i < p.push(seq![]).len() implies !(#[trigger] p.push(seq![])[i]).contains(sep) by {
                if i < p.len() {
                    assert(p.push(seq![])[i] == p[i]);
                }
            }
        } else {
            crate::extractor::lemma_join_extend_last(p, c, seq![sep]);
            assert(seq_join(p, seq![sep]).push(c) =~= s);
            let u = p.update(p.len() - 1, p.last().push(c));
            assert forall|i: int| 0 <= i < u.len() implies !(#[trigger] u[i]).contains(sep) by {
                if i == p.len() - 1 {
                    if u[i].contains(sep) {
                        let k = choose|k: int| 0 <= k < u[i].len() && u[i][k] == sep;
                        if k < p.last().len() {
                            assert(p[p.len() - 1][k] == sep);
                        }
                    }
                } else {
                    assert(u[i] == p[i]);
                }
            }
        }
    }
}

/// The names in a comma-separated list, each trimmed.
pub open spec fn entity_names_of(s: Seq<char>) -> Seq<Seq<char>> {
    split_on(s, ',').map_values(|p: Seq<char>| trim_seq(p))
}

/// The entities of a comparison are the pieces between commas: one more than
/// there are commas, none holding a comma, and none beginning or ending with
/// whitespace.
pub proof fn lemma_entity_names_split(s: Seq<char>)
    ensures
        entity_names_of(s).len() == s.filter(|c: char| c == ',').len() + 1,
        forall|i: int| 0 <= i < entity_names_of(s).len() ==> {
            &&& !(#[trigger] entity_names_of(s)[i]).contains(',')
            &&& entity_names_of(s)[i].len() > 0 ==> !is_ws(entity_names_of(s)[i][0]) && !is_ws(
                entity_names_of(s)[i].last(),
            )
        },
{
    lemma_split_rejoins(s, ',');
    let p = split_on(s, ',');
    assert forall|i: int| 0 <= i < entity_names_of(s).len() implies {
        &&& !(#[trigger] entity_names_of(s)[i]).contains(',')
        &&& entity_names_of(s)[i].len() > 0 ==> !is_ws(entity_names_of(s)[i][0]) && !is_ws(
            entity_names_of(s)[i].last(),
        )
    } by {
        let ab = crate::extractor::lemma_trim_shape(p[i]);
        let n = entity_names_of(s)[i];
        assert(n == p[i].subrange(ab.0, ab.1));
        assert(!p[i].contains(','));
        if n.contains(',') {
            let k = choose|k: int| 0 <= k < n.len() && n[k] == ',';
            assert(p[i][ab.0 + k] == ',');
        }
        if n.len() > 0 {
            assert(n[0] == p[i][ab.0]);
            assert(n.last() == p[i][ab.1 - 1]);
        }
    }
}

/// The entities of a comparison: the comma-separated names, each trimmed.
pub fn compare_entities(entities: &str) -> (r: Vec<String>)
    ensures
        r@.map_values(|s: String| s@) == entity_names_of(entities@),
{
    let v = chars_of(entities);
    let mut pieces: Vec<Vec<char>> = Vec::new();
    pieces.push(Vec::new());
    let mut i: usize = 0;
    assert(v@.take(0) =~= Seq::<char>::empty());
    assert(pieces@.map_values(|p: Vec<char>| p@) =~= split_on(v@.take(0), ','));
    while i < v.len()
        invariant
            i <= v@.len(),
            v@ == entities@,
            pieces@.len() > 0,
            pieces@.map_values(|p: Vec<char>| p@) == split_on(v@.take(i as int), ','),
        decreases v.len() - i,
    {
        let ghost before = pieces@.map_values(|p: Vec<char>| p@);
        assert(v@.take(i + 1).drop_last() =~= v@.take(i as int));
        assert(v@.take(i + 1).last() == v@[i as int]);
        if v[i] == ',' {
            pieces.push(Vec::new());
            assert(pieces@.map_values(|p: Vec<char>| p@) =~= before.push(seq![]));
        } else {
            let mut cur = pieces.pop().unwrap();
            cur.push(v[i]);
            pieces.push(cur);
            assert(pieces@.map_values(|p: Vec<char>| p@) =~= before.update(
                before.len() - 1,
                before.last().push(v@[i as int]),
            ));
        }
        i = i + 1;
    }
    assert(v@.take(i as int) =~= v@);
    let ghost ps = pieces@.map_values(|p: Vec<char>| p@);
    let mut r: Vec<String> = Vec::new();
    let mut k: usize = 0;
    while k < pieces.len()
        invariant
            k <= pieces@.len(),
            ps == pieces@.map_values(|p: Vec<char>| p@),
            r@.map_values(|s: String| s@) == ps.map_values(|p: Seq<char>| trim_seq(p)).take(
                k as int,
            ),
        decreases pieces.len() - k,
    {
        let t = trim(&pieces[k]);
        let s = string_of(&t);
        let ghost before = r@;
        r.push(s);
        assert(r@.map_values(|s: String| s@) =~= before.map_values(|s: String| s@).push(s@));
        assert(ps.map_values(|p: Seq<char>| trim_seq(p)).take(k + 1) =~= ps.map_values(
            |p: Seq<char>| trim_seq(p),
        ).take(k as int).push(trim_seq(ps[k as int])));
        k = k + 1;
    }
    assert(ps.map_values(|p: Seq<char>| trim_seq(p)).take(k as int) =~= ps.map_values(
        |p: Seq<char>| trim_seq(p),
    ));
    r
}

/// The names of the enabled search engines, in order.
pub open spec fn enabled_engines_of(engines: Seq<SearchEngineConfig>) -> Seq<Seq<char>>
    decreases engines.len(),
{
    if engines.len() == 0 {
        seq![]
    } else {
        let rest = enabled_engines_of(engines.drop_last());
        if engines.last().enabled {
            rest.push(engines.last().engine@)
        } else {
            rest
        }
    }
}

/// The status report names exactly the enabled engines: a name is listed when
/// and only when some enabled engine has it, and no more names are listed than
/// there are engines.
pub proof fn lemma_enabled_engines_members(engines: Seq<SearchEngineConfig>, name: Seq<char>)
    ensures
        enabled_engines_of(engines).contains(name) <==> exists|i: int|
            0 <= i < engines.len() && (#[trigger] engines[i]).enabled && engines[i].engine@ == name,
        enabled_engines_of(engines).len() <= engines.len(),
    decreases engines.len(),
{
    if engines.len() > 0 {
        let t = engines.drop_last();
        let l = engines.last();
        lemma_enabled_engines_members(t, name);
        let r = enabled_engines_of(t);
        assert(engines[engines.len() - 1] == l);
        if r.contains(name) {
            let k = choose|k: int| 0 <= k < r.len() && r[k] == name;
            assert(r.push(l.engine@)[k] == name);
        }
        if l.enabled {
            assert(r.push(l.engine@)[r.len() as int] == l.engine@);
            if r.push(l.engine@).contains(name) && name != l.engine@ {
                let k = choose|k: int| 0 <= k < r.push(l.engine@).len() && r.push(l.engine@)[k] == name;
                assert(r[k] == name);
            }
        }
        if exists|i: int| 0 <= i < engines.len() && (#[trigger] engines[i]).enabled && engines[i].engine@ == name {
            let i = choose|i: int| 0 <= i < engines.len() && (#[trigger] engines[i]).enabled && engines[i].engine@ == name;
            if i < t.len() {
                assert(t[i] == engines[i]);
            }
        }
        if exists|i: int| 0 <= i < t.len() && (#[trigger] t[i]).enabled && t[i].engine@ == name {
            let i = choose|i: int| 0 <= i < t.len() && (#[trigger] t[i]).enabled && t[i].engine@ == name;
            assert(engines[i] == t[i]);
        }
    }
}

/// The names of the enabled search engines, for the status report.
pub fn enabled_engines(engines: &Vec<SearchEngineConfig>) -> (r: Vec<String>)
    ensures
        r@.map_values(|s: String| s@) == enabled_engines_of(engines@),
{
    let mut r: Vec<String> = Vec::new();
    let mut i: usize = 0;
    while i < engines.len()
        invariant
            i <= engines@.len(),
            r@.map_values(|s: String| s@) == enabled_engines_of(engines@.take(i as int)),
        decreases engines.len() - i,
    {
        assert(engines@.take(i + 1).drop_last() =~= engines@.take(i as int));
        assert(engines@.take(i + 1).last() == engines@[i as int]);
        if engines[i].enabled {
            let name = engines[i].engine.clone();
            let ghost before = r@;
            r.push(name);
            assert(r@.map_values(|s: String| s@) =~= before.map_values(|s: String| s@).push(
                name@,
            ));
        }
        i = i + 1;
    }
    assert(engines@.take(i as int) =~= engines@);
    r
}

} // verus!
