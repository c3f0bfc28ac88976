//! Knowledge-graph records.

use vstd::prelude::*;
use vstd::string::StringExecFns;
use crate::text::{chars_of, string_of};
use crate::types::EntityType;

verus! {

/// A stored document reference in the graph.
#[derive(Debug, Clone)]
pub struct GraphDocument {
    pub id: String,
    pub title: String,
    pub url: Option<String>,
    pub source: String,
    pub summary: Option<String>,
    pub timestamp: String,
}

/// The table that holds entities of a type: every type shares the `entity` table.
pub fn entity_type_table(et: &EntityType) -> (r: &'static str)
    ensures
        r@ == "entity"@,
{
    match et {
        EntityType::Person => "entity",
        EntityType::Company => "entity",
        EntityType::Organization => "entity",
        EntityType::Location => "entity",
        EntityType::Product => "entity",
        EntityType::Technology => "entity",
        EntityType::Event => "entity",
        EntityType::Date => "entity",
        EntityType::Money => "entity",
        EntityType::Concept => "entity",
    }
}

/// `s` with every `-` turned into `_` (`str::replace("-", "_")`).
pub open spec fn hyphens_to_underscores(s: Seq<char>) -> Seq<char> {
    s.map_values(|c: char| if c == '-' { '_' } else { c })
}

/// A key that the graph store accepts in a record id: `-` becomes `_`.
pub fn record_key(id: &str) -> (r: String)
    ensures
        r@ == hyphens_to_underscores(id@),
{
    let v = chars_of(id);
    let mut out: Vec<char> = Vec::new();
    let mut i: usize = 0;
    while i < v.len()
        invariant
            i <= v@.len(),
            v@ == id@,
            out@ == hyphens_to_underscores(v@.take(i as int)),
        decreases v.len() - i,
    {
        let c = v[i];
        out.push(if c == '-' { '_' } else { c });
        assert(hyphens_to_underscores(v@.take(i + 1)) =~= hyphens_to_underscores(
            v@.take(i as int),
        ).push(if c == '-' { '_' } else { c }));
        i = i + 1;
    }
    assert(v@.take(i as int) =~= v@);
    string_of(&out)
}

/// The record id of an entity in the context graph: `entity_` and its key.
pub fn entity_record_id(id: &str) -> (r: String)
    ensures
        r@ == "entity_"@ + hyphens_to_underscores(id@),
{
    let mut r = String::from_str("entity_");
    let key = record_key(id);
    r.append(key.as_str());
    r
}

/// The query for the reasoned edges at an entity (bound as `$id`), of one
/// relation type when one is given.
pub fn causal_query(relation_type: Option<&str>) -> (r: String)
    ensures
        r@ == "SELECT * FROM graph_edges WHERE (from_node = $id OR to_node = $id) AND reasoning != ''"@
            + match relation_type {
            Some(t) => " AND edge_type = '"@ + t@ + "'"@,
            None => Seq::<char>::empty(),
        },
{
    let mut r = String::from_str(
        "SELECT * FROM graph_edges WHERE (from_node = $id OR to_node = $id) AND reasoning != ''",
    );
    match relation_type {
        Some(t) => {
            r.append(" AND edge_type = '");
            r.append(t);
            r.append("'");
        },
        None => {
            assert(r@ + Seq::<char>::empty() =~= r@);
        },
    }
    r
}

} // verus!
