//! The search filter: fuzzy matching of node names and edge facets against
//! a query string, producing the two filtered view lists.

use vstd::prelude::*;

verus! {

use crate::graph::{Edge, EdgeVal, Graph, Node};

/// The ASCII-case-folded code point of a character: the letters 'A' to 'Z'
/// count as their lower-case forms, every other character as itself.
pub open spec fn ascii_lower_code(c: char) -> int {
    if 'A' <= c && c <= 'Z' {
        c as int + 32
    } else {
        c as int
    }
}

/// Character equality ignoring ASCII case.
pub open spec fn char_eq_ci(a: char, b: char) -> bool {
    ascii_lower_code(a) == ascii_lower_code(b)
}

/// Character comparison under the given mode: case-insensitive when `ci`.
pub open spec fn char_matches(a: char, b: char, ci: bool) -> bool {
    if ci {
        char_eq_ci(a, b)
    } else {
        a == b
    }
}

/// Greedy ordered-subsequence matching of `pattern` inside `choice`: each
/// pattern character is taken at the earliest choice position that fits.
pub open spec fn subseq_matches(pattern: Seq<char>, choice: Seq<char>, ci: bool) -> bool
    decreases choice.len(),
{
    if pattern.len() == 0 {
        true
    } else if choice.len() == 0 {
        false
    } else if char_matches(choice[0], pattern[0], ci) {
        subseq_matches(pattern.drop_first(), choice.drop_first(), ci)
    } else {
        subseq_matches(pattern, choice.drop_first(), ci)
    }
}

pub open spec fn has_ascii_upper(s: Seq<char>) -> bool {
    exists|i: int| 0 <= i < s.len() && 'A' <= #[trigger] s[i] && s[i] <= 'Z'
}

/// Whether the fuzzy matcher accepts `choice` for query `pattern`: the
/// empty query matches everything; a query holding an ASCII capital must
/// occur as an exact ordered subsequence; any other query as an
/// ASCII-case-insensitive one ("smart case").
pub open spec fn fuzzy_matches(choice: Seq<char>, pattern: Seq<char>) -> bool {
    subseq_matches(pattern, choice, !has_ascii_upper(pattern))
}

/// Relies on fuzzy_matcher's `SkimMatcherV2::fuzzy_match` under the default
/// configuration: it returns a score exactly when the pattern's characters
/// occur in order inside the choice, compared exactly if the pattern holds
/// an ASCII capital and ignoring ASCII case otherwise; the empty pattern
/// always scores.
#[verifier::external_body]
fn skim_fuzzy_match(choice: &str, pattern: &str) -> (r: bool)
    ensures
        r == fuzzy_matches(choice@, pattern@),
{
    let matcher = fuzzy_matcher::skim::SkimMatcherV2::default();
    fuzzy_matcher::FuzzyMatcher::fuzzy_match(&matcher, choice, pattern).is_some()
}

/// The node names that match the query, in store order.
pub open spec fn filtered_node_names(nodes: Seq<Node>, q: Seq<char>) -> Seq<Seq<char>>
    decreases nodes.len(),
{
    if nodes.len() == 0 {
        Seq::empty()
    } else {
        let rest = filtered_node_names(nodes.drop_last(), q);
        if fuzzy_matches(nodes.last().name@, q) {
            rest.push(nodes.last().name@)
        } else {
            rest
        }
    }
}

/// The displayed label of an edge: the labeling node's name, or empty.
pub open spec fn edge_label(v: EdgeVal) -> Seq<char> {
    match v {
        EdgeVal::Empty => Seq::empty(),
        EdgeVal::Node(s) => s@,
    }
}

/// An edge passes the filter when at least one of its three facets does:
/// the source name, the target name, or the labeling node's name.
pub open spec fn edge_matches(e: Edge, q: Seq<char>) -> bool {
    ||| fuzzy_matches(e.from@, q)
    ||| fuzzy_matches(e.to@, q)
    ||| match e.val {
        EdgeVal::Node(s) => fuzzy_matches(s@, q),
        EdgeVal::Empty => false,
    }
}

/// The display row of an edge: source name, label, target name.
pub open spec fn edge_row(e: Edge) -> (Seq<char>, Seq<char>, Seq<char>) {
    (e.from@, edge_label(e.val), e.to@)
}

/// The rows of the edges that match the query, in insertion order.
pub open spec fn filtered_edge_rows(edges: Seq<Edge>, q: Seq<char>) -> Seq<
    (Seq<char>, Seq<char>, Seq<char>),
>
    decreases edges.len(),
{
    if edges.len() == 0 {
        Seq::empty()
    } else {
        let rest = filtered_edge_rows(edges.drop_last(), q);
        if edge_matches(edges.last(), q) {
            rest.push(edge_row(edges.last()))
        } else {
            rest
        }
    }
}

proof fn lemma_subseq_refl(c: Seq<char>, ci: bool)
    ensures
        subseq_matches(c, c, ci),
    decreases c.len(),
{
    if c.len() > 0 {
        lemma_subseq_refl(c.drop_first(), ci);
    }
}

proof fn lemma_subseq_drop_first(p: Seq<char>, c: Seq<char>, ci: bool)
    requires
        subseq_matches(p, c, ci),
        p.len() > 0,
    ensures
        subseq_matches(p.drop_first(), c, ci),
    decreases c.len(),
{
    if p.len() == 1 {
        assert(p.drop_first().len() == 0);
    } else if char_matches(c[0], p[0], ci) {
        lemma_subseq_drop_first(p.drop_first(), c.drop_first(), ci);
    } else {
        lemma_subseq_drop_first(p, c.drop_first(), ci);
        if char_matches(c[0], p.drop_first()[0], ci) {
            lemma_subseq_drop_first(p.drop_first(), c.drop_first(), ci);
        }
    }
}

proof fn lemma_subseq_drop_last(p: Seq<char>, c: Seq<char>, ci: bool)
    requires
        subseq_matches(p, c, ci),
        p.len() > 0,
    ensures
        subseq_matches(p.drop_last(), c, ci),
    decreases c.len(),
{
    if p.len() == 1 {
        assert(p.drop_last().len() == 0);
    } else if char_matches(c[0], p[0], ci) {
        lemma_subseq_drop_last(p.drop_first(), c.drop_first(), ci);
        assert(p.drop_first().drop_last() =~= p.drop_last().drop_first());
        assert(p.drop_last()[0] == p[0]);
    } else {
        lemma_subseq_drop_last(p, c.drop_first(), ci);
    }
}

proof fn lemma_subseq_weaken(p: Seq<char>, c: Seq<char>)
    requires
        subseq_matches(p, c, false),
    ensures
        subseq_matches(p, c, true),
    decreases c.len(),
{
    if p.len() == 0 || c.len() == 0 {
    } else if char_eq_ci(c[0], p[0]) {
        if c[0] == p[0] {
            lemma_subseq_weaken(p.drop_first(), c.drop_first());
        } else {
            lemma_subseq_drop_first(p, c.drop_first(), false);
            lemma_subseq_weaken(p.drop_first(), c.drop_first());
        }
    } else {
        lemma_subseq_weaken(p, c.drop_first());
    }
}

/// A query equal to a node's full name always matches that name.
pub proof fn lemma_exact_query_matches(name: Seq<char>)
    ensures
        fuzzy_matches(name, name),
{
    lemma_subseq_refl(name, !has_ascii_upper(name));
}

/// Shortening a matching query by its last character keeps it matching:
/// the shorter query is still a valid ordered-subsequence match.
pub proof fn lemma_query_prefix_still_matches(choice: Seq<char>, pattern: Seq<char>)
    requires
        pattern.len() > 0,
        fuzzy_matches(choice, pattern),
    ensures
        fuzzy_matches(choice, pattern.drop_last()),
{
    let short = pattern.drop_last();
    if has_ascii_upper(short) {
        assert(has_ascii_upper(pattern)) by {
            let i = choose|i: int| 0 <= i < short.len() && 'A' <= #[trigger] short[i] && short[i]
                <= 'Z';
            assert(pattern[i] == short[i]);
        }
        lemma_subseq_drop_last(pattern, choice, false);
    } else if has_ascii_upper(pattern) {
        lemma_subseq_drop_last(pattern, choice, false);
        lemma_subseq_weaken(short, choice);
    } else {
        lemma_subseq_drop_last(pattern, choice, true);
    }
}

/// A query equal to one of the node names yields a result set containing
/// that node's name.
pub proof fn lemma_exact_name_included(nodes: Seq<Node>, i: int)
    requires
        0 <= i < nodes.len(),
    ensures
        filtered_node_names(nodes, nodes[i].name@).contains(nodes[i].name@),
{
    lemma_exact_query_matches(nodes[i].name@);
    lemma_matching_node_included(nodes, nodes[i].name@, i);
}

/// The empty query filters nothing out: every node name and every edge row
/// is returned, in store order and in insertion order respectively.
pub proof fn lemma_empty_query_returns_all(nodes: Seq<Node>, edges: Seq<Edge>)
    ensures
        filtered_node_names(nodes, Seq::empty()) == nodes.map_values(|n: Node| n.name@),
        filtered_edge_rows(edges, Seq::empty()) == edges.map_values(|e: Edge| edge_row(e)),
    decreases nodes.len() + edges.len(),
{
    if nodes.len() > 0 {
        lemma_empty_query_returns_all(nodes.drop_last(), edges);
        assert(fuzzy_matches(nodes.last().name@, Seq::empty()));
        assert(nodes.map_values(|n: Node| n.name@) =~= nodes.drop_last().map_values(
            |n: Node| n.name@,
        ).push(nodes.last().name@));
    } else if edges.len() > 0 {
        lemma_empty_query_returns_all(nodes, edges.drop_last());
        assert(fuzzy_matches(edges.last().from@, Seq::empty()));
        assert(edge_matches(edges.last(), Seq::empty()));
        assert(edges.map_values(|e: Edge| edge_row(e)) =~= edges.drop_last().map_values(
            |e: Edge| edge_row(e),
        ).push(edge_row(edges.last())));
    } else {
        assert(filtered_node_names(nodes, Seq::empty()) =~= nodes.map_values(|n: Node| n.name@));
        assert(filtered_edge_rows(edges, Seq::empty()) =~= edges.map_values(|e: Edge| edge_row(e)));
    }
}

/// A node whose name matches the query appears in the filtered node list.
pub proof fn lemma_matching_node_included(nodes: Seq<Node>, q: Seq<char>, i: int)
    requires
        0 <= i < nodes.len(),
        fuzzy_matches(nodes[i].name@, q),
    ensures
        filtered_node_names(nodes, q).contains(nodes[i].name@),
    decreases nodes.len(),
{
    let rest = filtered_node_names(nodes.drop_last(), q);
    if i == nodes.len() - 1 {
        assert(filtered_node_names(nodes, q).last() == nodes[i].name@);
    } else {
        lemma_matching_node_included(nodes.drop_last(), q, i);
        let j = choose|j: int| 0 <= j < rest.len() && rest[j] == nodes[i].name@;
        assert(filtered_node_names(nodes, q)[j] == nodes[i].name@);
    }
}

/// An edge one of whose facets matches the query appears, as its display
/// row, in the filtered edge list.
pub proof fn lemma_matching_edge_included(edges: Seq<Edge>, q: Seq<char>, i: int)
    requires
        0 <= i < edges.len(),
        edge_matches(edges[i], q),
    ensures
        filtered_edge_rows(edges, q).contains(edge_row(edges[i])),
    decreases edges.len(),
{
    let rest = filtered_edge_rows(edges.drop_last(), q);
    if i == edges.len() - 1 {
        assert(filtered_edge_rows(edges, q).last() == edge_row(edges[i]));
    } else {
        lemma_matching_edge_included(edges.drop_last(), q, i);
        let j = choose|j: int| 0 <= j < rest.len() && rest[j] == edge_row(edges[i]);
        assert(filtered_edge_rows(edges, q)[j] == edge_row(edges[i]));
    }
}

/// Only matching edges appear: every row of the filtered edge list is the
/// display row of some edge that matches the query. Together with
/// `lemma_matching_edge_included`, an edge's row is listed exactly when one
/// of its three facets matches.
pub proof fn lemma_included_edge_matches(edges: Seq<Edge>, q: Seq<char>)
    ensures
        forall|r: (Seq<char>, Seq<char>, Seq<char>)|
            filtered_edge_rows(edges, q).contains(r) ==> exists|j: int|
                0 <= j < edges.len() && #[trigger] edge_matches(edges[j], q) && edge_row(edges[j])
                    == r,
    decreases edges.len(),
{
    if edges.len() > 0 {
        lemma_included_edge_matches(edges.drop_last(), q);
        assert forall|r: (Seq<char>, Seq<char>, Seq<char>)|
            filtered_edge_rows(edges, q).contains(r) implies exists|j: int|
            0 <= j < edges.len() && #[trigger] edge_matches(edges[j], q) && edge_row(edges[j])
                == r by {
            let rows = filtered_edge_rows(edges, q);
            let rest = filtered_edge_rows(edges.drop_last(), q);
            let k = choose|k: int| 0 <= k < rows.len() && rows[k] == r;
            if edge_matches(edges.last(), q) && k == rows.len() - 1 {
                assert(edge_matches(edges[edges.len() - 1], q));
                assert(edge_row(edges[edges.len() - 1]) == r);
            } else {
                assert(rest[k] == r);
                assert(rest.contains(r));
                let j = choose|j: int|
                    0 <= j < edges.drop_last().len() && #[trigger] edge_matches(
                        edges.drop_last()[j],
                        q,
                    ) && edge_row(edges.drop_last()[j]) == r;
                assert(edges[j] == edges.drop_last()[j]);
                assert(edge_matches(edges[j], q));
            }
        }
    }
}

/// Recomputes the filtered node list: the names of the matching nodes, in
/// the store's current order, each included once.
#[verifier::loop_isolation(false)]
pub fn filter_nodes(graph: &Graph, query: &str) -> (r: Vec<String>)
    ensures
        r.deep_view() == filtered_node_names(graph.nodes@, query@),
{
    let mut out: Vec<String> = Vec::new();
    proof {
        assert(out.deep_view() =~= filtered_node_names(graph.nodes@.take(0), query@));
    }
    let n = graph.nodes.len();
    let mut i: usize = 0;
    while i < n
        invariant
            0 <= i <= n,
            n == graph.nodes@.len(),
            out.deep_view() == filtered_node_names(graph.nodes@.take(i as int), query@),
        decreases n - i,
    {
        let ghost pre = out.deep_view();
        if skim_fuzzy_match(graph.nodes[i].name.as_str(), query) {
            out.push(graph.nodes[i].name.clone());
            proof {
                assert(out.deep_view() =~= pre.push(graph.nodes@[i as int].name@));
            }
        }
        proof {
            assert(graph.nodes@.take(i as int + 1).drop_last() =~= graph.nodes@.take(i as int));
            assert(graph.nodes@.take(i as int + 1).last() == graph.nodes@[i as int]);
        }
        i = i + 1;
    }
    proof {
        assert(graph.nodes@.take(n as int) =~= graph.nodes@);
    }
    out
}

/// Recomputes the filtered edge list: the display rows of the matching
/// edges, in insertion order, each matching edge included once.
#[verifier::loop_isolation(false)]
pub fn filter_edges(graph: &Graph, query: &str) -> (r: Vec<(String, String, String)>)
    ensures
        r.deep_view() == filtered_edge_rows(graph.edges@, query@),
{
    let mut out: Vec<(String, String, String)> = Vec::new();
    proof {
        assert(out.deep_view() =~= filtered_edge_rows(graph.edges@.take(0), query@));
    }
    let n = graph.edges.len();
    let mut i: usize = 0;
    while i < n
        invariant
            0 <= i <= n,
            n == graph.edges@.len(),
            out.deep_view() == filtered_edge_rows(graph.edges@.take(i as int), query@),
        decreases n - i,
    {
        let ghost pre = out.deep_view();
        let matched = skim_fuzzy_match(graph.edges[i].from.as_str(), query)
            || skim_fuzzy_match(graph.edges[i].to.as_str(), query)
            || match &graph.edges[i].val {
            EdgeVal::Node(s) => skim_fuzzy_match(s.as_str(), query),
            EdgeVal::Empty => false,
        };
        if matched {
            let label = match &graph.edges[i].val {
                EdgeVal::Node(s) => s.clone(),
                EdgeVal::Empty => String::new(),
            };
            let row = (graph.edges[i].from.clone(), label, graph.edges[i].to.clone());
            out.push(row);
            proof {
                assert(out.deep_view() =~= pre.push(edge_row(graph.edges@[i as int])));
            }
        }
        proof {
            assert(graph.edges@.take(i as int + 1).drop_last() =~= graph.edges@.take(i as int));
            assert(graph.edges@.take(i as int + 1).last() == graph.edges@[i as int]);
        }
        i = i + 1;
    }
    proof {
        assert(graph.edges@.take(n as int) =~= graph.edges@);
    }
    out
}

} // verus!
