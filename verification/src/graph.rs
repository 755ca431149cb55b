//! The graph store: named nodes, directed edges, and the ordering and
//! uniqueness invariants on the node list.

use vstd::prelude::*;

verus! {

use vstd::multiset::Multiset;

/// Payload of a node. Today only one variant exists; the enum keeps the
/// store open to richer node values later.
#[derive(Clone, Copy, Debug, PartialEq, Eq, Structural)]
pub enum NodeVal {
    Empty,
}

/// Payload of an edge: either unlabeled, or labeled by the name of another
/// node (the relation itself is a node of the graph).
#[derive(Clone, Debug)]
pub enum EdgeVal {
    Empty,
    Node(String),
}

/// A named concept. The name is the node's identity.
#[derive(Clone, Debug)]
pub struct Node {
    pub name: String,
    pub val: NodeVal,
}

/// A directed relation between two node names, optionally labeled.
#[derive(Clone, Debug)]
pub struct Edge {
    pub from: String,
    pub val: EdgeVal,
    pub to: String,
}

/// Errors raised by graph operations.
#[derive(Clone, Copy, Debug, PartialEq, Eq, Structural)]
pub enum GraphError {
    /// A referenced node name is absent from the store.
    NotFound,
    /// A node name was rejected (only the empty name is rejected).
    InvalidArgument,
}

impl Node {
    pub fn new(name: &str, val: NodeVal) -> (r: Node)
        ensures
            r.name@ == name@,
            r.val == val,
    {
        Node { name: name.to_owned(), val }
    }
}

impl Edge {
    pub fn new(from: &str, val: EdgeVal, to: &str) -> (r: Edge)
        ensures
            r.from@ == from@,
            r.val == val,
            r.to@ == to@,
    {
        Edge { from: from.to_owned(), val, to: to.to_owned() }
    }
}

/// Lexicographic order on character sequences by code point, the order in
/// which the node list is kept.
pub open spec fn str_le(a: Seq<char>, b: Seq<char>) -> bool
    decreases a.len(),
{
    if a.len() == 0 {
        true
    } else if b.len() == 0 {
        false
    } else if a[0] != b[0] {
        (a[0] as int) < (b[0] as int)
    } else {
        str_le(a.drop_first(), b.drop_first())
    }
}

pub proof fn lemma_str_le_refl(a: Seq<char>)
    ensures
        str_le(a, a),
    decreases a.len(),
{
    if a.len() > 0 {
        lemma_str_le_refl(a.drop_first());
    }
}

pub proof fn lemma_str_le_total(a: Seq<char>, b: Seq<char>)
    ensures
        str_le(a, b) || str_le(b, a),
    decreases a.len(),
{
    if a.len() == 0 || b.len() == 0 {
    } else if a[0] == b[0] {
        lemma_str_le_total(a.drop_first(), b.drop_first());
    }
}

pub proof fn lemma_str_le_antisymmetric(a: Seq<char>, b: Seq<char>)
    requires
        str_le(a, b),
        str_le(b, a),
    ensures
        a == b,
    decreases a.len(),
{
    if a.len() == 0 {
        assert(b.len() == 0);
        assert(a =~= b);
    } else {
        assert(a[0] == b[0]);
        lemma_str_le_antisymmetric(a.drop_first(), b.drop_first());
        assert(a =~= seq![a[0]] + a.drop_first());
        assert(b =~= seq![b[0]] + b.drop_first());
    }
}

pub proof fn lemma_str_le_transitive(a: Seq<char>, b: Seq<char>, c: Seq<char>)
    requires
        str_le(a, b),
        str_le(b, c),
    ensures
        str_le(a, c),
    decreases a.len(),
{
    if a.len() == 0 || b.len() == 0 || c.len() == 0 {
    } else if a[0] == b[0] && b[0] == c[0] {
        lemma_str_le_transitive(a.drop_first(), b.drop_first(), c.drop_first());
    }
}

/// Compares two strings in the lexicographic order that `str_le` states.
#[verifier::loop_isolation(false)]
pub fn str_le_exec(a: &str, b: &str) -> (r: bool)
    ensures
        r == str_le(a@, b@),
{
    let a_len = a.unicode_len();
    let b_len = b.unicode_len();
    proof {
        assert(a@.skip(0) =~= a@);
        assert(b@.skip(0) =~= b@);
    }
    let mut i: usize = 0;
    while i < a_len && i < b_len
        invariant
            0 <= i <= a_len,
            0 <= i <= b_len,
            a_len == a@.len(),
            b_len == b@.len(),
            str_le(a@, b@) == str_le(a@.skip(i as int), b@.skip(i as int)),
        decreases a_len - i,
    {
        let ca = a.get_char(i);
        let cb = b.get_char(i);
        if ca != cb {
            proof {
                assert(a@.skip(i as int)[0] == a@[i as int]);
                assert(b@.skip(i as int)[0] == b@[i as int]);
            }
            return (ca as u32) < (cb as u32);
        }
        proof {
            assert(a@.skip(i as int).drop_first() =~= a@.skip(i + 1));
            assert(b@.skip(i as int).drop_first() =~= b@.skip(i + 1));
            assert(a@.skip(i as int)[0] == b@.skip(i as int)[0]);
        }
        i = i + 1;
    }
    proof {
        if i == a_len {
            assert(a@.skip(i as int).len() == 0);
        } else {
            assert(b@.skip(i as int).len() == 0);
            assert(a@.skip(i as int).len() > 0);
        }
    }
    a_len <= b_len
}

/// Tests two strings for equality, character by character.
#[verifier::loop_isolation(false)]
pub fn str_eq_exec(a: &str, b: &str) -> (r: bool)
    ensures
        r == (a@ == b@),
{
    let a_len = a.unicode_len();
    let b_len = b.unicode_len();
    if a_len != b_len {
        return false;
    }
    let mut i: usize = 0;
    while i < a_len
        invariant
            0 <= i <= a_len,
            a_len == a@.len(),
            a_len == b@.len(),
            forall|j: int| 0 <= j < i ==> a@[j] == b@[j],
        decreases a_len - i,
    {
        if a.get_char(i) != b.get_char(i) {
            return false;
        }
        i = i + 1;
    }
    proof {
        assert(a@ =~= b@);
    }
    true
}

/// The index of the first node of `nodes` named `name`, or -1 if none is.
pub open spec fn node_index(nodes: Seq<Node>, name: Seq<char>) -> int
    decreases nodes.len(),
{
    if nodes.len() == 0 {
        -1
    } else if nodes[0].name@ == name {
        0
    } else {
        let rest = node_index(nodes.drop_first(), name);
        if rest < 0 {
            -1
        } else {
            rest + 1
        }
    }
}

pub open spec fn contains_node(nodes: Seq<Node>, name: Seq<char>) -> bool {
    node_index(nodes, name) >= 0
}

pub proof fn lemma_node_index_props(nodes: Seq<Node>, name: Seq<char>)
    ensures
        contains_node(nodes, name) ==> {
            let i = node_index(nodes, name);
            &&& 0 <= i < nodes.len()
            &&& nodes[i].name@ == name
            &&& forall|j: int| 0 <= j < i ==> nodes[j].name@ != name
        },
        !contains_node(nodes, name) ==> forall|j: int|
            0 <= j < nodes.len() ==> nodes[j].name@ != name,
    decreases nodes.len(),
{
    if nodes.len() > 0 && nodes[0].name@ != name {
        lemma_node_index_props(nodes.drop_first(), name);
        assert(forall|j: int|
            1 <= j < nodes.len() ==> nodes[j] == nodes.drop_first()[j - 1]);
    }
}

/// No two nodes of the list share a name.
pub open spec fn unique_names(nodes: Seq<Node>) -> bool {
    forall|i: int, j: int|
        0 <= i < j < nodes.len() ==> nodes[i].name@ != nodes[j].name@
}

/// The node list is ascending in `str_le` by name.
pub open spec fn sorted_by_name(nodes: Seq<Node>) -> bool {
    forall|i: int, j: int|
        0 <= i < j < nodes.len() ==> str_le(nodes[i].name@, nodes[j].name@)
}

/// How one `add_node` call changes the node list: the first node of that
/// name is overwritten in place, or a new node is appended at the end.
pub open spec fn add_node_post(
    pre: Seq<Node>,
    post: Seq<Node>,
    name: Seq<char>,
    val: NodeVal,
) -> bool {
    if contains_node(pre, name) {
        let i = node_index(pre, name);
        &&& post.len() == pre.len()
        &&& forall|j: int| 0 <= j < pre.len() && j != i ==> post[j] == pre[j]
        &&& post[i].name@ == name
        &&& post[i].val == val
    } else {
        &&& post.len() == pre.len() + 1
        &&& forall|j: int| 0 <= j < pre.len() ==> post[j] == pre[j]
        &&& post[pre.len() as int].name@ == name
        &&& post[pre.len() as int].val == val
    }
}

/// The graph: the canonical node and edge collections.
///
/// The node list is meant to be kept free of duplicate names
/// (`unique_names`); `add_node` preserves that, and `sort` puts the list
/// into ascending name order. The edge list keeps insertion order and
/// admits duplicates.
pub struct Graph {
    pub nodes: Vec<Node>,
    pub edges: Vec<Edge>,
}

impl Graph {
    /// The store's invariant: no two nodes share a name. `new` establishes
    /// it and every operation preserves it; edges are unconstrained, as
    /// the store trusts its callers for referential integrity.
    pub open spec fn wf(self) -> bool {
        unique_names(self.nodes@)
    }

    /// An empty graph.
    pub fn new() -> (r: Graph)
        ensures
            r.nodes@.len() == 0,
            r.edges@.len() == 0,
            r.wf(),
    {
        Graph { nodes: Vec::new(), edges: Vec::new() }
    }

    /// Inserts a node, or overwrites the node of the same name in place;
    /// the empty name is rejected. Edges are untouched.
    #[verifier::loop_isolation(false)]
    pub fn add_node(&mut self, name: &str, val: NodeVal) -> (r: Result<(), GraphError>)
        ensures
            final (self).edges == old(self).edges,
            name@.len() == 0 ==> r == Err::<(), GraphError>(GraphError::InvalidArgument)
                && final (self).nodes == old(self).nodes,
            name@.len() > 0 ==> r == Ok::<(), GraphError>(())
                && add_node_post(old(self).nodes@, final (self).nodes@, name@, val),
            unique_names(old(self).nodes@) ==> unique_names(final (self).nodes@),
    {
        if name.unicode_len() == 0 {
            return Err(GraphError::InvalidArgument);
        }
        let n = self.nodes.len();
        let mut i: usize = 0;
        while i < n
            invariant
                0 <= i <= n,
                n == self.nodes@.len(),
                *self == *old(self),
                forall|j: int| 0 <= j < i ==> self.nodes@[j].name@ != name@,
            decreases n - i,
        {
            if str_eq_exec(self.nodes[i].name.as_str(), name) {
                proof {
                    lemma_node_index_first(self.nodes@, name@, i as int);
                }
                let node = Node::new(name, val);
                self.nodes.set(i, node);
                proof {
                    if unique_names(old(self).nodes@) {
                        lemma_unique_names_after_update(old(self).nodes@, self.nodes@, i as int);
                    }
                }
                return Ok(());
            }
            i = i + 1;
        }
        let node = Node::new(name, val);
        self.nodes.push(node);
        proof {
            lemma_node_index_props(old(self).nodes@, name@);
            assert(!contains_node(old(self).nodes@, name@));
            assert(add_node_post(old(self).nodes@, self.nodes@, name@, val));
            if unique_names(old(self).nodes@) {
                assert forall|a: int, b: int|
                    0 <= a < b < self.nodes@.len() implies self.nodes@[a].name@
                    != self.nodes@[b].name@ by {
                    if b == old(self).nodes@.len() {
                        assert(self.nodes@[a] == old(self).nodes@[a]);
                        assert(self.nodes@[b].name@ == name@);
                    }
                }
            }
        }
        Ok(())
    }

    /// Re-sorts the node list ascending by name: afterwards iteration
    /// order equals the names' ascending lexicographic order, and the
    /// nodes themselves are exactly those held before. Edges are kept as
    /// they are, in insertion order.
    #[verifier::loop_isolation(false)]
    pub fn sort(&mut self)
        ensures
            final (self).edges == old(self).edges,
            sorted_by_name(final (self).nodes@),
            final (self).nodes@.to_multiset() == old(self).nodes@.to_multiset(),
            final (self).nodes@.len() == old(self).nodes@.len(),
            unique_names(old(self).nodes@) ==> unique_names(final (self).nodes@),
    {
        broadcast use vstd::seq_lib::group_to_multiset_ensures;
        broadcast use vstd::multiset::group_multiset_axioms;

        let mut sorted: Vec<Node> = Vec::new();
        proof {
            assert(sorted@.to_multiset().add(self.nodes@.to_multiset())
                =~= old(self).nodes@.to_multiset());
        }
        while self.nodes.len() > 0
            invariant
                sorted_by_name(sorted@),
                sorted@.to_multiset().add(self.nodes@.to_multiset())
                    == old(self).nodes@.to_multiset(),
                sorted@.len() + self.nodes@.len() == old(self).nodes@.len(),
                forall|x: int, y: int|
                    0 <= x < sorted@.len() && 0 <= y < self.nodes@.len()
                        ==> str_le(#[trigger] sorted@[x].name@, #[trigger] self.nodes@[y].name@),
                self.edges == old(self).edges,
            decreases self.nodes.len(),
        {
            let ghost pre = self.nodes@;
            proof {
                lemma_str_le_refl(self.nodes@[0].name@);
            }
            let mut m: usize = 0;
            let mut k: usize = 1;
            while k < self.nodes.len()
                invariant
                    0 <= m < k <= self.nodes@.len(),
                    self.nodes@ == pre,
                    forall|j: int|
                        0 <= j < k ==> str_le(
                            self.nodes@[m as int].name@,
                            #[trigger] self.nodes@[j].name@,
                        ),
                decreases self.nodes@.len() - k,
            {
                if str_le_exec(self.nodes[k].name.as_str(), self.nodes[m].name.as_str()) {
                    proof {
                        assert forall|j: int| 0 <= j < k implies str_le(
                            self.nodes@[k as int].name@,
                            #[trigger] self.nodes@[j].name@,
                        ) by {
                            lemma_str_le_transitive(
                                self.nodes@[k as int].name@,
                                self.nodes@[m as int].name@,
                                self.nodes@[j].name@,
                            );
                        }
                        lemma_str_le_refl(self.nodes@[k as int].name@);
                    }
                    m = k;
                } else {
                    proof {
                        lemma_str_le_total(
                            self.nodes@[k as int].name@,
                            self.nodes@[m as int].name@,
                        );
                    }
                }
                k = k + 1;
            }
            let node = self.nodes.remove(m);
            proof {
                assert(node == pre[m as int]);
                assert(self.nodes@ == pre.remove(m as int));
                assert(pre.contains(node));
                assert(pre.to_multiset().count(node) > 0);
                assert(pre.remove(m as int).to_multiset() =~= pre.to_multiset().remove(node));
                assert(sorted@.push(node).to_multiset() =~= sorted@.to_multiset().insert(node));
                assert(sorted@.push(node).to_multiset().add(self.nodes@.to_multiset())
                    =~= old(self).nodes@.to_multiset());
                assert(forall|y: int|
                    0 <= y < self.nodes@.len() ==> #[trigger] self.nodes@[y]
                        == if y < m { pre[y] } else { pre[y + 1] });
            }
            let ghost spre = sorted@;
            proof {
                assert forall|j: int| 0 <= j < pre.len() implies str_le(
                    node.name@,
                    #[trigger] pre[j].name@,
                ) by {
                    assert(str_le(pre[m as int].name@, pre[j].name@));
                }
                assert forall|x: int| 0 <= x < spre.len() implies str_le(
                    #[trigger] spre[x].name@,
                    node.name@,
                ) by {
                    assert(str_le(spre[x].name@, pre[m as int].name@));
                }
            }
            sorted.push(node);
            proof {
                assert forall|i: int, j: int|
                    0 <= i < j < sorted@.len() implies str_le(
                    sorted@[i].name@,
                    sorted@[j].name@,
                ) by {
                    if j == sorted@.len() - 1 {
                        assert(sorted@[i] == spre[i]);
                        assert(sorted@[j] == pre[m as int]);
                        assert(str_le(spre[i].name@, pre[m as int].name@));
                    } else {
                        assert(sorted@[i] == spre[i]);
                        assert(sorted@[j] == spre[j]);
                    }
                }
                assert forall|x: int, y: int|
                    0 <= x < sorted@.len() && 0 <= y < self.nodes@.len() implies str_le(
                    sorted@[x].name@,
                    self.nodes@[y].name@,
                ) by {
                    let py: int = if y < m { y } else { y + 1 };
                    assert(self.nodes@[y] == pre[py]);
                    if x == sorted@.len() - 1 {
                        assert(sorted@[x] == pre[m as int]);
                        assert(str_le(pre[m as int].name@, pre[py].name@));
                    } else {
                        assert(sorted@[x] == spre[x]);
                        assert(str_le(spre[x].name@, pre[py].name@));
                    }
                }
            }
        }
        proof {
            assert(self.nodes@.to_multiset() =~= Multiset::<Node>::empty());
            assert(sorted@.to_multiset() =~= old(self).nodes@.to_multiset());
        }
        self.nodes = sorted;
        proof {
            if unique_names(old(self).nodes@) {
                lemma_unique_names_preserved(old(self).nodes@, self.nodes@);
            }
        }
    }

    /// Appends an edge; insertion order is kept and nothing is validated,
    /// as the store trusts its callers for referential integrity.
    pub fn add_edge(&mut self, edge: Edge)
        ensures
            final (self).nodes == old(self).nodes,
            final (self).edges@ == old(self).edges@.push(edge),
    {
        self.edges.push(edge);
    }

    /// Looks a node up by name; `NotFound` exactly when no node has it.
    #[verifier::loop_isolation(false)]
    pub fn resolve(&self, name: &str) -> (r: Result<&Node, GraphError>)
        ensures
            contains_node(self.nodes@, name@) ==> r is Ok
                && r->Ok_0 == &self.nodes@[node_index(self.nodes@, name@)],
            !contains_node(self.nodes@, name@) ==> r
                == Err::<&Node, GraphError>(GraphError::NotFound),
    {
        proof {
            lemma_node_index_props(self.nodes@, name@);
        }
        let n = self.nodes.len();
        let mut i: usize = 0;
        while i < n
            invariant
                0 <= i <= n,
                n == self.nodes@.len(),
                forall|j: int| 0 <= j < i ==> self.nodes@[j].name@ != name@,
            decreases n - i,
        {
            if str_eq_exec(self.nodes[i].name.as_str(), name) {
                proof {
                    lemma_node_index_first(self.nodes@, name@, i as int);
                }
                return Ok(&self.nodes[i]);
            }
            i = i + 1;
        }
        Err(GraphError::NotFound)
    }
}

/// If `nodes[i]` is named `name` and no earlier node is, then `i` is the
/// index that `node_index` finds.
pub proof fn lemma_node_index_first(nodes: Seq<Node>, name: Seq<char>, i: int)
    requires
        0 <= i < nodes.len(),
        nodes[i].name@ == name,
        forall|j: int| 0 <= j < i ==> nodes[j].name@ != name,
    ensures
        node_index(nodes, name) == i,
    decreases i,
{
    if i > 0 {
        assert(forall|j: int|
            1 <= j < nodes.len() ==> nodes.drop_first()[j - 1] == nodes[j]);
        lemma_node_index_first(nodes.drop_first(), name, i - 1);
    }
}

/// Sorted order is canonical: two ascending arrangements of the same
/// nodes, with names unique, are the same sequence. Together with the
/// contract of `sort`, the iteration order after sorting is therefore
/// exactly the ascending lexicographic order of the names.
pub proof fn lemma_sorted_order_canonical(a: Seq<Node>, b: Seq<Node>)
    requires
        a.to_multiset() == b.to_multiset(),
        sorted_by_name(a),
        sorted_by_name(b),
        unique_names(a),
    ensures
        a == b,
    decreases a.len(),
{
    broadcast use vstd::seq_lib::group_to_multiset_ensures;
    broadcast use vstd::multiset::group_multiset_axioms;

    a.to_multiset_ensures();
    b.to_multiset_ensures();
    assert(a.len() == b.len());
    if a.len() == 0 {
        assert(a =~= b);
    } else {
        assert(b.contains(b[0]));
        assert(a.to_multiset().count(b[0]) > 0);
        assert(a.contains(b[0]));
        let m = choose|m: int| 0 <= m < a.len() && a[m] == b[0];
        assert(a.contains(a[0]));
        assert(b.to_multiset().count(a[0]) > 0);
        assert(b.contains(a[0]));
        let k = choose|k: int| 0 <= k < b.len() && b[k] == a[0];
        if m != 0 && k != 0 {
            assert(str_le(a[0].name@, a[m].name@));
            assert(str_le(b[0].name@, b[k].name@));
            lemma_str_le_antisymmetric(a[0].name@, b[0].name@);
            assert(a[m].name@ == a[0].name@);
            assert(false);
        }
        assert(a[0] == b[0]);
        let at = a.drop_first();
        let bt = b.drop_first();
        assert(a.remove(0) =~= at);
        assert(b.remove(0) =~= bt);
        assert(at.to_multiset() =~= a.to_multiset().remove(a[0]));
        assert(bt.to_multiset() =~= b.to_multiset().remove(b[0]));
        assert(forall|i: int| 0 <= i < at.len() ==> #[trigger] at[i] == a[i + 1]);
        assert(forall|i: int| 0 <= i < bt.len() ==> #[trigger] bt[i] == b[i + 1]);
        assert(at.to_multiset() == bt.to_multiset());
        assert(sorted_by_name(at)) by {
            assert forall|i: int, j: int| 0 <= i < j < at.len() implies str_le(
                at[i].name@,
                at[j].name@,
            ) by {
                assert(str_le(a[i + 1].name@, a[j + 1].name@));
            }
        }
        assert(unique_names(at)) by {
            assert forall|i: int, j: int| 0 <= i < j < at.len() implies at[i].name@
                != at[j].name@ by {
                assert(a[i + 1].name@ != a[j + 1].name@);
            }
        }
        lemma_sorted_order_canonical(at, bt);
        assert forall|i: int| 0 <= i < a.len() implies a[i] == b[i] by {
            if i > 0 {
                assert(at[i - 1] == a[i]);
                assert(bt[i - 1] == b[i]);
            }
        }
        assert(a =~= b);
    }
}

/// Adding a node under a name twice leaves exactly one node of that name,
/// and it holds the value of the later call: the overwrite wins and no
/// duplicate entry appears.
pub proof fn lemma_add_node_overwrite(
    s0: Seq<Node>,
    s1: Seq<Node>,
    s2: Seq<Node>,
    name: Seq<char>,
    v1: NodeVal,
    v2: NodeVal,
)
    requires
        unique_names(s0),
        add_node_post(s0, s1, name, v1),
        add_node_post(s1, s2, name, v2),
    ensures
        s2.len() == s1.len(),
        exists|i: int|
            0 <= i < s2.len() && #[trigger] s2[i].name@ == name && s2[i].val == v2 && (forall|
                j: int,
            | 0 <= j < s2.len() && j != i ==> s2[j].name@ != name),
{
    lemma_node_index_props(s0, name);
    if contains_node(s0, name) {
        let i0 = node_index(s0, name);
        lemma_node_index_first(s1, name, i0);
        assert(contains_node(s1, name));
        assert(s2[i0].name@ == name && s2[i0].val == v2);
        assert(forall|j: int| 0 <= j < s2.len() && j != i0 ==> s2[j] == s0[j]);
    } else {
        let i1 = s0.len() as int;
        lemma_node_index_first(s1, name, i1);
        assert(contains_node(s1, name));
        assert(s2[i1].name@ == name && s2[i1].val == v2);
        assert(forall|j: int| 0 <= j < s2.len() && j != i1 ==> s2[j] == s0[j]);
    }
}

/// A rearrangement that keeps the multiset of nodes keeps names unique.
pub proof fn lemma_unique_names_preserved(pre: Seq<Node>, post: Seq<Node>)
    requires
        unique_names(pre),
        post.to_multiset() == pre.to_multiset(),
    ensures
        unique_names(post),
{
    broadcast use vstd::seq_lib::group_to_multiset_ensures;
    broadcast use vstd::multiset::group_multiset_axioms;

    assert(pre.no_duplicates()) by {
        assert forall|i: int, j: int|
            0 <= i < pre.len() && 0 <= j < pre.len() && i != j implies pre[i] != pre[j] by {
            assert(pre[i].name@ != pre[j].name@);
        }
    }
    pre.lemma_multiset_has_no_duplicates();
    post.lemma_multiset_has_no_duplicates_conv();
    assert forall|i: int, j: int|
        0 <= i < j < post.len() implies post[i].name@ != post[j].name@ by {
        if post[i].name@ == post[j].name@ {
            assert(post[i] != post[j]);
            assert(post.contains(post[i]));
            assert(post.contains(post[j]));
            assert(pre.to_multiset().count(post[i]) > 0);
            assert(pre.to_multiset().count(post[j]) > 0);
            assert(pre.contains(post[i]));
            assert(pre.contains(post[j]));
            let a = choose|a: int| 0 <= a < pre.len() && pre[a] == post[i];
            let b = choose|b: int| 0 <= b < pre.len() && pre[b] == post[j];
            assert(a != b);
            assert(pre[a].name@ == pre[b].name@);
            assert(false);
        }
    }
}

proof fn lemma_unique_names_after_update(pre: Seq<Node>, post: Seq<Node>, i: int)
    requires
        0 <= i < pre.len(),
        post.len() == pre.len(),
        forall|j: int| 0 <= j < pre.len() && j != i ==> post[j] == pre[j],
        post[i].name@ == pre[i].name@,
        unique_names(pre),
    ensures
        unique_names(post),
{
}

} // verus!
