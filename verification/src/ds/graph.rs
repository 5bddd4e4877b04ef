//! A simple graph: nodes carrying optional data, edges carrying optional
//! weights. Adjacency lists are kept per node id; ids are dense, so the
//! lists live in a vector indexed by id.

use vstd::prelude::*;
use vstd::pervasive::cloned;

verus! {

/// Node of the graph.
///
/// `id` - unique identifier
/// `data` (optional) - data of some type
pub struct Node<T> {
    id: usize,
    pub data: Option<T>,
}

impl<T> Node<T> {
    /// The identifier of the node.
    pub closed spec fn spec_id(&self) -> usize {
        self.id
    }

    /// The stored data.
    pub closed spec fn spec_data(&self) -> Option<T> {
        self.data
    }

    /// Gets an *id* of the node.
    pub fn id(&self) -> (r: usize)
        ensures
            r == self.spec_id(),
    {
        self.id
    }
}

/// Edge of the graph.
///
/// `linked` - *id* of linked node
/// `weight` - an edge weight
pub struct Edge<W: Clone> {
    linked: usize,
    pub weight: Option<W>,
}

impl<W: Clone> Edge<W> {
    /// The id of the node this edge points to.
    pub closed spec fn spec_linked(&self) -> usize {
        self.linked
    }

    /// The stored weight.
    pub closed spec fn spec_weight(&self) -> Option<W> {
        self.weight
    }
}

/// Whether `dst` is what cloning the optional weight `src` may produce.
pub open spec fn weight_cloned<W: Clone>(src: Option<W>, dst: Option<W>) -> bool {
    match (src, dst) {
        (None, None) => true,
        (Some(a), Some(b)) => cloned::<W>(a, b),
        _ => false,
    }
}

/// The total number of stored edges over all adjacency lists.
pub open spec fn edge_total<W: Clone>(ls: Seq<Seq<Edge<W>>>) -> int
    decreases ls.len(),
{
    if ls.len() == 0 {
        0
    } else {
        edge_total(ls.drop_last()) + ls.last().len()
    }
}

/// The number of present nodes.
pub open spec fn node_total<T>(ns: Seq<Option<Node<T>>>) -> int
    decreases ns.len(),
{
    if ns.len() == 0 {
        0
    } else {
        node_total(ns.drop_last()) + if ns.last() is Some {
            1int
        } else {
            0int
        }
    }
}

/// How one `add_link(from, to, weight)` call changes the adjacency lists
/// `ls0` into `ls1`: nothing when `from` has no list; otherwise one edge to
/// `to` appended at `from`, and, on a non-oriented graph whose `to` has a
/// list, a mirror edge back to `from` appended at `to`.
pub open spec fn linked_after<W: Clone>(
    ls0: Seq<Seq<Edge<W>>>,
    ls1: Seq<Seq<Edge<W>>>,
    oriented: bool,
    from: int,
    to: int,
    w: Option<W>,
) -> bool {
    if from >= ls0.len() {
        ls1 == ls0
    } else {
        let mirror = !oriented && to < ls0.len();
        &&& ls1.len() == ls0.len()
        &&& (forall|k: int| 0 <= k < ls0.len() && k != from && k != to ==> ls1[k] == ls0[k])
        &&& if !mirror {
            &&& ls1[from].len() == ls0[from].len() + 1
            &&& ls1[from].take(ls0[from].len() as int) == ls0[from]
            &&& ls1[from].last().spec_linked() == to
            &&& weight_cloned(w, ls1[from].last().spec_weight())
            &&& (to != from && to < ls0.len() ==> ls1[to] == ls0[to])
        } else if to == from {
            &&& ls1[from].len() == ls0[from].len() + 2
            &&& ls1[from].take(ls0[from].len() as int) == ls0[from]
            &&& ls1[from][ls0[from].len() as int].spec_linked() == to
            &&& weight_cloned(w, ls1[from][ls0[from].len() as int].spec_weight())
            &&& ls1[from].last().spec_linked() == from
            &&& weight_cloned(w, ls1[from].last().spec_weight())
        } else {
            &&& ls1[from].len() == ls0[from].len() + 1
            &&& ls1[from].take(ls0[from].len() as int) == ls0[from]
            &&& ls1[from].last().spec_linked() == to
            &&& weight_cloned(w, ls1[from].last().spec_weight())
            &&& ls1[to].len() == ls0[to].len() + 1
            &&& ls1[to].take(ls0[to].len() as int) == ls0[to]
            &&& ls1[to].last().spec_linked() == from
            &&& weight_cloned(w, ls1[to].last().spec_weight())
        }
    }
}

/// Updating one adjacency list moves the edge total by the difference of
/// the two list lengths.
proof fn lemma_edge_total_update<W: Clone>(ls: Seq<Seq<Edge<W>>>, k: int, l: Seq<Edge<W>>)
    requires
        0 <= k < ls.len(),
    ensures
        edge_total(ls.update(k, l)) == edge_total(ls) - ls[k].len() + l.len(),
    decreases ls.len(),
{
    let u = ls.update(k, l);
    if k == ls.len() - 1 {
        assert(u.drop_last() =~= ls.drop_last());
        assert(u.last() == l);
    } else {
        assert(u.drop_last() =~= ls.drop_last().update(k, l));
        lemma_edge_total_update(ls.drop_last(), k, l);
        assert(u.last() == ls.last());
    }
}

/// A prefix never holds more edges than the whole.
proof fn lemma_edge_total_prefix<W: Clone>(ls: Seq<Seq<Edge<W>>>, k: int)
    requires
        0 <= k <= ls.len(),
    ensures
        edge_total(ls.take(k)) <= edge_total(ls),
    decreases ls.len(),
{
    if k == ls.len() {
        assert(ls.take(k) =~= ls);
    } else {
        assert(ls.take(k) =~= ls.drop_last().take(k));
        lemma_edge_total_prefix(ls.drop_last(), k);
    }
}

/// Graph data structure.
/// `T` - type of the data of graph nodes.
/// `W` - type of the *weight* of edges.
pub struct Graph<T, W: Clone> {
    oriented: bool,
    nodes: Vec<Option<Node<T>>>,
    links: Vec<Vec<Edge<W>>>,
}

impl<T, W> Graph<T, W> where W: Clone {
    /// Whether links are one-directional.
    pub closed spec fn spec_oriented(&self) -> bool {
        self.oriented
    }

    /// The node slots, by id.
    pub closed spec fn spec_nodes(&self) -> Seq<Option<Node<T>>> {
        self.nodes@
    }

    /// The adjacency lists, by node id.
    pub closed spec fn spec_links(&self) -> Seq<Seq<Edge<W>>> {
        self.links@.map_values(|v: Vec<Edge<W>>| v@)
    }

    /// Every node slot has its adjacency list, stored ids match positions,
    /// and the edge total fits the machine word.
    pub open spec fn wf(&self) -> bool {
        &&& self.spec_links().len() == self.spec_nodes().len()
        &&& edge_total(self.spec_links()) <= usize::MAX
        &&& forall|i: int|
            0 <= i < self.spec_nodes().len() ==> (#[trigger] self.spec_nodes()[i] matches Some(n)
                ==> n.spec_id() == i)
    }

    /// Creates new `Graph`.
    ///
    /// `oriented` - if `true`, then graph is oriented
    pub fn new(oriented: bool) -> (g: Graph<T, W>)
        ensures
            g.wf(),
            g.spec_oriented() == oriented,
            g.spec_nodes().len() == 0,
            g.spec_links().len() == 0,
    {
        let g = Graph { oriented, nodes: Vec::new(), links: Vec::new() };
        proof {
            assert(g.spec_links() =~= Seq::<Seq<Edge<W>>>::empty());
        }
        g
    }

    /// Adds a new node into graph, returning its id.
    ///
    /// `data` (optional) - a nodes data.
    /// Optionally adds a link: `linked_from` -> new node; if the graph is
    /// not oriented, the mirror link comes with it.
    /// `weight` (optional) - weight of the link.
    pub fn add_node(&mut self, data: Option<T>, linked_from: Option<usize>, weight: Option<W>) -> (id:
        usize)
        requires
            old(self).wf(),
            edge_total(old(self).spec_links()) + 2 <= usize::MAX,
        ensures
            final(self).wf(),
            id == old(self).spec_nodes().len(),
            final(self).spec_oriented() == old(self).spec_oriented(),
            final(self).spec_nodes().len() == id + 1,
            final(self).spec_nodes()[id as int] matches Some(n) && n.spec_id() == id && n.spec_data()
                == data,
            forall|k: int| 0 <= k < id ==> final(self).spec_nodes()[k] == old(self).spec_nodes()[k],
            ({
                let base = old(self).spec_links().push(Seq::<Edge<W>>::empty());
                match linked_from {
                    None => final(self).spec_links() == base,
                    Some(from) => linked_after(
                        base,
                        final(self).spec_links(),
                        old(self).spec_oriented(),
                        from as int,
                        id as int,
                        weight,
                    ),
                }
            }),
    {
        let ghost ls0 = self.spec_links();
        let id = self.nodes.len();
        self.nodes.push(Some(Node { id, data }));
        self.links.push(Vec::new());
        proof {
            let base = ls0.push(Seq::<Edge<W>>::empty());
            assert(self.spec_links() =~= base);
            assert(base.drop_last() =~= ls0);
            assert(edge_total(base) == edge_total(ls0));
            assert(self.wf());
        }
        if let Some(linked) = linked_from {
            self.add_link(linked, id, weight);
        }
        id
    }

    /// Adds a new link between `from` and `to` nodes.
    ///
    /// If the graph is not oriented, the mirror link `to` -> `from` comes
    /// with it. A `from` without an adjacency list changes nothing.
    /// `weight` (optional) - weight of the link.
    pub fn add_link(&mut self, from: usize, to: usize, weight: Option<W>)
        requires
            old(self).wf(),
            edge_total(old(self).spec_links()) + 2 <= usize::MAX,
        ensures
            final(self).wf(),
            final(self).spec_oriented() == old(self).spec_oriented(),
            final(self).spec_nodes() == old(self).spec_nodes(),
            linked_after(
                old(self).spec_links(),
                final(self).spec_links(),
                old(self).spec_oriented(),
                from as int,
                to as int,
                weight,
            ),
    {
        let ghost ls0 = self.spec_links();
        if from < self.links.len() {
            let mirror_weight = weight.clone();
            self.links[from].push(Edge { linked: to, weight });
            proof {
                let ls1 = self.spec_links();
                assert(ls1 =~= ls0.update(from as int, ls1[from as int]));
                lemma_edge_total_update(ls0, from as int, ls1[from as int]);
                assert(ls1[from as int].take(ls0[from as int].len() as int) =~= ls0[from as int]);
            }
            if !self.oriented {
                if to < self.links.len() {
                    let ghost ls1 = self.spec_links();
                    self.links[to].push(Edge { linked: from, weight: mirror_weight });
                    proof {
                        let ls2 = self.spec_links();
                        assert(ls2 =~= ls1.update(to as int, ls2[to as int]));
                        lemma_edge_total_update(ls1, to as int, ls2[to as int]);
                        assert(ls2[to as int].take(ls1[to as int].len() as int) =~= ls1[to as int]);
                        if to == from {
                            let n = ls0[from as int].len() as int;
                            assert(ls2[from as int].take(n) =~= ls0[from as int]);
                            assert(ls2[from as int][n] == ls1[from as int].last());
                        }
                    }
                }
            }
        }
    }

    /// Check if graph is oriented.
    pub fn is_oriented(&self) -> (r: bool)
        ensures
            r == self.spec_oriented(),
    {
        self.oriented
    }

    /// Check if graph is empty.
    pub fn is_empty(&self) -> (r: bool)
        ensures
            r == (node_total(self.spec_nodes()) == 0),
    {
        self.nodes_count() == 0
    }

    /// Returns count of nodes.
    pub fn nodes_count(&self) -> (r: usize)
        ensures
            r == node_total(self.spec_nodes()),
    {
        let mut count: usize = 0;
        let mut i: usize = 0;
        while i < self.nodes.len()
            invariant
                i <= self.nodes@.len(),
                count <= i,
                count == node_total(self.spec_nodes().take(i as int)),
            decreases self.nodes@.len() - i,
        {
            proof {
                assert(self.spec_nodes().take(i + 1 as int).drop_last() =~= self.spec_nodes()
                    .take(i as int));
            }
            if self.nodes[i].is_some() {
                count += 1;
            }
            i += 1;
        }
        proof {
            assert(self.spec_nodes().take(self.nodes@.len() as int) =~= self.spec_nodes());
        }
        count
    }

    /// Returns count of edges (links); on a non-oriented graph each link
    /// and its mirror count as one.
    pub fn edges_count(&self) -> (r: usize)
        requires
            self.wf(),
        ensures
            r == (if self.spec_oriented() {
                edge_total(self.spec_links())
            } else {
                edge_total(self.spec_links()) / 2
            }),
    {
        let mut count: usize = 0;
        let mut i: usize = 0;
        while i < self.links.len()
            invariant
                self.wf(),
                i <= self.links@.len(),
                count == edge_total(self.spec_links().take(i as int)),
                count <= usize::MAX,
            decreases self.links@.len() - i,
        {
            proof {
                assert(self.spec_links().take(i + 1 as int).drop_last() =~= self.spec_links()
                    .take(i as int));
                assert(self.spec_links().take(i + 1 as int).last() == self.spec_links()[i as int]);
                lemma_edge_total_prefix(self.spec_links(), i + 1 as int);
            }
            count += self.links[i].len();
            i += 1;
        }
        proof {
            assert(self.spec_links().take(self.links@.len() as int) =~= self.spec_links());
        }
        if self.oriented {
            count
        } else {
            count / 2
        }
    }
}

} // verus!
