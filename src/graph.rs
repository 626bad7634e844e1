use vstd::prelude::*;

verus! {

/// An edge as seen from one of its nodes: its weight, and the node at its other end.
#[derive(Debug)]
pub struct Edge<'a, W> {
    pub weight: &'a W,
    pub connects_to: usize,
}

#[derive(Debug, Clone, Copy)]
struct InnerEdge {
    weight: usize,
    connects_to: usize,
}

/// The edges that enter and leave one node.
#[derive(Debug)]
pub struct Node {
    incoming: Vec<InnerEdge>,
    outgoing: Vec<InnerEdge>,
}

impl Node {
    pub closed spec fn is_empty(&self) -> bool {
        self.incoming@.len() == 0 && self.outgoing@.len() == 0
    }

    /// Create a new node, with no edges.
    pub fn new() -> (r: Node)
        ensures
            r.is_empty(),
    {
        let incoming = Vec::new();
        let outgoing = Vec::new();
        Node { incoming, outgoing }
    }
}

/// A directed graph with weighted edges, backed by two-way adjacency lists. Nodes are numbers
/// and hold no data: a node exists once an edge touches it.
#[derive(Debug)]
pub struct Graph<W> {
    weights: Vec<W>,
    nodes: Vec<Node>,
}

impl<W> Graph<W> {
    spec fn resolve(&self, list: Seq<InnerEdge>) -> Seq<(usize, W)> {
        list.map_values(|e: InnerEdge| (e.connects_to, self.weights@[e.weight as int]))
    }

    /// The edges that leave node `n`, in the order they were added: the node each enters, and
    /// its weight.
    pub closed spec fn outs(&self, n: usize) -> Seq<(usize, W)> {
        if n < self.nodes@.len() {
            self.resolve(self.nodes@[n as int].outgoing@)
        } else {
            seq![]
        }
    }

    /// The edges that enter node `n`, in the order they were added: the node each leaves, and
    /// its weight.
    pub closed spec fn ins(&self, n: usize) -> Seq<(usize, W)> {
        if n < self.nodes@.len() {
            self.resolve(self.nodes@[n as int].incoming@)
        } else {
            seq![]
        }
    }

    pub closed spec fn wf(&self) -> bool {
        forall|n: int, i: int| #![trigger self.nodes@[n].outgoing@[i]] #![trigger self.nodes@[n].incoming@[i]]
            0 <= n < self.nodes@.len() ==> (0 <= i < self.nodes@[n].outgoing@.len()
                ==> self.nodes@[n].outgoing@[i].weight < self.weights@.len()) && (0 <= i
                < self.nodes@[n].incoming@.len() ==> self.nodes@[n].incoming@[i].weight
                < self.weights@.len())
    }

    /// Create a new, empty graph.
    pub fn new() -> (r: Graph<W>)
        ensures
            r.wf(),
            forall|n: usize| r.outs(n) == Seq::<(usize, W)>::empty() && r.ins(n) == Seq::<
                (usize, W),
            >::empty(),
    {
        let weights = Vec::new();
        let nodes = Vec::new();
        Graph { weights, nodes }
    }

    /// Add empty nodes up to node `n`.
    fn extend_to(&mut self, n: usize)
        requires
            old(self).wf(),
            n < usize::MAX,
        ensures
            final(self).wf(),
            final(self).nodes@.len() > n,
            final(self).weights@ == old(self).weights@,
            forall|m: usize| final(self).outs(m) == old(self).outs(m) && final(self).ins(m) == old(
                self,
            ).ins(m),
    {
        while self.nodes.len() <= n
            invariant
                self.wf(),
                self.weights@ == old(self).weights@,
                self.nodes@.len() >= old(self).nodes@.len(),
                forall|m: int| 0 <= m < old(self).nodes@.len() ==> self.nodes@[m] == old(self).nodes@[m],
                forall|m: int| old(self).nodes@.len() <= m < self.nodes@.len() ==> (#[trigger] self.nodes@[m]).is_empty(),
            decreases n + 1 - self.nodes@.len(),
        {
            self.nodes.push(Node::new());
        }
        proof {
            assert forall|m: usize| self.outs(m) == old(self).outs(m) && self.ins(m) == old(self).ins(m) by {
                if m < self.nodes@.len() && m >= old(self).nodes@.len() {
                    assert(self.outs(m) =~= Seq::<(usize, W)>::empty());
                    assert(self.ins(m) =~= Seq::<(usize, W)>::empty());
                }
            }
        }
    }

    /// Add an edge from node `from` to node `to`, with the given weight.
    pub fn add_edge(&mut self, from: usize, to: usize, weight: W)
        requires
            old(self).wf(),
            from < usize::MAX,
            to < usize::MAX,
        ensures
            final(self).wf(),
            final(self).outs(from) == old(self).outs(from).push((to, weight)),
            final(self).ins(to) == old(self).ins(to).push((from, weight)),
            forall|n: usize| n != from ==> final(self).outs(n) == old(self).outs(n),
            forall|n: usize| n != to ==> final(self).ins(n) == old(self).ins(n),
    {
        let top = if from > to { from } else { to };
        self.extend_to(top);
        let ghost mid = *self;
        let w = self.weights.len();
        self.weights.push(weight);
        proof {
            assert forall|n: usize| self.outs(n) == mid.outs(n) && self.ins(n) == mid.ins(n) by {
                if n < self.nodes@.len() {
                    assert(self.outs(n) =~= mid.outs(n));
                    assert(self.ins(n) =~= mid.ins(n));
                }
            }
        }
        let ghost mid2 = *self;
        self.nodes[from].outgoing.push(InnerEdge { weight: w, connects_to: to });
        proof {
            assert(self.outs(from) =~= mid2.outs(from).push((to, weight)));
            assert forall|n: usize| n != from implies self.outs(n) == mid2.outs(n) by {}
            assert forall|n: usize| #[trigger] self.ins(n) == mid2.ins(n) by {}
        }
        let ghost mid3 = *self;
        self.nodes[to].incoming.push(InnerEdge { weight: w, connects_to: from });
        proof {
            assert(self.ins(to) =~= mid3.ins(to).push((from, weight)));
            assert forall|n: usize| n != to implies self.ins(n) == mid3.ins(n) by {}
            assert forall|n: usize| #[trigger] self.outs(n) == mid3.outs(n) by {}
        }
    }

    /// The edges that leave `node`, in the order they were added.
    pub fn outgoing(&self, node: usize) -> (r: Vec<Edge<'_, W>>)
        requires
            self.wf(),
        ensures
            r@.len() == self.outs(node).len(),
            forall|i: int| 0 <= i < r@.len() ==> (#[trigger] r@[i]).connects_to == self.outs(node)[i].0
                && *r@[i].weight == self.outs(node)[i].1,
    {
        let mut r: Vec<Edge<'_, W>> = Vec::new();
        if node < self.nodes.len() {
            let list = &self.nodes[node].outgoing;
            let mut i: usize = 0;
            while i < list.len()
                invariant
                    self.wf(),
                    node < self.nodes@.len(),
                    list@ == self.nodes@[node as int].outgoing@,
                    i <= list@.len(),
                    r@.len() == i,
                    forall|j: int| 0 <= j < i ==> (#[trigger] r@[j]).connects_to == self.outs(node)[j].0
                        && *r@[j].weight == self.outs(node)[j].1,
                decreases list@.len() - i,
            {
                let e = list[i];
                r.push(Edge { weight: &self.weights[e.weight], connects_to: e.connects_to });
                i = i + 1;
            }
        }
        r
    }

    /// The edges that enter `node`, in the order they were added.
    pub fn incoming(&self, node: usize) -> (r: Vec<Edge<'_, W>>)
        requires
            self.wf(),
        ensures
            r@.len() == self.ins(node).len(),
            forall|i: int| 0 <= i < r@.len() ==> (#[trigger] r@[i]).connects_to == self.ins(node)[i].0
                && *r@[i].weight == self.ins(node)[i].1,
    {
        let mut r: Vec<Edge<'_, W>> = Vec::new();
        if node < self.nodes.len() {
            let list = &self.nodes[node].incoming;
            let mut i: usize = 0;
            while i < list.len()
                invariant
                    self.wf(),
                    node < self.nodes@.len(),
                    list@ == self.nodes@[node as int].incoming@,
                    i <= list@.len(),
                    r@.len() == i,
                    forall|j: int| 0 <= j < i ==> (#[trigger] r@[j]).connects_to == self.ins(node)[j].0
                        && *r@[j].weight == self.ins(node)[j].1,
                decreases list@.len() - i,
            {
                let e = list[i];
                r.push(Edge { weight: &self.weights[e.weight], connects_to: e.connects_to });
                i = i + 1;
            }
        }
        r
    }
}

} // verus!
