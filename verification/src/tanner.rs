//! Tanner graph of a parity-check matrix: symbol and check nodes joined by
//! edges, with breadth-first subgraphs used by the progressive edge-growth
//! construction.
use vstd::prelude::*;

verus! {

/// A node of the Tanner graph: a codeword symbol or a parity check, each
/// carrying its own index.
pub enum NodeType {
    /// A codeword symbol node.
    SymbolNode(usize),
    /// A parity check node.
    CheckNode(usize),
}

/// Bipartite graph of a parity-check matrix: symbol nodes first, then check
/// nodes, with an adjacency list per node.
pub struct TannerGraph {
    /// The parity-check matrix: one row per check, entries zero or one.
    pub matrix: Vec<Vec<u32>>,
    /// All nodes, symbols before checks.
    pub nodes: Vec<NodeType>,
    /// Number of check nodes.
    pub checknode_len: usize,
    /// Adjacency list, indexed like `nodes`.
    pub edges: Vec<Vec<usize>>,
}

impl TannerGraph {
    /// Number of symbol nodes.
    pub open spec fn offset(&self) -> int {
        self.nodes.len() - self.checknode_len
    }

    /// Shape invariant: nodes are the symbols in order followed by the
    /// checks in order, one adjacency list per node, one matrix row per
    /// check, and every edge endpoint is a node.
    pub open spec fn inv(&self) -> bool {
        &&& self.checknode_len <= self.nodes@.len()
        &&& self.edges@.len() == self.nodes@.len()
        &&& self.matrix@.len() == self.checknode_len
        &&& forall|i: int|
            0 <= i < self.offset() ==> (#[trigger] self.nodes@[i] matches NodeType::SymbolNode(s)
                && s == i)
        &&& forall|i: int|
            self.offset() <= i < self.nodes@.len() ==> (#[trigger] self.nodes@[i]
                matches NodeType::CheckNode(c) && c == i - self.offset())
        &&& forall|i: int, j: int|
            0 <= i < self.edges@.len() && 0 <= j < self.edges@[i]@.len()
                ==> #[trigger] self.edges@[i]@[j] < self.nodes@.len()
        &&& forall|i: int|
            0 <= i < self.checknode_len ==> #[trigger] self.matrix@[i]@.len() == self.offset()
    }

    /// Append one directed edge to a node's adjacency list, leaving every
    /// other list as it was.
    pub fn add_edge(h: &mut Vec<Vec<usize>>, k: usize, v: usize)
        requires
            k < old(h)@.len(),
        ensures
            final(h)@.len() == old(h)@.len(),
            final(h)@[k as int]@ == old(h)@[k as int]@.push(v),
            forall|i: int| 0 <= i < old(h)@.len() && i != k ==> final(h)@[i] == old(h)@[i],
    {
        let mut vl = h.remove(k);
        vl.push(v);
        h.insert(k, vl);
        proof {
            assert forall|i: int| 0 <= i < old(h)@.len() && i != k implies h@[i] == old(
                h,
            )@[i] by {
                assert(h@[i] == old(h)@.remove(k as int).insert(k as int, h@[k as int])[i]);
            }
        }
    }

    /// Build the Tanner graph of a parity-check matrix: one symbol node per
    /// column, one check node per row, and an edge for every one entry.
    pub fn new(matrix: Vec<Vec<u32>>) -> (g: TannerGraph)
        requires
            matrix@.len() >= 1,
            forall|i: int| 0 <= i < matrix@.len() ==> #[trigger] matrix@[i]@.len()
                == matrix@[0]@.len(),
            matrix@.len() + matrix@[0]@.len() <= usize::MAX,
        ensures
            g.inv(),
            g.checknode_len == matrix@.len(),
            g.offset() == matrix@[0]@.len(),
            g.matrix@.len() == matrix@.len(),
    {
        let offset = matrix[0].len();
        let checknode_len = matrix.len();
        let total = offset + checknode_len;

        let mut nodes: Vec<NodeType> = Vec::new();
        let mut edges: Vec<Vec<usize>> = Vec::new();
        let mut i: usize = 0;
        while i < offset
            invariant
                i <= offset,
                nodes@.len() == i,
                edges@.len() == i,
                forall|j: int| 0 <= j < i ==> (#[trigger] nodes@[j]
                    matches NodeType::SymbolNode(s) && s == j),
                forall|j: int| 0 <= j < i ==> #[trigger] edges@[j]@.len() == 0,
            decreases offset - i,
        {
            nodes.push(NodeType::SymbolNode(i));
            edges.push(Vec::new());
            i += 1;
        }
        let mut c: usize = 0;
        while c < checknode_len
            invariant
                c <= checknode_len,
                nodes@.len() == offset + c,
                edges@.len() == offset + c,
                forall|j: int| 0 <= j < offset ==> (#[trigger] nodes@[j]
                    matches NodeType::SymbolNode(s) && s == j),
                forall|j: int|
                    offset <= j < offset + c ==> (#[trigger] nodes@[j]
                        matches NodeType::CheckNode(k) && k == j - offset),
                forall|j: int| 0 <= j < offset + c ==> #[trigger] edges@[j]@.len() == 0,
            decreases checknode_len - c,
        {
            nodes.push(NodeType::CheckNode(c));
            edges.push(Vec::new());
            c += 1;
        }

        let mut g = TannerGraph { matrix, nodes, checknode_len, edges };

        let mut r: usize = 0;
        while r < checknode_len
            invariant
                g.inv(),
                g.checknode_len == checknode_len,
                g.matrix@.len() == checknode_len,
                g.offset() == offset,
                g.nodes@.len() == offset + checknode_len,
            decreases checknode_len - r,
        {
            let cols = g.matrix[r].len();
            let mut j: usize = 0;
            while j < cols
                invariant
                    g.inv(),
                    g.checknode_len == checknode_len,
                    g.matrix@.len() == checknode_len,
                    g.offset() == offset,
                    g.nodes@.len() == offset + checknode_len,
                    r < checknode_len,
                    cols == offset,
                decreases cols - j,
            {
                if g.matrix[r][j] == 1 {
                    Self::add_edge(&mut g.edges, r + offset, j);
                    Self::add_edge(&mut g.edges, j, r + offset);
                }
                j += 1;
            }
            r += 1;
        }
        g
    }

    /// True when the node is a parity check node.
    pub fn is_checknode(&self, node_id: usize) -> (r: bool)
        requires
            node_id < self.nodes@.len(),
        ensures
            r == (self.nodes@[node_id as int] is CheckNode),
    {
        matches!(self.nodes[node_id], NodeType::CheckNode(_))
    }

    /// The symbol index carried by a symbol node.
    pub fn get_symbolnode(&self, idx: usize) -> (r: usize)
        requires
            idx < self.nodes@.len(),
            self.nodes@[idx as int] is SymbolNode,
        ensures
            self.nodes@[idx as int] == NodeType::SymbolNode(r),
    {
        match self.nodes[idx] {
            NodeType::SymbolNode(i) => i,
            NodeType::CheckNode(_) => 0,
        }
    }

    /// Number of edges at a node.
    pub fn checknode_edge_len(&self, idx: usize) -> (r: usize)
        requires
            idx < self.edges@.len(),
        ensures
            r == self.edges@[idx as int]@.len(),
    {
        self.edges[idx].len()
    }

    /// The check node with the fewest edges; earlier nodes win ties.
    pub fn get_checknode_with_lowest_degree(&self) -> (r: usize)
        requires
            self.inv(),
            self.checknode_len >= 1,
        ensures
            self.offset() <= r < self.nodes@.len(),
            forall|i: int|
                self.offset() <= i < self.nodes@.len() ==> self.edges@[r as int]@.len()
                    <= #[trigger] self.edges@[i]@.len(),
    {
        let offset = self.nodes.len() - self.checknode_len;
        let mut best = offset;
        let mut best_len = self.edges[offset].len();
        let mut i = offset + 1;
        while i < self.nodes.len()
            invariant
                self.inv(),
                self.offset() <= best < self.nodes@.len(),
                offset == self.offset(),
                offset + 1 <= i <= self.nodes@.len(),
                best_len == self.edges@[best as int]@.len(),
                forall|j: int| offset <= j < i ==> best_len <= #[trigger] self.edges@[j]@.len(),
            decreases self.nodes@.len() - i,
        {
            let l = self.edges[i].len();
            if l < best_len {
                best = i;
                best_len = l;
            }
            i += 1;
        }
        best
    }

    /// The check nodes that do not appear in `covered`.
    pub fn get_uncovered_checknodes(&self, covered: &Vec<usize>) -> (r: Vec<usize>)
        requires
            self.inv(),
        ensures
            forall|k: int|
                0 <= k < r@.len() ==> self.offset() <= #[trigger] r@[k] < self.nodes@.len()
                    && !covered@.contains(r@[k]),
            forall|i: int|
                self.offset() <= i < self.nodes@.len() && !covered@.contains(i as usize)
                    ==> #[trigger] r@.contains(i as usize),
    {
        let mut r: Vec<usize> = Vec::new();
        let offset = self.nodes.len() - self.checknode_len;
        let mut i = offset;
        while i < self.nodes.len()
            invariant
                self.inv(),
                offset == self.offset(),
                offset <= i <= self.nodes@.len(),
                forall|k: int|
                    0 <= k < r@.len() ==> offset <= #[trigger] r@[k] < self.nodes@.len()
                        && !covered@.contains(r@[k]),
                forall|j: int|
                    offset <= j < i && !covered@.contains(j as usize) ==> #[trigger] r@.contains(
                        j as usize,
                    ),
            decreases self.nodes@.len() - i,
        {
            let ghost before = r@;
            if !vec_contains(covered, i) {
                r.push(i);
            }
            proof {
                assert forall|j: int|
                    offset <= j < i + 1 && !covered@.contains(j as usize) implies #[trigger] r@
                    .contains(j as usize) by {
                    if j == i {
                        assert(r@[before.len() as int] == i as usize);
                    } else {
                        assert(before.contains(j as usize));
                        let k = choose|k: int| 0 <= k < before.len() && before[k] == (j as usize);
                        assert(r@[k] == j as usize);
                    }
                }
            }
            i += 1;
        }
        r
    }

    /// Join a symbol node and a check node: add the edge in both adjacency
    /// lists and set the matrix entry.
    pub fn create_edge(&mut self, symbol_idx: usize, check_idx: usize)
        requires
            old(self).inv(),
            symbol_idx < old(self).offset(),
            old(self).offset() <= check_idx < old(self).nodes@.len(),
        ensures
            final(self).inv(),
            final(self).nodes@ == old(self).nodes@,
            final(self).checknode_len == old(self).checknode_len,
            final(self).edges@[check_idx as int]@ == old(self).edges@[check_idx as int]@.push(
                symbol_idx,
            ),
            final(self).edges@[symbol_idx as int]@ == old(self).edges@[symbol_idx as int]@.push(
                check_idx,
            ),
            forall|i: int|
                0 <= i < old(self).edges@.len() && i != check_idx && i != symbol_idx
                    ==> final(self).edges@[i] == old(self).edges@[i],
            final(self).matrix@.len() == old(self).matrix@.len(),
    {
        Self::add_edge(&mut self.edges, check_idx, symbol_idx);
        Self::add_edge(&mut self.edges, symbol_idx, check_idx);

        let check_id = check_idx - (self.nodes.len() - self.checknode_len);
        let mut row = self.matrix.remove(check_id);
        let ghost removed_row = row@;
        let old_row = row.remove(symbol_idx);
        let _ = old_row;
        row.insert(symbol_idx, 1);
        proof {
            assert(row@.len() == removed_row.len());
        }
        let ghost new_row = row;
        self.matrix.insert(check_id, row);
        proof {
            assert forall|i: int|
                0 <= i < self.checknode_len implies #[trigger] self.matrix@[i]@.len()
                == self.offset() by {
                assert(self.matrix@[i] == old(self).matrix@.remove(check_id as int).insert(
                    check_id as int,
                    new_row,
                )[i]);
            }
        }
    }

    /// The adjacency list of a node, as a copy.
    pub fn neighbors(&self, idx: usize) -> (r: Vec<usize>)
        requires
            idx < self.edges@.len(),
        ensures
            r@ == self.edges@[idx as int]@,
    {
        let mut r: Vec<usize> = Vec::new();
        let n = self.edges[idx].len();
        let mut k: usize = 0;
        while k < n
            invariant
                idx < self.edges@.len(),
                n == self.edges@[idx as int]@.len(),
                k <= n,
                r@ == self.edges@[idx as int]@.take(k as int),
            decreases n - k,
        {
            proof {
                assert(self.edges@[idx as int]@.take(k as int).push(self.edges@[idx as int]@[k
                    as int]) =~= self.edges@[idx as int]@.take(k + 1));
            }
            r.push(self.edges[idx][k]);
            k += 1;
        }
        proof {
            assert(self.edges@[idx as int]@.take(n as int) =~= self.edges@[idx as int]@);
        }
        r
    }
}

/// True when the vector holds the value.
pub fn vec_contains(v: &Vec<usize>, x: usize) -> (r: bool)
    ensures
        r == v@.contains(x),
{
    let n = v.len();
    let mut i: usize = 0;
    while i < n
        invariant
            n == v@.len(),
            i <= n,
            forall|j: int| 0 <= j < i ==> v@[j] != x,
        decreases n - i,
    {
        if v[i] == x {
            return true;
        }
        i += 1;
    }
    false
}

/// A node of a breadth-first tree rooted in the Tanner graph.
pub struct RootNode {
    /// The graph node this tree node stands for.
    pub root_idx: usize,
    /// The tree nodes reached from here.
    pub children: Vec<RootNode>,
}

/// Every tree node names a graph node below the bound.
pub open spec fn tree_wf(n: RootNode, bound: int) -> bool
    decreases n,
{
    n.root_idx < bound && forall|i: int|
        0 <= i < n.children@.len() ==> tree_wf(#[trigger] n.children@[i], bound)
}

/// A breadth-first subgraph of the Tanner graph: the tree explored from a
/// symbol node down to a given depth, and the deepest level the exploration
/// reached.
pub struct SubGraph<'a> {
    /// The graph the subgraph was taken from.
    pub tanner: &'a TannerGraph,
    /// The deepest level the exploration reached.
    pub level: usize,
    /// The explored tree.
    pub tree_root: RootNode,
}

impl<'a> SubGraph<'a> {
    fn bfs_tanner(
        tanner: &'a TannerGraph,
        root_idx: usize,
        level: usize,
        depth: usize,
        used: &mut Vec<usize>,
    ) -> (r: (usize, Vec<RootNode>))
        requires
            tanner.inv(),
            root_idx < tanner.nodes@.len(),
            level <= depth,
            depth < usize::MAX - 1,
        ensures
            level < r.0 <= depth + 1,
            forall|i: int| 0 <= i < r.1@.len() ==> tree_wf(
                #[trigger] r.1@[i],
                tanner.nodes@.len() as int,
            ),
        decreases depth - level,
    {
        let lvl = level + 1;

        let ns = tanner.neighbors(root_idx);
        let mut children_node: Vec<RootNode> = Vec::new();
        let mut k: usize = 0;
        while k < ns.len()
            invariant
                tanner.inv(),
                ns@ == tanner.edges@[root_idx as int]@,
                root_idx < tanner.nodes@.len(),
                k <= ns@.len(),
                forall|i: int|
                    0 <= i < children_node@.len() ==> #[trigger] children_node@[i].root_idx
                        < tanner.nodes@.len(),
                forall|i: int| 0 <= i < children_node@.len()
                    ==> #[trigger] children_node@[i].children@.len() == 0,
            decreases ns@.len() - k,
        {
            let c = ns[k];
            if !vec_contains(used, c) {
                used.push(c);
                children_node.push(RootNode { root_idx: c, children: Vec::new() });
            }
            k += 1;
        }

        let mut level_out = lvl;
        if lvl <= depth {
            let n = children_node.len();
            let mut j: usize = 0;
            let mut expanded: Vec<RootNode> = Vec::new();
            while j < n
                invariant
                    tanner.inv(),
                    n == children_node@.len(),
                    j <= n,
                    lvl == level + 1,
                    lvl <= depth,
                    depth < usize::MAX - 1,
                    lvl <= level_out <= depth + 1,
                    expanded@.len() == j,
                    forall|i: int|
                        0 <= i < children_node@.len() ==> #[trigger] children_node@[i].root_idx
                            < tanner.nodes@.len(),
                    forall|i: int| 0 <= i < expanded@.len() ==> tree_wf(
                        #[trigger] expanded@[i],
                        tanner.nodes@.len() as int,
                    ),
                decreases n - j,
            {
                let idx = children_node[j].root_idx;
                let (lv, kids) = Self::bfs_tanner(tanner, idx, lvl, depth, used);
                if lv > level_out {
                    level_out = lv;
                }
                expanded.push(RootNode { root_idx: idx, children: kids });
                j += 1;
            }
            return (level_out, expanded);
        }
        proof {
            assert forall|i: int| 0 <= i < children_node@.len() implies tree_wf(
                #[trigger] children_node@[i],
                tanner.nodes@.len() as int,
            ) by {
                assert(children_node@[i].children@.len() == 0);
            }
        }
        (level_out, children_node)
    }

    /// Explore the graph breadth-first from a node down to `depth` levels.
    pub fn new(tanner: &'a TannerGraph, idx: usize, depth: usize) -> (g: SubGraph<'a>)
        requires
            tanner.inv(),
            idx < tanner.nodes@.len(),
            depth < usize::MAX - 1,
        ensures
            g.tanner == tanner,
            tree_wf(g.tree_root, tanner.nodes@.len() as int),
    {
        let mut used: Vec<usize> = Vec::new();
        let (level, children) = Self::bfs_tanner(tanner, idx, 0, depth, &mut used);
        SubGraph { tanner, tree_root: RootNode { root_idx: idx, children }, level }
    }

    fn dig_root_node(&self, root: &RootNode, hash: &mut Vec<usize>)
        requires
            self.tanner.inv(),
            tree_wf(*root, self.tanner.nodes@.len() as int),
            forall|j: int|
                0 <= j < old(hash)@.len() ==> #[trigger] old(hash)@[j] < self.tanner.nodes@.len()
                    && self.tanner.nodes@[old(hash)@[j] as int] is CheckNode,
            forall|j1: int, j2: int|
                0 <= j1 < j2 < old(hash)@.len() ==> old(hash)@[j1] != old(hash)@[j2],
        ensures
            forall|j: int|
                0 <= j < final(hash)@.len() ==> #[trigger] final(hash)@[j]
                    < self.tanner.nodes@.len() && self.tanner.nodes@[final(hash)@[j] as int]
                    is CheckNode,
            forall|j1: int, j2: int|
                0 <= j1 < j2 < final(hash)@.len() ==> final(hash)@[j1] != final(hash)@[j2],
            forall|x: usize| old(hash)@.contains(x) ==> #[trigger] final(hash)@.contains(x),
        decreases *root,
    {
        let n = root.children.len();
        let mut i: usize = 0;
        while i < n
            invariant
                self.tanner.inv(),
                tree_wf(*root, self.tanner.nodes@.len() as int),
                n == root.children@.len(),
                i <= n,
                forall|j: int|
                    0 <= j < hash@.len() ==> #[trigger] hash@[j] < self.tanner.nodes@.len()
                        && self.tanner.nodes@[hash@[j] as int] is CheckNode,
                forall|j1: int, j2: int|
                    0 <= j1 < j2 < hash@.len() ==> hash@[j1] != hash@[j2],
                forall|x: usize| old(hash)@.contains(x) ==> #[trigger] hash@.contains(x),
            decreases n - i,
        {
            proof {
                assert(tree_wf(root.children@[i as int], self.tanner.nodes@.len() as int));
            }
            let ghost before = hash@;
            self.dig_root_node(&root.children[i], hash);
            proof {
                assert forall|x: usize| old(hash)@.contains(x) implies #[trigger] hash@.contains(
                    x,
                ) by {
                    assert(before.contains(x));
                }
            }
            i += 1;
        }

        if self.tanner.is_checknode(root.root_idx) {
            if !vec_contains(hash, root.root_idx) {
                let ghost before = hash@;
                hash.push(root.root_idx);
                proof {
                    assert forall|x: usize| old(hash)@.contains(x) implies #[trigger] hash@
                        .contains(x) by {
                        assert(before.contains(x));
                        let k = choose|k: int| 0 <= k < before.len() && before[k] == x;
                        assert(hash@[k] == x);
                    }
                    assert forall|j1: int, j2: int|
                        0 <= j1 < j2 < hash@.len() implies hash@[j1] != hash@[j2] by {
                        if j2 == hash@.len() - 1 {
                            assert(!before.contains(root.root_idx));
                            assert(before[j1] == hash@[j1]);
                        }
                    }
                }
            }
        }
    }

    /// The check nodes that the explored tree reaches, without duplicates.
    pub fn covered_checknodes(&self) -> (r: Vec<usize>)
        requires
            self.tanner.inv(),
            tree_wf(self.tree_root, self.tanner.nodes@.len() as int),
        ensures
            forall|j: int|
                0 <= j < r@.len() ==> #[trigger] r@[j] < self.tanner.nodes@.len()
                    && self.tanner.nodes@[r@[j] as int] is CheckNode,
            forall|j1: int, j2: int| 0 <= j1 < j2 < r@.len() ==> r@[j1] != r@[j2],
    {
        let mut hash: Vec<usize> = Vec::new();
        self.dig_root_node(&self.tree_root, &mut hash);
        hash
    }

    /// True when the explored tree reaches as many distinct check nodes as
    /// the graph has.
    pub fn all_checknodes_covered(&self) -> (r: bool)
        requires
            self.tanner.inv(),
            tree_wf(self.tree_root, self.tanner.nodes@.len() as int),
    {
        self.tanner.checknode_len == self.covered_checknodes().len()
    }

    /// The uncovered check node with the fewest edges, or None when the
    /// tree covers every check node.
    pub fn get_uc_checknode_with_lowest_degree(&self) -> (r: Option<usize>)
        requires
            self.tanner.inv(),
            tree_wf(self.tree_root, self.tanner.nodes@.len() as int),
        ensures
            r is Some ==> r.unwrap() < self.tanner.nodes@.len() && self.tanner.nodes@[r.unwrap()
                as int] is CheckNode,
    {
        let covered = self.covered_checknodes();
        let uncovered = self.tanner.get_uncovered_checknodes(&covered);
        if uncovered.len() == 0 {
            return None;
        }
        let mut best = uncovered[0];
        proof {
            assert(uncovered@.contains(uncovered@[0]));
        }
        let mut best_len = self.tanner.checknode_edge_len(best);
        let mut i: usize = 1;
        while i < uncovered.len()
            invariant
                self.tanner.inv(),
                forall|k: int|
                    0 <= k < uncovered@.len() ==> self.tanner.offset() <= #[trigger] uncovered@[k]
                        < self.tanner.nodes@.len(),
                uncovered@.contains(best),
                best < self.tanner.nodes@.len(),
                best_len == self.tanner.edges@[best as int]@.len(),
                1 <= i <= uncovered@.len(),
            decreases uncovered@.len() - i,
        {
            let c = uncovered[i];
            proof {
                assert(uncovered@.contains(uncovered@[i as int]));
            }
            let l = self.tanner.checknode_edge_len(c);
            if l < best_len {
                best = c;
                best_len = l;
            }
            i += 1;
        }
        proof {
            let k = choose|k: int| 0 <= k < uncovered@.len() && uncovered@[k] == best;
            assert(self.tanner.offset() <= best);
        }
        Some(best)
    }
}

impl TannerGraph {
    /// The breadth-first subgraph explored from a symbol node down to the
    /// given depth.
    pub fn get_subgraph(&self, symbol_idx: usize, level: usize) -> (g: SubGraph<'_>)
        requires
            self.inv(),
            symbol_idx < self.nodes@.len(),
            level < usize::MAX - 1,
        ensures
            g.tanner == self,
            tree_wf(g.tree_root, self.nodes@.len() as int),
    {
        SubGraph::new(self, symbol_idx, level)
    }
}

} // verus!
