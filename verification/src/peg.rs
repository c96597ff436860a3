//! Progressive edge-growth construction of a parity-check matrix: each
//! symbol node is joined, edge by edge, to the check node that the current
//! breadth-first subgraph reaches last, keeping the graph's girth large.
use crate::tanner::TannerGraph;
use vstd::prelude::*;

verus! {

/// Build a parity-check matrix by progressive edge growth: symbol `idx`
/// receives `symbolnode_degree[idx]` edges, the first to the check node of
/// lowest degree and each further one to an uncovered check node found by
/// growing a breadth-first subgraph until it stops expanding.
pub fn ldpc_peg(
    checknode_number: usize,
    symbolnode_number: usize,
    symbolnode_degree: Vec<usize>,
) -> (r: Vec<Vec<u32>>)
    requires
        1 <= checknode_number,
        1 <= symbolnode_number,
        checknode_number + symbolnode_number <= usize::MAX - 4,
        symbolnode_degree@.len() == symbolnode_number,
    ensures
        r@.len() == checknode_number,
        forall|i: int| 0 <= i < r@.len() ==> #[trigger] r@[i]@.len() == symbolnode_number,
{
    let mut paritycheck_matrix: Vec<Vec<u32>> = Vec::new();
    let mut rr: usize = 0;
    while rr < checknode_number
        invariant
            rr <= checknode_number,
            paritycheck_matrix@.len() == rr,
            forall|i: int| 0 <= i < rr ==> #[trigger] paritycheck_matrix@[i]@.len()
                == symbolnode_number,
        decreases checknode_number - rr,
    {
        let mut row: Vec<u32> = Vec::new();
        let mut cc: usize = 0;
        while cc < symbolnode_number
            invariant
                cc <= symbolnode_number,
                row@.len() == cc,
            decreases symbolnode_number - cc,
        {
            row.push(0);
            cc += 1;
        }
        paritycheck_matrix.push(row);
        rr += 1;
    }

    let mut tanner = TannerGraph::new(paritycheck_matrix);
    let limit = tanner.nodes.len() + 2;

    let mut idx: usize = 0;
    while idx < symbolnode_number
        invariant
            tanner.inv(),
            tanner.checknode_len == checknode_number,
            tanner.offset() == symbolnode_number,
            tanner.nodes@.len() == checknode_number + symbolnode_number,
            tanner.matrix@.len() == checknode_number,
            limit == tanner.nodes@.len() + 2,
            limit <= usize::MAX - 2,
            checknode_number >= 1,
            symbolnode_degree@.len() == symbolnode_number,
            idx <= symbolnode_number,
        decreases symbolnode_number - idx,
    {
        let symbol_idx = tanner.get_symbolnode(idx);
        proof {
            assert(tanner.nodes@[idx as int] matches crate::tanner::NodeType::SymbolNode(s) && s
                == idx);
        }
        let degree = symbolnode_degree[idx];

        let mut i: usize = 0;
        while i < degree
            invariant
                tanner.inv(),
                tanner.checknode_len == checknode_number,
                tanner.offset() == symbolnode_number,
                tanner.nodes@.len() == checknode_number + symbolnode_number,
                tanner.matrix@.len() == checknode_number,
                limit == tanner.nodes@.len() + 2,
                limit <= usize::MAX - 2,
                checknode_number >= 1,
                symbol_idx < symbolnode_number,
                i <= degree,
            decreases degree - i,
        {
            if i == 0 {
                let lowest = tanner.get_checknode_with_lowest_degree();
                tanner.create_edge(symbol_idx, lowest);
            } else {
                let mut found: Option<usize> = None;
                let mut done = false;
                let mut depth: usize = 0;
                while !done && depth < limit
                    invariant
                        tanner.inv(),
                        limit == tanner.nodes@.len() + 2,
                        limit <= usize::MAX - 2,
                        tanner.checknode_len >= 1,
                        symbol_idx < tanner.offset(),
                        depth < limit,
                        found matches Some(c) ==> tanner.offset() <= c < tanner.nodes@.len(),
                    decreases limit - depth, (if done {
                        0int
                    } else {
                        1int
                    }),
                {
                    let current = tanner.get_subgraph(symbol_idx, depth);
                    if current.all_checknodes_covered() {
                        let pd = if depth == 0 {
                            0
                        } else {
                            depth - 1
                        };
                        let previous = tanner.get_subgraph(symbol_idx, pd);
                        found = match previous.get_uc_checknode_with_lowest_degree() {
                            Some(c) => {
                                proof {
                                    assert(tanner.nodes@[c as int] is CheckNode);
                                }
                                Some(c)
                            },
                            None => None,
                        };
                        done = true;
                    } else if depth + 1 >= limit {
                        done = true;
                    } else {
                        let next = tanner.get_subgraph(symbol_idx, depth + 1);
                        if next.level == current.level {
                            found = match current.get_uc_checknode_with_lowest_degree() {
                                Some(c) => Some(c),
                                None => None,
                            };
                            done = true;
                        } else {
                            depth += 1;
                        }
                    }
                }
                let chosen = match found {
                    Some(c) => c,
                    None => tanner.get_checknode_with_lowest_degree(),
                };
                tanner.create_edge(symbol_idx, chosen);
            }
            i += 1;
        }
        idx += 1;
    }

    let TannerGraph { matrix, .. } = tanner;
    matrix
}

} // verus!
