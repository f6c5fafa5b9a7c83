use vstd::multiset::Multiset;
use vstd::prelude::*;

use crate::index::Index;
use crate::node::FileNode;

verus! {

broadcast use vstd::seq_lib::group_seq_properties, vstd::seq_lib::group_to_multiset_ensures;

/// Nodes ordered from most to least recently modified.
pub open spec fn newest_first(s: Seq<FileNode>) -> bool {
    forall|i: int, j: int|
        0 <= i < j < s.len() ==> #[trigger] s[i].last_modified >= #[trigger] s[j].last_modified
}

/// How many nodes a query with the given limit returns out of `n`.
pub open spec fn selected_len(n: nat, limit: nat) -> nat {
    if limit <= n {
        limit
    } else {
        n
    }
}

/// `r` is the first `limit` nodes of some arrangement of `nodes` from most to
/// least recently modified.
pub open spec fn is_recent_selection(nodes: Seq<FileNode>, limit: nat, r: Seq<FileNode>) -> bool {
    exists|s: Seq<FileNode>|
        #![trigger s.to_multiset()]
        s.to_multiset() == nodes.to_multiset() && newest_first(s) && r == s.take(
            selected_len(s.len(), limit) as int,
        )
}

/// Arranges nodes from most to least recently modified.
pub fn sort_newest_first(nodes: Vec<FileNode>) -> (r: Vec<FileNode>)
    ensures
        r@.to_multiset() == nodes@.to_multiset(),
        newest_first(r@),
{
    let mut rest = nodes;
    let mut out: Vec<FileNode> = Vec::new();
    while rest.len() > 0
        invariant
            newest_first(out@),
            out@.to_multiset().add(rest@.to_multiset()) == nodes@.to_multiset(),
        decreases rest.len(),
    {
        let ghost before = rest@;
        let x = rest.pop().unwrap();
        proof {
            assert(before == rest@.push(x));
        }
        let mut p: usize = 0;
        while p < out.len() && out[p].last_modified > x.last_modified
            invariant
                p <= out.len(),
                forall|i: int| 0 <= i < p ==> #[trigger] out@[i].last_modified > x.last_modified,
            decreases out.len() - p,
        {
            p += 1;
        }
        let ghost prev = out@;
        out.insert(p, x);
        proof {
            assert forall|i: int, j: int| 0 <= i < j < out@.len() implies #[trigger] out@[i].last_modified
                >= #[trigger] out@[j].last_modified by {
                if i < p && j == p {
                } else if i == p && j > p {
                    assert(out@[j] == prev[j - 1]);
                    if p < prev.len() {
                        assert(prev[p as int].last_modified <= x.last_modified);
                        if j - 1 > p {
                            assert(prev[p as int].last_modified >= prev[j - 1].last_modified);
                        }
                    }
                } else if i < p && j > p {
                    assert(out@[j] == prev[j - 1]);
                    assert(prev[i].last_modified >= prev[j - 1].last_modified);
                } else if j < p {
                    assert(prev[i].last_modified >= prev[j].last_modified);
                } else {
                    assert(out@[i] == prev[i - 1]);
                    assert(out@[j] == prev[j - 1]);
                    assert(prev[i - 1].last_modified >= prev[j - 1].last_modified);
                }
            }
            assert(out@.to_multiset().add(rest@.to_multiset()) =~= nodes@.to_multiset());
        }
    }
    proof {
        assert(rest@.to_multiset() =~= Multiset::empty());
        assert(out@.to_multiset() =~= nodes@.to_multiset());
    }
    out
}

/// The `limit` most recently modified nodes, newest first.
pub fn most_recent(nodes: Vec<FileNode>, limit: usize) -> (r: Vec<FileNode>)
    ensures
        r@.len() == selected_len(nodes@.len(), limit as nat),
        newest_first(r@),
        is_recent_selection(nodes@, limit as nat, r@),
{
    let mut sorted = sort_newest_first(nodes);
    let ghost s = sorted@;
    sorted.truncate(limit);
    proof {
        assert(s.to_multiset().len() == nodes@.to_multiset().len());
        assert(s.len() == nodes@.len());
        assert(sorted@ =~= s.take(selected_len(s.len(), limit as nat) as int));
        assert(s.to_multiset() == nodes@.to_multiset());
    }
    sorted
}

/// `vals` lists each node of `index` once.
pub open spec fn lists_nodes(index: Map<Seq<char>, FileNode>, vals: Seq<FileNode>) -> bool {
    &&& vals.len() == index.dom().len()
    &&& forall|k: Seq<char>| #[trigger] index.contains_key(k) ==> vals.contains(index[k])
    &&& forall|i: int|
        0 <= i < vals.len() ==> index.contains_key(#[trigger] vals[i].id@) && index[vals[i].id@]
            == vals[i]
}

/// The `limit` most recently modified nodes of an index, newest first.
pub fn recent_files(index: Index, limit: usize) -> (r: Vec<FileNode>)
    requires
        index.wf(),
    ensures
        r@.len() == selected_len(index@.dom().len(), limit as nat),
        newest_first(r@),
        exists|vals: Seq<FileNode>|
            #![trigger lists_nodes(index@, vals)]
            lists_nodes(index@, vals) && is_recent_selection(vals, limit as nat, r@),
{
    let ghost m = index@;
    let nodes = index.into_nodes();
    let ghost vals = nodes@;
    let r = most_recent(nodes, limit);
    proof {
        assert(lists_nodes(m, vals));
    }
    r
}

/// With a limit of zero nothing is selected.
pub proof fn lemma_zero_limit_selects_nothing(nodes: Seq<FileNode>, r: Seq<FileNode>)
    requires
        is_recent_selection(nodes, 0, r),
    ensures
        r.len() == 0,
{
    let s = choose|s: Seq<FileNode>|
        #![trigger s.to_multiset()]
        s.to_multiset() == nodes.to_multiset() && newest_first(s) && r == s.take(
            selected_len(s.len(), 0) as int,
        );
}

/// A selection holds the newest nodes: it is ordered newest first, it is
/// drawn from the input, and every input node left out is no newer than any
/// node selected.
pub proof fn lemma_selection_keeps_newest(nodes: Seq<FileNode>, limit: nat, r: Seq<FileNode>)
    requires
        is_recent_selection(nodes, limit, r),
    ensures
        r.len() == selected_len(nodes.len(), limit),
        newest_first(r),
        r.to_multiset().subset_of(nodes.to_multiset()),
        forall|x: FileNode, y: FileNode|
            #[trigger] nodes.to_multiset().sub(r.to_multiset()).contains(x) && #[trigger] r.contains(y)
                ==> x.last_modified <= y.last_modified,
{
    let s = choose|s: Seq<FileNode>|
        #![trigger s.to_multiset()]
        s.to_multiset() == nodes.to_multiset() && newest_first(s) && r == s.take(
            selected_len(s.len(), limit) as int,
        );
    let n = selected_len(s.len(), limit) as int;
    let rest = s.skip(n);
    assert(s.to_multiset().len() == nodes.to_multiset().len());
    assert(s == r + rest);
    vstd::seq_lib::lemma_multiset_commutative(r, rest);
    assert(nodes.to_multiset() == r.to_multiset().add(rest.to_multiset()));
    assert(nodes.to_multiset().sub(r.to_multiset()) =~= rest.to_multiset());
    assert forall|x: FileNode, y: FileNode|
        #[trigger] nodes.to_multiset().sub(r.to_multiset()).contains(x) && #[trigger] r.contains(y)
            implies x.last_modified <= y.last_modified by {
        assert(rest.to_multiset().contains(x));
        assert(rest.contains(x));
        let a = choose|a: int| 0 <= a < rest.len() && rest[a] == x;
        let b = choose|b: int| 0 <= b < r.len() && r[b] == y;
        assert(s[b] == y);
        assert(s[n + a] == x);
    }
}

} // verus!
