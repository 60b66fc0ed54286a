//! Accessibility-tree snapshots as indented text.

use vstd::prelude::*;
use vstd::string::*;
use crate::text::{str_eq, utf8};

verus! {

/// One node of a page's accessibility tree, as the snapshot reads it: its
/// id, its parent's id, whether it is ignored, its role and name (when they
/// are strings), and its children's ids in order.
#[derive(Debug)]
pub struct AxNodeData {
    pub node_id: String,
    pub parent_id: Option<String>,
    pub ignored: bool,
    pub role: Option<String>,
    pub name: Option<String>,
    pub child_ids: Vec<String>,
}

/// The last node with id `id` (a later node with the same id shadows an
/// earlier one).
pub open spec fn index_of_id(nodes: Seq<AxNodeData>, id: Seq<char>) -> Option<int>
    decreases nodes.len(),
{
    if nodes.len() == 0 {
        None
    } else if nodes.last().node_id@ == id {
        Some(nodes.len() - 1)
    } else {
        index_of_id(nodes.drop_last(), id)
    }
}

/// A node's role, `unknown` when it has none.
pub open spec fn role_of(n: AxNodeData) -> Seq<char> {
    match n.role {
        Some(r) => r@,
        None => "unknown"@,
    }
}

/// Roles that carry no structure worth showing deep in the tree.
pub open spec fn is_filler_role(r: Seq<char>) -> bool {
    r == "generic"@ || r == "none"@ || r == "unknown"@
}

/// `k` copies of two spaces.
pub open spec fn indent(k: nat) -> Seq<char>
    decreases k,
{
    if k == 0 {
        Seq::empty()
    } else {
        indent((k - 1) as nat) + "  "@
    }
}

/// The line a shown node gets: indentation, `- `, the role, the name in
/// quotes when it is not empty, a newline.
pub open spec fn node_line(n: AxNodeData, depth: nat) -> Seq<char> {
    indent(depth) + "- "@ + role_of(n) + (match n.name {
        Some(s) => if s@.len() > 0 {
            " \""@ + s@ + "\""@
        } else {
            Seq::empty()
        },
        None => Seq::empty(),
    }) + "\n"@
}

/// A node is passed through (its children shown in its place): it is
/// ignored, or it has a filler role below the second level.
pub open spec fn passed_through(n: AxNodeData, depth: nat) -> bool {
    n.ignored || (depth > 2 && is_filler_role(role_of(n)))
}

/// The text of node `idx` at `depth`, with `fuel` levels of nesting left.
pub open spec fn format_of(nodes: Seq<AxNodeData>, idx: int, depth: nat, fuel: nat) -> Seq<char>
    decreases fuel, 0nat, 0nat,
{
    if fuel == 0 || !(0 <= idx < nodes.len()) {
        Seq::empty()
    } else {
        let n = nodes[idx];
        if passed_through(n, depth) {
            children_of(nodes, n.child_ids@, n.child_ids@.len(), depth, (fuel - 1) as nat)
        } else {
            node_line(n, depth) + children_of(
                nodes,
                n.child_ids@,
                n.child_ids@.len(),
                depth + 1,
                (fuel - 1) as nat,
            )
        }
    }
}

/// The text of the first `k` children (those whose id names a node), in
/// order, at `depth`.
pub open spec fn children_of(
    nodes: Seq<AxNodeData>,
    ids: Seq<String>,
    k: nat,
    depth: nat,
    fuel: nat,
) -> Seq<char>
    decreases fuel, 1nat, k,
{
    if k == 0 || k > ids.len() {
        Seq::empty()
    } else {
        children_of(nodes, ids, (k - 1) as nat, depth, fuel) + match index_of_id(
            nodes,
            ids[k - 1]@,
        ) {
            Some(ci) => format_of(nodes, ci, depth, fuel),
            None => Seq::empty(),
        }
    }
}

/// The root: the first node without a parent, else the first node.
pub open spec fn root_of(nodes: Seq<AxNodeData>) -> int {
    if exists|i: int| 0 <= i < nodes.len() && (#[trigger] nodes[i]).parent_id is None {
        choose|i: int|
            0 <= i < nodes.len() && (#[trigger] nodes[i]).parent_id is None && forall|j: int|
                0 <= j < i ==> (#[trigger] nodes[j]).parent_id is Some
    } else {
        0
    }
}

/// The snapshot text of a tree: the root formatted at depth 0. Nesting is
/// cut off after as many levels as there are nodes, which a tree (without
/// cycles in its child links) never reaches.
pub open spec fn tree_text(nodes: Seq<AxNodeData>) -> Seq<char> {
    format_of(nodes, root_of(nodes), 0, nodes.len())
}

fn find_id(nodes: &Vec<AxNodeData>, id: &str) -> (r: Option<usize>)
    ensures
        match r {
            Some(i) => index_of_id(nodes@, id@) == Some(i as int),
            None => index_of_id(nodes@, id@) is None,
        },
{
    let mut k = nodes.len();
    assert(nodes@.take(k as int) =~= nodes@);
    while k > 0
        invariant
            k <= nodes@.len(),
            index_of_id(nodes@, id@) == index_of_id(nodes@.take(k as int), id@),
        decreases k,
    {
        let ghost t = nodes@.take(k as int);
        assert(t.drop_last() =~= nodes@.take(k - 1));
        if str_eq(nodes[k - 1].node_id.as_str(), id) {
            return Some(k - 1);
        }
        k -= 1;
    }
    assert(nodes@.take(0) =~= Seq::<AxNodeData>::empty());
    None
}

fn push_indent(out: &mut String, depth: usize)
    ensures
        final(out)@ == old(out)@ + indent(depth as nat),
{
    let ghost start = out@;
    let mut i: usize = 0;
    while i < depth
        invariant
            i <= depth,
            out@ == start + indent(i as nat),
        decreases depth - i,
    {
        out.append("  ");
        i += 1;
    }
}

fn is_filler(role: &str) -> (r: bool)
    ensures
        r == is_filler_role(role@),
{
    str_eq(role, "generic") || str_eq(role, "none") || str_eq(role, "unknown")
}

fn format_node(nodes: &Vec<AxNodeData>, idx: usize, depth: usize, fuel: usize, out: &mut String)
    requires
        depth + fuel <= usize::MAX,
    ensures
        final(out)@ == old(out)@ + format_of(nodes@, idx as int, depth as nat, fuel as nat),
    decreases fuel,
{
    if fuel == 0 || idx >= nodes.len() {
        return;
    }
    let n = &nodes[idx];
    let role: &str = match &n.role {
        Some(r) => r.as_str(),
        None => "unknown",
    };
    assert(role@ == role_of(*n));
    let through = n.ignored || (depth > 2 && is_filler(role));
    let child_depth = if through {
        depth
    } else {
        push_indent(out, depth);
        out.append("- ");
        out.append(role);
        if let Some(name) = &n.name {
            if name.as_str().as_bytes().len() > 0 {
                out.append(" \"");
                out.append(name.as_str());
                out.append("\"");
            } else {
                proof {
                    vstd::utf8::encode_utf8_decode_utf8(name@);
                    if name@.len() > 0 {
                        assert(utf8(name@).len() > 0);
                    }
                }
            }
        }
        out.append("\n");
        depth + 1
    };
    let ghost head = out@;
    let ghost ids = n.child_ids@;
    let mut k: usize = 0;
    while k < n.child_ids.len()
        invariant
            k <= ids.len(),
            ids == n.child_ids@,
            nodes@[idx as int] == *n,
            child_depth + fuel - 1 <= usize::MAX,
            fuel > 0,
            out@ == head + children_of(nodes@, ids, k as nat, child_depth as nat, (fuel - 1) as nat),
        decreases ids.len() - k,
    {
        if let Some(ci) = find_id(nodes, n.child_ids[k].as_str()) {
            format_node(nodes, ci, child_depth, fuel - 1, out);
        }
        k += 1;
    }
}

/// The first node without a parent.
fn first_root(nodes: &Vec<AxNodeData>) -> (r: Option<usize>)
    ensures
        match r {
            Some(i) => i < nodes@.len() && root_of(nodes@) == i,
            None => root_of(nodes@) == 0,
        },
{
    let mut i: usize = 0;
    while i < nodes.len()
        invariant
            i <= nodes@.len(),
            forall|j: int| 0 <= j < i ==> (#[trigger] nodes@[j]).parent_id is Some,
        decreases nodes@.len() - i,
    {
        if nodes[i].parent_id.is_none() {
            proof {
                let c = choose|c: int|
                    0 <= c < nodes@.len() && (#[trigger] nodes@[c]).parent_id is None && forall|
                        j: int,
                    | 0 <= j < c ==> (#[trigger] nodes@[j]).parent_id is Some;
                if c < i {
                    assert(nodes@[c].parent_id is Some);
                } else if c > i {
                    assert(nodes@[i as int].parent_id is Some);
                }
            }
            return Some(i);
        }
        i += 1;
    }
    None
}

/// The snapshot text of an accessibility tree: each shown node on its own
/// line, indented two spaces per level, as `- role "name"`; ignored nodes,
/// and nodes with a filler role (`generic`, `none`, `unknown`) below the
/// second level, are replaced by their children.
pub fn format_ax_tree(nodes: &Vec<AxNodeData>) -> (r: String)
    requires
        nodes@.len() > 0,
    ensures
        r@ == tree_text(nodes@),
{
    let root = match first_root(nodes) {
        Some(r) => r,
        None => 0,
    };
    let mut out = String::new();
    format_node(nodes, root, 0, nodes.len(), &mut out);
    out
}

} // verus!
