//! What holds of every listing and every projection, over their models.
use vstd::prelude::*;
use crate::classify::{spec_extension, spec_is_hidden, spec_is_projectable};
use crate::node::NodeModel;
use crate::order::{lemma_sort_nodes, sort_nodes, sorted};
use crate::tree::{
    DirEntry, DirListing, entry_node, kept, listed_nodes, lemma_listed_nodes_visible,
    project_children, project_node,
};

verus! {

/// A node that a projection may hold below its root: not hidden, and a
/// directory or a text-like file.
pub open spec fn kept_node(m: NodeModel) -> bool {
    !spec_is_hidden(m.name) && spec_is_projectable(m.is_dir, spec_extension(m.name))
}

/// Directories have a list of children and files none, all through the tree.
pub open spec fn shaped(m: NodeModel) -> bool
    decreases m,
{
    (m.is_dir <==> m.children is Some) && match m.children {
        Some(cs) => forall|i: int| 0 <= i < cs.len() ==> shaped(#[trigger] cs[i]),
        None => true,
    }
}

/// Every node below the root is kept.
pub open spec fn only_kept(m: NodeModel) -> bool
    decreases m,
{
    match m.children {
        Some(cs) => forall|i: int| 0 <= i < cs.len() ==> kept_node(#[trigger] cs[i]) && only_kept(cs[i]),
        None => true,
    }
}

/// Each list of children is sorted, all through the tree.
pub open spec fn sorted_tree(m: NodeModel) -> bool
    decreases m,
{
    match m.children {
        Some(cs) => sorted(cs) && forall|i: int| 0 <= i < cs.len() ==> sorted_tree(#[trigger] cs[i]),
        None => true,
    }
}

/// Taking `m` to stand at `depth`, every directory at depth `max` or deeper
/// has an empty list of children.
pub open spec fn truncated(m: NodeModel, depth: nat, max: nat) -> bool
    decreases m,
{
    (depth >= max && m.is_dir ==> m.children == Some(Seq::<NodeModel>::empty())) && match m.children {
        Some(cs) => forall|i: int| 0 <= i < cs.len() ==> truncated(#[trigger] cs[i], depth + 1, max),
        None => true,
    }
}

/// All that a projected subtree found at `depth` satisfies.
pub open spec fn well_projected(m: NodeModel, depth: nat, max: nat) -> bool {
    shaped(m) && only_kept(m) && sorted_tree(m) && truncated(m, depth, max)
}

/// Each node of a sort is a node of its input.
proof fn lemma_sort_members(c: Seq<NodeModel>)
    ensures
        forall|i: int| 0 <= i < sort_nodes(c).len() ==> c.contains(#[trigger] sort_nodes(c)[i]),
{
    broadcast use vstd::seq_lib::group_seq_properties;

    lemma_sort_nodes(c);
    assert forall|i: int| 0 <= i < sort_nodes(c).len() implies c.contains(#[trigger] sort_nodes(c)[i]) by {
        let x = sort_nodes(c)[i];
        assert(sort_nodes(c).contains(x));
        assert(sort_nodes(c).to_multiset().count(x) > 0);
        assert(c.to_multiset().count(x) > 0);
    }
}

proof fn lemma_node_well_projected(s: Seq<DirListing>, e: DirEntry, depth: nat, max: nat)
    requires
        project_node(s, e, depth, max) is Some,
    ensures
        well_projected(project_node(s, e, depth, max)->0, depth, max),
    decreases max - depth, 1nat, 0nat,
{
    let m = project_node(s, e, depth, max)->0;
    if e.is_dir && depth < max {
        let v = crate::tree::lookup(s, e.path@)->0->Ok_0@;
        let pc = project_children(s, v, depth, max);
        let cs = sort_nodes(pc);
        lemma_children_well_projected(s, v, depth, max);
        lemma_sort_members(pc);
        lemma_sort_nodes(pc);
        assert(m.children == Some(cs));
        assert forall|i: int| 0 <= i < cs.len() implies kept_node(#[trigger] cs[i])
            && well_projected(cs[i], depth + 1, max) by {
            assert(pc.contains(cs[i]));
        }
    } else {
        assert(m.children is Some ==> m.children->0 =~= Seq::<NodeModel>::empty());
    }
}

proof fn lemma_children_well_projected(s: Seq<DirListing>, v: Seq<DirEntry>, depth: nat, max: nat)
    ensures
        forall|k: int| 0 <= k < project_children(s, v, depth, max).len() ==>
            kept_node(#[trigger] project_children(s, v, depth, max)[k])
            && well_projected(project_children(s, v, depth, max)[k], depth + 1, max),
    decreases max - depth, 0nat, v.len(),
{
    if v.len() > 0 && depth < max {
        let prev = project_children(s, v.drop_last(), depth, max);
        let pc = project_children(s, v, depth, max);
        lemma_children_well_projected(s, v.drop_last(), depth, max);
        if kept(v.last()) && project_node(s, v.last(), depth + 1, max) is Some {
            lemma_node_well_projected(s, v.last(), depth + 1, max);
            assert(pc == prev.push(project_node(s, v.last(), depth + 1, max)->0));
        } else {
            assert(pc == prev);
        }
        assert forall|k: int| 0 <= k < pc.len() implies kept_node(#[trigger] pc[k])
            && well_projected(pc[k], depth + 1, max) by {
            if k < prev.len() {
                assert(pc[k] == prev[k]);
            }
        }
    }
}

/// A listing holds no hidden entry, and lists directories before files and
/// entries of one kind by lower-cased name.
pub proof fn lemma_listing_visible_and_sorted(v: Seq<DirEntry>)
    ensures
        forall|k: int| 0 <= k < sort_nodes(listed_nodes(v)).len() ==>
            !spec_is_hidden(#[trigger] sort_nodes(listed_nodes(v))[k].name),
        sorted(sort_nodes(listed_nodes(v))),
{
    lemma_sort_nodes(listed_nodes(v));
    lemma_sort_members(listed_nodes(v));
    lemma_listed_nodes_visible(v);
    assert forall|k: int| 0 <= k < sort_nodes(listed_nodes(v)).len() implies
        !spec_is_hidden(#[trigger] sort_nodes(listed_nodes(v))[k].name) by {
        let x = sort_nodes(listed_nodes(v))[k];
        assert(listed_nodes(v).contains(x));
        let j = choose|j: int| 0 <= j < listed_nodes(v).len() && listed_nodes(v)[j] == x;
        assert(listed_nodes(v)[j] == x);
    }
}

/// A projection expands nothing at or below the depth bound: each directory
/// there has an empty list of children.
pub proof fn lemma_projection_truncated(s: Seq<DirListing>, root: DirEntry, max: nat)
    requires
        project_node(s, root, 0, max) is Some,
    ensures
        truncated(project_node(s, root, 0, max)->0, 0, max),
{
    lemma_node_well_projected(s, root, 0, max);
}

/// With depth bound 0 a projection is the root alone, not expanded.
pub proof fn lemma_projection_depth_zero(s: Seq<DirListing>, root: DirEntry)
    ensures
        project_node(s, root, 0, 0) == Some(
            entry_node(root, if root.is_dir { Some(Seq::<NodeModel>::empty()) } else { None }),
        ),
{
}

/// Below its root a projection holds no hidden entry and no file whose
/// extension is outside the text-like allow-list.
pub proof fn lemma_projection_only_kept(s: Seq<DirListing>, root: DirEntry, max: nat)
    requires
        project_node(s, root, 0, max) is Some,
    ensures
        only_kept(project_node(s, root, 0, max)->0),
{
    lemma_node_well_projected(s, root, 0, max);
}

/// Every list of children in a projection is sorted, and directories carry a
/// list of children while files carry none.
pub proof fn lemma_projection_sorted_and_shaped(s: Seq<DirListing>, root: DirEntry, max: nat)
    requires
        project_node(s, root, 0, max) is Some,
    ensures
        sorted_tree(project_node(s, root, 0, max)->0),
        shaped(project_node(s, root, 0, max)->0),
{
    lemma_node_well_projected(s, root, 0, max);
}

} // verus!
