//! Places in a forest: the path of child positions that leads from the top
//! level down to an element, and the insertion of a node below that element.

use crate::xml::{forest_view, lemma_node_view, Node, NodeView};
use vstd::prelude::*;

verus! {

/// A path as integers.
pub open spec fn path_view(path: Seq<usize>) -> Seq<int> {
    Seq::new(path.len(), |i: int| path[i] as int)
}

/// Whether `path` leads to a node of `forest`: each of its positions exists
/// among the children reached so far. The empty path leads to the top level.
pub open spec fn path_valid(forest: Seq<NodeView>, path: Seq<int>) -> bool
    decreases path.len(),
{
    path.len() > 0 ==> {
        &&& 0 <= path[0] < forest.len()
        &&& path_valid(forest[path[0]].children, path.drop_first())
    }
}

/// The list that `path` leads to: `forest` itself for the empty path, else the
/// children of the node at the end of the path.
pub open spec fn children_at(forest: Seq<NodeView>, path: Seq<int>) -> Seq<NodeView>
    decreases path.len(),
{
    if path.len() == 0 {
        forest
    } else if 0 <= path[0] < forest.len() {
        children_at(forest[path[0]].children, path.drop_first())
    } else {
        Seq::empty()
    }
}

/// `forest` with `node` appended to the list that `path` leads to. A path that
/// leads nowhere leaves the forest as it is.
pub open spec fn insert_at(forest: Seq<NodeView>, path: Seq<int>, node: NodeView) -> Seq<NodeView>
    decreases path.len(),
{
    if path.len() == 0 {
        forest.push(node)
    } else if 0 <= path[0] < forest.len() {
        let parent = forest[path[0]];
        forest.update(
            path[0],
            NodeView { children: insert_at(parent.children, path.drop_first(), node), ..parent },
        )
    } else {
        forest
    }
}

/// Inserting at a valid path appends to the list that the path leads to. The
/// path stays valid, and so does the path on to the node that was inserted.
pub proof fn lemma_insert_at(forest: Seq<NodeView>, path: Seq<int>, node: NodeView)
    requires
        path_valid(forest, path),
    ensures
        path_valid(insert_at(forest, path, node), path),
        children_at(insert_at(forest, path, node), path) == children_at(forest, path).push(node),
        path_valid(
            insert_at(forest, path, node),
            path.push(children_at(forest, path).len() as int),
        ),
    decreases path.len(),
{
    let position = children_at(forest, path).len() as int;
    let longer = path.push(position);
    if path.len() == 0 {
        assert(longer.drop_first() =~= Seq::<int>::empty());
        assert(path_valid(forest.push(node)[longer[0]].children, longer.drop_first()));
    } else {
        let rest = path.drop_first();
        lemma_insert_at(forest[path[0]].children, rest, node);
        assert(longer.drop_first() =~= rest.push(position));
    }
}

/// A valid path without its last position is valid.
pub proof fn lemma_path_shortened(forest: Seq<NodeView>, path: Seq<int>)
    requires
        path_valid(forest, path),
        path.len() > 0,
    ensures
        path_valid(forest, path.drop_last()),
    decreases path.len(),
{
    if path.len() > 1 {
        lemma_path_shortened(forest[path[0]].children, path.drop_first());
        assert(path.drop_last().drop_first() =~= path.drop_first().drop_last());
    }
}

/// Appends `node` to the list that `path` leads to from position `depth` of
/// the path on, starting at `nodes`.
fn add_below(nodes: &mut Vec<Box<Node>>, path: &Vec<usize>, depth: usize, node: Node) -> (loc:
    usize)
    requires
        depth <= path.len(),
        path_valid(forest_view(old(nodes)@), path_view(path@).skip(depth as int)),
    ensures
        forest_view(final(nodes)@) == insert_at(
            forest_view(old(nodes)@),
            path_view(path@).skip(depth as int),
            node@,
        ),
        loc == children_at(forest_view(old(nodes)@), path_view(path@).skip(depth as int)).len(),
    decreases path.len() - depth,
{
    let ghost before = forest_view(nodes@);
    let ghost rest = path_view(path@).skip(depth as int);
    if depth == path.len() {
        let loc = nodes.len();
        nodes.push(Box::new(node));
        assert(forest_view(nodes@) =~= before.push(node@));
        loc
    } else {
        let index = path[depth];
        assert(rest[0] == index);
        assert(rest.drop_first() =~= path_view(path@).skip(depth + 1));
        let ghost parent = before[index as int];
        let ghost held = *nodes@[index as int];
        proof {
            lemma_node_view(held);
        }
        let loc = add_below(&mut nodes[index].children, path, depth + 1, node);
        proof {
            lemma_node_view(*nodes@[index as int]);
        }
        assert(forest_view(nodes@) =~= before.update(
            index as int,
            NodeView { children: insert_at(parent.children, rest.drop_first(), node@), ..parent },
        ));
        loc
    }
}

/// Appends `node` to the children of the element that `parent_location` leads
/// to, or to the top level where the path is empty, and returns the position
/// that the node got among them.
pub fn add_to_parent(
    top_level_nodes: &mut Vec<Box<Node>>,
    parent_location: &Vec<usize>,
    node: Node,
) -> (loc: usize)
    requires
        path_valid(forest_view(old(top_level_nodes)@), path_view(parent_location@)),
    ensures
        forest_view(final(top_level_nodes)@) == insert_at(
            forest_view(old(top_level_nodes)@),
            path_view(parent_location@),
            node@,
        ),
        loc == children_at(forest_view(old(top_level_nodes)@), path_view(parent_location@)).len(),
{
    assert(path_view(parent_location@).skip(0) =~= path_view(parent_location@));
    add_below(top_level_nodes, parent_location, 0, node)
}

} // verus!
