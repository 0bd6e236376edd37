//! The shape of every forest that the parser gives: which nodes are leaves,
//! and what a raw-text element holds.

use crate::machine::{
    closing_sequence,
    comment_name,
    completed_node,
    initial_state,
    is_self_closing,
    lemma_step_advances,
    lemma_step_well_formed,
    lookahead,
    parse_spec,
    run,
    step,
    text_node,
    well_formed,
    ParseState,
};
use crate::text::{find_from, lemma_find_from};
use crate::tree::{children_at, insert_at, path_valid};
use crate::xml::{is_raw_text_name, NodeView};
use vstd::prelude::*;

verus! {

/// Whether `node` and every node below it has the shape that the parser
/// gives: text has no children; an element of a self-closing name has no
/// children; a raw-text element has no child but, at most, one text node.
pub open spec fn node_shaped(node: NodeView) -> bool
    decreases node,
{
    &&& node.text_node ==> node.children.len() == 0
    &&& !node.text_node && is_self_closing(node.tag_name) ==> node.children.len() == 0
    &&& !node.text_node && is_raw_text_name(node.tag_name) ==> {
        &&& node.children.len() <= 1
        &&& node.children.len() == 1 ==> node.children[0].text_node
    }
    &&& forall|i: int| 0 <= i < node.children.len() ==> node_shaped(#[trigger] node.children[i])
}

/// Whether every node of `forest` has the shape that the parser gives.
pub open spec fn forest_shaped(forest: Seq<NodeView>) -> bool {
    forall|i: int| 0 <= i < forest.len() ==> node_shaped(#[trigger] forest[i])
}

/// Whether `node` may take children: an element whose name is neither
/// self-closing nor that of a raw-text element.
pub open spec fn may_hold_children(node: NodeView) -> bool {
    &&& !node.text_node
    &&& !is_self_closing(node.tag_name)
    &&& !is_raw_text_name(node.tag_name)
}

/// No name is both self-closing and that of a raw-text element.
pub proof fn lemma_raw_text_name_holds(name: Seq<char>)
    requires
        is_raw_text_name(name),
    ensures
        !is_self_closing(name),
{
    reveal_strlit("script");
    reveal_strlit("style");
    reveal_strlit("link");
    reveal_strlit("meta");
    reveal_strlit("input");
    reveal_strlit("img");
    reveal_strlit("br");
    reveal_strlit("hr");
    reveal_strlit("source");
    reveal_strlit("track");
    reveal_strlit("!DOCTYPE");
    assert("script"@.len() == 6 && "style"@.len() == 5);
    assert("link"@.len() == 4 && "meta"@.len() == 4 && "img"@.len() == 3);
    assert("br"@.len() == 2 && "hr"@.len() == 2 && "!DOCTYPE"@.len() == 8);
    assert("input"@[0] == 'i' && "track"@[0] == 't' && "style"@[0] == 's');
    assert("source"@[1] == 'o' && "script"@[1] == 'c');
}

/// Whether `path` leads through `forest` over nodes that may take children.
pub open spec fn path_open(forest: Seq<NodeView>, path: Seq<int>) -> bool
    decreases path.len(),
{
    path.len() > 0 ==> {
        &&& 0 <= path[0] < forest.len()
        &&& may_hold_children(forest[path[0]])
        &&& path_open(forest[path[0]].children, path.drop_first())
    }
}

/// An open path is a valid path.
pub proof fn lemma_path_open_valid(forest: Seq<NodeView>, path: Seq<int>)
    requires
        path_open(forest, path),
    ensures
        path_valid(forest, path),
    decreases path.len(),
{
    if path.len() > 0 {
        lemma_path_open_valid(forest[path[0]].children, path.drop_first());
    }
}

/// An open path without its last position is open.
pub proof fn lemma_path_open_shortened(forest: Seq<NodeView>, path: Seq<int>)
    requires
        path_open(forest, path),
        path.len() > 0,
    ensures
        path_open(forest, path.drop_last()),
    decreases path.len(),
{
    if path.len() > 1 {
        lemma_path_open_shortened(forest[path[0]].children, path.drop_first());
        assert(path.drop_last().drop_first() =~= path.drop_first().drop_last());
    }
}

/// Inserting a node of the right shape at the end of an open path keeps the
/// shape of the forest and leaves the path open. Where the node may take
/// children, the path on to it is open too.
pub proof fn lemma_insert_shaped(forest: Seq<NodeView>, path: Seq<int>, node: NodeView)
    requires
        forest_shaped(forest),
        path_open(forest, path),
        node_shaped(node),
    ensures
        forest_shaped(insert_at(forest, path, node)),
        path_open(insert_at(forest, path, node), path),
        may_hold_children(node) ==> path_open(
            insert_at(forest, path, node),
            path.push(children_at(forest, path).len() as int),
        ),
    decreases path.len(),
{
    let position = children_at(forest, path).len() as int;
    let longer = path.push(position);
    let after = insert_at(forest, path, node);
    if path.len() == 0 {
        assert(longer.drop_first() =~= Seq::<int>::empty());
        assert(path_open(after[longer[0]].children, longer.drop_first()));
        assert forall|i: int| 0 <= i < after.len() implies node_shaped(#[trigger] after[i]) by {
            if i < forest.len() {
                assert(node_shaped(forest[i]));
            }
        }
    } else {
        let parent = forest[path[0]];
        let rest = path.drop_first();
        assert(node_shaped(parent));
        assert(forest_shaped(parent.children));
        lemma_insert_shaped(parent.children, rest, node);
        assert(longer.drop_first() =~= rest.push(position));
        assert forall|i: int| 0 <= i < after.len() implies node_shaped(#[trigger] after[i]) by {
            if i != path[0] {
                assert(node_shaped(forest[i]));
            }
        }
    }
}

/// Inserting an element and then a node as its first child gives what
/// inserting the element with that child gives.
pub proof fn lemma_insert_with_child(
    forest: Seq<NodeView>,
    path: Seq<int>,
    parent: NodeView,
    child: NodeView,
)
    requires
        path_valid(forest, path),
    ensures
        insert_at(
            insert_at(forest, path, parent),
            path.push(children_at(forest, path).len() as int),
            child,
        ) == insert_at(
            forest,
            path,
            NodeView { children: parent.children.push(child), ..parent },
        ),
    decreases path.len(),
{
    let position = children_at(forest, path).len() as int;
    let longer = path.push(position);
    let whole = NodeView { children: parent.children.push(child), ..parent };
    if path.len() == 0 {
        assert(longer.drop_first() =~= Seq::<int>::empty());
        assert(insert_at(parent.children, longer.drop_first(), child) == parent.children.push(
            child,
        ));
        assert(insert_at(forest.push(parent), longer, child) =~= forest.push(whole));
    } else {
        let rest = path.drop_first();
        let held = forest[path[0]];
        lemma_insert_with_child(held.children, rest, parent, child);
        assert(longer.drop_first() =~= rest.push(position));
        assert(insert_at(insert_at(forest, path, parent), longer, child) =~= insert_at(
            forest,
            path,
            whole,
        ));
    }
}

/// What holds of every state that the machine reaches, beyond
/// `well_formed`: the forest has the parser's shape, and the path to the open
/// element leads over nodes that may take children.
pub open spec fn shape_kept(st: ParseState) -> bool {
    &&& well_formed(st)
    &&& forest_shaped(st.forest)
    &&& path_open(st.forest, st.parent_location)
}

/// A step keeps the shape.
pub proof fn lemma_step_shaped(st: ParseState, input: Seq<char>, i: int)
    requires
        shape_kept(st),
        0 <= i < input.len(),
    ensures
        shape_kept(step(st, input, i).0),
{
    lemma_step_well_formed(st, input, i);
    lemma_path_open_valid(st.forest, st.parent_location);
    match st.current_node {
        Some(node) => {
            let c = input[i];
            let ahead = lookahead(input, i);
            if node.tag_name == comment_name() {
            } else if is_raw_text_name(node.tag_name) && !node.text_node {
                lemma_find_from(input, closing_sequence(node.tag_name), i + 1);
                match find_from(input, closing_sequence(node.tag_name), i + 1) {
                    Some(k) => {
                        let text = text_node(input.subrange(i + 1, k));
                        let whole = NodeView { children: node.children.push(text), ..node };
                        lemma_insert_with_child(st.forest, st.parent_location, node, text);
                        assert(node_shaped(whole)) by {
                            lemma_raw_text_name_holds(node.tag_name);
                            assert(node.children.len() == 0);
                            assert(whole.children.len() == 1);
                            assert(whole.children[0] == text);
                            assert(node_shaped(text));
                            assert forall|j: int| 0 <= j < whole.children.len() implies node_shaped(
                                #[trigger] whole.children[j],
                            ) by {}
                        }
                        lemma_insert_shaped(st.forest, st.parent_location, whole);
                    },
                    None => {
                        lemma_raw_text_name_holds(node.tag_name);
                        lemma_insert_shaped(st.forest, st.parent_location, node);
                    },
                }
            } else if c == ' ' && st.recording_tag_name && !node.text_node {
            } else if c == '>' || (c == '/' && ahead == '>') || (node.text_node && ahead == '<') {
                let done = completed_node(st, node, c);
                assert(done.children.len() == 0);
                assert(!done.text_node ==> done.tag_name == node.tag_name);
                lemma_insert_shaped(st.forest, st.parent_location, done);
            } else {
            }
        },
        None => {
            if st.parent_location.len() > 0 {
                lemma_path_open_shortened(st.forest, st.parent_location);
            }
            lemma_insert_shaped(st.forest, st.parent_location, text_node(seq![input[i]]));
        },
    }
}

/// The machine keeps the shape to its end.
pub proof fn lemma_run_shaped(st: ParseState, input: Seq<char>, i: int)
    requires
        shape_kept(st),
    ensures
        shape_kept(run(st, input, i)),
    decreases input.len() - i,
{
    if 0 <= i < input.len() {
        lemma_step_advances(st, input, i);
        lemma_step_shaped(st, input, i);
        lemma_run_shaped(step(st, input, i).0, input, step(st, input, i).1);
    }
}

/// Whatever the text, the forest that it is parsed to has the parser's shape
/// at every depth: text nodes are leaves; so are the elements of a
/// self-closing name, whatever follows them in the text; and a raw-text
/// element holds nothing but, at most, one text node.
pub proof fn lemma_parse_shaped(input: Seq<char>)
    ensures
        forest_shaped(parse_spec(input)),
{
    lemma_run_shaped(initial_state(), input, 0);
}

} // verus!
