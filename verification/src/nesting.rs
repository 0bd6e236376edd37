//! Documents whose tags are properly nested and properly closed: written out
//! as text and parsed again, such a forest comes back as it was. Also what
//! becomes of the blanks that a line begins with, and of a comment.

use crate::machine::{
    blank_element,
    comment_name,
    completed_node,
    initial_state,
    is_self_closing,
    lookahead,
    next_location,
    parse_spec,
    run,
    step,
    text_node,
    well_formed,
    ParseState,
};
use crate::shape::lemma_insert_with_child;
use crate::text::{
    is_blank, lemma_find_from_is, lemma_tag_end, occurs_at, skip_past, starts_with,
};
use crate::tree::{insert_at, lemma_insert_at};
use crate::xml::{is_raw_text_name, NodeView};
use vstd::prelude::*;

verus! {

/// Whether `name` can be written as the name of an ordinary element: it holds
/// no space, `>` or `/`; it does not begin like a comment or like the name of
/// a raw-text element; and it is not self-closing.
pub open spec fn is_plain_name(name: Seq<char>) -> bool {
    &&& forall|k: int|
        0 <= k < name.len() ==> {
            &&& #[trigger] name[k] != ' '
            &&& name[k] != '>'
            &&& name[k] != '/'
        }
    &&& !starts_with(name, comment_name())
    &&& !starts_with(name, "script"@)
    &&& !starts_with(name, "style"@)
    &&& !is_self_closing(name)
}

/// Whether `text` can be written as a run of text between two tags: it is not
/// empty; it holds no `<` and no `>`; it does not begin with a line break; and
/// it does not begin like a comment with more behind.
pub open spec fn is_plain_text(text: Seq<char>) -> bool {
    &&& text.len() > 0
    &&& forall|k: int|
        0 <= k < text.len() ==> {
            &&& #[trigger] text[k] != '<'
            &&& text[k] != '>'
        }
    &&& text[0] != '\n'
    &&& !(text.len() > 3 && starts_with(text, comment_name()))
}

/// Whether `node` is made of ordinary elements without attributes and of runs
/// of text, no two runs of text side by side.
pub open spec fn is_plain(node: NodeView) -> bool
    decreases node,
{
    &&& node.attributes == Map::<Seq<char>, Seq<char>>::empty()
    &&& if node.text_node {
        &&& node.children.len() == 0
        &&& is_plain_text(node.tag_name)
    } else {
        &&& is_plain_name(node.tag_name)
        &&& forall|i: int| 0 <= i < node.children.len() ==> is_plain(#[trigger] node.children[i])
        &&& texts_apart(node.children)
    }
}

/// Whether no two runs of text stand side by side in `nodes`.
pub open spec fn texts_apart(nodes: Seq<NodeView>) -> bool {
    forall|i: int|
        0 <= i && i + 1 < nodes.len() ==> !((#[trigger] nodes[i]).text_node && nodes[i
            + 1].text_node)
}

/// Whether `nodes` can be the children of an element: each is plain, and no
/// two runs of text stand side by side.
pub open spec fn plain_nodes(nodes: Seq<NodeView>) -> bool {
    &&& forall|i: int| 0 <= i < nodes.len() ==> is_plain(#[trigger] nodes[i])
    &&& texts_apart(nodes)
}

/// Whether `forest` can be a whole document: its nodes are plain; it does not
/// end with a run of text, which only the next tag would complete; and it does
/// not begin with a blank, which the parser drops at the start of a line.
pub open spec fn is_plain_document(forest: Seq<NodeView>) -> bool {
    &&& plain_nodes(forest)
    &&& forest.len() > 0 ==> !forest.last().text_node
    &&& forest.len() > 0 && forest[0].text_node ==> !is_blank(forest[0].tag_name[0])
}

/// The tag that opens an element of the given name.
pub open spec fn opening_tag(name: Seq<char>) -> Seq<char> {
    seq!['<'] + name + seq!['>']
}

/// The tag that closes an element of the given name.
pub open spec fn closing_tag(name: Seq<char>) -> Seq<char> {
    seq!['<', '/'] + name + seq!['>']
}

/// `node` written out: text as it is; an element as its opening tag, its
/// children written out one after the other, and its closing tag.
pub open spec fn markup(node: NodeView) -> Seq<char>
    decreases node, 0nat,
{
    if node.text_node {
        node.tag_name
    } else {
        opening_tag(node.tag_name) + markup_first(node.children, node.children.len())
            + closing_tag(node.tag_name)
    }
}

/// The first `count` nodes of `nodes` written out, one after the other.
pub open spec fn markup_first(nodes: Seq<NodeView>, count: nat) -> Seq<char>
    decreases nodes, count,
{
    if count == 0 || count > nodes.len() {
        Seq::empty()
    } else {
        markup_first(nodes, (count - 1) as nat) + markup(nodes[count - 1])
    }
}

/// The document `forest` written out.
pub open spec fn document(forest: Seq<NodeView>) -> Seq<char> {
    markup_first(forest, forest.len())
}

/// Whether `part` stands in `input` at position `at`.
pub open spec fn stands_in(input: Seq<char>, at: int, part: Seq<char>) -> bool {
    &&& 0 <= at
    &&& at + part.len() <= input.len()
    &&& forall|k: int| 0 <= k < part.len() ==> input[at + k] == #[trigger] part[k]
}

/// Where two parts stand one behind the other, each stands in its place.
pub proof fn lemma_stands_in_parts(input: Seq<char>, at: int, first: Seq<char>, second: Seq<char>)
    requires
        stands_in(input, at, first + second),
    ensures
        stands_in(input, at, first),
        stands_in(input, at + first.len(), second),
{
    let whole = first + second;
    assert forall|k: int| 0 <= k < first.len() implies input[at + k] == #[trigger] first[k] by {
        assert(whole[k] == first[k]);
    }
    assert forall|k: int| 0 <= k < second.len() implies input[at + first.len() + k]
        == #[trigger] second[k] by {
        assert(whole[first.len() + k] == second[k]);
    }
}

/// Whether a tag starts at position `at` of `input`.
pub open spec fn tag_starts(input: Seq<char>, at: int) -> bool {
    0 <= at < input.len() && input[at] == '<'
}

/// The state outside any node in which `node` has been appended below the
/// open element.
pub open spec fn after_node(st: ParseState, node: NodeView) -> ParseState {
    ParseState {
        forest: insert_at(st.forest, st.parent_location, node),
        whitespace_only: false,
        ..st
    }
}

/// The state in which the first `count` nodes of `nodes` have been appended
/// below the open element.
pub open spec fn after_nodes(st: ParseState, nodes: Seq<NodeView>, count: nat) -> ParseState
    decreases count,
{
    if count == 0 {
        st
    } else {
        after_node(after_nodes(st, nodes, (count - 1) as nat), nodes[count - 1])
    }
}

/// Whether the machine is between two nodes.
pub open spec fn between_nodes(st: ParseState) -> bool {
    st.current_node is None && well_formed(st)
}

/// The machine goes on by one step.
pub proof fn lemma_run_unfold(st: ParseState, input: Seq<char>, i: int)
    requires
        0 <= i < input.len(),
    ensures
        run(st, input, i) == run(step(st, input, i).0, input, step(st, input, i).1),
{
}

/// The state in which a run of text is under construction and holds the first
/// `k` characters of `text`.
pub open spec fn reading_text(st: ParseState, text: Seq<char>, k: int) -> ParseState {
    ParseState {
        current_node: Some(text_node(text.take(k))),
        recording_tag_name: true,
        whitespace_only: false,
        ..st
    }
}

/// A prefix that equals a pattern has the pattern's length.
proof fn lemma_prefix_is(whole: Seq<char>, k: int, pattern: Seq<char>)
    requires
        0 <= k <= whole.len(),
        whole.take(k) == pattern,
    ensures
        starts_with(whole, pattern),
        k == pattern.len(),
{
    assert(whole.take(k).len() == k);
    assert(whole.subrange(0, pattern.len() as int) =~= whole.take(k));
}

/// From inside a run of plain text the machine reads on to the end of the
/// run, where the next tag completes it.
proof fn lemma_reads_text_rest(st: ParseState, input: Seq<char>, at: int, text: Seq<char>, k: int)
    requires
        between_nodes(st),
        is_plain_text(text),
        stands_in(input, at, text),
        tag_starts(input, at + text.len()),
        1 <= k < text.len(),
    ensures
        run(reading_text(st, text, k), input, at + k) == run(
            after_node(st, text_node(text)),
            input,
            at + text.len(),
        ),
    decreases text.len() - k,
{
    let cur = reading_text(st, text, k);
    let node = text_node(text.take(k));
    let c = input[at + k];
    assert(c == text[k]);
    lemma_run_unfold(cur, input, at + k);
    assert(node.tag_name != comment_name()) by {
        if text.take(k) == comment_name() {
            reveal_strlit("!--");
            lemma_prefix_is(text, k, comment_name());
        }
    }
    assert(text.take(k).push(text[k]) =~= text.take(k + 1));
    if k == text.len() - 1 {
        assert(lookahead(input, at + k) == '<');
        assert(text.take(k + 1) =~= text);
        assert(completed_node(cur, node, c) =~= text_node(text));
        assert(step(cur, input, at + k).0 =~= after_node(st, text_node(text)));
    } else {
        assert(lookahead(input, at + k) == text[k + 1]);
        assert(step(cur, input, at + k).0 =~= reading_text(st, text, k + 1));
        lemma_reads_text_rest(st, input, at, text, k + 1);
    }
}

/// The machine reads a run of plain text that is followed by a tag, and
/// appends it as one text node.
proof fn lemma_reads_text(st: ParseState, input: Seq<char>, at: int, text: Seq<char>)
    requires
        between_nodes(st),
        is_plain_text(text),
        stands_in(input, at, text),
        tag_starts(input, at + text.len()),
        !st.whitespace_only || !is_blank(text[0]),
    ensures
        run(st, input, at) == run(after_node(st, text_node(text)), input, at + text.len()),
{
    let c = input[at];
    assert(c == text[0]);
    lemma_run_unfold(st, input, at);
    if text.len() == 1 {
        assert(lookahead(input, at) == '<');
        assert(seq![c] =~= text);
        assert(step(st, input, at).0 =~= after_node(st, text_node(text)));
    } else {
        assert(lookahead(input, at) == text[1]);
        assert(seq![c] =~= text.take(1));
        assert(step(st, input, at).0 =~= reading_text(st, text, 1));
        lemma_reads_text_rest(st, input, at, text, 1);
    }
}

/// The state in which an element is under construction and its name holds
/// the first `k` characters of `name`.
pub open spec fn reading_name(st: ParseState, name: Seq<char>, k: int) -> ParseState {
    ParseState {
        current_node: Some(NodeView { tag_name: name.take(k), ..blank_element() }),
        recording_tag_name: true,
        whitespace_only: false,
        ..st
    }
}

/// No prefix of a plain name is the name of a comment or of a raw-text
/// element.
proof fn lemma_plain_name_prefix(name: Seq<char>, k: int)
    requires
        is_plain_name(name),
        0 <= k <= name.len(),
    ensures
        name.take(k) != comment_name(),
        !is_raw_text_name(name.take(k)),
{
    if name.take(k) == comment_name() {
        lemma_prefix_is(name, k, comment_name());
    }
    if name.take(k) == "script"@ {
        lemma_prefix_is(name, k, "script"@);
    }
    if name.take(k) == "style"@ {
        lemma_prefix_is(name, k, "style"@);
    }
}

/// From inside a plain name the machine reads on to the end of the name.
proof fn lemma_reads_name(st: ParseState, input: Seq<char>, at: int, name: Seq<char>, k: int)
    requires
        between_nodes(st),
        is_plain_name(name),
        stands_in(input, at, name),
        0 <= k <= name.len(),
    ensures
        run(reading_name(st, name, k), input, at + k) == run(
            reading_name(st, name, name.len() as int),
            input,
            at + name.len(),
        ),
    decreases name.len() - k,
{
    if k < name.len() {
        let cur = reading_name(st, name, k);
        let c = input[at + k];
        assert(c == name[k]);
        lemma_run_unfold(cur, input, at + k);
        lemma_plain_name_prefix(name, k);
        assert(name.take(k).push(name[k]) =~= name.take(k + 1));
        assert(step(cur, input, at + k).0 =~= reading_name(st, name, k + 1));
        lemma_reads_name(st, input, at, name, k + 1);
    }
}

/// The state inside an element that was just opened below the open element
/// of `st`.
pub open spec fn inside_element(st: ParseState, element: NodeView) -> ParseState {
    ParseState {
        forest: insert_at(st.forest, st.parent_location, element),
        parent_location: st.parent_location.push(next_location(st)),
        whitespace_only: false,
        ..st
    }
}

/// The machine reads the opening tag of a plain element, appends the element
/// and opens it.
proof fn lemma_reads_opening_tag(st: ParseState, input: Seq<char>, at: int, name: Seq<char>)
    requires
        between_nodes(st),
        is_plain_name(name),
        stands_in(input, at, opening_tag(name)),
    ensures
        run(st, input, at) == run(
            inside_element(st, NodeView { tag_name: name, ..blank_element() }),
            input,
            at + name.len() + 2,
        ),
        between_nodes(inside_element(st, NodeView { tag_name: name, ..blank_element() })),
{
    let tag = opening_tag(name);
    let element = NodeView { tag_name: name, ..blank_element() };
    assert(tag.len() == name.len() + 2);
    assert(input[at] == '<') by {
        assert(tag[0] == '<');
    }
    assert forall|k: int| 0 <= k < name.len() implies input[at + 1 + k] == #[trigger] name[k] by {
        assert(tag[1 + k] == name[k]);
    }
    assert(stands_in(input, at + 1, name));
    let end = at + 1 + name.len();
    assert(input[end] == '>') by {
        assert(tag[end - at] == '>');
    }
    // the `<`
    lemma_run_unfold(st, input, at);
    assert(lookahead(input, at) != '/') by {
        if name.len() > 0 {
            assert(input[at + 1] == name[0]);
        }
    }
    assert(name.take(0) =~= Seq::<char>::empty());
    assert(step(st, input, at).0 =~= reading_name(st, name, 0));
    // the name
    lemma_reads_name(st, input, at + 1, name, 0);
    // the `>`
    let named = reading_name(st, name, name.len() as int);
    assert(name.take(name.len() as int) =~= name);
    lemma_run_unfold(named, input, end);
    lemma_plain_name_prefix(name, name.len() as int);
    assert(completed_node(named, element, '>') =~= element);
    lemma_insert_at(st.forest, st.parent_location, element);
    assert(step(named, input, end).0 =~= inside_element(st, element));
}

/// The machine reads a closing tag, and closes the open element.
proof fn lemma_reads_closing_tag(st: ParseState, input: Seq<char>, at: int, name: Seq<char>)
    requires
        between_nodes(st),
        is_plain_name(name),
        stands_in(input, at, closing_tag(name)),
        st.parent_location.len() > 0,
    ensures
        run(st, input, at) == run(
            ParseState {
                parent_location: st.parent_location.drop_last(),
                whitespace_only: false,
                ..st
            },
            input,
            at + name.len() + 3,
        ),
{
    let tag = closing_tag(name);
    assert(tag.len() == name.len() + 3);
    assert(input[at] == '<') by {
        assert(tag[0] == '<');
    }
    assert(input[at + 1] == '/') by {
        assert(tag[1] == '/');
    }
    let end = at + 2 + name.len();
    assert(input[end] == '>') by {
        assert(tag[end - at] == '>');
    }
    assert forall|j: int| at + 1 <= j < end implies !occurs_at(input, ">"@, j) by {
        lemma_tag_end(input, j);
        if j > at + 1 {
            assert(tag[j - at] == name[j - at - 2]);
        }
    }
    lemma_tag_end(input, end);
    lemma_find_from_is(input, ">"@, at + 1, end);
    reveal_strlit(">");
    lemma_run_unfold(st, input, at);
}

/// Appending nodes changes the forest and marks the line as begun; it leaves
/// the rest of the state as it was.
proof fn lemma_after_nodes(st: ParseState, nodes: Seq<NodeView>, count: nat)
    requires
        between_nodes(st),
    ensures
        between_nodes(after_nodes(st, nodes, count)),
        after_nodes(st, nodes, count) == (ParseState {
            forest: after_nodes(st, nodes, count).forest,
            whitespace_only: if count == 0 {
                st.whitespace_only
            } else {
                false
            },
            ..st
        }),
    decreases count,
{
    if count > 0 {
        let before = after_nodes(st, nodes, (count - 1) as nat);
        lemma_after_nodes(st, nodes, (count - 1) as nat);
        lemma_insert_at(before.forest, before.parent_location, nodes[count - 1]);
    }
}

/// The nodes that are appended inside an element that was just opened become
/// its children.
proof fn lemma_children_inserted(
    st: ParseState,
    bare: NodeView,
    children: Seq<NodeView>,
    count: nat,
)
    requires
        between_nodes(st),
        bare.children.len() == 0,
        count <= children.len(),
    ensures
        after_nodes(inside_element(st, bare), children, count).forest == insert_at(
            st.forest,
            st.parent_location,
            NodeView { children: children.take(count as int), ..bare },
        ),
    decreases count,
{
    let inside = inside_element(st, bare);
    if count == 0 {
        assert(bare.children =~= children.take(0));
    } else {
        let fewer = (count - 1) as nat;
        let held = NodeView { children: children.take(fewer as int), ..bare };
        lemma_children_inserted(st, bare, children, fewer);
        lemma_insert_at(st.forest, st.parent_location, bare);
        lemma_after_nodes(inside, children, fewer);
        lemma_insert_with_child(st.forest, st.parent_location, held, children[count - 1]);
        assert(children.take(fewer as int).push(children[count - 1]) =~= children.take(
            count as int,
        ));
    }
}

/// What an element is written as begins with `<`.
proof fn lemma_markup_begins(node: NodeView)
    requires
        !node.text_node,
    ensures
        markup(node).len() > 0,
        markup(node)[0] == '<',
{
    assert(opening_tag(node.tag_name)[0] == '<');
}

/// The machine reads a plain node that is written out in the input, and
/// appends it below the open element. A run of text must be followed by a
/// tag, and may begin with a blank only where the line has begun.
pub proof fn lemma_reads_node(st: ParseState, input: Seq<char>, at: int, node: NodeView)
    requires
        between_nodes(st),
        is_plain(node),
        stands_in(input, at, markup(node)),
        node.text_node ==> tag_starts(input, at + markup(node).len()),
        node.text_node ==> !st.whitespace_only || !is_blank(node.tag_name[0]),
    ensures
        run(st, input, at) == run(after_node(st, node), input, at + markup(node).len()),
        between_nodes(after_node(st, node)),
    decreases node, 0nat,
{
    lemma_insert_at(st.forest, st.parent_location, node);
    if node.text_node {
        assert(node.children =~= Seq::<NodeView>::empty());
        assert(node =~= text_node(node.tag_name));
        lemma_reads_text(st, input, at, node.tag_name);
    } else {
        let name = node.tag_name;
        let children = node.children;
        let count = children.len();
        let bare = NodeView { tag_name: name, ..blank_element() };
        let open = opening_tag(name);
        let inner = markup_first(children, count);
        let close = closing_tag(name);
        assert(open.len() == name.len() + 2);
        assert(close.len() == name.len() + 3);
        lemma_stands_in_parts(input, at, open + inner, close);
        lemma_stands_in_parts(input, at, open, inner);
        // the opening tag
        lemma_reads_opening_tag(st, input, at, name);
        let inside = inside_element(st, bare);
        // the children
        let from = at + open.len();
        let behind = from + inner.len();
        assert(tag_starts(input, behind)) by {
            assert(close[0] == '<');
        }
        lemma_reads_nodes(inside, input, from, children, count);
        let filled = after_nodes(inside, children, count);
        lemma_after_nodes(inside, children, count);
        lemma_children_inserted(st, bare, children, count);
        assert(children.take(count as int) =~= children);
        // the closing tag
        lemma_reads_closing_tag(filled, input, behind, name);
        assert(inside.parent_location.drop_last() =~= st.parent_location);
        let closed = ParseState {
            parent_location: filled.parent_location.drop_last(),
            whitespace_only: false,
            ..filled
        };
        assert(node =~= NodeView { children: children, ..bare });
        assert(closed =~= after_node(st, node));
    }
}

/// The machine reads plain nodes that are written out one after the other in
/// the input, and appends them below the open element in their order.
pub proof fn lemma_reads_nodes(
    st: ParseState,
    input: Seq<char>,
    at: int,
    nodes: Seq<NodeView>,
    count: nat,
)
    requires
        between_nodes(st),
        plain_nodes(nodes),
        count <= nodes.len(),
        stands_in(input, at, markup_first(nodes, count)),
        count > 0 && nodes[count - 1].text_node ==> tag_starts(
            input,
            at + markup_first(nodes, count).len(),
        ),
        count > 0 && nodes[0].text_node ==> !st.whitespace_only || !is_blank(nodes[0].tag_name[0]),
    ensures
        run(st, input, at) == run(
            after_nodes(st, nodes, count),
            input,
            at + markup_first(nodes, count).len(),
        ),
    decreases nodes, count,
{
    if count > 0 {
        let fewer = (count - 1) as nat;
        let last = nodes[count - 1];
        let front = markup_first(nodes, fewer);
        lemma_stands_in_parts(input, at, front, markup(last));
        let from = at + front.len();
        if fewer > 0 && nodes[fewer - 1].text_node {
            assert(!last.text_node);
            lemma_markup_begins(last);
            assert(input[from] == markup(last)[0]);
        }
        lemma_reads_nodes(st, input, at, nodes, fewer);
        let before = after_nodes(st, nodes, fewer);
        lemma_after_nodes(st, nodes, fewer);
        lemma_reads_node(before, input, from, last);
    }
}

/// A document whose tags are properly nested and properly closed, written
/// out and parsed, gives the forest that was written: the same nodes with the
/// same names at every depth.
pub proof fn lemma_parse_mirrors_nesting(forest: Seq<NodeView>)
    requires
        is_plain_document(forest),
    ensures
        parse_spec(document(forest)) == forest,
{
    let input = document(forest);
    let start = initial_state();
    let count = forest.len();
    assert(stands_in(input, 0, markup_first(forest, count)));
    lemma_reads_nodes(start, input, 0, forest, count);
    lemma_after_nodes(start, forest, count);
    lemma_forest_appended(forest, count);
    assert(forest.take(count as int) =~= forest);
}

/// Nodes appended at the top level of an empty forest make up the forest.
proof fn lemma_forest_appended(nodes: Seq<NodeView>, count: nat)
    requires
        count <= nodes.len(),
    ensures
        after_nodes(initial_state(), nodes, count).forest == nodes.take(count as int),
    decreases count,
{
    if count == 0 {
        assert(nodes.take(0) =~= Seq::<NodeView>::empty());
    } else {
        lemma_forest_appended(nodes, (count - 1) as nat);
        lemma_after_nodes(initial_state(), nodes, (count - 1) as nat);
        assert(nodes.take(count - 1).push(nodes[count - 1]) =~= nodes.take(count as int));
    }
}

/// Between two nodes, at the start of a line, the machine passes over blanks
/// and changes nothing.
proof fn lemma_skips_blanks(st: ParseState, input: Seq<char>, at: int, blanks: nat)
    requires
        between_nodes(st),
        st.whitespace_only,
        0 <= at,
        at + blanks <= input.len(),
        forall|j: int| at <= j < at + blanks ==> is_blank(#[trigger] input[j]),
    ensures
        run(st, input, at) == run(st, input, at + blanks),
    decreases blanks,
{
    if blanks > 0 {
        assert(is_blank(input[at]));
        lemma_run_unfold(st, input, at);
        assert(step(st, input, at).0 =~= st);
        lemma_skips_blanks(st, input, at + 1, (blanks - 1) as nat);
    }
}

/// A run of text that begins on a new line, behind any number of blanks,
/// becomes a text node without those blanks. The blanks inside the run, and
/// every other character of it, stay as they are written.
pub proof fn lemma_indent_dropped(
    st: ParseState,
    input: Seq<char>,
    at: int,
    blanks: nat,
    text: Seq<char>,
)
    requires
        between_nodes(st),
        0 <= at < input.len(),
        input[at] == '\n',
        at + 1 + blanks <= input.len(),
        forall|j: int| at + 1 <= j < at + 1 + blanks ==> is_blank(#[trigger] input[j]),
        is_plain_text(text),
        !is_blank(text[0]),
        stands_in(input, at + 1 + blanks, text),
        tag_starts(input, at + 1 + blanks + text.len()),
    ensures
        run(st, input, at) == run(
            after_node(st, text_node(text)),
            input,
            at + 1 + blanks + text.len(),
        ),
{
    let fresh = ParseState { whitespace_only: true, ..st };
    lemma_run_unfold(st, input, at);
    assert(step(st, input, at).0 =~= fresh);
    lemma_skips_blanks(fresh, input, at + 1, blanks);
    lemma_reads_text(fresh, input, at + 1 + blanks, text);
    assert(after_node(fresh, text_node(text)) =~= after_node(st, text_node(text)));
}

/// The machine reads one character of the name that starts a comment.
proof fn lemma_reads_comment_name(st: ParseState, input: Seq<char>, at: int, k: int)
    requires
        between_nodes(st),
        stands_in(input, at, seq!['<', '!', '-', '-']),
        0 <= k < 3,
    ensures
        run(reading_name(st, seq!['!', '-', '-'], k), input, at + 1 + k) == run(
            reading_name(st, seq!['!', '-', '-'], k + 1),
            input,
            at + 2 + k,
        ),
{
    let opening = seq!['<', '!', '-', '-'];
    let name = seq!['!', '-', '-'];
    let cur = reading_name(st, name, k);
    reveal_strlit("!--");
    reveal_strlit("script");
    reveal_strlit("style");
    assert(name.take(k).len() == k);
    assert(input[at + 1 + k] == opening[1 + k]);
    lemma_run_unfold(cur, input, at + 1 + k);
    assert(name.take(k).push(name[k]) =~= name.take(k + 1));
    assert(step(cur, input, at + 1 + k).0 =~= reading_name(st, name, k + 1));
}

/// A comment between two nodes leaves no trace. The machine reads `<!--`,
/// gives up the character behind it, and goes on behind the next `-->`, with
/// the forest and the open element as they were.
pub proof fn lemma_comment_elided(st: ParseState, input: Seq<char>, at: int)
    requires
        between_nodes(st),
        stands_in(input, at, seq!['<', '!', '-', '-']),
        at + 4 < input.len(),
    ensures
        run(st, input, at) == run(
            ParseState { whitespace_only: false, ..st },
            input,
            skip_past(input, "-->"@, at + 5),
        ),
{
    let opening = seq!['<', '!', '-', '-'];
    let name = seq!['!', '-', '-'];
    assert(input[at] == opening[0] && input[at + 1] == opening[1] && input[at + 2] == opening[2]
        && input[at + 3] == opening[3]);
    reveal_strlit("!--");
    reveal_strlit("script");
    reveal_strlit("style");
    assert(name =~= comment_name());
    lemma_run_unfold(st, input, at);
    assert(name.take(0) =~= Seq::<char>::empty());
    assert(step(st, input, at).0 =~= reading_name(st, name, 0));
    lemma_reads_comment_name(st, input, at, 0);
    lemma_reads_comment_name(st, input, at, 1);
    lemma_reads_comment_name(st, input, at, 2);
    let named = reading_name(st, name, 3);
    assert(name.take(3) =~= name);
    lemma_run_unfold(named, input, at + 4);
    assert(step(named, input, at + 4).0 =~= ParseState { whitespace_only: false, ..st });
}

} // verus!
