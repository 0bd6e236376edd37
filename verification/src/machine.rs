//! The parser as a machine over characters: its state, the step that it takes
//! at one position of the input, and the forest that it ends with.
//!
//! The machine reads the input once, from left to right, looking one character
//! ahead. Markup that it cannot make sense of is taken in as it comes or
//! dropped; there is no input that it refuses.

use crate::text::{find_from, is_blank, lemma_find_from, skip_past};
use crate::tree::{children_at, insert_at, lemma_insert_at, lemma_path_shortened, path_valid};
use crate::xml::{is_raw_text_name, NodeView};
use vstd::prelude::*;

verus! {

/// What the parser holds between two steps.
#[verifier::ext_equal]
pub struct ParseState {
    /// The nodes completed so far.
    pub forest: Seq<NodeView>,
    /// The path from the top level down to the element that is open.
    pub parent_location: Seq<int>,
    /// The node under construction, if the parser is inside a tag or a run of text.
    pub current_node: Option<NodeView>,
    /// Whether the characters read go to the name of the node under construction.
    pub recording_tag_name: bool,
    /// Whether the characters read go to the value of `attribute_name`.
    pub recording_attribute_value: bool,
    /// Whether a quoted attribute value is open.
    pub in_string: bool,
    /// The attribute name read so far.
    pub attribute_name: Seq<char>,
    /// Whether nothing but blanks was read since the line began.
    pub whitespace_only: bool,
}

/// An element without name, attributes or children.
pub open spec fn blank_element() -> NodeView {
    NodeView {
        tag_name: Seq::empty(),
        attributes: Map::empty(),
        children: Seq::empty(),
        text_node: false,
    }
}

/// A text node that holds `content`.
pub open spec fn text_node(content: Seq<char>) -> NodeView {
    NodeView {
        tag_name: content,
        attributes: Map::empty(),
        children: Seq::empty(),
        text_node: true,
    }
}

/// Whether an element of this name never holds children, also where it is
/// written without a closing slash.
pub open spec fn is_self_closing(name: Seq<char>) -> bool {
    ||| name == "link"@
    ||| name == "meta"@
    ||| name == "input"@
    ||| name == "img"@
    ||| name == "br"@
    ||| name == "hr"@
    ||| name == "source"@
    ||| name == "track"@
    ||| name == "!DOCTYPE"@
}

/// The name that a comment starts with.
pub open spec fn comment_name() -> Seq<char> {
    "!--"@
}

/// The characters that end a raw-text element of the given name.
pub open spec fn closing_sequence(name: Seq<char>) -> Seq<char> {
    "</"@ + name + ">"@
}

/// The character behind position `i`; a space where the input ends there.
pub open spec fn lookahead(input: Seq<char>, i: int) -> char {
    if 0 <= i + 1 < input.len() {
        input[i + 1]
    } else {
        ' '
    }
}

/// The state before the first character.
pub open spec fn initial_state() -> ParseState {
    ParseState {
        forest: Seq::empty(),
        parent_location: Seq::empty(),
        current_node: None,
        recording_tag_name: false,
        recording_attribute_value: false,
        in_string: false,
        attribute_name: Seq::empty(),
        whitespace_only: true,
    }
}

/// The position that the next node gets among the children of the open element.
pub open spec fn next_location(st: ParseState) -> int {
    children_at(st.forest, st.parent_location).len() as int
}

/// A comment. The node under construction is given up, and so is everything up
/// to and including the next `-->` behind position `i`.
pub open spec fn skip_comment(st: ParseState, input: Seq<char>, i: int) -> (ParseState, int) {
    (
        ParseState { current_node: None, recording_tag_name: false, ..st },
        skip_past(input, "-->"@, i + 1),
    )
}

/// A raw-text element. The element is appended at once. Everything behind
/// position `i` up to the element's closing sequence becomes its one child, a
/// text node. Where the input ends before the closing sequence, the element
/// stays without a child and the text read is dropped.
pub open spec fn read_raw_text(st: ParseState, node: NodeView, input: Seq<char>, i: int) -> (
    ParseState,
    int,
) {
    let opened = insert_at(st.forest, st.parent_location, node);
    let inside = st.parent_location.push(next_location(st));
    let closing = closing_sequence(node.tag_name);
    match find_from(input, closing, i + 1) {
        Some(k) => (
            ParseState {
                forest: insert_at(opened, inside, text_node(input.subrange(i + 1, k))),
                current_node: None,
                recording_tag_name: false,
                ..st
            },
            k + closing.len(),
        ),
        None => (
            ParseState { forest: opened, current_node: None, recording_tag_name: false, ..st },
            input.len() as int,
        ),
    }
}

/// The node as it is appended when character `c` completes it: text takes the
/// character in, and an attribute name that was read without `=` and value is
/// entered with the empty value.
pub open spec fn completed_node(st: ParseState, node: NodeView, c: char) -> NodeView {
    let named = if node.text_node {
        NodeView { tag_name: node.tag_name.push(c), ..node }
    } else {
        node
    };
    if st.attribute_name.len() > 0 && !st.recording_attribute_value {
        NodeView { attributes: named.attributes.insert(st.attribute_name, Seq::empty()), ..named }
    } else {
        named
    }
}

/// The completion of the node under construction at position `i`. The node is
/// appended below the open element. An element completed by `>` becomes the
/// open element itself, unless its name is self-closing. A `/` before `>`
/// takes the `>` with it.
pub open spec fn complete_node(st: ParseState, node: NodeView, input: Seq<char>, i: int) -> (
    ParseState,
    int,
) {
    let c = input[i];
    let done = completed_node(st, node, c);
    let opens = c == '>' && !done.text_node && !is_self_closing(done.tag_name);
    (
        ParseState {
            forest: insert_at(st.forest, st.parent_location, done),
            parent_location: if opens {
                st.parent_location.push(next_location(st))
            } else {
                st.parent_location
            },
            current_node: None,
            recording_tag_name: false,
            recording_attribute_value: false,
            attribute_name: Seq::empty(),
            ..st
        },
        if c == '/' && lookahead(input, i) == '>' {
            i + 2
        } else {
            i + 1
        },
    )
}

/// The step at position `i` while a node is under construction. The cases are
/// tried in the order in which they stand.
pub open spec fn step_inside(st: ParseState, node: NodeView, input: Seq<char>, i: int) -> (
    ParseState,
    int,
) {
    let c = input[i];
    let ahead = lookahead(input, i);
    if node.tag_name == comment_name() {
        skip_comment(st, input, i)
    } else if is_raw_text_name(node.tag_name) && !node.text_node {
        read_raw_text(st, node, input, i)
    } else if c == ' ' && st.recording_tag_name && !node.text_node {
        // the name of an element ends at a space
        (ParseState { recording_tag_name: false, ..st }, i + 1)
    } else if c == '>' || (c == '/' && ahead == '>') || (node.text_node && ahead == '<') {
        complete_node(st, node, input, i)
    } else if st.recording_tag_name {
        (
            ParseState {
                current_node: Some(NodeView { tag_name: node.tag_name.push(c), ..node }),
                ..st
            },
            i + 1,
        )
    } else if c == ' ' && !st.in_string && st.recording_attribute_value {
        // a space outside quotes ends the value
        (
            ParseState { recording_attribute_value: false, attribute_name: Seq::empty(), ..st },
            i + 1,
        )
    } else if st.recording_attribute_value {
        // the name was entered with the empty value when its `=` was read
        let value = node.attributes[st.attribute_name];
        (
            ParseState {
                current_node: Some(
                    NodeView {
                        attributes: node.attributes.insert(st.attribute_name, value.push(c)),
                        ..node
                    },
                ),
                in_string: if c == '"' {
                    value.len() == 0
                } else {
                    st.in_string
                },
                ..st
            },
            i + 1,
        )
    } else if c == '=' {
        (
            ParseState {
                current_node: Some(
                    NodeView {
                        attributes: node.attributes.insert(st.attribute_name, Seq::empty()),
                        ..node
                    },
                ),
                recording_attribute_value: true,
                ..st
            },
            i + 1,
        )
    } else {
        (ParseState { attribute_name: st.attribute_name.push(c), ..st }, i + 1)
    }
}

/// The step at position `i` while no node is under construction.
pub open spec fn step_outside(st: ParseState, input: Seq<char>, i: int) -> (ParseState, int) {
    let c = input[i];
    let ahead = lookahead(input, i);
    if c == '<' {
        if ahead == '/' {
            // a closing tag closes the open element, whatever name it gives
            (
                ParseState {
                    parent_location: if st.parent_location.len() > 0 {
                        st.parent_location.drop_last()
                    } else {
                        st.parent_location
                    },
                    whitespace_only: false,
                    ..st
                },
                skip_past(input, ">"@, i + 1),
            )
        } else {
            (
                ParseState {
                    current_node: Some(blank_element()),
                    recording_tag_name: true,
                    whitespace_only: false,
                    ..st
                },
                i + 1,
            )
        }
    } else if c == '\n' {
        (ParseState { whitespace_only: true, ..st }, i + 1)
    } else if !is_blank(c) || !st.whitespace_only {
        if ahead == '<' {
            (
                ParseState {
                    forest: insert_at(st.forest, st.parent_location, text_node(seq![c])),
                    whitespace_only: false,
                    ..st
                },
                i + 1,
            )
        } else {
            (
                ParseState {
                    current_node: Some(text_node(seq![c])),
                    recording_tag_name: true,
                    whitespace_only: false,
                    ..st
                },
                i + 1,
            )
        }
    } else {
        // a blank at the start of a line
        (st, i + 1)
    }
}

/// The step at position `i` of `input`: the state behind it, and the position
/// at which the next step is taken.
pub open spec fn step(st: ParseState, input: Seq<char>, i: int) -> (ParseState, int) {
    match st.current_node {
        Some(node) => step_inside(st, node, input, i),
        None => step_outside(st, input, i),
    }
}

/// Every step moves on, and none passes the end of the input.
pub proof fn lemma_step_advances(st: ParseState, input: Seq<char>, i: int)
    requires
        0 <= i < input.len(),
    ensures
        i < step(st, input, i).1 <= input.len(),
{
    reveal_strlit("-->");
    reveal_strlit(">");
    reveal_strlit("</");
    lemma_find_from(input, "-->"@, i + 1);
    lemma_find_from(input, ">"@, i + 1);
    match st.current_node {
        Some(node) => {
            lemma_find_from(input, closing_sequence(node.tag_name), i + 1);
        },
        None => {},
    }
}

/// What holds of every state that the machine reaches. The path leads to a
/// node of the forest. Outside a node nothing is being recorded. A node under
/// construction has no children. While its name is recorded, no attribute is.
/// Once the name is complete the node is an element, and neither a comment nor
/// a raw-text element; an attribute whose value is recorded has been entered.
pub open spec fn well_formed(st: ParseState) -> bool {
    &&& path_valid(st.forest, st.parent_location)
    &&& match st.current_node {
        None => {
            &&& !st.recording_tag_name
            &&& !st.recording_attribute_value
            &&& st.attribute_name.len() == 0
        },
        Some(node) => {
            &&& node.children.len() == 0
            &&& if st.recording_tag_name {
                &&& !st.recording_attribute_value
                &&& st.attribute_name.len() == 0
                &&& node.attributes == Map::<Seq<char>, Seq<char>>::empty()
            } else {
                &&& !node.text_node
                &&& node.tag_name != comment_name()
                &&& !is_raw_text_name(node.tag_name)
                &&& st.recording_attribute_value ==> node.attributes.contains_key(
                    st.attribute_name,
                )
            }
        },
    }
}

/// A step leads from a well-formed state to a well-formed state.
pub proof fn lemma_step_well_formed(st: ParseState, input: Seq<char>, i: int)
    requires
        well_formed(st),
        0 <= i < input.len(),
    ensures
        well_formed(step(st, input, i).0),
{
    let after = step(st, input, i).0;
    match st.current_node {
        Some(node) => {
            let c = input[i];
            let ahead = lookahead(input, i);
            if node.tag_name == comment_name() {
            } else if is_raw_text_name(node.tag_name) && !node.text_node {
                let opened = insert_at(st.forest, st.parent_location, node);
                let inside = st.parent_location.push(next_location(st));
                lemma_insert_at(st.forest, st.parent_location, node);
                match find_from(input, closing_sequence(node.tag_name), i + 1) {
                    Some(k) => {
                        let text = text_node(input.subrange(i + 1, k));
                        lemma_insert_at(opened, inside, text);
                        lemma_path_shortened(insert_at(opened, inside, text), inside);
                        assert(inside.drop_last() =~= st.parent_location);
                    },
                    None => {},
                }
            } else if c == ' ' && st.recording_tag_name && !node.text_node {
            } else if c == '>' || (c == '/' && ahead == '>') || (node.text_node && ahead == '<') {
                lemma_insert_at(st.forest, st.parent_location, completed_node(st, node, c));
            } else {
            }
        },
        None => {
            if st.parent_location.len() > 0 {
                lemma_path_shortened(st.forest, st.parent_location);
            }
            lemma_insert_at(st.forest, st.parent_location, text_node(seq![input[i]]));
        },
    }
}

/// The state in which the machine ends when it goes on from state `st` at
/// position `i`.
pub open spec fn run(st: ParseState, input: Seq<char>, i: int) -> ParseState
    decreases input.len() - i,
{
    if 0 <= i < input.len() {
        proof {
            lemma_step_advances(st, input, i);
        }
        run(step(st, input, i).0, input, step(st, input, i).1)
    } else {
        st
    }
}

/// The machine goes from well-formed states to a well-formed state.
pub proof fn lemma_run_well_formed(st: ParseState, input: Seq<char>, i: int)
    requires
        well_formed(st),
    ensures
        well_formed(run(st, input, i)),
    decreases input.len() - i,
{
    if 0 <= i < input.len() {
        lemma_step_advances(st, input, i);
        lemma_step_well_formed(st, input, i);
        lemma_run_well_formed(step(st, input, i).0, input, step(st, input, i).1);
    }
}

/// The forest that the text `input` is parsed to.
pub open spec fn parse_spec(input: Seq<char>) -> Seq<NodeView> {
    run(initial_state(), input, 0).forest
}

} // verus!
