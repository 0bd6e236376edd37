//! The parser at work: the state that it keeps, and the steps of the machine
//! carried out on it.

use crate::attributes::Attributes;
use crate::machine::{
    complete_node,
    completed_node,
    initial_state,
    is_self_closing,
    lookahead,
    next_location,
    read_raw_text,
    skip_comment,
    step,
    step_inside,
    step_outside,
    text_node,
    well_formed,
    ParseState,
};
use crate::text::{
    find_from,
    is_whitespace,
    lemma_comment_end,
    lemma_find_from,
    lemma_find_from_is,
    lemma_tag_end,
    occurs_at,
    same_text,
    skip_past,
    substring,
};
use crate::tree::{add_to_parent, lemma_insert_at, path_valid, path_view};
use crate::xml::{forest_view, lemma_node_view, Node, NodeView};
use vstd::prelude::*;

verus! {

/// The parser between two steps.
pub struct Parser {
    /// The nodes completed so far.
    pub top_level_nodes: Vec<Box<Node>>,
    /// The path from the top level down to the element that is open.
    pub parent_location: Vec<usize>,
    /// The node under construction, if any.
    pub current_node: Option<Node>,
    /// Whether the characters read go to the name of the node under construction.
    pub recording_tag_name: bool,
    /// Whether the characters read go to the value of `attribute_name`.
    pub recording_attribute_value: bool,
    /// Whether a quoted attribute value is open.
    pub in_string: bool,
    /// The attribute name read so far.
    pub attribute_name: String,
    /// Whether nothing but blanks was read since the line began.
    pub whitespace_only: bool,
}

/// The value of a node that may be there.
pub open spec fn optional_view(node: Option<Node>) -> Option<NodeView> {
    match node {
        Some(node) => Some(node@),
        None => None,
    }
}

impl View for Parser {
    type V = ParseState;

    open spec fn view(&self) -> ParseState {
        ParseState {
            forest: forest_view(self.top_level_nodes@),
            parent_location: path_view(self.parent_location@),
            current_node: optional_view(self.current_node),
            recording_tag_name: self.recording_tag_name,
            recording_attribute_value: self.recording_attribute_value,
            in_string: self.in_string,
            attribute_name: self.attribute_name@,
            whitespace_only: self.whitespace_only,
        }
    }
}

/// A text node that holds `content`.
pub fn new_text(content: String) -> (node: Node)
    ensures
        node@ == text_node(content@),
{
    let node = Node {
        tag_name: content,
        attributes: Attributes::new(),
        children: Vec::new(),
        text_node: true,
    };
    proof {
        lemma_node_view(node);
        assert(forest_view(node.children@) =~= Seq::<NodeView>::empty());
    }
    node
}

/// The character behind position `i`; a space where the input ends there.
pub fn peek(input: &Vec<char>, i: usize) -> (ahead: char)
    requires
        i < input.len(),
    ensures
        ahead == lookahead(input@, i as int),
{
    if i + 1 < input.len() {
        input[i + 1]
    } else {
        ' '
    }
}

/// Tells whether an element of this name never holds children.
pub fn self_closing(name: &String) -> (closes: bool)
    ensures
        closes == is_self_closing(name@),
{
    same_text(name, "link") || same_text(name, "meta") || same_text(name, "input") || same_text(
        name,
        "img",
    ) || same_text(name, "br") || same_text(name, "hr") || same_text(name, "source")
        || same_text(name, "track") || same_text(name, "!DOCTYPE")
}

/// The position behind the first `-->` at or after `from`; the end of the
/// input where there is none.
pub fn skip_comment_from(input: &Vec<char>, from: usize) -> (next: usize)
    requires
        from <= input.len(),
    ensures
        next == skip_past(input@, "-->"@, from as int),
{
    let mut j: usize = from;
    let mut dash_count: usize = 0;
    while j < input.len()
        invariant
            from <= j <= input.len(),
            dash_count <= 2,
            dash_count >= 1 ==> j - 1 >= from && input@[j - 1] == '-',
            dash_count == 2 ==> j - 2 >= from && input@[j - 2] == '-',
            dash_count == 0 ==> j == from || input@[j - 1] != '-',
            dash_count == 1 ==> j - 1 == from || input@[j - 2] != '-',
            forall|k: int| from <= k && k + 3 <= j ==> !occurs_at(input@, "-->"@, k),
        decreases input.len() - j,
    {
        let c = input[j];
        proof {
            lemma_comment_end(input@, j - 2);
        }
        if c == '>' && dash_count == 2 {
            proof {
                lemma_find_from_is(input@, "-->"@, from as int, j - 2);
                reveal_strlit("-->");
            }
            return j + 1;
        } else if c == '-' {
            if dash_count < 2 {
                dash_count = dash_count + 1;
            }
        } else {
            dash_count = 0;
        }
        j = j + 1;
    }
    proof {
        reveal_strlit("-->");
        lemma_find_from(input@, "-->"@, from as int);
    }
    input.len()
}

/// The position behind the first `>` at or after `from`; the end of the input
/// where there is none.
pub fn skip_tag_from(input: &Vec<char>, from: usize) -> (next: usize)
    requires
        from <= input.len(),
    ensures
        next == skip_past(input@, ">"@, from as int),
{
    let mut j: usize = from;
    while j < input.len()
        invariant
            from <= j <= input.len(),
            forall|k: int| from <= k < j ==> !occurs_at(input@, ">"@, k),
        decreases input.len() - j,
    {
        proof {
            lemma_tag_end(input@, j as int);
        }
        if input[j] == '>' {
            proof {
                lemma_find_from_is(input@, ">"@, from as int, j as int);
                reveal_strlit(">");
            }
            return j + 1;
        }
        j = j + 1;
    }
    proof {
        lemma_find_from(input@, ">"@, from as int);
    }
    input.len()
}

/// Reads raw text from position `from` up to the first `closing`. Returns the
/// position behind `closing` and the text before it; the end of the input and
/// no text where `closing` does not come.
pub fn read_until(input: &Vec<char>, from: usize, closing: &String) -> (found: (
    usize,
    Option<String>,
))
    requires
        from <= input.len(),
        closing@.len() > 0,
    ensures
        match find_from(input@, closing@, from as int) {
            Some(k) => {
                &&& found.0 == k + closing@.len()
                &&& found.1 matches Some(text) && text@ == input@.subrange(from as int, k)
            },
            None => found.0 == input.len() && found.1 is None,
        },
{
    let end_len = closing.as_str().unicode_len();
    let mut so_far = String::new();
    let mut j: usize = from;
    while j < input.len()
        invariant
            from <= j <= input.len(),
            end_len == closing@.len(),
            end_len > 0,
            so_far@ == input@.subrange(from as int, j as int),
            forall|k: int| from <= k && k + end_len <= j ==> !occurs_at(input@, closing@, k),
        decreases input.len() - j,
    {
        so_far.push(input[j]);
        j = j + 1;
        assert(so_far@ =~= input@.subrange(from as int, j as int));
        let end = j - from;
        if end >= end_len {
            let tail = substring(&so_far, end - end_len, end);
            assert(tail@ =~= input@.subrange(j - end_len, j as int));
            if same_text(closing, tail) {
                let text = substring(&so_far, 0, end - end_len).to_owned();
                proof {
                    assert(text@ =~= input@.subrange(from as int, j - end_len));
                    lemma_find_from_is(input@, closing@, from as int, j - end_len);
                }
                return (j, Some(text));
            }
        }
    }
    proof {
        lemma_find_from(input@, closing@, from as int);
    }
    (input.len(), None)
}

impl Parser {
    /// The parser before the first character.
    pub fn new() -> (parser: Parser)
        ensures
            parser@ == initial_state(),
    {
        let parser = Parser {
            top_level_nodes: Vec::new(),
            parent_location: Vec::new(),
            current_node: None,
            recording_tag_name: false,
            recording_attribute_value: false,
            in_string: false,
            attribute_name: String::new(),
            whitespace_only: true,
        };
        assert(parser@ =~= initial_state());
        parser
    }

    /// Appends the raw-text element `node` and reads its content behind
    /// position `i`.
    fn raw_text(&mut self, node: Node, input: &Vec<char>, i: usize) -> (next: usize)
        requires
            old(self).current_node is None,
            path_valid(old(self)@.forest, old(self)@.parent_location),
            i < input.len(),
        ensures
            (final(self)@, next as int) == read_raw_text(
                ParseState { current_node: Some(node@), ..old(self)@ },
                node@,
                input@,
                i as int,
            ),
    {
        let ghost st = ParseState { current_node: Some(node@), ..self@ };
        let ghost element = node@;
        let closing = String::from_str("</").concat(node.tag_name.as_str()).concat(">");
        proof {
            reveal_strlit(">");
            lemma_node_view(node);
            lemma_insert_at(st.forest, st.parent_location, element);
        }
        let loc = add_to_parent(&mut self.top_level_nodes, &self.parent_location, node);
        self.parent_location.push(loc);
        assert(path_view(self.parent_location@) =~= st.parent_location.push(next_location(st)));
        let (next, text) = read_until(input, i + 1, &closing);
        self.recording_tag_name = false;
        match text {
            Some(text) => {
                let _ = add_to_parent(
                    &mut self.top_level_nodes,
                    &self.parent_location,
                    new_text(text),
                );
            },
            None => {},
        }
        let _ = self.parent_location.pop();
        assert(path_view(self.parent_location@) =~= st.parent_location);
        assert(self@ =~= read_raw_text(st, element, input@, i as int).0);
        next
    }

    /// Completes `node` at position `i` and appends it.
    fn complete(&mut self, node: Node, input: &Vec<char>, i: usize) -> (next: usize)
        requires
            old(self).current_node is None,
            path_valid(old(self)@.forest, old(self)@.parent_location),
            i < input.len(),
        ensures
            (final(self)@, next as int) == complete_node(
                ParseState { current_node: Some(node@), ..old(self)@ },
                node@,
                input@,
                i as int,
            ),
    {
        let ghost st = ParseState { current_node: Some(node@), ..self@ };
        let ghost begun = node@;
        let mut node = node;
        let c = input[i];
        proof {
            lemma_node_view(node);
        }
        if node.text_node {
            node.tag_name.push(c);
        }
        if !self.attribute_name.as_str().is_empty() && !self.recording_attribute_value {
            let mut name = String::new();
            std::mem::swap(&mut self.attribute_name, &mut name);
            let _ = node.attributes.insert(name, String::new());
        }
        proof {
            lemma_node_view(node);
            assert(node@ =~= completed_node(st, begun, c));
        }
        let opens = c == '>' && !node.text_node && !self_closing(&node.tag_name);
        let loc = add_to_parent(&mut self.top_level_nodes, &self.parent_location, node);
        if opens {
            self.parent_location.push(loc);
            assert(path_view(self.parent_location@) =~= st.parent_location.push(
                next_location(st),
            ));
        }
        self.recording_tag_name = false;
        self.recording_attribute_value = false;
        self.attribute_name = String::new();
        assert(self@ =~= complete_node(st, begun, input@, i as int).0);
        if c == '/' && peek(input, i) == '>' {
            i + 2
        } else {
            i + 1
        }
    }

    /// The step at position `i` with `node` under construction.
    fn step_inside(&mut self, node: Node, input: &Vec<char>, i: usize) -> (next: usize)
        requires
            old(self).current_node is None,
            well_formed(ParseState { current_node: Some(node@), ..old(self)@ }),
            i < input.len(),
        ensures
            (final(self)@, next as int) == step_inside(
                ParseState { current_node: Some(node@), ..old(self)@ },
                node@,
                input@,
                i as int,
            ),
    {
        let ghost st = ParseState { current_node: Some(node@), ..self@ };
        let ghost begun = node@;
        let mut node = node;
        let c = input[i];
        let ahead = peek(input, i);
        proof {
            lemma_node_view(node);
        }
        if same_text(&node.tag_name, "!--") {
            self.recording_tag_name = false;
            assert(self@ =~= skip_comment(st, input@, i as int).0);
            skip_comment_from(input, i + 1)
        } else if (same_text(&node.tag_name, "script") || same_text(&node.tag_name, "style"))
            && !node.text_node {
            self.raw_text(node, input, i)
        } else if c == ' ' && self.recording_tag_name && !node.text_node {
            self.recording_tag_name = false;
            self.current_node = Some(node);
            assert(self@ =~= step_inside(st, begun, input@, i as int).0);
            i + 1
        } else if c == '>' || (c == '/' && ahead == '>') || (node.text_node && ahead == '<') {
            self.complete(node, input, i)
        } else if self.recording_tag_name {
            node.tag_name.push(c);
            proof {
                lemma_node_view(node);
            }
            self.current_node = Some(node);
            assert(self@ =~= step_inside(st, begun, input@, i as int).0);
            i + 1
        } else if c == ' ' && !self.in_string && self.recording_attribute_value {
            self.recording_attribute_value = false;
            self.attribute_name = String::new();
            self.current_node = Some(node);
            assert(self@ =~= step_inside(st, begun, input@, i as int).0);
            i + 1
        } else if self.recording_attribute_value {
            if c == '"' {
                match node.attributes.get(self.attribute_name.as_str()) {
                    Some(value) => {
                        self.in_string = value.as_str().is_empty();
                    },
                    None => {},
                }
            }
            node.attributes.push_to(self.attribute_name.as_str(), c);
            proof {
                lemma_node_view(node);
            }
            self.current_node = Some(node);
            assert(self@ =~= step_inside(st, begun, input@, i as int).0);
            i + 1
        } else if c == '=' {
            let _ = node.attributes.insert(self.attribute_name.clone(), String::new());
            proof {
                lemma_node_view(node);
            }
            self.recording_attribute_value = true;
            self.current_node = Some(node);
            assert(self@ =~= step_inside(st, begun, input@, i as int).0);
            i + 1
        } else {
            self.attribute_name.push(c);
            self.current_node = Some(node);
            assert(self@ =~= step_inside(st, begun, input@, i as int).0);
            i + 1
        }
    }

    /// The step at position `i` with no node under construction.
    fn step_outside(&mut self, input: &Vec<char>, i: usize) -> (next: usize)
        requires
            old(self).current_node is None,
            well_formed(old(self)@),
            i < input.len(),
        ensures
            (final(self)@, next as int) == step_outside(old(self)@, input@, i as int),
    {
        let ghost st = self@;
        let c = input[i];
        let ahead = peek(input, i);
        if c == '<' {
            self.whitespace_only = false;
            if ahead == '/' {
                let _ = self.parent_location.pop();
                assert(self@ =~= step_outside(st, input@, i as int).0);
                skip_tag_from(input, i + 1)
            } else {
                self.current_node = Some(Node::default());
                self.recording_tag_name = true;
                assert(self@ =~= step_outside(st, input@, i as int).0);
                i + 1
            }
        } else if c == '\n' {
            self.whitespace_only = true;
            assert(self@ =~= step_outside(st, input@, i as int).0);
            i + 1
        } else if !is_whitespace(c) || !self.whitespace_only {
            self.whitespace_only = false;
            let mut content = String::new();
            content.push(c);
            assert(content@ =~= seq![c]);
            let node = new_text(content);
            if ahead == '<' {
                let _ = add_to_parent(&mut self.top_level_nodes, &self.parent_location, node);
            } else {
                self.recording_tag_name = true;
                self.current_node = Some(node);
            }
            assert(self@ =~= step_outside(st, input@, i as int).0);
            i + 1
        } else {
            assert(self@ =~= step_outside(st, input@, i as int).0);
            i + 1
        }
    }

    /// The step of the machine at position `i` of `input`. Returns the
    /// position at which the next step is taken.
    pub fn step(&mut self, input: &Vec<char>, i: usize) -> (next: usize)
        requires
            well_formed(old(self)@),
            i < input.len(),
        ensures
            (final(self)@, next as int) == step(old(self)@, input@, i as int),
    {
        let ghost st = self@;
        let mut current: Option<Node> = None;
        std::mem::swap(&mut self.current_node, &mut current);
        match current {
            Some(node) => {
                assert(st =~= ParseState { current_node: Some(node@), ..self@ });
                self.step_inside(node, input, i)
            },
            None => {
                assert(st =~= self@);
                self.step_outside(input, i)
            },
        }
    }
}

} // verus!
