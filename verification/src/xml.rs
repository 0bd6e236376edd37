//! Markup trees, the display events that a tree flattens to, and the parser
//! that builds the trees.

use crate::attributes::Attributes;
use crate::machine::{
    blank_element, initial_state, lemma_step_advances, lemma_step_well_formed, parse_spec, run,
    well_formed,
};
use crate::scanner::Parser;
use crate::shape::{forest_shaped, lemma_parse_shaped};
use crate::text::{chars_of, handle_escaped, same_text, unescaped};
use vstd::prelude::*;

verus! {

/// One node of a markup tree: an element, or a run of text.
#[derive(Debug, PartialEq)]
pub struct Node {
    /// The element's name; of a text node, the text itself.
    pub tag_name: String,
    /// The element's attributes. A value keeps the quotes that it was written with.
    pub attributes: Attributes,
    /// The nodes inside the element, in the order of the document.
    pub children: Vec<Box<Node>>,
    /// Whether this is a run of text.
    pub text_node: bool,
}

/// The mathematical value of a `Node`.
#[verifier::ext_equal]
pub struct NodeView {
    pub tag_name: Seq<char>,
    pub attributes: Map<Seq<char>, Seq<char>>,
    pub children: Seq<NodeView>,
    pub text_node: bool,
}

/// The value of `node`, with the values of its children.
pub open spec fn node_view(node: Node) -> NodeView
    decreases node,
{
    NodeView {
        tag_name: node.tag_name@,
        attributes: node.attributes@,
        children: Seq::new(
            node.children.len() as nat,
            |i: int|
                if 0 <= i < node.children.len() {
                    node_view(*node.children[i])
                } else {
                    arbitrary()
                },
        ),
        text_node: node.text_node,
    }
}

impl View for Node {
    type V = NodeView;

    open spec fn view(&self) -> NodeView {
        node_view(*self)
    }
}

impl Default for Node {
    /// An element without name, attributes or children.
    fn default() -> (node: Node)
        ensures
            node@ == blank_element(),
    {
        let node = Node {
            tag_name: String::new(),
            attributes: Attributes::new(),
            children: Vec::new(),
            text_node: false,
        };
        proof {
            lemma_node_view(node);
            assert(forest_view(node.children@) =~= Seq::<NodeView>::empty());
        }
        node
    }
}

impl Clone for Node {
    fn clone(&self) -> (copy: Node)
        ensures
            copy@ == self@,
        decreases self,
    {
        let mut children: Vec<Box<Node>> = Vec::new();
        let mut i: usize = 0;
        while i < self.children.len()
            invariant
                i <= self.children.len(),
                children.len() == i,
                forall|k: int| 0 <= k < i ==> node_view(*children@[k]) == node_view(*self.children@[k]),
            decreases self.children.len() - i,
        {
            let child = (*self.children[i]).clone();
            children.push(Box::new(child));
            i = i + 1;
        }
        let copy = Node {
            tag_name: self.tag_name.clone(),
            attributes: self.attributes.clone(),
            children,
            text_node: self.text_node,
        };
        proof {
            lemma_node_view(copy);
            lemma_node_view(*self);
            assert(forest_view(copy.children@) =~= forest_view(self.children@));
        }
        copy
    }
}

/// The values of a list of nodes.
pub open spec fn forest_view(nodes: Seq<Box<Node>>) -> Seq<NodeView> {
    Seq::new(nodes.len(), |i: int| node_view(*nodes[i]))
}

/// The value of a node, field by field: its children are the values of the
/// node's children.
pub proof fn lemma_node_view(node: Node)
    ensures
        node@ == (NodeView {
            tag_name: node.tag_name@,
            attributes: node.attributes@,
            children: forest_view(node.children@),
            text_node: node.text_node,
        }),
{
    assert(node_view(node).children =~= forest_view(node.children@));
}

/// One display event.
#[derive(Debug, PartialEq, Eq)]
pub enum OutputType {
    /// A link starts here; it leads to the given address, quotes included.
    StartLink(String),
    /// The link that was started ends here.
    EndLink,
    /// A run of text.
    Text(String),
    /// The line ends here.
    Newline,
}

/// The mathematical value of an `OutputType`.
pub enum OutputEvent {
    StartLink(Seq<char>),
    EndLink,
    Text(Seq<char>),
    Newline,
}

impl View for OutputType {
    type V = OutputEvent;

    open spec fn view(&self) -> OutputEvent {
        match self {
            OutputType::StartLink(url) => OutputEvent::StartLink(url@),
            OutputType::EndLink => OutputEvent::EndLink,
            OutputType::Text(text) => OutputEvent::Text(text@),
            OutputType::Newline => OutputEvent::Newline,
        }
    }
}

/// The values of a list of events.
pub open spec fn events_view(events: Seq<OutputType>) -> Seq<OutputEvent> {
    Seq::new(events.len(), |i: int| events[i]@)
}

/// Whether an element of this name holds its content as raw text: `script` and `style`.
pub open spec fn is_raw_text_name(name: Seq<char>) -> bool {
    name == "script"@ || name == "style"@
}

/// Whether an element of this name ends a line: `p`, `br`, `li` and `tr`.
pub open spec fn ends_line(name: Seq<char>) -> bool {
    name == "p"@ || name == "br"@ || name == "li"@ || name == "tr"@
}

/// The events of one node. Text gives one text event, its entities written out.
/// A raw-text element gives nothing. Any other element gives the events of its
/// children in order; before them the start of a link, where it has an `href`;
/// after them the end of the line, where its name ends one, else the end of the
/// link that it started.
pub open spec fn flatten(node: NodeView) -> Seq<OutputEvent>
    decreases node, 0nat,
{
    if node.text_node {
        seq![OutputEvent::Text(unescaped(node.tag_name))]
    } else if is_raw_text_name(node.tag_name) {
        Seq::empty()
    } else {
        link_start(node) + flatten_first(node.children, node.children.len()) + closing_events(node)
    }
}

/// The events of the first `count` nodes of `nodes`, one node after the other.
pub open spec fn flatten_first(nodes: Seq<NodeView>, count: nat) -> Seq<OutputEvent>
    decreases nodes, count,
{
    if count == 0 || count > nodes.len() {
        Seq::empty()
    } else {
        flatten_first(nodes, (count - 1) as nat) + flatten(nodes[count - 1])
    }
}

/// What an element gives before its children: the start of a link, where it has an `href`.
pub open spec fn link_start(node: NodeView) -> Seq<OutputEvent> {
    if node.attributes.contains_key("href"@) {
        seq![OutputEvent::StartLink(node.attributes["href"@])]
    } else {
        Seq::empty()
    }
}

/// What an element gives after its children: the end of the line, where its
/// name ends one; else the end of its link, where it has an `href`.
pub open spec fn closing_events(node: NodeView) -> Seq<OutputEvent> {
    if ends_line(node.tag_name) {
        seq![OutputEvent::Newline]
    } else if node.attributes.contains_key("href"@) {
        seq![OutputEvent::EndLink]
    } else {
        Seq::empty()
    }
}

impl Node {
    /// The display events of this node and of everything below it.
    pub fn to_output(&self) -> (output: Vec<OutputType>)
        ensures
            events_view(output@) == flatten(self@),
        decreases self,
    {
        let mut output: Vec<OutputType> = Vec::new();
        let mut link = false;
        if self.text_node {
            output.push(OutputType::Text(handle_escaped(self.tag_name.as_str())));
            assert(events_view(output@) =~= flatten(self@));
            return output;
        } else if same_text(&self.tag_name, "script") || same_text(&self.tag_name, "style") {
            assert(events_view(output@) =~= flatten(self@));
            return output;
        } else if let Some(href) = self.attributes.get("href") {
            link = true;
            output.push(OutputType::StartLink(href.clone()));
        }
        assert(events_view(output@) =~= link_start(self@));
        let mut i: usize = 0;
        while i < self.children.len()
            invariant
                i <= self.children.len(),
                events_view(output@) == link_start(self@) + flatten_first(
                    self@.children,
                    i as nat,
                ),
            decreases self.children.len() - i,
        {
            let mut below = self.children[i].to_output();
            let ghost before = output@;
            let ghost added = below@;
            output.append(&mut below);
            i = i + 1;
            assert(events_view(output@) =~= events_view(before) + events_view(added));
        }
        if same_text(&self.tag_name, "p") || same_text(&self.tag_name, "br") || same_text(
            &self.tag_name,
            "li",
        ) || same_text(&self.tag_name, "tr") {
            output.push(OutputType::Newline);
        } else if link {
            output.push(OutputType::EndLink);
        }
        assert(events_view(output@) =~= flatten(self@));
        output
    }
}

/// Parses the text of a document into the forest of its nodes. No text is
/// refused: markup that makes no sense is taken in as it comes or dropped, and
/// what stands unfinished at the end of the text is left out.
pub fn parse(xml_string: &str) -> (nodes: Vec<Box<Node>>)
    ensures
        forest_view(nodes@) == parse_spec(xml_string@),
        forest_shaped(forest_view(nodes@)),
{
    proof {
        lemma_parse_shaped(xml_string@);
    }
    let input = chars_of(xml_string);
    let mut parser = Parser::new();
    let mut i: usize = 0;
    while i < input.len()
        invariant
            i <= input.len(),
            input@ == xml_string@,
            well_formed(parser@),
            run(parser@, input@, i as int) == run(initial_state(), input@, 0),
        decreases input.len() - i,
    {
        proof {
            lemma_step_advances(parser@, input@, i as int);
            lemma_step_well_formed(parser@, input@, i as int);
        }
        i = parser.step(&input, i);
    }
    parser.top_level_nodes
}

} // verus!
