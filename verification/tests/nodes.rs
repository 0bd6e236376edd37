use koxinga::attributes::Attributes;
use koxinga::scanner::Parser;
use koxinga::tree::add_to_parent;
use koxinga::xml::{parse, Node, OutputType};

fn element(name: &str) -> Node {
    Node { tag_name: name.to_string(), ..Default::default() }
}

#[test]
fn attributes_map_names_to_values() {
    let mut a = Attributes::new();
    assert!(a.is_empty());
    assert_eq!(a.len(), 0);
    assert_eq!(a.insert("x".to_string(), "1".to_string()), None);
    assert_eq!(a.insert("y".to_string(), "".to_string()), None);
    assert_eq!(a.insert("x".to_string(), "2".to_string()), Some("1".to_string()));
    assert_eq!(a.len(), 2);
    assert!(!a.is_empty());
    assert_eq!(a.get("x").unwrap(), "2");
    assert_eq!(a.get("y").unwrap(), "");
    assert!(a.get("z").is_none());
    assert!(a.contains_key("y") && !a.contains_key(""));
    a.push_to("y", 'a');
    a.push_to("y", 'b');
    a.push_to("z", 'c');
    assert_eq!(a.get("y").unwrap(), "ab");
    assert_eq!(a.len(), 2);
}

#[test]
fn attributes_are_equal_whatever_the_order() {
    let mut a = Attributes::new();
    a.insert("x".to_string(), "1".to_string());
    a.insert("y".to_string(), "2".to_string());
    let mut b = Attributes::default();
    b.insert("y".to_string(), "2".to_string());
    assert!(a != b);
    b.insert("x".to_string(), "0".to_string());
    assert!(a != b);
    b.insert("x".to_string(), "1".to_string());
    assert!(a == b);
    assert!(a.clone() == a);
    b.insert("z".to_string(), "".to_string());
    assert!(a != b);
    assert!(Attributes::new() == Attributes::default());
}

#[test]
fn default_node_is_a_bare_element() {
    let node = Node::default();
    assert_eq!(node.tag_name, "");
    assert!(node.attributes.is_empty());
    assert!(node.children.is_empty());
    assert!(!node.text_node);
}

#[test]
fn clone_keeps_the_tree() {
    let nodes = parse("<div id=a><p class=\"x y\">t<b>u</b></p><br/></div>");
    let copy = (*nodes[0]).clone();
    assert!(copy == *nodes[0]);
    assert_eq!(copy.children.len(), 2);
    assert_eq!(copy.children[0].attributes.get("class").unwrap(), "\"x y\"");
    assert_eq!(copy.children[0].children[1].children[0].tag_name, "u");
    assert_eq!(copy.to_output(), nodes[0].to_output());
    let mut other = copy.clone();
    other.children[0].children[0].tag_name.push('!');
    assert!(other != copy);
}

#[test]
fn nodes_are_added_where_the_path_leads() {
    let mut forest: Vec<Box<Node>> = Vec::new();
    assert_eq!(add_to_parent(&mut forest, &vec![], element("a")), 0);
    assert_eq!(add_to_parent(&mut forest, &vec![], element("b")), 1);
    assert_eq!(add_to_parent(&mut forest, &vec![1], element("c")), 0);
    assert_eq!(add_to_parent(&mut forest, &vec![1], element("d")), 1);
    assert_eq!(add_to_parent(&mut forest, &vec![1, 0], element("e")), 0);
    assert_eq!(add_to_parent(&mut forest, &vec![0], element("f")), 0);
    assert_eq!(add_to_parent(&mut forest, &vec![1, 0, 0], element("g")), 0);
    assert_eq!(forest.len(), 2);
    assert_eq!(forest[0].children.len(), 1);
    assert_eq!(forest[0].children[0].tag_name, "f");
    assert_eq!(forest[1].children.len(), 2);
    assert_eq!(forest[1].children[0].tag_name, "c");
    assert_eq!(forest[1].children[1].tag_name, "d");
    assert_eq!(forest[1].children[0].children[0].tag_name, "e");
    assert_eq!(forest[1].children[0].children[0].children[0].tag_name, "g");
    assert_eq!(forest[1].children[1].children.len(), 0);
}

#[test]
fn parser_goes_step_by_step() {
    let input: Vec<char> = "<a x=\"1\"/>t<!--c-->u<".chars().collect();
    let mut parser = Parser::new();
    assert!(parser.whitespace_only);
    let mut i = parser.step(&input, 0);
    assert_eq!(i, 1);
    assert!(parser.recording_tag_name && !parser.whitespace_only);
    i = parser.step(&input, i);
    assert_eq!(parser.current_node.as_ref().unwrap().tag_name, "a");
    i = parser.step(&input, i);
    assert!(!parser.recording_tag_name);
    i = parser.step(&input, i);
    assert_eq!(parser.attribute_name, "x");
    i = parser.step(&input, i);
    assert!(parser.recording_attribute_value);
    i = parser.step(&input, i);
    assert!(parser.in_string);
    i = parser.step(&input, i);
    i = parser.step(&input, i);
    assert!(!parser.in_string);
    assert_eq!(i, 8);
    i = parser.step(&input, i);
    assert_eq!(i, 10);
    assert!(parser.current_node.is_none());
    assert_eq!(parser.top_level_nodes.len(), 1);
    assert!(parser.parent_location.is_empty());
    i = parser.step(&input, i);
    assert_eq!(parser.top_level_nodes.len(), 2);
    while i < input.len() {
        let next = parser.step(&input, i);
        assert!(next > i);
        i = next;
    }
    assert_eq!(i, input.len());
    assert_eq!(parser.top_level_nodes.len(), 3);
    assert_eq!(parser.top_level_nodes[2].tag_name, "u");
    assert!(parser.top_level_nodes[2].text_node);
}

#[test]
fn events_compare_by_kind_and_text() {
    assert!(OutputType::Newline == OutputType::Newline);
    assert!(OutputType::Newline != OutputType::EndLink);
    assert!(OutputType::Text("a".to_string()) != OutputType::StartLink("a".to_string()));
    assert!(OutputType::Text("a".to_string()) != OutputType::Text("b".to_string()));
}
