use koxinga::xml::{parse, Node, OutputType};

fn text(s: &str) -> OutputType {
    OutputType::Text(s.to_string())
}

fn link(s: &str) -> OutputType {
    OutputType::StartLink(s.to_string())
}

fn count_named(nodes: &[Box<Node>], name: &str) -> usize {
    let mut n = 0;
    for node in nodes {
        if !node.text_node && node.tag_name == name {
            n += 1;
        }
        n += count_named(&node.children, name);
    }
    n
}

#[test]
fn test_xml_parse() {
    let nodes = parse("<p>Woah <span id=\"spanner\">lorem ipsum</span> !!! no way</p>
<input name=\"in put\" disabled/>
<div>
  <a href=\"https://wikipedia.org\" title=12>Wikipedia</a>
  <p>Nested woah <b>woah</b></p>
</div>");
    assert!(nodes.len() == 3);
    assert!(nodes[0].tag_name == "p");
    assert!(nodes[0].children.len() == 3);
    assert!(nodes[0].children[0].tag_name == "Woah ");
    assert!(nodes[0].children[1].tag_name == "span");
    assert!(nodes[0].children[1].children[0].tag_name == "lorem ipsum");
    assert!(nodes[0].children[2].tag_name == " !!! no way");
    assert!(nodes[1].tag_name == "input");
    assert!(nodes[1].attributes.get("name").unwrap() == "\"in put\"");
    assert!(nodes[2].tag_name == "div");
    assert!(nodes[2].children.len() == 2);
    assert!(nodes[2].children[0].tag_name == "a");
    assert!(nodes[2].children[0].attributes.get("href").unwrap() == "\"https://wikipedia.org\"");
    assert!(nodes[2].children[0].attributes.get("title").unwrap() == "12");
    assert!(nodes[2].children[0].children[0].tag_name == "Wikipedia");
    assert!(nodes[2].children[1].tag_name == "p");
    assert!(nodes[2].children[1].children[0].tag_name == "Nested woah ");
    assert!(nodes[2].children[1].children[1].tag_name == "b");
    assert!(nodes[2].children[1].children[1].children[0].tag_name == "woah");
}

#[test]
fn test_close_xml_parse() {
    let nodes = parse("<span> (<a>Hey</a>Woah)</span>");
    assert!(nodes[0].children[1].tag_name == "a");
    let nodes = parse("<a>ab</a> <span>woah</span>");
    assert!(nodes[2].tag_name == "span");
}

#[test]
fn test_style_script_xml_parse() {
    let nodes = parse("<p>a b c</p><style>. p ></style><b>woah</b>");
    assert!(nodes.len() == 3);
    assert!(nodes[0].tag_name == "p");
    assert!(nodes[1].tag_name == "style");
    assert!(nodes[1].children[0].tag_name == ". p >");
}

#[test]
fn test_comments_xml_parse() {
    let nodes = parse("<p>test</p><!--comment <a>stallman forced me to do this</a><p>--><b> afterwards</b>");
    assert!(nodes.len() == 2);
    assert!(nodes[1].tag_name == "b");
    assert!(nodes[1].children[0].tag_name == " afterwards");
}

#[test]
fn nesting_mirrors_the_text() {
    let nodes = parse("<a><b>x</b><c><d></d>y</c></a><e>z</e>");
    assert_eq!(nodes.len(), 2);
    let a = &nodes[0];
    assert_eq!(a.tag_name, "a");
    assert!(!a.text_node);
    assert_eq!(a.children.len(), 2);
    assert_eq!(a.children[0].tag_name, "b");
    assert_eq!(a.children[0].children.len(), 1);
    assert!(a.children[0].children[0].text_node);
    assert_eq!(a.children[0].children[0].tag_name, "x");
    let c = &a.children[1];
    assert_eq!(c.tag_name, "c");
    assert_eq!(c.children.len(), 2);
    assert_eq!(c.children[0].tag_name, "d");
    assert_eq!(c.children[0].children.len(), 0);
    assert_eq!(c.children[1].tag_name, "y");
    assert_eq!(nodes[1].tag_name, "e");
    assert_eq!(nodes[1].children.len(), 1);
    assert_eq!(nodes[1].children[0].tag_name, "z");
}

#[test]
fn self_closing_names_hold_no_children() {
    for name in ["link", "meta", "input", "img", "br", "hr", "source", "track", "!DOCTYPE"] {
        let nodes = parse(&format!("<{}><b>x</b></{}><i>y</i>", name, name));
        assert_eq!(nodes[0].tag_name, name);
        assert_eq!(nodes[0].children.len(), 0);
        assert_eq!(nodes[1].tag_name, "b");
        assert_eq!(nodes[1].children.len(), 1);
        assert_eq!(nodes[1].children[0].tag_name, "x");
    }
    let nodes = parse("<div><img src=a><p>t</p></div>");
    assert_eq!(nodes.len(), 1);
    assert_eq!(nodes[0].children.len(), 2);
    assert_eq!(nodes[0].children[0].tag_name, "img");
    assert_eq!(nodes[0].children[0].children.len(), 0);
    assert_eq!(nodes[0].children[1].tag_name, "p");
}

#[test]
fn explicit_self_close_opens_nothing() {
    let nodes = parse("<div/><p>x</p>");
    assert_eq!(nodes.len(), 2);
    assert_eq!(nodes[0].tag_name, "div");
    assert_eq!(nodes[0].children.len(), 0);
    assert_eq!(nodes[1].tag_name, "p");
    let nodes = parse("<br /><b>x</b>");
    assert_eq!(nodes.len(), 2);
    assert_eq!(nodes[0].tag_name, "br");
    assert!(nodes[0].attributes.is_empty());
}

#[test]
fn raw_text_is_kept_apart() {
    let nodes = parse("<script>a<b>c</script>");
    assert_eq!(nodes.len(), 1);
    assert_eq!(nodes[0].tag_name, "script");
    assert!(!nodes[0].text_node);
    assert_eq!(nodes[0].children.len(), 1);
    assert!(nodes[0].children[0].text_node);
    assert_eq!(nodes[0].children[0].tag_name, "a<b>c");
    assert_eq!(nodes[0].children[0].children.len(), 0);
    assert_eq!(count_named(&nodes, "b"), 0);
}

#[test]
fn raw_text_may_be_empty_or_hold_wide_characters() {
    let nodes = parse("<style></style><p>x</p>");
    assert_eq!(nodes.len(), 2);
    assert_eq!(nodes[0].children.len(), 1);
    assert_eq!(nodes[0].children[0].tag_name, "");
    assert!(nodes[0].children[0].text_node);
    let nodes = parse("<script>é→ü < y</script><p>x</p>");
    assert_eq!(nodes.len(), 2);
    assert_eq!(nodes[0].children[0].tag_name, "é→ü < y");
    assert_eq!(nodes[1].tag_name, "p");
}

#[test]
fn raw_text_ends_at_the_first_closing_sequence() {
    let nodes = parse("<script>var s = \"</script>\";</script>");
    assert_eq!(nodes[0].tag_name, "script");
    assert_eq!(nodes[0].children.len(), 1);
    assert_eq!(nodes[0].children[0].tag_name, "var s = \"");
    assert_eq!(nodes[1].tag_name, "\";");
    assert!(nodes[1].text_node);
}

#[test]
fn raw_text_takes_the_character_behind_the_name() {
    let nodes = parse("<script src=x>y</script>");
    assert_eq!(nodes[0].tag_name, "script");
    assert!(nodes[0].attributes.is_empty());
    assert_eq!(nodes[0].children[0].tag_name, "src=x>y");
}

#[test]
fn comments_leave_no_trace() {
    let nodes = parse("<p>x</p><!--<a>y</a>--><b>z</b>");
    assert_eq!(nodes.len(), 2);
    assert_eq!(nodes[0].tag_name, "p");
    assert_eq!(nodes[1].tag_name, "b");
    assert_eq!(nodes[0].children.len(), 1);
    assert_eq!(nodes[0].children[0].tag_name, "x");
    assert_eq!(nodes[1].children.len(), 1);
    assert_eq!(nodes[1].children[0].tag_name, "z");
    assert_eq!(count_named(&nodes, "a"), 0);
}

#[test]
fn comment_ends_at_the_first_arrow() {
    let nodes = parse("<!-- a --- --><p>x</p>");
    assert_eq!(nodes.len(), 1);
    assert_eq!(nodes[0].tag_name, "p");
    let nodes = parse("<!-- a ---><p>x</p>");
    assert_eq!(nodes.len(), 1);
    assert_eq!(nodes[0].tag_name, "p");
    let nodes = parse("<!-- a -> - -><p>x</p>--><b>y</b>");
    assert_eq!(nodes.len(), 1);
    assert_eq!(nodes[0].tag_name, "b");
}

#[test]
fn leading_blanks_of_a_line_are_dropped() {
    let nodes = parse("<div>\n     hello  big   world</div>");
    assert_eq!(nodes.len(), 1);
    assert_eq!(nodes[0].children.len(), 1);
    assert_eq!(nodes[0].children[0].tag_name, "hello  big   world");
    let nodes = parse("<div>\n \t  x<b>y</b>\n\t\tz w </div>");
    assert_eq!(nodes[0].children.len(), 3);
    assert_eq!(nodes[0].children[0].tag_name, "x");
    assert_eq!(nodes[0].children[2].tag_name, "z w ");
    let nodes = parse("   <p>x</p>");
    assert_eq!(nodes.len(), 1);
}

#[test]
fn blanks_behind_a_tag_are_kept() {
    let nodes = parse("<p>  a  </p>");
    assert_eq!(nodes[0].children.len(), 1);
    assert_eq!(nodes[0].children[0].tag_name, "  a  ");
    let nodes = parse("<p>a\n  b</p>");
    assert_eq!(nodes[0].children[0].tag_name, "a\n  b");
}

#[test]
fn attributes_keep_their_quotes() {
    let nodes = parse("<input name=\"in put\" disabled/>");
    assert_eq!(nodes.len(), 1);
    assert_eq!(nodes[0].tag_name, "input");
    assert_eq!(nodes[0].attributes.len(), 2);
    assert_eq!(nodes[0].attributes.get("name").unwrap(), "\"in put\"");
    assert_eq!(nodes[0].attributes.get("disabled").unwrap(), "");
    assert!(nodes[0].attributes.contains_key("disabled"));
    assert!(!nodes[0].attributes.contains_key("in"));
    assert!(nodes[0].attributes.get("put").is_none());
}

#[test]
fn bare_attribute_before_the_end_of_the_tag() {
    let nodes = parse("<p hidden>x</p>");
    assert_eq!(nodes[0].attributes.len(), 1);
    assert_eq!(nodes[0].attributes.get("hidden").unwrap(), "");
    assert_eq!(nodes[0].children[0].tag_name, "x");
}

#[test]
fn later_value_replaces_the_earlier() {
    let nodes = parse("<a x=1 x=2>");
    assert_eq!(nodes[0].attributes.len(), 1);
    assert_eq!(nodes[0].attributes.get("x").unwrap(), "2");
    let nodes = parse("<a x=1 x>");
    assert_eq!(nodes[0].attributes.get("x").unwrap(), "");
}

#[test]
fn unquoted_value_ends_at_a_space() {
    let nodes = parse("<a href=x title=y>t</a>");
    assert_eq!(nodes[0].attributes.get("href").unwrap(), "x");
    assert_eq!(nodes[0].attributes.get("title").unwrap(), "y");
    let nodes = parse("<a title=\"a b\" rel=c>t</a>");
    assert_eq!(nodes[0].attributes.get("title").unwrap(), "\"a b\"");
    assert_eq!(nodes[0].attributes.get("rel").unwrap(), "c");
}

#[test]
fn unmatched_closing_tag_closes_what_is_open() {
    let nodes = parse("<a><b>x</c>y</a>z<i></i>");
    assert_eq!(nodes.len(), 3);
    assert_eq!(nodes[0].tag_name, "a");
    assert_eq!(nodes[0].children.len(), 2);
    assert_eq!(nodes[0].children[0].tag_name, "b");
    assert_eq!(nodes[0].children[0].children[0].tag_name, "x");
    assert_eq!(nodes[0].children[1].tag_name, "y");
    assert_eq!(nodes[1].tag_name, "z");
    let nodes = parse("</a></b><p>x</p>");
    assert_eq!(nodes.len(), 1);
    assert_eq!(nodes[0].tag_name, "p");
}

#[test]
fn unfinished_end_is_dropped() {
    assert_eq!(parse("").len(), 0);
    assert_eq!(parse("<p>a</p>tail").len(), 1);
    assert_eq!(parse("<p>a</p><b").len(), 1);
    assert_eq!(parse("<p>a</p><b x=\"1").len(), 1);
    assert_eq!(parse("<p>a</p><!-- never closed <i>x</i>").len(), 1);
    let nodes = parse("<p>a</p><script>var x");
    assert_eq!(nodes.len(), 2);
    assert_eq!(nodes[1].tag_name, "script");
    assert_eq!(nodes[1].children.len(), 0);
    let nodes = parse("<p>a");
    assert_eq!(nodes.len(), 1);
    assert_eq!(nodes[0].children.len(), 0);
    let nodes = parse("<p>a</p");
    assert_eq!(nodes.len(), 1);
    assert_eq!(nodes[0].children.len(), 1);
}

#[test]
fn text_ends_where_a_tag_starts() {
    let nodes = parse("<p>a>b</p><i>c/</i><u>d/>e</u>");
    assert_eq!(nodes.len(), 3);
    assert_eq!(nodes[0].children.len(), 2);
    assert_eq!(nodes[0].children[0].tag_name, "a>");
    assert!(nodes[0].children[0].text_node);
    assert_eq!(nodes[0].children[0].children.len(), 0);
    assert_eq!(nodes[0].children[1].tag_name, "b");
    assert_eq!(nodes[1].children.len(), 1);
    assert_eq!(nodes[1].children[0].tag_name, "c/");
    assert_eq!(nodes[2].children.len(), 2);
    assert_eq!(nodes[2].children[0].tag_name, "d/");
    assert_eq!(nodes[2].children[1].tag_name, "e");
}

#[test]
fn link_text_is_bracketed() {
    let nodes = parse("<a href=\"http://x\">Hi</a>");
    assert_eq!(nodes.len(), 1);
    let out = nodes[0].to_output();
    assert_eq!(out, vec![link("\"http://x\""), text("Hi"), OutputType::EndLink]);
}

#[test]
fn paragraphs_end_their_lines() {
    let nodes = parse("<p>a</p><p>b</p>");
    assert_eq!(nodes.len(), 2);
    let mut out = nodes[0].to_output();
    out.extend(nodes[1].to_output());
    assert_eq!(out, vec![text("a"), OutputType::Newline, text("b"), OutputType::Newline]);
    assert!(!out.contains(&OutputType::EndLink));
    assert!(!out.iter().any(|o| matches!(o, OutputType::StartLink(_))));
    let nodes = parse("<body><p>a</p><p>b</p></body>");
    let out = nodes[0].to_output();
    assert_eq!(out, vec![text("a"), OutputType::Newline, text("b"), OutputType::Newline]);
    let nodes = parse("<ul><li>a</li><li>b<br></li></ul><table><tr>c</tr></table>");
    let mut out = nodes[0].to_output();
    out.extend(nodes[1].to_output());
    assert_eq!(
        out,
        vec![
            text("a"),
            OutputType::Newline,
            text("b"),
            OutputType::Newline,
            OutputType::Newline,
            text("c"),
            OutputType::Newline
        ]
    );
}

#[test]
fn entities_are_written_out() {
    let nodes = parse("<p>&nbsp;x&#x27;y</p>");
    assert_eq!(nodes[0].children[0].tag_name, "&nbsp;x&#x27;y");
    let out = nodes[0].children[0].to_output();
    assert_eq!(out, vec![text(" x'y")]);
    let nodes = parse("<b>&amp;&nbsp;&nbsp;&lt;&#x27;&#x27&nbsp</b>");
    assert_eq!(nodes[0].to_output(), vec![text("&amp;  &lt;'&#x27&nbsp")]);
}

#[test]
fn line_end_wins_over_link_end() {
    let nodes = parse("<p href=u>x</p><li href=v></li>");
    assert_eq!(nodes[0].to_output(), vec![link("u"), text("x"), OutputType::Newline]);
    assert_eq!(nodes[1].to_output(), vec![link("v"), OutputType::Newline]);
}

#[test]
fn raw_text_elements_give_no_events() {
    let nodes = parse("<div><script>a</script>b<style>c</style><a href=u><script>d</script></a></div>");
    assert_eq!(nodes[0].to_output(), vec![text("b"), link("u"), OutputType::EndLink]);
    let mut stray = Node {
        tag_name: "style".to_string(),
        attributes: Default::default(),
        children: Vec::new(),
        text_node: false,
    };
    stray.attributes.insert("href".to_string(), "u".to_string());
    stray.children.push(Box::new(Node {
        tag_name: "x".to_string(),
        attributes: Default::default(),
        children: Vec::new(),
        text_node: true,
    }));
    assert_eq!(stray.to_output(), vec![]);
}

#[test]
fn nested_links_in_document_order() {
    let nodes = parse("<div><a href=1>a<b>b</b></a>c<a href=2></a><span>d</span></div>");
    assert_eq!(
        nodes[0].to_output(),
        vec![
            link("1"),
            text("a"),
            text("b"),
            OutputType::EndLink,
            text("c"),
            link("2"),
            OutputType::EndLink,
            text("d")
        ]
    );
}
