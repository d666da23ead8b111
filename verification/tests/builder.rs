use tundra::builder::{open_element, parse_tokens, Document};
use tundra::node::{ElementNode, LayoutNode, TextNode};
use tundra::token::lex;
use tundra::tree::Tree;

fn build(source: &str) -> Document {
    parse_tokens(&lex(source))
}

fn tag_of(doc: &Document, index: usize) -> String {
    match doc.tree.get_layout_node(index) {
        LayoutNode::Element(element) => element.tag.clone(),
        LayoutNode::Text(_) => panic!("node {} is text", index),
    }
}

fn text_of(doc: &Document, index: usize) -> String {
    match doc.tree.get_layout_node(index) {
        LayoutNode::Text(text) => text.text.clone(),
        LayoutNode::Element(_) => panic!("node {} is an element", index),
    }
}

#[test]
fn element_new_has_tag_and_no_attributes() {
    let element = ElementNode::new("p".to_string());
    assert_eq!(element.tag, "p");
    assert_eq!(element.attributes.len(), 0);
}

#[test]
fn add_attr_last_write_wins() {
    let mut element = ElementNode::new("a".to_string());
    element.add_attr("href".to_string(), "one".to_string());
    element.add_attr("id".to_string(), "x".to_string());
    element.add_attr("href".to_string(), "two".to_string());
    assert_eq!(element.attributes.len(), 2);
    assert_eq!(element.attributes.get("href"), Some(&"two".to_string()));
    assert_eq!(element.attributes.get("id"), Some(&"x".to_string()));
    assert_eq!(element.tag, "a");
}

#[test]
fn text_node_new_keeps_text() {
    assert_eq!(TextNode::new(" a  b ".to_string()).text, " a  b ");
}

#[test]
fn tree_add_node_and_child() {
    let mut tree = Tree::new();
    assert_eq!(tree.len(), 0);
    let root = tree.add_node(LayoutNode::Element(ElementNode::new("p".to_string())));
    let a = tree.add_child(root, LayoutNode::Text(TextNode::new("a".to_string())));
    let b = tree.add_child(root, LayoutNode::Element(ElementNode::new("b".to_string())));
    let c = tree.add_child(b, LayoutNode::Text(TextNode::new("c".to_string())));
    assert_eq!((root, a, b, c), (0, 1, 2, 3));
    assert_eq!(tree.len(), 4);
    assert_eq!(tree.parent_of(root), None);
    assert_eq!(tree.parent_of(a), Some(root));
    assert_eq!(tree.parent_of(b), Some(root));
    assert_eq!(tree.parent_of(c), Some(b));
    assert_eq!(tree.parent_of(17), None);
    assert_eq!(tree.children_of(root), vec![a, b]);
    assert_eq!(tree.children_of(b), vec![c]);
    assert_eq!(tree.children_of(a), Vec::<usize>::new());
    assert_eq!(tree.children_of(17), Vec::<usize>::new());
}

#[test]
fn tree_children_keep_insertion_order() {
    let mut tree = Tree::new();
    let root = tree.add_node(LayoutNode::Element(ElementNode::new("ul".to_string())));
    let mut expected = Vec::new();
    for i in 0..10 {
        expected.push(tree.add_child(root, LayoutNode::Text(TextNode::new(i.to_string()))));
    }
    assert_eq!(tree.children_of(root), expected);
}

#[test]
fn paragraph_has_root_with_one_text_child() {
    let doc = build("<p>a</p>");
    assert_eq!(doc.root, Some(0));
    assert_eq!(doc.tree.len(), 2);
    assert_eq!(tag_of(&doc, 0), "p");
    assert_eq!(doc.tree.children_of(0), vec![1]);
    assert_eq!(text_of(&doc, 1), "a");
    assert_eq!(doc.tree.parent_of(1), Some(0));
}

#[test]
fn mismatched_close_keeps_root_and_text() {
    let doc = build("<p>a</div>");
    assert_eq!(doc.root, Some(0));
    assert_eq!(tag_of(&doc, 0), "p");
    assert_eq!(doc.tree.children_of(0), vec![1]);
    assert_eq!(text_of(&doc, 1), "a");
}

#[test]
fn void_element_never_becomes_current() {
    let doc = build("<p>a<br>b</p>");
    assert_eq!(doc.root, Some(0));
    assert_eq!(doc.tree.len(), 4);
    assert_eq!(doc.tree.children_of(0), vec![1, 2, 3]);
    assert_eq!(text_of(&doc, 1), "a");
    assert_eq!(tag_of(&doc, 2), "br");
    assert_eq!(text_of(&doc, 3), "b");
    assert_eq!(doc.tree.children_of(2), Vec::<usize>::new());
}

#[test]
fn link_and_meta_are_void_and_slash_closes() {
    let doc = build("<head><meta charset=utf8><link rel=x><img src=y /><title>t</title></head>");
    assert_eq!(doc.root, Some(0));
    assert_eq!(doc.tree.children_of(0), vec![1, 2, 3, 4]);
    assert_eq!(tag_of(&doc, 1), "meta");
    assert_eq!(tag_of(&doc, 2), "link");
    assert_eq!(tag_of(&doc, 3), "img");
    assert_eq!(tag_of(&doc, 4), "title");
    assert_eq!(doc.tree.children_of(4), vec![5]);
}

#[test]
fn empty_source_has_no_root() {
    let doc = build("");
    assert_eq!(doc.root, None);
    assert_eq!(doc.tree.len(), 0);
}

#[test]
fn text_without_open_element_is_discarded() {
    let doc = build("orphan<p>a</p>");
    assert_eq!(doc.root, Some(0));
    assert_eq!(doc.tree.len(), 2);
    assert_eq!(tag_of(&doc, 0), "p");
    assert_eq!(text_of(&doc, 1), "a");
}

#[test]
fn only_void_elements_give_no_root() {
    let doc = build("<br><br>");
    assert_eq!(doc.root, None);
    assert_eq!(doc.tree.len(), 2);
    assert_eq!(doc.tree.parent_of(1), None);
}

#[test]
fn stray_close_without_open_element_is_ignored() {
    let doc = build("</p><div>x</div>");
    assert_eq!(doc.root, Some(0));
    assert_eq!(tag_of(&doc, 0), "div");
    assert_eq!(doc.tree.children_of(0), vec![1]);
}

#[test]
fn close_pops_past_nested_elements() {
    let doc = build("<html><div><b><i>x</div><p>y</p></html>");
    assert_eq!(doc.root, Some(0));
    assert_eq!(tag_of(&doc, 1), "div");
    assert_eq!(tag_of(&doc, 5), "p");
    assert_eq!(doc.tree.parent_of(5), Some(0));
    assert_eq!(doc.tree.children_of(0), vec![1, 5]);
}

#[test]
fn stray_close_moves_up_one_level() {
    let doc = build("<html><div><b>x</span>y</div></html>");
    assert_eq!(tag_of(&doc, 2), "b");
    assert_eq!(text_of(&doc, 3), "x");
    assert_eq!(text_of(&doc, 4), "y");
    assert_eq!(doc.tree.parent_of(3), Some(2));
    assert_eq!(doc.tree.parent_of(4), Some(1));
}

#[test]
fn closing_a_parentless_element_leaves_the_open_element() {
    let doc = build("<html><p>x</html><b>y</b>");
    assert_eq!(doc.root, Some(0));
    assert_eq!(tag_of(&doc, 3), "b");
    assert_eq!(doc.tree.parent_of(3), Some(1));
}

#[test]
fn root_is_topmost_ancestor_of_last_open_element() {
    let doc = build("<html><body><p>unclosed<b>");
    assert_eq!(doc.root, Some(0));
    assert_eq!(doc.tree.len(), 5);
    assert_eq!(doc.tree.parent_of(3), Some(2));
    assert_eq!(doc.tree.parent_of(4), Some(2));
}

#[test]
fn tag_names_are_lowercased_and_match_closers() {
    let doc = build("<HTML><P>a</P><P>b</p></HTML>");
    assert_eq!(tag_of(&doc, 0), "html");
    assert_eq!(tag_of(&doc, 1), "p");
    assert_eq!(doc.tree.children_of(0), vec![1, 3]);
}

#[test]
fn tag_name_ends_at_first_whitespace() {
    let (element, closes) = open_element("a\thref=x");
    assert_eq!(element.tag, "a");
    assert_eq!(element.attributes.get("href"), Some(&"x".to_string()));
    assert!(!closes);
}

#[test]
fn attributes_are_parsed_with_lowercased_keys() {
    let (element, closes) = open_element("a href=\"x.html\" Class=big title=\"two words\"");
    assert_eq!(element.tag, "a");
    assert!(!closes);
    assert_eq!(element.attributes.len(), 3);
    assert_eq!(element.attributes.get("href"), Some(&"\"x.html\"".to_string()));
    assert_eq!(element.attributes.get("class"), Some(&"big".to_string()));
    assert_eq!(element.attributes.get("title"), Some(&"\"two words\"".to_string()));
}

#[test]
fn duplicate_attribute_keeps_last_value() {
    let (element, _) = open_element("p id=a ID=b");
    assert_eq!(element.attributes.len(), 1);
    assert_eq!(element.attributes.get("id"), Some(&"b".to_string()));
}

#[test]
fn unparsable_attribute_text_is_ignored() {
    let (element, closes) = open_element("p !!! = ??? /");
    assert_eq!(element.tag, "p");
    assert_eq!(element.attributes.len(), 0);
    assert!(closes);
}

#[test]
fn comment_tag_keeps_marker() {
    let (open, _) = open_element("!-- a comment --");
    assert_eq!(open.tag, "!----");
    let (start, _) = open_element("!-- start");
    assert_eq!(start.tag, "!--");
    let (end, _) = open_element("end--");
    assert_eq!(end.tag, "end----");
}

#[test]
fn self_closing_by_slash_or_void_name() {
    assert!(open_element("br").1);
    assert!(open_element("BR").1);
    assert!(open_element("link rel=x").1);
    assert!(open_element("meta").1);
    assert!(open_element("img/").1);
    assert!(open_element("img src=x /").1);
    assert!(!open_element("p").1);
    assert!(!open_element("brr").1);
}
