//! The tree builder: a token sequence to a document tree.
//!
//! The builder never fails. Markup whose tags do not nest is repaired by
//! fixed rules, stated in [`close_tag`]; text that arrives while no element
//! is open is discarded.

use crate::attributes::{attributes_in, parse_attributes};
use crate::node::{ElementNode, LayoutNode, NodeModel, TextNode};
use crate::text::{
    chars_match, chars_of, copy_range, leading_word, leading_word_len, lowercase,
    string_from_chars, to_lowercase,
};
use crate::token::{token_models, Token, TokenModel};
use crate::tree::{
    as_index, lemma_children_above, lemma_newest_source_is_edge, lemma_parent_below,
    lemma_with_child_wf, lemma_with_node_wf, Tree, TreeModel,
};
use vstd::prelude::*;
use vstd::string::StringExecFns;

verus! {

/// Whether a tag's content begins with `/`: the tag closes an element.
pub open spec fn is_closing(raw: Seq<char>) -> bool {
    raw.len() > 0 && raw[0] == '/'
}

/// Whether a tag's content ends with `/`.
pub open spec fn ends_with_slash(raw: Seq<char>) -> bool {
    raw.len() > 0 && raw.last() == '/'
}

/// Whether a tag's content ends with `--`, as the end of a comment does.
pub open spec fn ends_with_dashes(raw: Seq<char>) -> bool {
    raw.len() >= 2 && raw[raw.len() - 1] == '-' && raw[raw.len() - 2] == '-'
}

/// The name in an opening tag: its content up to the first whitespace.
pub open spec fn tag_name(raw: Seq<char>) -> Seq<char> {
    raw.take(leading_word(raw) as int)
}

/// Whether anything, if only whitespace, follows the name.
pub open spec fn has_attribute_text(raw: Seq<char>) -> bool {
    leading_word(raw) < raw.len()
}

/// What follows the name and the whitespace character after it.
pub open spec fn attribute_text(raw: Seq<char>) -> Seq<char> {
    raw.skip(leading_word(raw) as int + 1)
}

/// Whether `name` names an element that never has children.
pub open spec fn is_void(name: Seq<char>) -> bool {
    name == "br"@ || name == "link"@ || name == "meta"@
}

/// Whether an opening tag closes its own element: it ends with `/` or names
/// a void element.
pub open spec fn is_self_closing(raw: Seq<char>) -> bool {
    ends_with_slash(raw) || is_void(lowercase(tag_name(raw)))
}

/// The tag that the element of an opening tag carries: the lowercased name,
/// followed by `--` where the tag's content ends with `--`, so that the end
/// of a comment can be told from the element alone.
pub open spec fn element_tag(raw: Seq<char>) -> Seq<char> {
    if ends_with_dashes(raw) {
        lowercase(tag_name(raw)) + "--"@
    } else {
        lowercase(tag_name(raw))
    }
}

/// The element that an opening tag stands for.
pub open spec fn element_of(raw: Seq<char>) -> NodeModel {
    NodeModel::Element {
        tag: element_tag(raw),
        attributes: if has_attribute_text(raw) {
            attributes_in(attribute_text(raw))
        } else {
            Map::empty()
        },
    }
}

/// The name that a closing tag asks for: its content after the `/`,
/// lowercased as the names of elements are.
pub open spec fn closing_name(raw: Seq<char>) -> Seq<char> {
    lowercase(raw.skip(1))
}

/// Whether the node at `index` is an element that can have children: one
/// whose tag does not name a void element.
pub open spec fn can_have_children(tree: TreeModel, index: int) -> bool {
    0 <= index < tree.nodes.len() && match tree.nodes[index] {
        NodeModel::Element { tag, .. } => !is_void(tag),
        NodeModel::Text { .. } => false,
    }
}

/// Whether the node at `index` is an element tagged `name`.
pub open spec fn is_element_named(tree: TreeModel, index: int, name: Seq<char>) -> bool {
    0 <= index < tree.nodes.len() && match tree.nodes[index] {
        NodeModel::Element { tag, .. } => tag == name,
        NodeModel::Text { .. } => false,
    }
}

/// The nearest element tagged `name` among `node` and its ancestors.
pub open spec fn matching_ancestor(tree: TreeModel, node: int, name: Seq<char>) -> Option<int>
    decreases node,
{
    if node < 0 {
        None
    } else if is_element_named(tree, node, name) {
        Some(node)
    } else {
        match tree.parent(node) {
            Some(p) => if 0 <= p < node {
                matching_ancestor(tree, p, name)
            } else {
                None
            },
            None => None,
        }
    }
}

/// The node reached from `node` by following parents as far as they go.
pub open spec fn topmost(tree: TreeModel, node: int) -> int
    decreases node,
{
    match tree.parent(node) {
        Some(p) => if 0 <= p < node {
            topmost(tree, p)
        } else {
            node
        },
        None => node,
    }
}

/// The builder between two tokens: the tree so far and the open element
/// that takes the next child.
pub struct BuildState {
    pub tree: TreeModel,
    pub current: Option<int>,
}

impl BuildState {
    /// Before the first token: nothing built, nothing open.
    pub open spec fn start() -> BuildState {
        BuildState { tree: TreeModel::empty(), current: None }
    }

    /// The tree is well formed, and the open element and every parent are
    /// elements that can have children.
    pub open spec fn wf(self) -> bool {
        &&& self.tree.wf()
        &&& match self.current {
            Some(c) => can_have_children(self.tree, c),
            None => true,
        }
        &&& forall|k: int|
            0 <= k < self.tree.edges.len() ==> can_have_children(
                self.tree,
                (#[trigger] self.tree.edges[k]).0,
            )
    }

    /// The root of the tree: the topmost ancestor of the open element, or
    /// none where no element was ever opened.
    pub open spec fn root(self) -> Option<int> {
        match self.current {
            Some(c) => Some(topmost(self.tree, c)),
            None => None,
        }
    }
}

/// A text token becomes the last child of the open element. Where no
/// element is open, the text is discarded.
pub open spec fn text_token(state: BuildState, text: Seq<char>) -> BuildState {
    match state.current {
        Some(c) => BuildState {
            tree: state.tree.with_child(c, NodeModel::Text { text }),
            current: state.current,
        },
        None => state,
    }
}

/// An opening tag becomes an element: the last child of the open element,
/// or a node without a parent where none is open. Unless the tag closes
/// itself, the new element is then the open one.
pub open spec fn open_tag(state: BuildState, raw: Seq<char>) -> BuildState {
    let index = state.tree.nodes.len() as int;
    BuildState {
        tree: match state.current {
            Some(c) => state.tree.with_child(c, element_of(raw)),
            None => state.tree.with_node(element_of(raw)),
        },
        current: if is_self_closing(raw) {
            state.current
        } else {
            Some(index)
        },
    }
}

/// A closing tag closes the nearest element of its name among the open
/// element and its ancestors: that element's parent becomes the open
/// element. Where no such element is found, the tag closes the open element
/// instead. Either way, an element without a parent stays open: the open
/// element is left as it is.
pub open spec fn close_tag(state: BuildState, raw: Seq<char>) -> BuildState {
    match state.current {
        Some(c) => {
            let closed = match matching_ancestor(state.tree, c, closing_name(raw)) {
                Some(found) => found,
                None => c,
            };
            match state.tree.parent(closed) {
                Some(p) => BuildState { tree: state.tree, current: Some(p) },
                None => state,
            }
        },
        None => state,
    }
}

/// The builder after one more token.
pub open spec fn step(state: BuildState, token: TokenModel) -> BuildState {
    match token {
        TokenModel::Text(text) => text_token(state, text),
        TokenModel::Tag(raw) => if is_closing(raw) {
            close_tag(state, raw)
        } else {
            open_tag(state, raw)
        },
    }
}

/// The builder after all of `tokens`, taken in order.
pub open spec fn build(tokens: Seq<TokenModel>) -> BuildState
    decreases tokens.len(),
{
    if tokens.len() == 0 {
        BuildState::start()
    } else {
        step(build(tokens.drop_last()), tokens.last())
    }
}

/// Adding a child below an element keeps every parent an element.
proof fn lemma_child_keeps_parents(state: BuildState, parent: int, child: NodeModel)
    requires
        state.wf(),
        can_have_children(state.tree, parent),
    ensures
        ({
            let tree = state.tree.with_child(parent, child);
            &&& tree.wf()
            &&& forall|k: int|
                0 <= k < tree.edges.len() ==> can_have_children(tree, (#[trigger] tree.edges[k]).0)
            &&& forall|i: int| can_have_children(state.tree, i) ==> can_have_children(tree, i)
        }),
{
    let tree = state.tree.with_child(parent, child);
    lemma_with_child_wf(state.tree, parent, child);
    assert forall|i: int| can_have_children(state.tree, i) implies can_have_children(tree, i) by {
        assert(tree.nodes[i] == state.tree.nodes[i]);
    }
    assert forall|k: int| 0 <= k < tree.edges.len() implies can_have_children(
        tree,
        (#[trigger] tree.edges[k]).0,
    ) by {
        if k < state.tree.edges.len() {
            assert(tree.edges[k] == state.tree.edges[k]);
        }
    }
}

/// Each token adds at most one node and keeps the builder well formed.
pub proof fn lemma_step_wf(state: BuildState, token: TokenModel)
    requires
        state.wf(),
    ensures
        step(state, token).wf(),
        state.tree.nodes.len() <= step(state, token).tree.nodes.len() <= state.tree.nodes.len()
            + 1,
{
    match token {
        TokenModel::Text(text) => {
            if let Some(c) = state.current {
                lemma_child_keeps_parents(state, c, NodeModel::Text { text });
            }
        },
        TokenModel::Tag(raw) => {
            if is_closing(raw) {
                if let Some(c) = state.current {
                    let closed = match matching_ancestor(state.tree, c, closing_name(raw)) {
                        Some(found) => found,
                        None => c,
                    };
                    lemma_parent_below(state.tree, closed);
                    lemma_newest_source_is_edge(state.tree.edges, closed);
                }
            } else {
                let after = step(state, token);
                if !is_self_closing(raw) {
                    lemma_open_element_is_not_void(raw);
                }
                match state.current {
                    Some(c) => {
                        lemma_child_keeps_parents(state, c, element_of(raw));
                    },
                    None => {
                        lemma_with_node_wf(state.tree, element_of(raw));
                        assert forall|k: int|
                            0 <= k < after.tree.edges.len() implies can_have_children(
                            after.tree,
                            (#[trigger] after.tree.edges[k]).0,
                        ) by {
                            assert(can_have_children(state.tree, state.tree.edges[k].0));
                        }
                    },
                }
            }
        },
    }
}

/// The element of a tag that does not close itself can have children.
pub proof fn lemma_open_element_is_not_void(raw: Seq<char>)
    requires
        !is_self_closing(raw),
    ensures
        !is_void(element_tag(raw)),
{
    reveal_strlit("br");
    reveal_strlit("link");
    reveal_strlit("meta");
    reveal_strlit("--");
    let tag = element_tag(raw);
    if ends_with_dashes(raw) {
        assert(tag[tag.len() - 1] == '-');
    }
}

/// A node with children can have children: in no tree that the builder
/// builds does a void element have a child.
pub proof fn lemma_void_elements_have_no_children(tokens: Seq<TokenModel>, node: int)
    requires
        build(tokens).tree.children(node).len() > 0,
    ensures
        can_have_children(build(tokens).tree, node),
{
    let tree = build(tokens).tree;
    lemma_build_wf(tokens);
    lemma_children_above(tree, node);
    let child = tree.children(node)[0];
    lemma_newest_source_is_edge(tree.edges, child);
    let k = choose|k: int| 0 <= k < tree.edges.len() && tree.edges[k] == (node, child);
    assert(can_have_children(tree, tree.edges[k].0));
}

/// In a well-formed builder the topmost ancestor of an element is an
/// element without a parent.
pub proof fn lemma_topmost_is_root(state: BuildState, node: int)
    requires
        state.wf(),
        can_have_children(state.tree, node),
    ensures
        can_have_children(state.tree, topmost(state.tree, node)),
        state.tree.parent(topmost(state.tree, node)) is None,
    decreases node,
{
    lemma_parent_below(state.tree, node);
    lemma_newest_source_is_edge(state.tree.edges, node);
    if let Some(p) = state.tree.parent(node) {
        lemma_topmost_is_root(state, p);
    }
}

/// The builder is well formed after any tokens, and has at most one node
/// for each of them.
pub proof fn lemma_build_wf(tokens: Seq<TokenModel>)
    ensures
        build(tokens).wf(),
        build(tokens).tree.nodes.len() <= tokens.len(),
    decreases tokens.len(),
{
    if tokens.len() > 0 {
        lemma_build_wf(tokens.drop_last());
        lemma_step_wf(build(tokens.drop_last()), tokens.last());
    }
}

/// A document: its tree and the index of the root, if an element was ever
/// opened.
pub struct Document {
    pub tree: Tree,
    pub root: Option<usize>,
}

/// Builds the element of an opening tag and tells whether the tag closes
/// itself.
pub fn open_element(raw: &str) -> (out: (ElementNode, bool))
    ensures
        LayoutNode::Element(out.0)@ == element_of(raw@),
        out.1 == is_self_closing(raw@),
{
    let chars = chars_of(raw);
    let len = chars.len();
    let n = leading_word_len(&chars);
    let name = copy_range(&chars, 0, n);
    assert(name@ == tag_name(raw@));
    let lower = to_lowercase(string_from_chars(&name).as_str());
    let lower_chars = chars_of(lower.as_str());
    let void = chars_match(&lower_chars, "br") || chars_match(&lower_chars, "link") || chars_match(
        &lower_chars,
        "meta",
    );
    let slash = len > 0 && chars[len - 1] == '/';
    let dashes = len >= 2 && chars[len - 1] == '-' && chars[len - 2] == '-';
    let tag = if dashes {
        lower.concat("--")
    } else {
        lower
    };
    let mut element = ElementNode::new(tag);
    if n < len {
        let rest = string_from_chars(&copy_range(&chars, n + 1, len));
        assert(rest@ == attribute_text(raw@));
        parse_attributes(&mut element, rest.as_str());
    }
    (element, slash || void)
}

/// Whether the node at `index` is an element tagged `name`.
fn element_named(tree: &Tree, index: usize, name: &String) -> (r: bool)
    requires
        index < tree@.nodes.len(),
    ensures
        r == is_element_named(tree@, index as int, name@),
{
    match tree.get_layout_node(index) {
        LayoutNode::Element(element) => element.tag == *name,
        LayoutNode::Text(_) => false,
    }
}

/// The nearest element tagged `name` among `node` and its ancestors.
fn find_matching_ancestor(tree: &Tree, node: usize, name: &String) -> (found: Option<usize>)
    requires
        tree.wf(),
        node < tree@.nodes.len(),
    ensures
        as_index(found) == matching_ancestor(tree@, node as int, name@),
        found matches Some(f) ==> f < tree@.nodes.len(),
{
    let mut at: usize = node;
    loop
        invariant
            tree.wf(),
            at < tree@.nodes.len(),
            matching_ancestor(tree@, node as int, name@) == matching_ancestor(
                tree@,
                at as int,
                name@,
            ),
        decreases at,
    {
        if element_named(tree, at, name) {
            return Some(at);
        }
        proof {
            lemma_parent_below(tree@, at as int);
        }
        match tree.parent_of(at) {
            Some(p) => {
                at = p;
            },
            None => {
                return None;
            },
        }
    }
}

/// The node reached from `node` by following parents as far as they go.
fn find_topmost(tree: &Tree, node: usize) -> (top: usize)
    requires
        tree.wf(),
        node < tree@.nodes.len(),
    ensures
        top == topmost(tree@, node as int),
        top < tree@.nodes.len(),
{
    let mut at: usize = node;
    loop
        invariant
            tree.wf(),
            at < tree@.nodes.len(),
            topmost(tree@, node as int) == topmost(tree@, at as int),
        decreases at,
    {
        proof {
            lemma_parent_below(tree@, at as int);
        }
        match tree.parent_of(at) {
            Some(p) => {
                at = p;
            },
            None => {
                return at;
            },
        }
    }
}

/// Builds the document tree of `tokens`.
///
/// Never fails: what the tree is for markup whose tags do not nest is
/// stated by [`step`]. The tree has room for `Tree::MAX_NODES` nodes, one
/// for each token at most.
pub fn parse_tokens(tokens: &Vec<Token>) -> (doc: Document)
    requires
        tokens.len() <= Tree::MAX_NODES,
    ensures
        doc.tree.wf(),
        doc.tree@ == build(token_models(tokens@)).tree,
        as_index(doc.root) == build(token_models(tokens@)).root(),
        doc.root matches Some(r) ==> can_have_children(doc.tree@, r as int),
        doc.root matches Some(r) ==> doc.tree@.parent(r as int) is None,
{
    let mut tree = Tree::new();
    let mut current: Option<usize> = None;
    let ghost models = token_models(tokens@);
    let mut i: usize = 0;
    assert(models.take(0) =~= Seq::<TokenModel>::empty());
    while i < tokens.len()
        invariant
            i <= tokens.len() <= Tree::MAX_NODES,
            models == token_models(tokens@),
            tree.wf(),
            tree@ == build(models.take(i as int)).tree,
            as_index(current) == build(models.take(i as int)).current,
        decreases tokens.len() - i,
    {
        proof {
            lemma_build_wf(models.take(i as int));
            assert(models.take(i + 1).drop_last() =~= models.take(i as int));
        }
        match &tokens[i] {
            Token::Text(text) => {
                if let Some(c) = current {
                    tree.add_child(c, LayoutNode::Text(TextNode::new(text.clone())));
                }
            },
            Token::Tag(raw) => {
                let chars = chars_of(raw.as_str());
                if chars.len() > 0 && chars[0] == '/' {
                    if let Some(c) = current {
                        let rest = string_from_chars(&copy_range(&chars, 1, chars.len()));
                        let name = to_lowercase(rest.as_str());
                        assert(name@ == closing_name(raw@));
                        let closed = match find_matching_ancestor(&tree, c, &name) {
                            Some(found) => found,
                            None => c,
                        };
                        if let Some(p) = tree.parent_of(closed) {
                            current = Some(p);
                        }
                    }
                } else {
                    let (element, self_closing) = open_element(raw.as_str());
                    let index = match current {
                        Some(c) => tree.add_child(c, LayoutNode::Element(element)),
                        None => tree.add_node(LayoutNode::Element(element)),
                    };
                    if !self_closing {
                        current = Some(index);
                    }
                }
            },
        }
        i = i + 1;
    }
    assert(models.take(i as int) =~= models);
    proof {
        lemma_build_wf(models);
        if let Some(c) = build(models).current {
            lemma_topmost_is_root(build(models), c);
        }
    }
    let root = match current {
        Some(c) => Some(find_topmost(&tree, c)),
        None => None,
    };
    Document { tree, root }
}

} // verus!
