//! The nodes of a document tree: elements and runs of text.

use vstd::hash_map::StringHashMap;
use vstd::prelude::*;

verus! {

/// An element: its tag name and its attributes.
pub struct ElementNode {
    pub tag: String,
    pub attributes: StringHashMap<String>,
}

/// A run of character data between two tags, kept verbatim.
pub struct TextNode {
    pub text: String,
}

/// A node of the document tree.
pub enum LayoutNode {
    Element(ElementNode),
    Text(TextNode),
}

/// What a node is, as plain values.
pub enum NodeModel {
    Element { tag: Seq<char>, attributes: Map<Seq<char>, Seq<char>> },
    Text { text: Seq<char> },
}

impl ElementNode {
    /// The attributes as a map from key to value.
    pub open spec fn attrs(&self) -> Map<Seq<char>, Seq<char>> {
        self.attributes@.map_values(|v: String| v@)
    }

    /// An element named `tag` without attributes.
    pub fn new(tag: String) -> (e: ElementNode)
        ensures
            e.tag@ == tag@,
            e.attrs() == Map::<Seq<char>, Seq<char>>::empty(),
    {
        let e = ElementNode { tag, attributes: StringHashMap::new() };
        assert(e.attrs() =~= Map::<Seq<char>, Seq<char>>::empty());
        e
    }

    /// Sets attribute `k` to `v`; a later value for a key replaces an earlier one.
    pub fn add_attr(&mut self, k: String, v: String)
        ensures
            final(self).tag@ == old(self).tag@,
            final(self).attrs() == old(self).attrs().insert(k@, v@),
    {
        self.attributes.insert(k, v);
    }
}

impl TextNode {
    /// A text node that holds `text`.
    pub fn new(text: String) -> (t: TextNode)
        ensures
            t.text@ == text@,
    {
        TextNode { text }
    }
}

impl View for LayoutNode {
    type V = NodeModel;

    open spec fn view(&self) -> NodeModel {
        match self {
            LayoutNode::Element(e) => NodeModel::Element { tag: e.tag@, attributes: e.attrs() },
            LayoutNode::Text(t) => NodeModel::Text { text: t.text@ },
        }
    }
}

} // verus!
