//! The layout engine: a walk over the document tree that keeps a cursor and
//! a style, breaks lines, and places every visible word on the page.
//!
//! The engine measures nothing itself. The sizes of the words come from
//! the caller, one [`Measure`] for each word that the walk places, in the
//! order in which it places them; [`measure_requests`] tells which words
//! these are, and in which face each is set.

use crate::builder::{ends_with_dashes, Document};
use crate::layout_laws::lemma_every_page_places_the_requested_words;
use crate::node::{LayoutNode, NodeModel};
use crate::style::{
    font_style, font_style_of, item_models, line_height, sat_add, spaced, Color,
    DisplayListItem, FontStyle, ItemModel, Measure, LEFT_MARGIN, PARAGRAPH_GAP, RIGHT_MARGIN,
    TOP_MARGIN,
};
use crate::text::{chars_match, chars_of, split_words, views, words};
use crate::tree::{as_index, lemma_children_above, Tree, TreeModel};
use vstd::prelude::*;

verus! {

/// The cursor and the style of a layout pass.
#[derive(Clone, Copy, Debug, PartialEq, Eq)]
pub struct LayoutState {
    /// Where the next word goes.
    pub x: u64,
    pub y: u64,
    pub current_color: Color,
    pub bold: bool,
    pub italic: bool,
    pub underline: bool,
    /// Whether the space before the next word is already accounted for.
    pub terminal_space: bool,
    pub in_body: bool,
    pub in_comment: bool,
}

/// What an element's tag does to the style and the cursor.
#[derive(Clone, Copy, Debug, PartialEq, Eq)]
pub enum TagKind {
    Body,
    Italic,
    Bold,
    Heading,
    Anchor,
    Paragraph,
    LineBreak,
    Other,
}

/// The sizes of a single space in each of the four faces.
#[derive(Clone, Copy, Debug, PartialEq, Eq)]
pub struct SpaceMetrics {
    pub regular: Measure,
    pub bold: Measure,
    pub italic: Measure,
    pub bold_italic: Measure,
}

/// Why a layout pass could not use the measures that it was given.
#[derive(Clone, Copy, Debug, PartialEq, Eq)]
pub enum LayoutError {
    /// There are more words to place than measures.
    MissingMeasures,
    /// There are more measures than words to place.
    UnusedMeasures,
}

/// A word whose size the layout pass needs, and the face it is set in.
#[derive(Clone, Debug, PartialEq, Eq)]
pub struct MeasureRequest {
    pub text: String,
    pub font_style: FontStyle,
}

/// What a layout pass is given: the width of the window, the sizes of a
/// space, and the sizes of the words to place, in the order in which the
/// pass places them.
pub struct Page {
    pub window_width: u32,
    pub spaces: SpaceMetrics,
    pub measures: Vec<Measure>,
}

/// A page as plain values.
pub struct PageModel {
    pub window_width: u32,
    pub spaces: SpaceMetrics,
    pub measures: Seq<Measure>,
}

/// A layout pass at work: its cursor and style, and the words placed so
/// far.
pub struct Pass {
    pub state: LayoutState,
    pub display_list: Vec<DisplayListItem>,
}

/// A layout pass at some point of its walk, as plain values.
pub struct Run {
    pub state: LayoutState,
    pub items: Seq<ItemModel>,
}

impl View for Page {
    type V = PageModel;

    open spec fn view(&self) -> PageModel {
        PageModel {
            window_width: self.window_width,
            spaces: self.spaces,
            measures: self.measures@,
        }
    }
}

impl View for Pass {
    type V = Run;

    open spec fn view(&self) -> Run {
        Run { state: self.state, items: item_models(self.display_list@) }
    }
}

impl PageModel {
    /// The size of the `index`-th word to be placed. A word for which no
    /// measure was given has no size.
    pub open spec fn measure(self, index: int) -> Measure {
        if 0 <= index < self.measures.len() {
            self.measures[index]
        } else {
            Measure { width: 0, height: 0 }
        }
    }
}

impl Page {
    /// Executable form of [`PageModel::measure`].
    pub fn measure(&self, index: usize) -> (m: Measure)
        ensures
            m == self@.measure(index as int),
    {
        if index < self.measures.len() {
            self.measures[index]
        } else {
            Measure { width: 0, height: 0 }
        }
    }
}

impl Run {
    /// A pass before its first node.
    pub open spec fn start() -> Run {
        Run { state: LayoutState::initial(), items: Seq::empty() }
    }
}

/// A measure request as plain values.
pub struct RequestModel {
    pub text: Seq<char>,
    pub font_style: FontStyle,
}

impl View for MeasureRequest {
    type V = RequestModel;

    open spec fn view(&self) -> RequestModel {
        RequestModel { text: self.text@, font_style: self.font_style }
    }
}

/// The views of a sequence of measure requests.
pub open spec fn request_models(requests: Seq<MeasureRequest>) -> Seq<RequestModel> {
    requests.map_values(|r: MeasureRequest| r@)
}

impl PageModel {
    /// A page without width and without measures, on which a space has no
    /// size.
    pub open spec fn blank() -> PageModel {
        let nothing = Measure { width: 0, height: 0 };
        PageModel {
            window_width: 0,
            spaces: SpaceMetrics {
                regular: nothing,
                bold: nothing,
                italic: nothing,
                bold_italic: nothing,
            },
            measures: Seq::empty(),
        }
    }
}

/// What must be measured for a display list item: its word, in its face.
pub open spec fn request_of(item: ItemModel) -> RequestModel {
    RequestModel { text: item.text, font_style: item.font_style }
}

/// What must be measured for a display list, item by item.
pub open spec fn requests_of(items: Seq<ItemModel>) -> Seq<RequestModel> {
    items.map_values(|item: ItemModel| request_of(item))
}

/// The words that a layout pass over the document places, each with its
/// face, in the order in which the pass places them. They are read off a
/// pass on a blank page: which words are placed does not depend on the
/// page.
pub open spec fn requested(tree: TreeModel, root: Option<int>) -> Seq<RequestModel> {
    requests_of(document_laid_out(tree, root, PageModel::blank()).items)
}

impl SpaceMetrics {
    /// The size of a space in the face `style`.
    pub open spec fn of(self, style: FontStyle) -> Measure {
        match style {
            FontStyle::Regular => self.regular,
            FontStyle::Bold => self.bold,
            FontStyle::Italic => self.italic,
            FontStyle::BoldItalic => self.bold_italic,
        }
    }

    /// Executable form of [`SpaceMetrics::of`].
    pub fn get(&self, style: FontStyle) -> (m: Measure)
        ensures
            m == self.of(style),
    {
        match style {
            FontStyle::Regular => self.regular,
            FontStyle::Bold => self.bold,
            FontStyle::Italic => self.italic,
            FontStyle::BoldItalic => self.bold_italic,
        }
    }
}

impl LayoutState {
    /// The state in which a pass begins: the cursor in the top left corner
    /// of the page, plain text in the text colour, outside the body.
    pub open spec fn initial() -> LayoutState {
        LayoutState {
            x: LEFT_MARGIN,
            y: TOP_MARGIN,
            current_color: Color::Text,
            bold: false,
            italic: false,
            underline: false,
            terminal_space: true,
            in_body: false,
            in_comment: false,
        }
    }

    /// Executable form of [`LayoutState::initial`].
    pub fn new() -> (state: LayoutState)
        ensures
            state == LayoutState::initial(),
    {
        LayoutState {
            x: LEFT_MARGIN,
            y: TOP_MARGIN,
            current_color: Color::Text,
            bold: false,
            italic: false,
            underline: false,
            terminal_space: true,
            in_body: false,
            in_comment: false,
        }
    }

    /// The face that text is set in.
    pub open spec fn font(self) -> FontStyle {
        font_style_of(self.bold, self.italic)
    }

    /// Whether text is shown: inside the body and outside comments.
    pub open spec fn shows_text(self) -> bool {
        self.in_body && !self.in_comment
    }

    /// The state after a paragraph break: the cursor at the left margin,
    /// one spaced line of height `height` and the paragraph gap further
    /// down.
    pub open spec fn new_paragraph(self, height: u32) -> LayoutState {
        LayoutState {
            x: LEFT_MARGIN,
            y: sat_add(self.y, sat_add(line_height(height), PARAGRAPH_GAP)),
            ..self
        }
    }

    /// The state after an element tagged `tag` has been entered, where a
    /// line of plain text is `height` high.
    ///
    /// A tag that begins with `!--` begins a comment. Inside a comment no
    /// tag has any other effect.
    pub open spec fn opened(self, tag: Seq<char>, height: u32) -> LayoutState {
        let entered = if begins_comment(tag) {
            LayoutState { in_comment: true, ..self }
        } else {
            self
        };
        if entered.in_comment {
            entered
        } else {
            match tag_kind(tag) {
                TagKind::Body => LayoutState { in_body: true, ..entered },
                TagKind::Italic => LayoutState { italic: true, ..entered },
                TagKind::Bold => LayoutState { bold: true, ..entered },
                TagKind::Heading => LayoutState { bold: true, ..entered }.new_paragraph(height),
                TagKind::Anchor => LayoutState {
                    underline: true,
                    current_color: Color::Link,
                    ..entered
                },
                _ => entered,
            }
        }
    }

    /// The state after an element tagged `tag` has been left, where a line
    /// of plain text is `height` high.
    ///
    /// A tag that ends with `--` ends a comment and does nothing else.
    /// Inside a comment no other tag has any effect.
    pub open spec fn closed(self, tag: Seq<char>, height: u32) -> LayoutState {
        if ends_with_dashes(tag) {
            LayoutState { in_comment: false, ..self }
        } else if self.in_comment {
            self
        } else {
            match tag_kind(tag) {
                TagKind::Body => LayoutState { in_body: false, ..self },
                TagKind::Italic => LayoutState { italic: false, ..self },
                TagKind::Bold => LayoutState { bold: false, ..self },
                TagKind::Paragraph | TagKind::LineBreak => LayoutState {
                    terminal_space: true,
                    ..self
                }.new_paragraph(height),
                TagKind::Heading => LayoutState {
                    bold: false,
                    terminal_space: true,
                    ..self
                }.new_paragraph(height),
                TagKind::Anchor => LayoutState {
                    underline: false,
                    current_color: Color::Text,
                    ..self
                },
                TagKind::Other => self,
            }
        }
    }
}

/// Whether a tag begins with `!--`, as a comment does.
pub open spec fn begins_comment(tag: Seq<char>) -> bool {
    tag.len() >= 3 && tag[0] == '!' && tag[1] == '-' && tag[2] == '-'
}

/// The kind of an element by its tag.
pub open spec fn tag_kind(tag: Seq<char>) -> TagKind {
    if tag == "body"@ {
        TagKind::Body
    } else if tag == "i"@ {
        TagKind::Italic
    } else if tag == "b"@ {
        TagKind::Bold
    } else if tag == "h1"@ {
        TagKind::Heading
    } else if tag == "a"@ {
        TagKind::Anchor
    } else if tag == "p"@ {
        TagKind::Paragraph
    } else if tag == "br"@ {
        TagKind::LineBreak
    } else {
        TagKind::Other
    }
}

/// Executable form of [`tag_kind`], on the characters of a tag.
pub fn classify(tag: &Vec<char>) -> (kind: TagKind)
    ensures
        kind == tag_kind(tag@),
{
    if chars_match(tag, "body") {
        TagKind::Body
    } else if chars_match(tag, "i") {
        TagKind::Italic
    } else if chars_match(tag, "b") {
        TagKind::Bold
    } else if chars_match(tag, "h1") {
        TagKind::Heading
    } else if chars_match(tag, "a") {
        TagKind::Anchor
    } else if chars_match(tag, "p") {
        TagKind::Paragraph
    } else if chars_match(tag, "br") {
        TagKind::LineBreak
    } else {
        TagKind::Other
    }
}

/// Moves the cursor to the start of a new paragraph.
fn break_paragraph(state: &mut LayoutState, height: u32)
    ensures
        *final(state) == old(state).new_paragraph(height),
{
    state.x = LEFT_MARGIN;
    state.y = state.y.saturating_add(spaced(height).saturating_add(PARAGRAPH_GAP));
}

/// Enters an element tagged `tag`; `height` is the height of a line of
/// plain text.
pub fn layout_open(state: &mut LayoutState, tag: &str, height: u32)
    ensures
        *final(state) == old(state).opened(tag@, height),
{
    let chars = chars_of(tag);
    if chars.len() >= 3 && chars[0] == '!' && chars[1] == '-' && chars[2] == '-' {
        state.in_comment = true;
    }
    if state.in_comment {
        return ;
    }
    match classify(&chars) {
        TagKind::Body => {
            state.in_body = true;
        },
        TagKind::Italic => {
            state.italic = true;
        },
        TagKind::Bold => {
            state.bold = true;
        },
        TagKind::Heading => {
            state.bold = true;
            break_paragraph(state, height);
        },
        TagKind::Anchor => {
            state.underline = true;
            state.current_color = Color::Link;
        },
        _ => {},
    }
}

/// Leaves an element tagged `tag`; `height` is the height of a line of
/// plain text.
pub fn layout_close(state: &mut LayoutState, tag: &str, height: u32)
    ensures
        *final(state) == old(state).closed(tag@, height),
{
    let chars = chars_of(tag);
    let len = chars.len();
    if len >= 2 && chars[len - 1] == '-' && chars[len - 2] == '-' {
        state.in_comment = false;
        return ;
    }
    if state.in_comment {
        return ;
    }
    match classify(&chars) {
        TagKind::Body => {
            state.in_body = false;
        },
        TagKind::Italic => {
            state.italic = false;
        },
        TagKind::Bold => {
            state.bold = false;
        },
        TagKind::Paragraph | TagKind::LineBreak => {
            state.terminal_space = true;
            break_paragraph(state, height);
        },
        TagKind::Heading => {
            state.bold = false;
            state.terminal_space = true;
            break_paragraph(state, height);
        },
        TagKind::Anchor => {
            state.underline = false;
            state.current_color = Color::Text;
        },
        TagKind::Other => {},
    }
}

/// Whether a word of width `width` does not fit on the line of a cursor at
/// `x`: it would reach into the right margin of the window.
pub open spec fn overflows(x: u64, width: u32, window_width: u32) -> bool {
    x + width > window_width - RIGHT_MARGIN
}

/// The pass after one word has been placed. `gap` is the space to leave
/// after the word.
///
/// A word that does not fit on the line begins the next line: the cursor
/// returns to the left margin and moves down by the word's spaced height.
/// The word is placed at the cursor in the current face, colour and
/// underlining, however wide it is, and the cursor moves past it.
pub open spec fn word_placed(
    run: Run,
    word: Seq<char>,
    size: Measure,
    gap: u32,
    window_width: u32,
) -> Run {
    let state = run.state;
    let wrap = overflows(state.x, size.width, window_width);
    let x = if wrap {
        LEFT_MARGIN
    } else {
        state.x
    };
    let y = if wrap {
        sat_add(state.y, line_height(size.height))
    } else {
        state.y
    };
    Run {
        state: LayoutState { x: sat_add(x, (size.width + gap) as u64), y, ..state },
        items: run.items.push(
            ItemModel {
                x,
                y,
                text: word,
                font_style: state.font(),
                color: state.current_color,
                underline: state.underline,
            },
        ),
    }
}

/// The pass after the first `count` of `words` have been placed. A word
/// takes the next measure of the page: as many measures are used as words
/// are placed. A space of width `space` follows each word but the last of
/// `words`.
pub open spec fn words_placed(
    run: Run,
    words: Seq<Seq<char>>,
    count: nat,
    space: u32,
    page: PageModel,
) -> Run
    decreases count,
{
    if count == 0 || count > words.len() {
        run
    } else {
        let before = words_placed(run, words, (count - 1) as nat, space, page);
        let gap = if count == words.len() {
            0u32
        } else {
            space
        };
        word_placed(
            before,
            words[count - 1],
            page.measure(before.items.len() as int),
            gap,
            page.window_width,
        )
    }
}

/// Whether `text` begins with a space.
pub open spec fn begins_with_space(text: Seq<char>) -> bool {
    text.len() > 0 && text[0] == ' '
}

/// Whether `text` ends with a space.
pub open spec fn ends_with_space(text: Seq<char>) -> bool {
    text.len() > 0 && text.last() == ' '
}

/// The pass after a text node.
///
/// Outside the body and inside a comment, text changes nothing. Else its
/// words are placed one after the other. A space at the start of the text
/// moves the cursor by one space, unless the text before has already ended
/// with one. A space at the end does the same after the last word, and
/// tells the next text so.
pub open spec fn text_laid_out(run: Run, text: Seq<char>, page: PageModel) -> Run {
    let state = run.state;
    if !state.shows_text() {
        run
    } else {
        let space = page.spaces.of(state.font()).width;
        let start = if begins_with_space(text) && !state.terminal_space {
            Run { state: LayoutState { x: sat_add(state.x, space as u64), ..state }, ..run }
        } else {
            run
        };
        let all = words(text);
        let placed = words_placed(start, all, all.len(), space, page);
        let end = placed.state;
        Run {
            state: LayoutState {
                x: if ends_with_space(text) && all.len() > 0 {
                    sat_add(end.x, space as u64)
                } else {
                    end.x
                },
                terminal_space: ends_with_space(text),
                ..end
            },
            items: placed.items,
        }
    }
}

/// The pass after the first `count` of `children`, the children of
/// `parent`, have been walked in order.
pub open spec fn children_laid_out(
    tree: TreeModel,
    parent: int,
    children: Seq<int>,
    count: nat,
    run: Run,
    page: PageModel,
) -> Run
    decreases tree.nodes.len() - parent, 0nat, count,
{
    if count == 0 || count > children.len() {
        run
    } else {
        let before = children_laid_out(tree, parent, children, (count - 1) as nat, run, page);
        let child = children[count - 1];
        if parent < child < tree.nodes.len() {
            node_laid_out(tree, child, before, page)
        } else {
            before
        }
    }
}

/// The pass after the walk over `node` and all below it: a text node is
/// laid out; an element is entered, its children are walked in document
/// order, and it is left. The height of a line in paragraph breaks is that
/// of a space in the regular face.
pub open spec fn node_laid_out(tree: TreeModel, node: int, run: Run, page: PageModel) -> Run
    decreases tree.nodes.len() - node, 1nat, 0nat,
{
    if !(0 <= node < tree.nodes.len()) {
        run
    } else {
        match tree.nodes[node] {
            NodeModel::Text { text } => text_laid_out(run, text, page),
            NodeModel::Element { tag, .. } => {
                let height = page.spaces.regular.height;
                let entered = Run { state: run.state.opened(tag, height), ..run };
                let children = tree.children(node);
                let inner = children_laid_out(
                    tree,
                    node,
                    children,
                    children.len(),
                    entered,
                    page,
                );
                Run { state: inner.state.closed(tag, height), ..inner }
            },
        }
    }
}

/// The pass over a whole document: the walk from the root, or nothing at
/// all where there is no root.
pub open spec fn document_laid_out(tree: TreeModel, root: Option<int>, page: PageModel) -> Run {
    match root {
        Some(r) => node_laid_out(tree, r, Run::start(), page),
        None => Run::start(),
    }
}

/// Places one word; see [`word_placed`].
pub fn place_word(pass: &mut Pass, word: String, size: Measure, gap: u32, window_width: u32)
    ensures
        final(pass)@ == word_placed(old(pass)@, word@, size, gap, window_width),
{
    let reach = pass.state.x.saturating_add(size.width as u64).saturating_add(RIGHT_MARGIN);
    if reach > window_width as u64 {
        pass.state.y = pass.state.y.saturating_add(spaced(size.height));
        pass.state.x = LEFT_MARGIN;
    }
    let item = DisplayListItem {
        x: pass.state.x,
        y: pass.state.y,
        text: word,
        font_style: font_style(pass.state.bold, pass.state.italic),
        color: pass.state.current_color,
        underline: pass.state.underline,
    };
    let ghost before = pass.display_list@;
    pass.display_list.push(item);
    pass.state.x = pass.state.x.saturating_add(size.width as u64 + gap as u64);
    proof {
        assert(item_models(pass.display_list@) =~= item_models(before).push(item@));
    }
}

/// Lays out a text node; see [`text_laid_out`].
pub fn layout_text(pass: &mut Pass, text: &str, page: &Page)
    ensures
        final(pass)@ == text_laid_out(old(pass)@, text@, page@),
{
    if !pass.state.in_body || pass.state.in_comment {
        return ;
    }
    let chars = chars_of(text);
    let len = chars.len();
    let space = page.spaces.get(font_style(pass.state.bold, pass.state.italic)).width;
    if len > 0 && chars[0] == ' ' && !pass.state.terminal_space {
        pass.state.x = pass.state.x.saturating_add(space as u64);
    }
    let ghost start = pass@;
    let mut all = split_words(&chars);
    let count = all.len();
    let ghost texts = views(all@);
    let mut i: usize = 0;
    while i < count
        invariant
            i <= count,
            count == all.len(),
            texts.len() == count,
            forall|k: int| i <= k < count ==> (#[trigger] all@[k])@ == texts[k],
            pass@ == words_placed(start, texts, i as nat, space, page@),
        decreases count - i,
    {
        let gap = if i + 1 == count {
            0
        } else {
            space
        };
        let mut word = String::new();
        std::mem::swap(&mut word, &mut all[i]);
        let size = page.measure(pass.display_list.len());
        place_word(pass, word, size, gap, page.window_width);
        i = i + 1;
    }
    let trail = len > 0 && chars[len - 1] == ' ';
    if trail && count > 0 {
        pass.state.x = pass.state.x.saturating_add(space as u64);
    }
    pass.state.terminal_space = trail;
}

/// Walks `node` and all below it; see [`node_laid_out`].
pub fn layout(tree: &Tree, node: usize, page: &Page, pass: &mut Pass)
    requires
        tree.wf(),
    ensures
        final(pass)@ == node_laid_out(tree@, node as int, old(pass)@, page@),
    decreases tree@.nodes.len() - node,
{
    if node >= tree.len() {
        return ;
    }
    match tree.get_layout_node(node) {
        LayoutNode::Text(text) => {
            layout_text(pass, text.text.as_str(), page);
        },
        LayoutNode::Element(element) => {
            let height = page.spaces.regular.height;
            layout_open(&mut pass.state, element.tag.as_str(), height);
            let children = tree.children_of(node);
            let ghost entered = pass@;
            let ghost below = tree@.children(node as int);
            proof {
                lemma_children_above(tree@, node as int);
            }
            let mut i: usize = 0;
            while i < children.len()
                invariant
                    tree.wf(),
                    node < tree@.nodes.len(),
                    i <= children.len(),
                    children@.map_values(|c: usize| c as int) == below,
                    forall|k: int|
                        0 <= k < below.len() ==> node < (#[trigger] below[k]) < tree@.nodes.len(),
                    pass@ == children_laid_out(tree@, node as int, below, i as nat, entered, page@),
                decreases children.len() - i,
            {
                assert(below[i as int] == children@[i as int] as int);
                layout(tree, children[i], page, pass);
                i = i + 1;
            }
            layout_close(&mut pass.state, element.tag.as_str(), height);
        },
    }
}

/// The words whose measures a layout pass over `doc` needs; see
/// [`requested`].
pub fn measure_requests(doc: &Document) -> (requests: Vec<MeasureRequest>)
    requires
        doc.tree.wf(),
    ensures
        request_models(requests@) == requested(doc.tree@, as_index(doc.root)),
{
    let nothing = Measure { width: 0, height: 0 };
    let page = Page {
        window_width: 0,
        spaces: SpaceMetrics {
            regular: nothing,
            bold: nothing,
            italic: nothing,
            bold_italic: nothing,
        },
        measures: Vec::new(),
    };
    let mut pass = Pass { state: LayoutState::new(), display_list: Vec::new() };
    assert(pass@.items =~= Seq::<ItemModel>::empty());
    if let Some(root) = doc.root {
        layout(&doc.tree, root, &page, &mut pass);
    }
    let mut list = pass.display_list;
    let ghost items = item_models(list@);
    let mut requests: Vec<MeasureRequest> = Vec::new();
    let mut i: usize = 0;
    while i < list.len()
        invariant
            i <= list.len(),
            items.len() == list.len(),
            forall|k: int| i <= k < list.len() ==> (#[trigger] list@[k])@ == items[k],
            requests@.len() == i,
            forall|k: int| 0 <= k < i ==> (#[trigger] requests@[k])@ == request_of(items[k]),
        decreases list.len() - i,
    {
        let mut text = String::new();
        std::mem::swap(&mut text, &mut list[i].text);
        requests.push(MeasureRequest { text, font_style: list[i].font_style });
        i = i + 1;
    }
    requests
}

/// Lays out a document on a page.
///
/// The page must hold one measure for each word that the pass places, as
/// [`measure_requests`] lists them: the result is the display list exactly
/// where every word found its measure and every measure its word, and
/// else the error that says which were too few.
pub fn layout_document(doc: &Document, page: &Page) -> (result: Result<
    Vec<DisplayListItem>,
    LayoutError,
>)
    requires
        doc.tree.wf(),
    ensures
        ({
            let root = as_index(doc.root);
            let needed = requested(doc.tree@, root).len();
            match result {
                Ok(list) => page@.measures.len() == needed && item_models(list@)
                    == document_laid_out(doc.tree@, root, page@).items,
                Err(LayoutError::MissingMeasures) => page@.measures.len() < needed,
                Err(LayoutError::UnusedMeasures) => page@.measures.len() > needed,
            }
        }),
{
    proof {
        lemma_every_page_places_the_requested_words(doc.tree@, as_index(doc.root), page@);
    }
    let mut pass = Pass { state: LayoutState::new(), display_list: Vec::new() };
    assert(pass@.items =~= Seq::<ItemModel>::empty());
    if let Some(root) = doc.root {
        layout(&doc.tree, root, page, &mut pass);
    }
    let placed = pass.display_list.len();
    if placed > page.measures.len() {
        Err(LayoutError::MissingMeasures)
    } else if placed < page.measures.len() {
        Err(LayoutError::UnusedMeasures)
    } else {
        Ok(pass.display_list)
    }
}

} // verus!
