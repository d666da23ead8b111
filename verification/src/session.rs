//! A browsing session: one document in one window, from its markup to the
//! items that the window shows.
//!
//! The session decides; it neither reads input nor draws. Whoever runs the
//! window hands it the markup, the measures of the words and the events,
//! and draws what [`Tundra::visible`] lists.

use crate::builder::{build, parse_tokens, Document};
use crate::layout::{
    document_laid_out, layout_document, measure_requests, request_models, requested,
    LayoutError, MeasureRequest, Page, PageModel, SpaceMetrics,
};
use crate::scroll::{
    clamp_scroll, clamped, scroll_down, scroll_limit, scroll_up, scrolled, visible_among,
    visible_items, ScrollCommand,
};
use crate::style::{item_models, DisplayListItem, ItemModel, Measure};
use crate::token::{lex, token_models, tokens_of};
use crate::tree::{as_index, Tree, TreeModel};
use vstd::prelude::*;

verus! {

/// The width of a window when it opens.
pub const INIT_WIDTH: u32 = 800;

/// The height of a window when it opens.
pub const INIT_HEIGHT: u32 = 600;

/// What the window reports to the session.
#[derive(Clone, Copy, Debug, PartialEq, Eq)]
pub enum WindowEvent {
    /// The window was asked to close.
    CloseRequested,
    /// The escape key was pressed.
    EscapePressed,
    /// The down key was pressed.
    DownPressed,
    /// The up key was pressed.
    UpPressed,
    /// Anything else.
    Other,
}

/// Whether the event loop goes on.
#[derive(Clone, Copy, Debug, PartialEq, Eq)]
pub enum Flow {
    Continue,
    Quit,
}

/// A browsing session.
pub struct Tundra {
    window_width: u32,
    window_height: u32,
    scroll_y: u64,
    document: Document,
    display_list: Vec<DisplayListItem>,
}

impl Tundra {
    /// The tree is well formed, the root is one of its nodes, and the page
    /// is not scrolled out of bounds.
    pub closed spec fn wf(&self) -> bool {
        &&& self.document.tree.wf()
        &&& self.scroll_y <= scroll_limit(item_models(self.display_list@), self.window_height)
    }

    /// The width of the window.
    pub closed spec fn width(&self) -> u32 {
        self.window_width
    }

    /// The height of the window.
    pub closed spec fn height(&self) -> u32 {
        self.window_height
    }

    /// How far the page is scrolled.
    pub closed spec fn scroll(&self) -> u64 {
        self.scroll_y
    }

    /// The document tree.
    pub closed spec fn tree(&self) -> TreeModel {
        self.document.tree@
    }

    /// The root of the document.
    pub closed spec fn root(&self) -> Option<int> {
        as_index(self.document.root)
    }

    /// The display list.
    pub closed spec fn items(&self) -> Seq<ItemModel> {
        item_models(self.display_list@)
    }

    /// The largest offset to which the page can be scrolled.
    pub open spec fn limit(&self) -> u64 {
        scroll_limit(self.items(), self.height())
    }

    /// The scroll offset lies within its bounds.
    pub proof fn lemma_scroll_in_bounds(&self)
        requires
            self.wf(),
        ensures
            0 <= self.scroll() <= self.limit(),
    {
    }

    /// A session in a window of the initial size, without a document.
    pub fn new() -> (session: Tundra)
        ensures
            session.wf(),
            session.width() == INIT_WIDTH,
            session.height() == INIT_HEIGHT,
            session.scroll() == 0,
            session.tree() == TreeModel::empty(),
            session.root() is None,
            session.items() == Seq::<ItemModel>::empty(),
    {
        let session = Tundra {
            window_width: INIT_WIDTH,
            window_height: INIT_HEIGHT,
            scroll_y: 0,
            document: Document { tree: Tree::new(), root: None },
            display_list: Vec::new(),
        };
        session
    }

    /// Reads a document from its markup. The display list is emptied, and
    /// the page is at its top, until the document is laid out.
    ///
    /// Markup with more tokens than a tree has room for nodes is refused:
    /// the result is `false` and the session is left as it was.
    pub fn load(&mut self, source: &str) -> (loaded: bool)
        requires
            old(self).wf(),
        ensures
            final(self).wf(),
            final(self).width() == old(self).width(),
            final(self).height() == old(self).height(),
            loaded == (tokens_of(source@).len() <= Tree::MAX_NODES),
            loaded ==> {
                &&& final(self).tree() == build(tokens_of(source@)).tree
                &&& final(self).root() == build(tokens_of(source@)).root()
                &&& final(self).items() == Seq::<ItemModel>::empty()
                &&& final(self).scroll() == 0
            },
            !loaded ==> *final(self) == *old(self),
    {
        let tokens = lex(source);
        assert(token_models(tokens@).len() == tokens@.len());
        if tokens.len() > Tree::MAX_NODES {
            return false;
        }
        self.document = parse_tokens(&tokens);
        self.display_list = Vec::new();
        self.scroll_y = 0;
        true
    }

    /// The words whose measures a layout of the document needs.
    pub fn measure_requests(&self) -> (requests: Vec<MeasureRequest>)
        requires
            self.wf(),
        ensures
            request_models(requests@) == requested(self.tree(), self.root()),
    {
        measure_requests(&self.document)
    }

    /// Whether the window has another size than the one the session knows,
    /// so that the document must be laid out again.
    pub fn needs_layout(&self, width: u32, height: u32) -> (needed: bool)
        ensures
            needed == (width != self.width() || height != self.height()),
    {
        width != self.window_width || height != self.window_height
    }

    /// Lays the document out for a window of the given size, from a fresh
    /// layout state, and brings the scroll offset back into bounds.
    ///
    /// `measures` must answer [`Tundra::measure_requests`] one for one. Where
    /// they do not, the result is the error and the session is left as it
    /// was but for the size of the window and an empty display list.
    pub fn layout(
        &mut self,
        width: u32,
        height: u32,
        spaces: SpaceMetrics,
        measures: Vec<Measure>,
    ) -> (result: Result<(), LayoutError>)
        requires
            old(self).wf(),
        ensures
            final(self).wf(),
            final(self).width() == width,
            final(self).height() == height,
            final(self).tree() == old(self).tree(),
            final(self).root() == old(self).root(),
            ({
                let page = PageModel { window_width: width, spaces, measures: measures@ };
                let needed = requested(old(self).tree(), old(self).root()).len();
                match result {
                    Ok(()) => {
                        &&& measures@.len() == needed
                        &&& final(self).items() == document_laid_out(
                            old(self).tree(),
                            old(self).root(),
                            page,
                        ).items
                        &&& final(self).scroll() == clamped(old(self).scroll(), final(self).limit())
                    },
                    Err(LayoutError::MissingMeasures) => {
                        &&& measures@.len() < needed
                        &&& final(self).items() == Seq::<ItemModel>::empty()
                        &&& final(self).scroll() == 0
                    },
                    Err(LayoutError::UnusedMeasures) => {
                        &&& measures@.len() > needed
                        &&& final(self).items() == Seq::<ItemModel>::empty()
                        &&& final(self).scroll() == 0
                    },
                }
            }),
    {
        let page = Page { window_width: width, spaces, measures };
        self.window_width = width;
        self.window_height = height;
        match layout_document(&self.document, &page) {
            Ok(list) => {
                self.display_list = list;
                self.scroll_y = clamp_scroll(self.scroll_y, &self.display_list, height);
                Ok(())
            },
            Err(e) => {
                self.display_list = Vec::new();
                self.scroll_y = 0;
                Err(e)
            },
        }
    }

    /// Scrolls one step down, but not past the bottom of the page.
    pub fn scroll_down(&mut self)
        requires
            old(self).wf(),
        ensures
            final(self).wf(),
            final(self).scroll() == scrolled(
                old(self).scroll(),
                ScrollCommand::Down,
                old(self).limit(),
            ),
            final(self).same_page(*old(self)),
    {
        self.scroll_y = scroll_down(self.scroll_y, &self.display_list, self.window_height);
    }

    /// Scrolls one step up, but not past the top of the page.
    pub fn scroll_up(&mut self)
        requires
            old(self).wf(),
        ensures
            final(self).wf(),
            final(self).scroll() == scrolled(
                old(self).scroll(),
                ScrollCommand::Up,
                old(self).limit(),
            ),
            final(self).same_page(*old(self)),
    {
        self.scroll_y = scroll_up(self.scroll_y, &self.display_list, self.window_height);
    }

    /// Whether two sessions show the same document, laid out alike, in
    /// windows of the same size; they may be scrolled differently.
    pub open spec fn same_page(&self, other: Tundra) -> bool {
        &&& self.width() == other.width()
        &&& self.height() == other.height()
        &&& self.tree() == other.tree()
        &&& self.root() == other.root()
        &&& self.items() == other.items()
    }

    /// Takes one event of the window: the arrow keys scroll, a request to
    /// close and the escape key end the session, nothing else has any
    /// effect.
    pub fn handle(&mut self, event: WindowEvent) -> (flow: Flow)
        requires
            old(self).wf(),
        ensures
            final(self).wf(),
            final(self).same_page(*old(self)),
            flow == (match event {
                WindowEvent::CloseRequested | WindowEvent::EscapePressed => Flow::Quit,
                _ => Flow::Continue,
            }),
            final(self).scroll() == (match event {
                WindowEvent::DownPressed => scrolled(
                    old(self).scroll(),
                    ScrollCommand::Down,
                    old(self).limit(),
                ),
                WindowEvent::UpPressed => scrolled(
                    old(self).scroll(),
                    ScrollCommand::Up,
                    old(self).limit(),
                ),
                _ => old(self).scroll(),
            }),
    {
        match event {
            WindowEvent::CloseRequested | WindowEvent::EscapePressed => Flow::Quit,
            WindowEvent::DownPressed => {
                self.scroll_down();
                Flow::Continue
            },
            WindowEvent::UpPressed => {
                self.scroll_up();
                Flow::Continue
            },
            WindowEvent::Other => Flow::Continue,
        }
    }

    /// The indices of the items that the window shows, in the order of the
    /// display list.
    pub fn visible(&self) -> (shown: Vec<usize>)
        ensures
            shown@.map_values(|i: usize| i as int) == visible_among(
                self.items(),
                self.items().len(),
                self.scroll(),
                self.height(),
            ),
    {
        visible_items(&self.display_list, self.scroll_y, self.window_height)
    }

    /// The display list.
    pub fn display_list(&self) -> (list: &Vec<DisplayListItem>)
        ensures
            item_models(list@) == self.items(),
    {
        &self.display_list
    }

    /// The document.
    pub fn document(&self) -> (doc: &Document)
        ensures
            doc.tree@ == self.tree(),
            as_index(doc.root) == self.root(),
            self.wf() ==> doc.tree.wf(),
    {
        &self.document
    }

    /// How far the page is scrolled.
    pub fn scroll_y(&self) -> (offset: u64)
        ensures
            offset == self.scroll(),
    {
        self.scroll_y
    }

    /// The width of the window.
    pub fn window_width(&self) -> (width: u32)
        ensures
            width == self.width(),
    {
        self.window_width
    }

    /// The height of the window.
    pub fn window_height(&self) -> (height: u32)
        ensures
            height == self.height(),
    {
        self.window_height
    }
}

} // verus!
