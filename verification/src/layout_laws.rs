//! What holds of every layout pass, whatever the page.

use crate::layout::{
    begins_with_space, children_laid_out, document_laid_out, ends_with_space, node_laid_out,
    overflows, request_of, requested, requests_of, text_laid_out, word_placed, words_placed,
    LayoutState, PageModel, Run,
};
use crate::node::NodeModel;
use crate::style::{line_height, sat_add, Measure, LEFT_MARGIN, RIGHT_MARGIN};
use crate::text::{lemma_words_hold_no_whitespace, words};
use crate::tree::TreeModel;
use vstd::prelude::*;

verus! {

/// A state without its cursor: what is left is the style.
pub open spec fn style_of(state: LayoutState) -> LayoutState {
    LayoutState { x: 0, y: 0, ..state }
}

/// Two passes that have placed the same words in the same faces and are in
/// the same style; their cursors may differ.
pub open spec fn same_course(a: Run, b: Run) -> bool {
    style_of(a.state) == style_of(b.state) && requests_of(a.items) == requests_of(b.items)
}

/// Placing a word keeps two passes on the same course, whatever its sizes.
pub proof fn lemma_word_placed_same_course(
    a: Run,
    b: Run,
    word: Seq<char>,
    size_a: Measure,
    size_b: Measure,
    gap_a: u32,
    gap_b: u32,
    width_a: u32,
    width_b: u32,
)
    requires
        same_course(a, b),
    ensures
        same_course(
            word_placed(a, word, size_a, gap_a, width_a),
            word_placed(b, word, size_b, gap_b, width_b),
        ),
{
    let a2 = word_placed(a, word, size_a, gap_a, width_a);
    let b2 = word_placed(b, word, size_b, gap_b, width_b);
    assert(requests_of(a2.items) =~= requests_of(a.items).push(request_of(a2.items.last())));
    assert(requests_of(b2.items) =~= requests_of(b.items).push(request_of(b2.items.last())));
}

/// Placing words keeps two passes on the same course.
pub proof fn lemma_words_placed_same_course(
    a: Run,
    b: Run,
    all: Seq<Seq<char>>,
    count: nat,
    space_a: u32,
    space_b: u32,
    p: PageModel,
    q: PageModel,
)
    requires
        same_course(a, b),
    ensures
        same_course(
            words_placed(a, all, count, space_a, p),
            words_placed(b, all, count, space_b, q),
        ),
    decreases count,
{
    if 0 < count <= all.len() {
        lemma_words_placed_same_course(a, b, all, (count - 1) as nat, space_a, space_b, p, q);
        let a1 = words_placed(a, all, (count - 1) as nat, space_a, p);
        let b1 = words_placed(b, all, (count - 1) as nat, space_b, q);
        let gap_a = if count == all.len() {
            0u32
        } else {
            space_a
        };
        let gap_b = if count == all.len() {
            0u32
        } else {
            space_b
        };
        lemma_word_placed_same_course(
            a1,
            b1,
            all[count - 1],
            p.measure(a1.items.len() as int),
            q.measure(b1.items.len() as int),
            gap_a,
            gap_b,
            p.window_width,
            q.window_width,
        );
    }
}

/// Laying out a text node keeps two passes on the same course.
pub proof fn lemma_text_same_course(a: Run, b: Run, text: Seq<char>, p: PageModel, q: PageModel)
    requires
        same_course(a, b),
    ensures
        same_course(text_laid_out(a, text, p), text_laid_out(b, text, q)),
{
    if a.state.shows_text() {
        let space_a = p.spaces.of(a.state.font()).width;
        let space_b = q.spaces.of(b.state.font()).width;
        let lead = begins_with_space(text) && !a.state.terminal_space;
        let start_a = if lead {
            Run {
                state: LayoutState {
                    x: sat_add(a.state.x, space_a as u64),
                    ..a.state
                },
                ..a
            }
        } else {
            a
        };
        let start_b = if lead {
            Run {
                state: LayoutState {
                    x: sat_add(b.state.x, space_b as u64),
                    ..b.state
                },
                ..b
            }
        } else {
            b
        };
        let all = words(text);
        lemma_words_placed_same_course(start_a, start_b, all, all.len(), space_a, space_b, p, q);
    }
}

/// Walking children keeps two passes on the same course.
pub proof fn lemma_children_same_course(
    tree: TreeModel,
    parent: int,
    children: Seq<int>,
    count: nat,
    a: Run,
    b: Run,
    p: PageModel,
    q: PageModel,
)
    requires
        same_course(a, b),
    ensures
        same_course(
            children_laid_out(tree, parent, children, count, a, p),
            children_laid_out(tree, parent, children, count, b, q),
        ),
    decreases tree.nodes.len() - parent, 0nat, count,
{
    if 0 < count <= children.len() {
        lemma_children_same_course(tree, parent, children, (count - 1) as nat, a, b, p, q);
        let child = children[count - 1];
        if parent < child < tree.nodes.len() {
            lemma_node_same_course(
                tree,
                child,
                children_laid_out(tree, parent, children, (count - 1) as nat, a, p),
                children_laid_out(tree, parent, children, (count - 1) as nat, b, q),
                p,
                q,
            );
        }
    }
}

/// Walking a node keeps two passes on the same course.
pub proof fn lemma_node_same_course(
    tree: TreeModel,
    node: int,
    a: Run,
    b: Run,
    p: PageModel,
    q: PageModel,
)
    requires
        same_course(a, b),
    ensures
        same_course(node_laid_out(tree, node, a, p), node_laid_out(tree, node, b, q)),
    decreases tree.nodes.len() - node, 1nat, 0nat,
{
    if 0 <= node < tree.nodes.len() {
        match tree.nodes[node] {
            NodeModel::Text { text } => {
                lemma_text_same_course(a, b, text, p, q);
            },
            NodeModel::Element { tag, .. } => {
                let ha = p.spaces.regular.height;
                let hb = q.spaces.regular.height;
                let ea = Run { state: a.state.opened(tag, ha), ..a };
                let eb = Run { state: b.state.opened(tag, hb), ..b };
                assert(same_course(ea, eb));
                let children = tree.children(node);
                lemma_children_same_course(tree, node, children, children.len(), ea, eb, p, q);
            },
        }
    }
}

/// Placing more words leaves the items placed before as they are.
pub proof fn lemma_words_placed_keeps_items(
    run: Run,
    all: Seq<Seq<char>>,
    count: nat,
    space: u32,
    page: PageModel,
)
    requires
        count <= all.len(),
    ensures
        ({
            let after = words_placed(run, all, count, space, page);
            &&& after.items.len() == run.items.len() + count
            &&& forall|i: int| 0 <= i < run.items.len() ==> after.items[i] == run.items[i]
            &&& count > 0 ==> after.items[run.items.len() as int] == word_placed(
                run,
                all[0],
                page.measure(run.items.len() as int),
                if all.len() == 1 {
                    0u32
                } else {
                    space
                },
                page.window_width,
            ).items.last()
        }),
    decreases count,
{
    if count > 0 {
        lemma_words_placed_keeps_items(run, all, (count - 1) as nat, space, page);
    }
}

/// Where a text with words leaves the cursor: on the line of its last
/// word, behind that word, and one space further where the text ends with
/// a space.
pub proof fn lemma_text_end(run: Run, text: Seq<char>, page: PageModel)
    requires
        run.state.shows_text(),
        words(text).len() > 0,
    ensures
        ({
            let after = text_laid_out(run, text, page);
            let last = after.items.last();
            let width = page.measure(after.items.len() - 1).width;
            let space = page.spaces.of(run.state.font()).width;
            &&& after.items.len() == run.items.len() + words(text).len()
            &&& after.state.y == last.y
            &&& after.state.terminal_space == ends_with_space(text)
            &&& after.state.x == sat_add(
                sat_add(last.x, width as u64),
                if ends_with_space(text) {
                    space as u64
                } else {
                    0
                },
            )
        }),
{
    let state = run.state;
    let space = page.spaces.of(state.font()).width;
    let start = if begins_with_space(text) && !state.terminal_space {
        Run { state: LayoutState { x: sat_add(state.x, space as u64), ..state }, ..run }
    } else {
        run
    };
    let all = words(text);
    let n = all.len();
    lemma_words_placed_keeps_items(start, all, (n - 1) as nat, space, page);
    let before = words_placed(start, all, (n - 1) as nat, space, page);
    let placed = word_placed(
        before,
        all[n - 1],
        page.measure(before.items.len() as int),
        0u32,
        page.window_width,
    );
    assert(words_placed(start, all, n, space, page) == placed);
}

/// Where the first word of a text with words goes: to the start of a new
/// line, or to the cursor, moved by one space where the text begins with a
/// space that the text before has not accounted for.
pub proof fn lemma_text_start(run: Run, text: Seq<char>, page: PageModel)
    requires
        run.state.shows_text(),
        words(text).len() > 0,
    ensures
        ({
            let after = text_laid_out(run, text, page);
            let first = after.items[run.items.len() as int];
            let space = page.spaces.of(run.state.font()).width;
            &&& after.items.len() > run.items.len()
            &&& first.x == LEFT_MARGIN || (first.y == run.state.y && first.x == sat_add(
                run.state.x,
                if begins_with_space(text) && !run.state.terminal_space {
                    space as u64
                } else {
                    0
                },
            ))
        }),
{
    let state = run.state;
    let space = page.spaces.of(state.font()).width;
    let start = if begins_with_space(text) && !state.terminal_space {
        Run { state: LayoutState { x: sat_add(state.x, space as u64), ..state }, ..run }
    } else {
        run
    };
    let all = words(text);
    lemma_words_placed_keeps_items(start, all, all.len(), space, page);
}

/// The gap between the last word of one text and the first word of the
/// next is one space or none, never two.
///
/// `between` is the state in which the second text is laid out: tags
/// between the two texts may have changed the style, but not moved the
/// cursor. The first word of the second text begins a new line at the
/// left margin, or it follows the last word of the first text on its
/// line: after one space where the first text ends with a space or the
/// second begins with one, and without a gap where neither does. The space
/// has the width of a space in the face of the text that holds it; where
/// both texts hold one, the space of the first text counts and that of
/// the second is dropped.
pub proof fn lemma_one_space_between_texts(
    run: Run,
    first: Seq<char>,
    between: LayoutState,
    second: Seq<char>,
    page: PageModel,
)
    requires
        run.state.shows_text(),
        between.shows_text(),
        words(first).len() > 0,
        words(second).len() > 0,
        between.x == text_laid_out(run, first, page).state.x,
        between.y == text_laid_out(run, first, page).state.y,
        between.terminal_space == text_laid_out(run, first, page).state.terminal_space,
    ensures
        ({
            let a = text_laid_out(run, first, page);
            let b = text_laid_out(Run { state: between, items: a.items }, second, page);
            let last = a.items.last();
            let width = page.measure(a.items.len() - 1).width;
            let next = b.items[a.items.len() as int];
            let gap = if ends_with_space(first) {
                page.spaces.of(run.state.font()).width
            } else if begins_with_space(second) {
                page.spaces.of(between.font()).width
            } else {
                0u32
            };
            &&& a.items.len() > 0
            &&& b.items.len() > a.items.len()
            &&& next.x == LEFT_MARGIN || (next.y == last.y && next.x == sat_add(
                sat_add(last.x, width as u64),
                gap as u64,
            ))
        }),
{
    let a = text_laid_out(run, first, page);
    lemma_text_end(run, first, page);
    lemma_text_start(Run { state: between, items: a.items }, second, page);
}

/// Which words a layout pass places, in which order and in which faces,
/// does not depend on the page: on every page the display list asks for
/// the measures that [`requested`] lists. In particular no word is ever
/// dropped, however wide it is and however narrow the window.
pub proof fn lemma_every_page_places_the_requested_words(
    tree: TreeModel,
    root: Option<int>,
    page: PageModel,
)
    ensures
        requests_of(document_laid_out(tree, root, page).items) == requested(tree, root),
        document_laid_out(tree, root, page).items.len() == requested(tree, root).len(),
{
    if let Some(r) = root {
        lemma_node_same_course(tree, r, Run::start(), Run::start(), page, PageModel::blank());
    }
}

/// Whether a word of this width is wider than the window is between its
/// margins.
pub open spec fn too_wide(width: u32, window_width: u32) -> bool {
    width > window_width - LEFT_MARGIN - RIGHT_MARGIN
}

/// Whether `text` is a word: not empty and free of whitespace.
pub open spec fn is_word(text: Seq<char>) -> bool {
    text.len() > 0 && forall|k: int| 0 <= k < text.len() ==> !crate::text::is_whitespace(
        #[trigger] text[k],
    )
}

/// What holds of the `index`-th item of a pass on `page`: it holds a word,
/// it is not left of the left margin nor below the cursor, and it begins
/// its line where it is too wide for the window.
pub open spec fn item_in_order(run: Run, index: int, page: PageModel) -> bool {
    let item = run.items[index];
    &&& is_word(item.text)
    &&& item.x >= LEFT_MARGIN
    &&& item.y <= run.state.y
    &&& too_wide(page.measure(index).width, page.window_width) ==> item.x == LEFT_MARGIN
}

/// What holds at every point of a pass on `page`: the cursor is not left of
/// the left margin, every item is in order, and the items descend the
/// page in the order of the list.
pub open spec fn orderly(run: Run, page: PageModel) -> bool {
    &&& run.state.x >= LEFT_MARGIN
    &&& forall|i: int| 0 <= i < run.items.len() ==> #[trigger] item_in_order(run, i, page)
    &&& forall|i: int, j: int|
        0 <= i < j < run.items.len() ==> (#[trigger] run.items[i]).y <= (
        #[trigger] run.items[j]).y
}

/// A pass that moves its cursor down or sideways, but not left of the
/// margin, and places nothing, stays orderly.
pub proof fn lemma_cursor_moved(run: Run, state: LayoutState, page: PageModel)
    requires
        orderly(run, page),
        state.x >= LEFT_MARGIN,
        state.y >= run.state.y,
    ensures
        orderly(Run { state, ..run }, page),
{
    let moved = Run { state, ..run };
    assert forall|i: int| 0 <= i < moved.items.len() implies #[trigger] item_in_order(
        moved,
        i,
        page,
    ) by {
        assert(item_in_order(run, i, page));
    }
}

/// A word wider than the window is between its margins is still placed:
/// at the left margin, after a line break, and so that whatever word
/// follows begins a new line too. The word has its line to itself.
pub proof fn lemma_wide_word_has_its_own_line(
    run: Run,
    word: Seq<char>,
    size: Measure,
    gap: u32,
    window_width: u32,
    next_width: u32,
)
    requires
        run.state.x >= LEFT_MARGIN,
        too_wide(size.width, window_width),
    ensures
        ({
            let after = word_placed(run, word, size, gap, window_width);
            &&& after.items.len() == run.items.len() + 1
            &&& after.items.last().text == word
            &&& after.items.last().x == LEFT_MARGIN
            &&& after.items.last().y == sat_add(
                run.state.y,
                line_height(size.height),
            )
            &&& overflows(after.state.x, next_width, window_width)
        }),
{
}

/// Placing a word keeps a pass orderly.
pub proof fn lemma_word_placed_orderly(run: Run, word: Seq<char>, gap: u32, page: PageModel)
    requires
        orderly(run, page),
        is_word(word),
    ensures
        orderly(
            word_placed(
                run,
                word,
                page.measure(run.items.len() as int),
                gap,
                page.window_width,
            ),
            page,
        ),
{
    let n = run.items.len() as int;
    let after = word_placed(run, word, page.measure(n), gap, page.window_width);
    assert forall|i: int| 0 <= i < after.items.len() implies #[trigger] item_in_order(
        after,
        i,
        page,
    ) by {
        if i < n {
            assert(item_in_order(run, i, page));
        }
    }
    assert forall|i: int, j: int| 0 <= i < j < after.items.len() implies (
    #[trigger] after.items[i]).y <= (#[trigger] after.items[j]).y by {
        assert(item_in_order(run, i, page));
        if j < n {
            assert(after.items[j] == run.items[j]);
        }
    }
}

/// Placing words keeps a pass orderly.
pub proof fn lemma_words_placed_orderly(
    run: Run,
    all: Seq<Seq<char>>,
    count: nat,
    space: u32,
    page: PageModel,
)
    requires
        orderly(run, page),
        forall|k: int| 0 <= k < all.len() ==> is_word(#[trigger] all[k]),
    ensures
        orderly(words_placed(run, all, count, space, page), page),
    decreases count,
{
    if 0 < count <= all.len() {
        lemma_words_placed_orderly(run, all, (count - 1) as nat, space, page);
        let before = words_placed(run, all, (count - 1) as nat, space, page);
        let gap = if count == all.len() {
            0u32
        } else {
            space
        };
        lemma_word_placed_orderly(before, all[count - 1], gap, page);
    }
}

/// Laying out a text node keeps a pass orderly.
pub proof fn lemma_text_orderly(run: Run, text: Seq<char>, page: PageModel)
    requires
        orderly(run, page),
    ensures
        orderly(text_laid_out(run, text, page), page),
{
    let state = run.state;
    if state.shows_text() {
        let space = page.spaces.of(state.font()).width;
        let start = if begins_with_space(text) && !state.terminal_space {
            Run {
                state: LayoutState { x: sat_add(state.x, space as u64), ..state },
                ..run
            }
        } else {
            run
        };
        lemma_cursor_moved(run, start.state, page);
        let all = words(text);
        lemma_words_hold_no_whitespace(text);
        assert forall|k: int| 0 <= k < all.len() implies is_word(#[trigger] all[k]) by {
            let w = all[k];
            assert forall|c: int| 0 <= c < w.len() implies !crate::text::is_whitespace(
                #[trigger] w[c],
            ) by {
                assert(w[c] == words(text)[k][c]);
            }
        }
        lemma_words_placed_orderly(start, all, all.len(), space, page);
        let placed = words_placed(start, all, all.len(), space, page);
        lemma_cursor_moved(placed, text_laid_out(run, text, page).state, page);
    }
}

/// Walking children keeps a pass orderly.
pub proof fn lemma_children_orderly(
    tree: TreeModel,
    parent: int,
    children: Seq<int>,
    count: nat,
    run: Run,
    page: PageModel,
)
    requires
        orderly(run, page),
    ensures
        orderly(children_laid_out(tree, parent, children, count, run, page), page),
    decreases tree.nodes.len() - parent, 0nat, count,
{
    if 0 < count <= children.len() {
        lemma_children_orderly(tree, parent, children, (count - 1) as nat, run, page);
        let child = children[count - 1];
        if parent < child < tree.nodes.len() {
            lemma_node_orderly(
                tree,
                child,
                children_laid_out(tree, parent, children, (count - 1) as nat, run, page),
                page,
            );
        }
    }
}

/// Walking a node keeps a pass orderly.
pub proof fn lemma_node_orderly(tree: TreeModel, node: int, run: Run, page: PageModel)
    requires
        orderly(run, page),
    ensures
        orderly(node_laid_out(tree, node, run, page), page),
    decreases tree.nodes.len() - node, 1nat, 0nat,
{
    if 0 <= node < tree.nodes.len() {
        match tree.nodes[node] {
            NodeModel::Text { text } => {
                lemma_text_orderly(run, text, page);
            },
            NodeModel::Element { tag, .. } => {
                let height = page.spaces.regular.height;
                let entered = Run { state: run.state.opened(tag, height), ..run };
                lemma_cursor_moved(run, entered.state, page);
                let children = tree.children(node);
                lemma_children_orderly(tree, node, children, children.len(), entered, page);
                let inner = children_laid_out(tree, node, children, children.len(), entered, page);
                lemma_cursor_moved(inner, inner.state.closed(tag, height), page);
            },
        }
    }
}

/// Every display list is in order: each item holds one word free of
/// whitespace, to the right of the left margin; a word too wide for the
/// window begins its line; and the items descend the page in the order of
/// the list, so that the last item is the lowest.
pub proof fn lemma_display_list_is_orderly(tree: TreeModel, root: Option<int>, page: PageModel)
    ensures
        ({
            let items = document_laid_out(tree, root, page).items;
            &&& forall|i: int| 0 <= i < items.len() ==> is_word((#[trigger] items[i]).text)
            &&& forall|i: int| 0 <= i < items.len() ==> (#[trigger] items[i]).x >= LEFT_MARGIN
            &&& forall|i: int|
                0 <= i < items.len() && too_wide(page.measure(i).width, page.window_width) ==> (
                #[trigger] items[i]).x == LEFT_MARGIN
            &&& forall|i: int, j: int|
                0 <= i < j < items.len() ==> (#[trigger] items[i]).y <= (#[trigger] items[j]).y
        }),
{
    let run = document_laid_out(tree, root, page);
    assert(orderly(Run::start(), page));
    if let Some(r) = root {
        lemma_node_orderly(tree, r, Run::start(), page);
    }
    assert forall|i: int| 0 <= i < run.items.len() implies is_word((#[trigger] run.items[i]).text)
        && run.items[i].x >= LEFT_MARGIN && (too_wide(page.measure(i).width, page.window_width)
        ==> run.items[i].x == LEFT_MARGIN) by {
        assert(item_in_order(run, i, page));
    }
}

} // verus!
