//! The scroll controller: how far the page is scrolled, and which items of
//! the display list the viewport shows.

use crate::style::{item_models, sat_add, DisplayListItem, ItemModel};
use vstd::prelude::*;

verus! {

/// How far one scroll command moves the page.
pub const SCROLL_STEP: u64 = 20;

/// A command to scroll by one step.
#[derive(Clone, Copy, Debug, PartialEq, Eq)]
pub enum ScrollCommand {
    Down,
    Up,
}

/// The largest scroll offset for a display list in a viewport: the distance
/// by which the last item lies below the viewport's height, or 0 where it
/// does not, and for an empty list.
pub open spec fn scroll_limit(items: Seq<ItemModel>, viewport_height: u32) -> u64 {
    if items.len() > 0 && items.last().y > viewport_height {
        (items.last().y - viewport_height) as u64
    } else {
        0
    }
}

/// `offset`, or `limit` where `offset` lies beyond it.
pub open spec fn clamped(offset: u64, limit: u64) -> u64 {
    if offset > limit {
        limit
    } else {
        offset
    }
}

/// The offset after one command: a step down or up from `offset`, not
/// below 0 and not beyond `limit`.
pub open spec fn scrolled(offset: u64, command: ScrollCommand, limit: u64) -> u64 {
    match command {
        ScrollCommand::Down => clamped(sat_add(offset, SCROLL_STEP), limit),
        ScrollCommand::Up => clamped(
            if offset < SCROLL_STEP {
                0
            } else {
                (offset - SCROLL_STEP) as u64
            },
            limit,
        ),
    }
}

/// The offset after all of `commands`, taken in order.
pub open spec fn scrolled_all(offset: u64, commands: Seq<ScrollCommand>, limit: u64) -> u64
    decreases commands.len(),
{
    if commands.len() == 0 {
        offset
    } else {
        scrolled(scrolled_all(offset, commands.drop_last(), limit), commands.last(), limit)
    }
}

/// The offset after `count` commands to scroll down.
pub open spec fn scrolled_down_times(offset: u64, count: nat, limit: u64) -> u64
    decreases count,
{
    if count == 0 {
        offset
    } else {
        scrolled(scrolled_down_times(offset, (count - 1) as nat, limit), ScrollCommand::Down, limit)
    }
}

/// Whether the viewport shows an item: the item lies strictly between the
/// viewport's upper and lower edge.
pub open spec fn is_visible(item: ItemModel, scroll_offset: u64, viewport_height: u32) -> bool {
    scroll_offset < item.y < scroll_offset + viewport_height
}

/// The indices of the visible items among the first `count` items, in
/// order.
pub open spec fn visible_among(
    items: Seq<ItemModel>,
    count: nat,
    scroll_offset: u64,
    viewport_height: u32,
) -> Seq<int>
    decreases count,
{
    if count == 0 || count > items.len() {
        Seq::empty()
    } else {
        let before = visible_among(items, (count - 1) as nat, scroll_offset, viewport_height);
        if is_visible(items[count - 1], scroll_offset, viewport_height) {
            before.push(count - 1)
        } else {
            before
        }
    }
}

/// The largest scroll offset for `display_list` in a viewport of height
/// `viewport_height`.
pub fn max_scroll(display_list: &Vec<DisplayListItem>, viewport_height: u32) -> (limit: u64)
    ensures
        limit == scroll_limit(item_models(display_list@), viewport_height),
{
    let len = display_list.len();
    if len > 0 && display_list[len - 1].y > viewport_height as u64 {
        display_list[len - 1].y - viewport_height as u64
    } else {
        0
    }
}

/// Brings an offset back into bounds, as must be done when the display
/// list or the viewport has changed.
pub fn clamp_scroll(
    scroll_offset: u64,
    display_list: &Vec<DisplayListItem>,
    viewport_height: u32,
) -> (offset: u64)
    ensures
        offset == clamped(scroll_offset, scroll_limit(item_models(display_list@), viewport_height)),
{
    let limit = max_scroll(display_list, viewport_height);
    if scroll_offset > limit {
        limit
    } else {
        scroll_offset
    }
}

/// Scrolls one step down, but not past the bottom of the page. With an
/// empty display list the offset is 0.
pub fn scroll_down(
    scroll_offset: u64,
    display_list: &Vec<DisplayListItem>,
    viewport_height: u32,
) -> (offset: u64)
    ensures
        offset == scrolled(
            scroll_offset,
            ScrollCommand::Down,
            scroll_limit(item_models(display_list@), viewport_height),
        ),
        offset <= scroll_limit(item_models(display_list@), viewport_height),
{
    clamp_scroll(scroll_offset.saturating_add(SCROLL_STEP), display_list, viewport_height)
}

/// Scrolls one step up, but not past the top of the page.
pub fn scroll_up(
    scroll_offset: u64,
    display_list: &Vec<DisplayListItem>,
    viewport_height: u32,
) -> (offset: u64)
    ensures
        offset == scrolled(
            scroll_offset,
            ScrollCommand::Up,
            scroll_limit(item_models(display_list@), viewport_height),
        ),
        offset <= scroll_offset,
        offset <= scroll_limit(item_models(display_list@), viewport_height),
{
    let up = if scroll_offset < SCROLL_STEP {
        0
    } else {
        scroll_offset - SCROLL_STEP
    };
    clamp_scroll(up, display_list, viewport_height)
}

/// The indices of the items that the viewport shows, in the order of the
/// display list. The display list is only read.
pub fn visible_items(
    display_list: &Vec<DisplayListItem>,
    scroll_offset: u64,
    viewport_height: u32,
) -> (shown: Vec<usize>)
    ensures
        shown@.map_values(|i: usize| i as int) == visible_among(
            item_models(display_list@),
            display_list@.len(),
            scroll_offset,
            viewport_height,
        ),
{
    let mut shown: Vec<usize> = Vec::new();
    let ghost items = item_models(display_list@);
    let mut i: usize = 0;
    assert(shown@.map_values(|i: usize| i as int) =~= Seq::<int>::empty());
    while i < display_list.len()
        invariant
            i <= display_list.len(),
            items == item_models(display_list@),
            shown@.map_values(|i: usize| i as int) == visible_among(
                items,
                i as nat,
                scroll_offset,
                viewport_height,
            ),
        decreases display_list.len() - i,
    {
        let y = display_list[i].y;
        let ghost before = shown@.map_values(|i: usize| i as int);
        assert(items[i as int].y == y);
        if scroll_offset < y && y - scroll_offset < viewport_height as u64 {
            shown.push(i);
            assert(shown@.map_values(|i: usize| i as int) =~= before.push(i as int));
        }
        i = i + 1;
    }
    shown
}

/// After any command the offset lies within its bounds: not below 0, as no
/// offset is, and not beyond the limit.
pub proof fn lemma_scroll_stays_in_bounds(offset: u64, commands: Seq<ScrollCommand>, limit: u64)
    requires
        commands.len() > 0 || offset <= limit,
    ensures
        0 <= scrolled_all(offset, commands, limit) <= limit,
    decreases commands.len(),
{
    if commands.len() > 1 {
        lemma_scroll_stays_in_bounds(offset, commands.drop_last(), limit);
    }
}

/// Where the last item of a display list lies at or below the height of
/// the viewport, no command ever scrolls further than the distance between
/// the two, nor above the top of the page.
pub proof fn lemma_scroll_never_passes_last_item(
    items: Seq<ItemModel>,
    viewport_height: u32,
    offset: u64,
    commands: Seq<ScrollCommand>,
)
    requires
        commands.len() > 0 || offset <= scroll_limit(items, viewport_height),
        items.len() > 0,
        items.last().y >= viewport_height,
    ensures
        0 <= scrolled_all(offset, commands, scroll_limit(items, viewport_height))
            <= items.last().y - viewport_height,
{
    lemma_scroll_stays_in_bounds(offset, commands, scroll_limit(items, viewport_height));
}

/// The visible items are listed completely, once each and in the order of
/// the display list.
pub proof fn lemma_visible_among(
    items: Seq<ItemModel>,
    count: nat,
    scroll_offset: u64,
    viewport_height: u32,
)
    requires
        count <= items.len(),
    ensures
        ({
            let shown = visible_among(items, count, scroll_offset, viewport_height);
            &&& forall|k: int|
                0 <= k < shown.len() ==> 0 <= (#[trigger] shown[k]) < count && is_visible(
                    items[shown[k]],
                    scroll_offset,
                    viewport_height,
                )
            &&& forall|j: int, k: int| 0 <= j < k < shown.len() ==> shown[j] < shown[k]
            &&& forall|i: int|
                0 <= i < count && is_visible(#[trigger] items[i], scroll_offset, viewport_height)
                    ==> shown.contains(i)
        }),
    decreases count,
{
    if count > 0 {
        let before = visible_among(items, (count - 1) as nat, scroll_offset, viewport_height);
        let shown = visible_among(items, count, scroll_offset, viewport_height);
        lemma_visible_among(items, (count - 1) as nat, scroll_offset, viewport_height);
        let last = count - 1;
        assert forall|i: int|
            0 <= i < count && is_visible(
                #[trigger] items[i],
                scroll_offset,
                viewport_height,
            ) implies shown.contains(i) by {
            if i < last {
                let k = choose|k: int| 0 <= k < before.len() && before[k] == i;
                assert(shown[k] == i);
            } else {
                assert(shown[shown.len() - 1] == i);
            }
        }
    }
}

/// Scrolling down never passes the limit, and reaches it, and stays
/// there, once the steps add up to the distance.
pub proof fn lemma_scroll_down_stops_at_limit(offset: u64, count: nat, limit: u64)
    requires
        offset <= limit,
    ensures
        scrolled_down_times(offset, count, limit) <= limit,
        offset + count * SCROLL_STEP >= limit ==> scrolled_down_times(offset, count, limit)
            == limit,
        offset + count * SCROLL_STEP <= limit ==> scrolled_down_times(offset, count, limit)
            == offset + count * SCROLL_STEP,
    decreases count,
{
    if count > 0 {
        lemma_scroll_down_stops_at_limit(offset, (count - 1) as nat, limit);
    }
}

} // verus!
