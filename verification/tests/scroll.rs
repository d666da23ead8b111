use tundra::scroll::{clamp_scroll, max_scroll, scroll_down, scroll_up, visible_items, SCROLL_STEP};
use tundra::style::{Color, DisplayListItem, FontStyle};

fn list(ys: &[u64]) -> Vec<DisplayListItem> {
    ys.iter()
        .map(|&y| DisplayListItem {
            x: 13,
            y,
            text: "w".to_string(),
            font_style: FontStyle::Regular,
            color: Color::Text,
            underline: false,
        })
        .collect()
}

#[test]
fn scroll_step_is_twenty() {
    assert_eq!(SCROLL_STEP, 20);
}

#[test]
fn max_scroll_is_distance_of_last_item_below_viewport() {
    assert_eq!(max_scroll(&list(&[13, 500, 1000]), 600), 400);
    assert_eq!(max_scroll(&list(&[13, 500]), 600), 0);
    assert_eq!(max_scroll(&list(&[600]), 600), 0);
    assert_eq!(max_scroll(&list(&[]), 600), 0);
}

#[test]
fn scroll_down_moves_one_step() {
    assert_eq!(scroll_down(0, &list(&[13, 1000]), 600), 20);
    assert_eq!(scroll_down(20, &list(&[13, 1000]), 600), 40);
}

#[test]
fn scroll_down_stops_at_the_bottom() {
    let items = list(&[13, 650]);
    let mut offset = 0;
    let mut seen = Vec::new();
    for _ in 0..5 {
        offset = scroll_down(offset, &items, 600);
        assert!(offset <= 50);
        seen.push(offset);
    }
    assert_eq!(seen, vec![20, 40, 50, 50, 50]);
}

#[test]
fn scroll_up_stops_at_the_top() {
    let items = list(&[13, 1000]);
    assert_eq!(scroll_up(50, &items, 600), 30);
    assert_eq!(scroll_up(30, &items, 600), 10);
    assert_eq!(scroll_up(10, &items, 600), 0);
    assert_eq!(scroll_up(0, &items, 600), 0);
}

#[test]
fn scrolling_a_short_page_is_a_no_op() {
    let items = list(&[13, 100]);
    assert_eq!(scroll_down(0, &items, 600), 0);
    assert_eq!(scroll_up(0, &items, 600), 0);
}

#[test]
fn scrolling_an_empty_list_gives_zero() {
    assert_eq!(scroll_down(0, &list(&[]), 600), 0);
    assert_eq!(scroll_up(0, &list(&[]), 600), 0);
    assert_eq!(scroll_down(500, &list(&[]), 600), 0);
}

#[test]
fn clamp_after_relayout() {
    assert_eq!(clamp_scroll(300, &list(&[13, 700]), 600), 100);
    assert_eq!(clamp_scroll(50, &list(&[13, 700]), 600), 50);
    assert_eq!(scroll_up(300, &list(&[13, 700]), 600), 100);
}

#[test]
fn scroll_down_saturates() {
    assert_eq!(scroll_down(u64::MAX - 5, &list(&[u64::MAX]), 0), u64::MAX);
}

#[test]
fn visible_items_lie_strictly_inside_the_viewport() {
    let items = list(&[13, 100, 600, 613, 700, 1300]);
    assert_eq!(visible_items(&items, 0, 600), vec![0, 1]);
    assert_eq!(visible_items(&items, 13, 600), vec![1, 2]);
    assert_eq!(visible_items(&items, 100, 600), vec![2, 3]);
    assert_eq!(visible_items(&items, 700, 600), Vec::<usize>::new());
    assert_eq!(visible_items(&items, 701, 600), vec![5]);
    assert_eq!(visible_items(&list(&[]), 0, 600), Vec::<usize>::new());
}

#[test]
fn visible_items_at_the_end_of_the_number_range() {
    let items = list(&[u64::MAX]);
    assert_eq!(visible_items(&items, u64::MAX - 1, 600), vec![0]);
    assert_eq!(visible_items(&items, u64::MAX, 600), Vec::<usize>::new());
}
