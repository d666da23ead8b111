use tundra::builder::{parse_tokens, Document};
use tundra::layout::{
    layout_close, layout_document, layout_open, layout_text, measure_requests, LayoutError,
    LayoutState, MeasureRequest, Page, Pass, SpaceMetrics,
};
use tundra::style::{
    Color, DisplayListItem, FontStyle, Measure, FONT_SIZE, LEFT_MARGIN, PARAGRAPH_GAP,
    RIGHT_MARGIN, TOP_MARGIN,
};
use tundra::token::lex;

const CHAR_WIDTH: u32 = 10;
const HEIGHT: u32 = 20;

fn build(source: &str) -> Document {
    parse_tokens(&lex(source))
}

fn measure(text: &str) -> Measure {
    Measure { width: CHAR_WIDTH * text.chars().count() as u32, height: HEIGHT }
}

fn spaces() -> SpaceMetrics {
    let space = measure(" ");
    SpaceMetrics { regular: space, bold: space, italic: space, bold_italic: space }
}

fn page_for(doc: &Document, window_width: u32) -> Page {
    let measures = measure_requests(doc).iter().map(|r| measure(&r.text)).collect();
    Page { window_width, spaces: spaces(), measures }
}

fn lay_out(source: &str, window_width: u32) -> Vec<DisplayListItem> {
    let doc = build(source);
    let page = page_for(&doc, window_width);
    layout_document(&doc, &page).unwrap()
}

fn item(x: u64, y: u64, text: &str, font_style: FontStyle) -> DisplayListItem {
    DisplayListItem {
        x,
        y,
        text: text.to_string(),
        font_style,
        color: Color::Text,
        underline: false,
    }
}

fn fresh_pass() -> Pass {
    Pass { state: LayoutState::new(), display_list: Vec::new() }
}

#[test]
fn page_dimensions() {
    assert_eq!((LEFT_MARGIN, RIGHT_MARGIN, TOP_MARGIN), (13, 13, 13));
    assert_eq!(PARAGRAPH_GAP, 16);
    assert_eq!(FONT_SIZE, 16);
}

#[test]
fn initial_state() {
    let state = LayoutState::new();
    assert_eq!((state.x, state.y), (13, 13));
    assert_eq!(state.current_color, Color::Text);
    assert!(!state.bold && !state.italic && !state.underline);
    assert!(state.terminal_space);
    assert!(!state.in_body && !state.in_comment);
}

#[test]
fn end_to_end_heading_and_paragraph() {
    let list = lay_out("<body><h1>Hi</h1><p>one two</p></body>", 400);
    assert_eq!(
        list,
        vec![
            item(13, 53, "Hi", FontStyle::Bold),
            item(13, 93, "one", FontStyle::Regular),
            item(53, 93, "two", FontStyle::Regular),
        ]
    );
}

#[test]
fn requests_list_words_with_faces() {
    let doc = build("<body><h1>Hi</h1><p>one <i>two <b>three</b></i></p></body>");
    assert_eq!(
        measure_requests(&doc),
        vec![
            MeasureRequest { text: "Hi".to_string(), font_style: FontStyle::Bold },
            MeasureRequest { text: "one".to_string(), font_style: FontStyle::Regular },
            MeasureRequest { text: "two".to_string(), font_style: FontStyle::Italic },
            MeasureRequest { text: "three".to_string(), font_style: FontStyle::BoldItalic },
        ]
    );
}

#[test]
fn whitespace_between_tags_gives_one_space() {
    let list = lay_out("<body><b>a</b> <b>b</b></body>", 400);
    assert_eq!(
        list,
        vec![item(13, 13, "a", FontStyle::Bold), item(33, 13, "b", FontStyle::Bold)]
    );
    assert_eq!(list[1].x - (list[0].x + 10), 10);
}

#[test]
fn space_is_not_doubled_across_tags() {
    let trailing = lay_out("<body><b>a </b><b>b</b></body>", 400);
    let leading = lay_out("<body><b>a</b><b> b</b></body>", 400);
    let both = lay_out("<body><b>a </b><b> b</b></body>", 400);
    let none = lay_out("<body><b>a</b><b>b</b></body>", 400);
    assert_eq!(trailing[1].x, 33);
    assert_eq!(leading[1].x, 33);
    assert_eq!(both[1].x, 33);
    assert_eq!(none[1].x, 23);
}

#[test]
fn wide_word_is_placed_on_its_own_line() {
    let list = lay_out("<body>ab abcdefghijkl cd</body>", 100);
    assert_eq!(
        list,
        vec![
            item(13, 13, "ab", FontStyle::Regular),
            item(13, 37, "abcdefghijkl", FontStyle::Regular),
            item(13, 61, "cd", FontStyle::Regular),
        ]
    );
}

#[test]
fn wide_word_is_placed_in_a_window_narrower_than_its_margins() {
    let list = lay_out("<body>a b</body>", 5);
    assert_eq!(
        list,
        vec![item(13, 37, "a", FontStyle::Regular), item(13, 61, "b", FontStyle::Regular)]
    );
}

#[test]
fn words_wrap_at_the_right_margin() {
    // 87 wide between the margins of a window of 100: 13 + 30 + 10 + 30 = 83
    // fits, the third word does not.
    let list = lay_out("<body>one two six</body>", 100);
    assert_eq!(
        list,
        vec![
            item(13, 13, "one", FontStyle::Regular),
            item(53, 13, "two", FontStyle::Regular),
            item(13, 37, "six", FontStyle::Regular),
        ]
    );
}

#[test]
fn word_that_ends_at_the_margin_fits() {
    // 13 + 30 == 56 - 13: not beyond the margin.
    assert_eq!(lay_out("<body>one</body>", 56)[0].y, 13);
    assert_eq!(lay_out("<body>one</body>", 55)[0].y, 37);
}

#[test]
fn text_outside_body_is_not_shown() {
    assert!(lay_out("<html><head><title>t</title></head></html>", 400).is_empty());
    assert_eq!(lay_out("<html><title>t</title><body>x</body>y</html>", 400).len(), 1);
}

#[test]
fn comment_hides_text_until_its_end() {
    let list = lay_out("<body>a<!-- x><p>hidden</p><y -->b</body>", 400);
    let texts: Vec<&str> = list.iter().map(|i| i.text.as_str()).collect();
    assert_eq!(texts, vec!["a"]);
}

#[test]
fn link_is_underlined_and_coloured() {
    let list = lay_out("<body>a <a href=x>link</a> b</body>", 400);
    assert_eq!(list.len(), 3);
    assert_eq!((list[0].color, list[0].underline), (Color::Text, false));
    assert_eq!((list[1].color, list[1].underline), (Color::Link, true));
    assert_eq!((list[2].color, list[2].underline), (Color::Text, false));
}

#[test]
fn break_starts_a_new_line() {
    let list = lay_out("<body>a<br>b</body>", 400);
    assert_eq!(
        list,
        vec![item(13, 13, "a", FontStyle::Regular), item(13, 53, "b", FontStyle::Regular)]
    );
}

#[test]
fn no_root_gives_empty_display_list() {
    assert!(lay_out("", 400).is_empty());
    assert!(lay_out("just text", 400).is_empty());
}

#[test]
fn display_list_descends_the_page() {
    let list = lay_out(
        "<body><h1>Title here</h1><p>some words that wrap around</p><p>more <b>bold</b></p></body>",
        120,
    );
    assert_eq!(list.len(), 9);
    for pair in list.windows(2) {
        assert!(pair[0].y <= pair[1].y);
    }
}

#[test]
fn relayout_gives_the_same_list() {
    let doc = build("<body><h1>Hi</h1><p>one two</p></body>");
    let page = page_for(&doc, 400);
    let first = layout_document(&doc, &page).unwrap();
    let second = layout_document(&doc, &page).unwrap();
    assert_eq!(first, second);
}

#[test]
fn missing_measures_are_an_error() {
    let doc = build("<body>one two</body>");
    let page = Page { window_width: 400, spaces: spaces(), measures: vec![measure("one")] };
    assert_eq!(layout_document(&doc, &page), Err(LayoutError::MissingMeasures));
}

#[test]
fn unused_measures_are_an_error() {
    let doc = build("<body>one</body>");
    let page = Page {
        window_width: 400,
        spaces: spaces(),
        measures: vec![measure("one"), measure("two")],
    };
    assert_eq!(layout_document(&doc, &page), Err(LayoutError::UnusedMeasures));
}

#[test]
fn open_heading_breaks_paragraph_in_bold() {
    let mut state = LayoutState::new();
    state.x = 100;
    layout_open(&mut state, "h1", 20);
    assert!(state.bold);
    assert_eq!((state.x, state.y), (13, 13 + 24 + 16));
}

#[test]
fn line_spacing_rounds_down() {
    let mut state = LayoutState::new();
    layout_close(&mut state, "p", 19);
    assert_eq!(state.y, 13 + 22 + 16);
    assert!(state.terminal_space);
}

#[test]
fn open_and_close_of_inline_tags() {
    let mut state = LayoutState::new();
    layout_open(&mut state, "body", 20);
    layout_open(&mut state, "i", 20);
    layout_open(&mut state, "b", 20);
    layout_open(&mut state, "a", 20);
    layout_open(&mut state, "span", 20);
    assert!(state.in_body && state.italic && state.bold && state.underline);
    assert_eq!(state.current_color, Color::Link);
    assert_eq!((state.x, state.y), (13, 13));
    layout_close(&mut state, "a", 20);
    layout_close(&mut state, "b", 20);
    layout_close(&mut state, "i", 20);
    layout_close(&mut state, "body", 20);
    assert_eq!(state, LayoutState { terminal_space: true, ..LayoutState::new() });
}

#[test]
fn comment_suppresses_tag_effects() {
    let mut state = LayoutState::new();
    layout_open(&mut state, "!--", 20);
    assert!(state.in_comment);
    layout_open(&mut state, "b", 20);
    layout_close(&mut state, "p", 20);
    assert!(!state.bold);
    assert_eq!(state.y, 13);
    layout_close(&mut state, "x--", 20);
    assert!(!state.in_comment);
}

#[test]
fn comment_end_is_exclusive_with_other_close_handling() {
    let mut state = LayoutState::new();
    state.bold = true;
    layout_close(&mut state, "b--", 20);
    assert!(state.bold);
    assert!(!state.in_comment);
}

#[test]
fn text_in_comment_or_outside_body_changes_nothing() {
    let page = Page { window_width: 400, spaces: spaces(), measures: vec![measure("a")] };
    let mut pass = fresh_pass();
    layout_text(&mut pass, "a ", &page);
    assert!(pass.display_list.is_empty());
    assert_eq!(pass.state, LayoutState::new());
    pass.state.in_body = true;
    pass.state.in_comment = true;
    layout_text(&mut pass, "a ", &page);
    assert!(pass.display_list.is_empty());
}

#[test]
fn text_with_trailing_space_moves_cursor_once() {
    let page = Page { window_width: 400, spaces: spaces(), measures: vec![measure("ab")] };
    let mut pass = fresh_pass();
    pass.state.in_body = true;
    layout_text(&mut pass, "ab ", &page);
    assert_eq!(pass.display_list, vec![item(13, 13, "ab", FontStyle::Regular)]);
    assert_eq!(pass.state.x, 13 + 20 + 10);
    assert!(pass.state.terminal_space);
}

#[test]
fn positions_saturate() {
    let page = Page { window_width: 400, spaces: spaces(), measures: vec![] };
    let mut pass = fresh_pass();
    pass.state.y = u64::MAX - 3;
    layout_close(&mut pass.state, "p", 20);
    assert_eq!(pass.state.y, u64::MAX);
    assert_eq!(page.measure(0), Measure { width: 0, height: 0 });
}
