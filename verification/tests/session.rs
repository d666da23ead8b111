use tundra::layout::{LayoutError, SpaceMetrics};
use tundra::session::{Flow, Tundra, WindowEvent, INIT_HEIGHT, INIT_WIDTH};
use tundra::style::Measure;

fn measure(text: &str) -> Measure {
    Measure { width: 10 * text.chars().count() as u32, height: 20 }
}

fn spaces() -> SpaceMetrics {
    let space = measure(" ");
    SpaceMetrics { regular: space, bold: space, italic: space, bold_italic: space }
}

fn measures(session: &Tundra) -> Vec<Measure> {
    session.measure_requests().iter().map(|r| measure(&r.text)).collect()
}

fn long_page() -> Tundra {
    let mut source = String::from("<body>");
    for i in 0..30 {
        source.push_str(&format!("<p>line {}</p>", i));
    }
    source.push_str("</body>");
    let mut session = Tundra::new();
    assert!(session.load(&source));
    let m = measures(&session);
    assert_eq!(session.layout(400, 300, spaces(), m), Ok(()));
    session
}

#[test]
fn new_session_is_empty() {
    let session = Tundra::new();
    assert_eq!(session.window_width(), 800);
    assert_eq!(session.window_height(), 600);
    assert_eq!((INIT_WIDTH, INIT_HEIGHT), (800, 600));
    assert_eq!(session.scroll_y(), 0);
    assert!(session.display_list().is_empty());
    assert_eq!(session.document().root, None);
    assert!(session.visible().is_empty());
    assert!(session.measure_requests().is_empty());
}

#[test]
fn load_then_layout() {
    let mut session = Tundra::new();
    assert!(session.load("<body><h1>Hi</h1><p>one two</p></body>"));
    assert_eq!(session.document().root, Some(0));
    assert!(session.display_list().is_empty());
    let m = measures(&session);
    assert_eq!(m.len(), 3);
    assert_eq!(session.layout(400, 600, spaces(), m), Ok(()));
    assert_eq!(session.window_width(), 400);
    let list = session.display_list();
    assert_eq!(list.len(), 3);
    assert_eq!((list[0].x, list[0].y), (13, 53));
    assert_eq!((list[2].x, list[2].y), (53, 93));
    assert_eq!(session.visible(), vec![0, 1, 2]);
}

#[test]
fn layout_with_wrong_measures_empties_the_list() {
    let mut session = Tundra::new();
    assert!(session.load("<body>one two</body>"));
    assert_eq!(
        session.layout(400, 600, spaces(), vec![measure("one")]),
        Err(LayoutError::MissingMeasures)
    );
    assert!(session.display_list().is_empty());
    let mut m = measures(&session);
    m.push(measure("x"));
    assert_eq!(session.layout(400, 600, spaces(), m), Err(LayoutError::UnusedMeasures));
    assert_eq!(session.scroll_y(), 0);
}

#[test]
fn needs_layout_when_the_window_changes() {
    let session = Tundra::new();
    assert!(!session.needs_layout(800, 600));
    assert!(session.needs_layout(801, 600));
    assert!(session.needs_layout(800, 599));
}

#[test]
fn scrolling_is_clamped_at_both_ends() {
    let mut session = long_page();
    // 30 paragraphs of 40 each: the last item lies at 13 + 29 * 40 = 1173.
    let last = session.display_list().last().unwrap().y;
    assert_eq!(last, 1173);
    let limit = last - 300;
    session.scroll_up();
    assert_eq!(session.scroll_y(), 0);
    for step in 1..=100u64 {
        session.scroll_down();
        assert_eq!(session.scroll_y(), (20 * step).min(limit));
    }
    assert_eq!(session.scroll_y(), limit);
    for _ in 0..100 {
        session.scroll_up();
    }
    assert_eq!(session.scroll_y(), 0);
}

#[test]
fn visible_items_follow_the_scroll_offset() {
    let mut session = long_page();
    assert_eq!(session.visible(), (0..16).collect::<Vec<usize>>());
    session.scroll_down();
    // Offset 20: the item at 13 is gone, the one at 293 still shows, and
    // the one at 333 does not yet.
    assert_eq!(session.visible(), (2..16).collect::<Vec<usize>>());
}

#[test]
fn relayout_clamps_the_scroll_offset() {
    let mut session = long_page();
    for _ in 0..100 {
        session.scroll_down();
    }
    assert_eq!(session.scroll_y(), 873);
    let m = measures(&session);
    assert_eq!(session.layout(400, 1000, spaces(), m), Ok(()));
    assert_eq!(session.scroll_y(), 173);
    let m = measures(&session);
    assert_eq!(session.layout(400, 2000, spaces(), m), Ok(()));
    assert_eq!(session.scroll_y(), 0);
}

#[test]
fn events_scroll_or_quit() {
    let mut session = long_page();
    assert_eq!(session.handle(WindowEvent::DownPressed), Flow::Continue);
    assert_eq!(session.scroll_y(), 20);
    assert_eq!(session.handle(WindowEvent::Other), Flow::Continue);
    assert_eq!(session.scroll_y(), 20);
    assert_eq!(session.handle(WindowEvent::UpPressed), Flow::Continue);
    assert_eq!(session.scroll_y(), 0);
    assert_eq!(session.handle(WindowEvent::EscapePressed), Flow::Quit);
    assert_eq!(session.handle(WindowEvent::CloseRequested), Flow::Quit);
    assert_eq!(session.display_list().len(), 60);
}

#[test]
fn load_replaces_the_document() {
    let mut session = long_page();
    session.scroll_down();
    assert!(session.load("<p>x</p>"));
    assert_eq!(session.scroll_y(), 0);
    assert!(session.display_list().is_empty());
    assert_eq!(session.document().tree.len(), 2);
}
