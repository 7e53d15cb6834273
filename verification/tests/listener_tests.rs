use clip_history::Clip;
use clip_history::History;
use clip_history::listener::ListenerAction;
use clip_history::listener::listener_step;
use clip_history::listener::process_all;

fn text(s: &str) -> Clip {
    Clip::Text(String::from(s))
}

fn image(b: &[u8]) -> Clip {
    Clip::Img(b.to_vec())
}

fn entry_text(h: &History, i: usize) -> String {
    match h.get(i) {
        Clip::Text(t) => t.clone(),
        _ => panic!("entry {} is not text", i),
    }
}

fn entry_image(h: &History, i: usize) -> Vec<u8> {
    match h.get(i) {
        Clip::Img(d) => d.clone(),
        _ => panic!("entry {} is not an image", i),
    }
}

#[test]
fn quit_stops_before_later_events() {
    let mut h = History::new();
    let polls = process_all(&mut h, vec![text("a"), Clip::Quit, text("b")]);
    assert_eq!(polls, 2);
    assert_eq!(h.len(), 1);
    assert_eq!(entry_text(&h, 0), "a");
}

#[test]
fn quit_first_mutates_nothing() {
    let mut h = History::new();
    let polls = process_all(&mut h, vec![Clip::Quit, text("a")]);
    assert_eq!(polls, 1);
    assert_eq!(h.len(), 0);
}

#[test]
fn without_quit_every_event_is_received() {
    let mut h = History::new();
    let polls = process_all(&mut h, vec![text("a"), text("a"), text("b")]);
    assert_eq!(polls, 3);
    assert_eq!(h.len(), 2);
}

#[test]
fn step_quit_leaves_history_alone() {
    let mut h = History::new();
    assert!(h.append_if_new(text("a")));
    let a = listener_step(&mut h, Clip::Quit);
    assert_eq!(a, ListenerAction::Stop);
    assert_eq!(h.len(), 1);
}

#[test]
fn step_reports_repaint_only_on_change() {
    let mut h = History::new();
    assert_eq!(
        listener_step(&mut h, text("a")),
        ListenerAction::Handled { repaint: true }
    );
    assert_eq!(
        listener_step(&mut h, text("a")),
        ListenerAction::Handled { repaint: false }
    );
    assert_eq!(
        listener_step(&mut h, image(&[1])),
        ListenerAction::Handled { repaint: true }
    );
    assert_eq!(h.len(), 2);
}

#[test]
fn enqueue_scenario() {
    let mut h = History::new();
    let polls = process_all(
        &mut h,
        vec![text("a"), text("a")],
    );
    assert_eq!(polls, 2);
    assert_eq!(h.len(), 1);
    assert_eq!(entry_text(&h, 0), "a");

    process_all(&mut h, vec![text("b")]);
    assert_eq!(h.len(), 2);
    assert_eq!(entry_text(&h, 0), "a");
    assert_eq!(entry_text(&h, 1), "b");

    assert!(h.remove_at(0));
    assert_eq!(h.len(), 1);
    assert_eq!(entry_text(&h, 0), "b");

    let bytes1: Vec<u8> = vec![7, 7, 7];
    process_all(&mut h, vec![Clip::Img(bytes1.clone()), Clip::Img(bytes1.clone())]);
    assert_eq!(h.len(), 3);
    assert_eq!(entry_text(&h, 0), "b");
    assert_eq!(entry_image(&h, 1), bytes1);
    assert_eq!(entry_image(&h, 2), bytes1);
}
