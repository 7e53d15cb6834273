use clip_history::Clip;
use clip_history::frame::FrameInput;
use clip_history::window::Data;

fn text(s: &str) -> Clip {
    Clip::Text(String::from(s))
}

fn entry_text(d: &Data, i: usize) -> String {
    match d.clip.get(i) {
        Clip::Text(t) => t.clone(),
        _ => panic!("entry {} is not text", i),
    }
}

#[test]
fn close_request_sends_quit_once_per_frame() {
    let mut d = Data::new();
    let out = d.frame_step(FrameInput {
        close_requested: true,
        top_clicked: false,
        copied: false,
        remove_index: None,
    });
    assert!(out.send_quit);
    assert!(!out.switch_top_deferred);
    assert!(out.cmds.is_empty());
}

#[test]
fn hidden_window_skips_everything_but_close() {
    let mut d = Data::new();
    d.clip.append_if_new(text("a"));
    d.switch_visible(false);
    let out = d.frame_step(FrameInput {
        close_requested: true,
        top_clicked: true,
        copied: true,
        remove_index: Some(0),
    });
    assert!(out.send_quit);
    assert!(!out.switch_top_deferred);
    assert!(out.cmds.is_empty());
    assert_eq!(d.clip.len(), 1);
    assert!(!d.window_visible);
}

#[test]
fn delete_applies_validated_index() {
    let mut d = Data::new();
    d.clip.append_if_new(text("a"));
    d.clip.append_if_new(text("b"));
    let out = d.frame_step(FrameInput {
        close_requested: false,
        top_clicked: false,
        copied: false,
        remove_index: Some(0),
    });
    assert!(!out.send_quit);
    assert_eq!(d.clip.len(), 1);
    assert_eq!(entry_text(&d, 0), "b");
}

#[test]
fn stale_delete_index_is_ignored() {
    let mut d = Data::new();
    d.clip.append_if_new(text("a"));
    let out = d.frame_step(FrameInput {
        close_requested: false,
        top_clicked: false,
        copied: false,
        remove_index: Some(5),
    });
    assert!(!out.send_quit);
    assert_eq!(d.clip.len(), 1);
}

#[test]
fn top_click_is_deferred_past_the_lock() {
    let mut d = Data::new();
    let out = d.frame_step(FrameInput {
        close_requested: false,
        top_clicked: true,
        copied: false,
        remove_index: None,
    });
    assert!(out.switch_top_deferred);
    assert!(!d.is_top);
    let cmds = d.switch_top();
    assert!(d.is_top);
    assert_eq!(cmds.len(), 1);
}
