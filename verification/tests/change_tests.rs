use clip_history::Clip;
use clip_history::change::change_events;

#[test]
fn text_alone_yields_one_event() {
    let evs = change_events(Some(String::from("hello")), None);
    assert_eq!(evs.len(), 1);
    assert!(matches!(&evs[0], Clip::Text(t) if t == "hello"));
}

#[test]
fn empty_text_is_skipped() {
    let evs = change_events(Some(String::new()), None);
    assert!(evs.is_empty());
}

#[test]
fn nothing_read_yields_nothing() {
    let evs = change_events(None, None);
    assert!(evs.is_empty());
}

#[test]
fn image_alone_yields_one_event() {
    let evs = change_events(None, Some(vec![0xff, 0xd8]));
    assert_eq!(evs.len(), 1);
    assert!(matches!(&evs[0], Clip::Img(d) if d == &vec![0xff, 0xd8]));
}

#[test]
fn both_formats_yield_text_then_image() {
    let evs = change_events(Some(String::from("x")), Some(vec![1]));
    assert_eq!(evs.len(), 2);
    assert!(matches!(&evs[0], Clip::Text(t) if t == "x"));
    assert!(matches!(&evs[1], Clip::Img(d) if d == &vec![1]));
}
