use clip_history::Clip;
use clip_history::History;
use clip_history::clip::clips_match;

fn text(s: &str) -> Clip {
    Clip::Text(String::from(s))
}

fn image(b: &[u8]) -> Clip {
    Clip::Img(b.to_vec())
}

fn entry_text(h: &History, i: usize) -> String {
    match h.get(i) {
        Clip::Text(t) => t.clone(),
        _ => panic!("entry {} is not text", i),
    }
}

fn entry_image(h: &History, i: usize) -> Vec<u8> {
    match h.get(i) {
        Clip::Img(d) => d.clone(),
        _ => panic!("entry {} is not an image", i),
    }
}

#[test]
fn text_dedups_exact_match() {
    let mut h = History::new();
    assert!(h.append_if_new(text("a")));
    assert!(!h.append_if_new(text("a")));
    assert_eq!(h.len(), 1);
    assert_eq!(entry_text(&h, 0), "a");
}

#[test]
fn distinct_texts_both_kept() {
    let mut h = History::new();
    assert!(h.append_if_new(text("a")));
    assert!(h.append_if_new(text("b")));
    assert!(!h.append_if_new(text("a")));
    assert_eq!(h.len(), 2);
    assert_eq!(entry_text(&h, 0), "a");
    assert_eq!(entry_text(&h, 1), "b");
}

#[test]
fn images_never_dedup() {
    let mut h = History::new();
    assert!(h.append_if_new(image(&[1, 2, 3])));
    assert!(h.append_if_new(image(&[1, 2, 3])));
    assert!(h.append_if_new(image(&[1, 2, 3])));
    assert_eq!(h.len(), 3);
    assert_eq!(entry_image(&h, 0), vec![1, 2, 3]);
    assert_eq!(entry_image(&h, 2), vec![1, 2, 3]);
}

#[test]
fn remove_keeps_relative_order() {
    let mut h = History::new();
    assert!(h.append_if_new(text("a")));
    assert!(h.append_if_new(text("b")));
    assert!(h.append_if_new(text("c")));
    assert!(h.remove_at(1));
    assert_eq!(h.len(), 2);
    assert_eq!(entry_text(&h, 0), "a");
    assert_eq!(entry_text(&h, 1), "c");
}

#[test]
fn remove_validates_index() {
    let mut h = History::new();
    assert!(h.append_if_new(text("a")));
    assert!(!h.remove_at(1));
    assert!(!h.remove_at(usize::MAX));
    assert_eq!(h.len(), 1);
    assert!(h.remove_at(0));
    assert_eq!(h.len(), 0);
}

#[test]
fn removed_text_may_return() {
    let mut h = History::new();
    assert!(h.append_if_new(text("a")));
    assert!(h.remove_at(0));
    assert!(h.append_if_new(text("a")));
    assert_eq!(h.len(), 1);
    assert_eq!(entry_text(&h, 0), "a");
}

#[test]
fn serialized_append_and_delete_lose_neither_effect() {
    // The lock serializes a racing append and delete; either order keeps
    // the appended entry and removes exactly the deleted one.
    let mut first = History::new();
    first.append_if_new(text("a"));
    first.append_if_new(text("b"));
    assert!(first.append_if_new(text("c")));
    assert!(first.remove_at(0));
    assert_eq!(entry_text(&first, 0), "b");
    assert_eq!(entry_text(&first, 1), "c");

    let mut second = History::new();
    second.append_if_new(text("a"));
    second.append_if_new(text("b"));
    assert!(second.remove_at(0));
    assert!(second.append_if_new(text("c")));
    assert_eq!(entry_text(&second, 0), "b");
    assert_eq!(entry_text(&second, 1), "c");
}

#[test]
fn serialization_order_decides_a_dedup_race() {
    // Appending "a" before the delete of the old "a" dedups; after it, the
    // new "a" is kept. Both are faithful serializations.
    let mut first = History::new();
    first.append_if_new(text("a"));
    first.append_if_new(text("b"));
    assert!(!first.append_if_new(text("a")));
    assert!(first.remove_at(0));
    assert_eq!(first.len(), 1);
    assert_eq!(entry_text(&first, 0), "b");

    let mut second = History::new();
    second.append_if_new(text("a"));
    second.append_if_new(text("b"));
    assert!(second.remove_at(0));
    assert!(second.append_if_new(text("a")));
    assert_eq!(second.len(), 2);
    assert_eq!(entry_text(&second, 0), "b");
    assert_eq!(entry_text(&second, 1), "a");
}

#[test]
fn match_rule_is_type_dependent() {
    let a = text("a");
    let a2 = text("a");
    let b = text("b");
    let img = image(&[9]);
    let img2 = image(&[9]);
    assert!(clips_match(&a, &a2));
    assert!(!clips_match(&a, &b));
    assert!(!clips_match(&img, &img2));
    assert!(!clips_match(&img, &img));
    assert!(!clips_match(&a, &img));
    assert!(clips_match(&Clip::Quit, &Clip::Quit));
    assert!(!clips_match(&Clip::Quit, &a));
}
