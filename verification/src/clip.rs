//! Clipboard events and the deduplication rule.

use vstd::prelude::*;

verus! {

/// One clipboard event: captured text, a captured image already encoded to
/// its fixed raster format, or the `Quit` sentinel sent to the listener
/// when the window is closed.
pub enum Clip {
    Text(String),
    Img(Vec<u8>),
    Quit,
}

/// Mathematical model of a [`Clip`]: the text as a sequence of characters,
/// the image as its encoded bytes.
pub enum ClipView {
    Text(Seq<char>),
    Img(Seq<u8>),
    Quit,
}

impl View for Clip {
    type V = ClipView;

    open spec fn view(&self) -> ClipView {
        match self {
            Clip::Text(t) => ClipView::Text(t@),
            Clip::Img(d) => ClipView::Img(d@),
            Clip::Quit => ClipView::Quit,
        }
    }
}

/// The model of a whole vector of events.
pub open spec fn clip_views(s: Seq<Clip>) -> Seq<ClipView> {
    s.map_values(|c: Clip| c@)
}

/// The deduplication rule. It is deliberately not an equality: text
/// matches equal text, `Quit` matches `Quit`, and an image matches
/// nothing — not even a byte-identical image.
pub open spec fn dedup_eq(a: ClipView, b: ClipView) -> bool {
    match a {
        ClipView::Text(t) => b == ClipView::Text(t),
        ClipView::Img(_) => false,
        ClipView::Quit => b == ClipView::Quit,
    }
}

/// Decides whether `a` matches `b` under the deduplication rule.
pub fn clips_match(a: &Clip, b: &Clip) -> (r: bool)
    ensures
        r == dedup_eq(a@, b@),
{
    match (a, b) {
        (Clip::Text(t), Clip::Text(o)) => t.eq(o),
        (Clip::Quit, Clip::Quit) => true,
        _ => false,
    }
}

} // verus!
