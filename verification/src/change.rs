//! The clipboard-change handler's event construction.
//!
//! The OS watcher invokes a callback on every clipboard change. The
//! callback reads the clipboard's text and image independently — the
//! image already encoded to the fixed raster format — and enqueues the
//! events built here. Reading and enqueuing are the caller's; which
//! events one change yields is decided below.

use vstd::prelude::*;

use crate::clip::Clip;
use crate::clip::ClipView;
use crate::clip::clip_views;

verus! {

/// The events one clipboard change enqueues: a text event when text was
/// read and is non-empty, then an image event when a non-empty image was
/// read and encoded. A change exposing both formats yields two events.
pub open spec fn change_events_spec(text: Option<Seq<char>>, image: Option<Seq<u8>>) -> Seq<
    ClipView,
> {
    (match text {
        Some(t) => if t.len() > 0 {
            seq![ClipView::Text(t)]
        } else {
            Seq::<ClipView>::empty()
        },
        None => Seq::<ClipView>::empty(),
    }) + (match image {
        Some(b) => seq![ClipView::Img(b)],
        None => Seq::<ClipView>::empty(),
    })
}

/// Builds the events one clipboard change enqueues, from the text that
/// could be read (if any) and the encoded bytes of the image that could
/// be read (if any).
pub fn change_events(text: Option<String>, image: Option<Vec<u8>>) -> (evs: Vec<Clip>)
    ensures
        clip_views(evs@) == change_events_spec(text.deep_view(), image.deep_view()),
{
    let ghost tv = text.deep_view();
    let ghost iv = image.deep_view();
    let mut evs: Vec<Clip> = Vec::new();
    match text {
        Some(t) => {
            proof {
                assert(tv == Some(t.deep_view()));
                assert(t.deep_view() == t@);
            }
            if !t.as_str().is_empty() {
                evs.push(Clip::Text(t));
                proof {
                    assert(evs@.len() == 1);
                    assert(evs@[0]@ == ClipView::Text(t@));
                }
            }
        },
        None => {
            proof {
                assert(tv is None);
            }
        },
    }
    match image {
        Some(b) => {
            proof {
                assert(iv == Some(b.deep_view()));
                assert(b.deep_view() =~= b@);
            }
            evs.push(Clip::Img(b));
        },
        None => {
            proof {
                assert(iv is None);
            }
        },
    }
    proof {
        assert(clip_views(evs@) =~~= change_events_spec(tv, iv));
    }
    evs
}

} // verus!
