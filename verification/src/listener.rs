//! The event listener's decision logic and its shutdown protocol.
//!
//! A dedicated thread receives [`Clip`] events from an unbounded queue fed
//! by the clipboard watcher and by the window's close handler. The thread's
//! loop is plain plumbing: block on the queue, take the lock, and apply
//! [`listener_step`]; it leaves the loop when the step says to stop or when
//! the queue closes. Everything the loop decides is here, as functions of
//! the received event and the locked history.

use vstd::prelude::*;

use crate::clip::Clip;
use crate::clip::ClipView;
use crate::clip::clip_views;
use crate::history::History;
use crate::history::append_if_new_spec;
use crate::history::lemma_wf_append;
use crate::history::should_append;
use crate::history::wf_history;

verus! {

/// What the listener loop does after one received event.
#[derive(PartialEq, Eq, Structural, Clone, Copy, Debug)]
pub enum ListenerAction {
    /// Keep listening; `repaint` reports whether the history changed, in
    /// which case the loop asks the window for a repaint.
    Handled { repaint: bool },
    /// The shutdown sentinel was received: leave the loop and mutate the
    /// history no further.
    Stop,
}

/// The history after the listener handles one event: `Quit` leaves it
/// untouched, anything else goes through the dedup rule.
pub open spec fn listener_step_spec(s: Seq<ClipView>, e: ClipView) -> Seq<ClipView> {
    match e {
        ClipView::Quit => s,
        _ => append_if_new_spec(s, e),
    }
}

/// Handles one received event under the history lock. On `Quit` it stops
/// the loop without touching the history; on anything else it appends
/// under the dedup rule and asks for a repaint exactly when it appended.
pub fn listener_step(h: &mut History, e: Clip) -> (a: ListenerAction)
    ensures
        final(h)@ == listener_step_spec(old(h)@, e@),
        e@ is Quit ==> a == ListenerAction::Stop,
        !(e@ is Quit) ==> a == (ListenerAction::Handled {
            repaint: should_append(old(h)@, e@),
        }),
        wf_history(old(h)@) ==> wf_history(final(h)@),
{
    match e {
        Clip::Quit => ListenerAction::Stop,
        other => {
            let appended = h.append_if_new(other);
            ListenerAction::Handled { repaint: appended }
        },
    }
}

/// The history after the listener drains the events `evs` in order,
/// stopping at the first `Quit`.
pub open spec fn process_events(s: Seq<ClipView>, evs: Seq<ClipView>) -> Seq<ClipView>
    decreases evs.len(),
{
    if evs.len() == 0 {
        s
    } else if evs[0] is Quit {
        s
    } else {
        process_events(append_if_new_spec(s, evs[0]), evs.skip(1))
    }
}

/// How many events the listener receives from `evs` before its loop exits:
/// one per event up to and including the first `Quit`, or all of them when
/// none is a `Quit`.
pub open spec fn polls_until_stop(evs: Seq<ClipView>) -> nat
    decreases evs.len(),
{
    if evs.len() == 0 {
        0
    } else if evs[0] is Quit {
        1
    } else {
        1 + polls_until_stop(evs.skip(1))
    }
}

/// Extending a quit-free prefix by one more non-`Quit` event folds as one
/// more `append_if_new`.
proof fn lemma_take_step(s: Seq<ClipView>, evs: Seq<ClipView>, k: int)
    requires
        0 <= k < evs.len(),
        forall|j: int| 0 <= j < k ==> !(#[trigger] evs[j] is Quit),
        !(evs[k] is Quit),
    ensures
        process_events(s, evs.take(k + 1)) == append_if_new_spec(
            process_events(s, evs.take(k)),
            evs[k],
        ),
    decreases k,
{
    let s1 = append_if_new_spec(s, evs[0]);
    assert(!(evs[0] is Quit));
    if k == 0 {
        assert(evs.take(0) =~= Seq::<ClipView>::empty());
        assert(process_events(s, evs.take(0)) == s);
        assert(evs.take(1).len() == 1);
        assert(evs.take(1)[0] == evs[0]);
        assert(evs.take(1).skip(1) =~= Seq::<ClipView>::empty());
        assert(process_events(s1, evs.take(1).skip(1)) == s1);
        assert(process_events(s, evs.take(1)) == s1);
    } else {
        let rest = evs.skip(1);
        assert(evs.take(k + 1).len() == k + 1);
        assert(evs.take(k + 1)[0] == evs[0]);
        assert(evs.take(k).len() == k);
        assert(evs.take(k)[0] == evs[0]);
        assert(evs.take(k + 1).skip(1) =~= rest.take(k));
        assert(evs.take(k).skip(1) =~= rest.take(k - 1));
        assert(process_events(s, evs.take(k + 1)) == process_events(s1, rest.take(k)));
        assert(process_events(s, evs.take(k)) == process_events(s1, rest.take(k - 1)));
        assert(forall|j: int| 0 <= j < k - 1 ==> !(#[trigger] rest[j] is Quit)) by {
            assert(forall|j: int| 0 <= j < k - 1 ==> rest[j] == evs[j + 1]);
        }
        assert(rest[k - 1] == evs[k]);
        lemma_take_step(s1, rest, k - 1);
    }
}

/// A first `Quit` at index `k` stops the drain there: the result is what
/// the quit-free prefix alone produces, after exactly `k + 1` receives.
proof fn lemma_first_quit(s: Seq<ClipView>, evs: Seq<ClipView>, k: int)
    requires
        0 <= k < evs.len(),
        evs[k] is Quit,
        forall|j: int| 0 <= j < k ==> !(#[trigger] evs[j] is Quit),
    ensures
        polls_until_stop(evs) == k + 1,
        process_events(s, evs) == process_events(s, evs.take(k)),
    decreases k,
{
    if k == 0 {
        assert(evs.take(0) =~= Seq::<ClipView>::empty());
        assert(process_events(s, evs.take(0)) == s);
        assert(process_events(s, evs) == s);
        assert(polls_until_stop(evs) == 1);
    } else {
        assert(!(evs[0] is Quit));
        let s1 = append_if_new_spec(s, evs[0]);
        let rest = evs.skip(1);
        assert(forall|j: int| 0 <= j < k - 1 ==> !(#[trigger] rest[j] is Quit)) by {
            assert(forall|j: int| 0 <= j < k - 1 ==> rest[j] == evs[j + 1]);
        }
        assert(rest[k - 1] == evs[k]);
        lemma_first_quit(s1, rest, k - 1);
        assert(polls_until_stop(evs) == 1 + polls_until_stop(rest));
        assert(process_events(s, evs) == process_events(s1, rest));
        assert(evs.take(k).len() == k);
        assert(evs.take(k)[0] == evs[0]);
        assert(evs.take(k).skip(1) =~= rest.take(k - 1));
        assert(process_events(s, evs.take(k)) == process_events(s1, rest.take(k - 1)));
    }
}

/// A drain of a quit-free queue receives every event.
proof fn lemma_no_quit(evs: Seq<ClipView>)
    requires
        forall|j: int| 0 <= j < evs.len() ==> !(#[trigger] evs[j] is Quit),
    ensures
        polls_until_stop(evs) == evs.len(),
    decreases evs.len(),
{
    if evs.len() > 0 {
        let rest = evs.skip(1);
        assert(forall|j: int| 0 <= j < rest.len() ==> rest[j] == evs[j + 1]);
        lemma_no_quit(rest);
    }
}

/// Law: sending `Quit` terminates the listener loop within a bounded
/// number of queue polls — at most one more than the sentinel's position —
/// and no event at or after the stopping poll mutates the history.
pub proof fn lemma_quit_stops_listener(s: Seq<ClipView>, evs: Seq<ClipView>, k: int)
    requires
        0 <= k < evs.len(),
        evs[k] is Quit,
    ensures
        1 <= polls_until_stop(evs) <= k + 1,
        process_events(s, evs) == process_events(
            s,
            evs.take(polls_until_stop(evs) - 1),
        ),
    decreases k,
{
    if evs[0] is Quit {
        assert(polls_until_stop(evs) == 1);
        assert(process_events(s, evs) == s);
        assert(evs.take(0) =~= Seq::<ClipView>::empty());
        assert(process_events(s, evs.take(0)) == s);
    } else {
        let s1 = append_if_new_spec(s, evs[0]);
        let rest = evs.skip(1);
        assert(rest[k - 1] == evs[k]);
        lemma_quit_stops_listener(s1, rest, k - 1);
        let p = polls_until_stop(rest) as int;
        assert(polls_until_stop(evs) == p + 1);
        assert(process_events(s, evs) == process_events(s1, rest));
        assert(evs.take(p).len() == p);
        assert(evs.take(p)[0] == evs[0]);
        assert(evs.take(p).skip(1) =~= rest.take(p - 1));
        assert(process_events(s, evs.take(p)) == process_events(s1, rest.take(p - 1)));
    }
}

/// Law: under the dedup rule the history stays well-formed across any
/// sequence of received events — in particular a run of `Text` events with
/// repeated identical content leaves no two entries with equal text.
pub proof fn lemma_process_preserves_wf(s: Seq<ClipView>, evs: Seq<ClipView>)
    requires
        wf_history(s),
    ensures
        wf_history(process_events(s, evs)),
    decreases evs.len(),
{
    if evs.len() > 0 && !(evs[0] is Quit) {
        lemma_wf_append(s, evs[0]);
        lemma_process_preserves_wf(append_if_new_spec(s, evs[0]), evs.skip(1));
    }
}

/// Law: images never dedup — a queue made of image events only appends
/// every one of them, byte-identical or not, in order.
pub proof fn lemma_images_always_append(s: Seq<ClipView>, evs: Seq<ClipView>)
    requires
        forall|j: int| 0 <= j < evs.len() ==> #[trigger] evs[j] is Img,
    ensures
        process_events(s, evs) == s + evs,
    decreases evs.len(),
{
    if evs.len() == 0 {
        assert(s + evs =~= s);
    } else {
        let c = evs[0];
        assert(should_append(s, c));
        let rest = evs.skip(1);
        assert(forall|j: int| 0 <= j < rest.len() ==> #[trigger] rest[j] is Img) by {
            assert(forall|j: int| 0 <= j < rest.len() ==> rest[j] == evs[j + 1]);
        }
        assert(process_events(s, evs) == process_events(s.push(c), rest));
        lemma_images_always_append(s.push(c), rest);
        assert(s.push(c) + rest =~= s + evs);
    }
}

/// Drains a finite queue of events in order, exactly as the listener
/// thread would receive them, and returns how many events it received
/// before stopping or exhausting the queue.
#[verifier::loop_isolation(false)]
pub fn process_all(h: &mut History, evs: Vec<Clip>) -> (polls: usize)
    ensures
        final(h)@ == process_events(old(h)@, clip_views(evs@)),
        polls == polls_until_stop(clip_views(evs@)),
        polls <= evs@.len(),
        wf_history(old(h)@) ==> wf_history(final(h)@),
{
    let ghost vs = clip_views(evs@);
    let ghost s0 = h@;
    let n = evs.len();
    let mut q = evs;
    let mut k: usize = 0;
    while q.len() > 0
        invariant
            vs.len() == n,
            k + q@.len() == vs.len(),
            clip_views(q@) =~= vs.skip(k as int),
            h@ == process_events(s0, vs.take(k as int)),
            forall|j: int| 0 <= j < k ==> !(#[trigger] vs[j] is Quit),
            wf_history(s0) ==> wf_history(h@),
        decreases q@.len(),
    {
        let ghost qv = q@;
        let e = q.remove(0);
        proof {
            assert(e@ == clip_views(qv)[0]);
            assert(e@ == vs[k as int]);
            assert(clip_views(q@) =~= clip_views(qv).skip(1));
            assert(clip_views(q@) =~= vs.skip(k as int + 1));
        }
        let a = listener_step(h, e);
        k = k + 1;
        match a {
            ListenerAction::Stop => {
                proof {
                    lemma_first_quit(s0, vs, k as int - 1);
                    assert(h@ == process_events(s0, vs));
                }
                return k;
            },
            ListenerAction::Handled { repaint: _ } => {
                proof {
                    lemma_take_step(s0, vs, k as int - 1);
                }
            },
        }
    }
    proof {
        assert(vs.take(k as int) =~= vs);
        lemma_no_quit(vs);
    }
    k
}

} // verus!
