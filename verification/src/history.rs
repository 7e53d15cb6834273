//! The deduplicating history store.
//!
//! The history is the ordered record of captured clipboard entries, oldest
//! first. A new entry is appended only if no present entry matches it under
//! the dedup rule of [`crate::clip::dedup_eq`]; an entry is removed only by
//! an explicit delete whose index is validated against the current length.

use vstd::prelude::*;

use crate::clip::Clip;
use crate::clip::ClipView;
use crate::clip::clip_views;
use crate::clip::clips_match;
use crate::clip::dedup_eq;

verus! {

/// Well-formedness of a history: no entry matches any earlier entry under
/// the dedup rule. In particular no two entries hold equal text; images
/// never match, so any number of byte-identical images may be present.
pub open spec fn wf_history(s: Seq<ClipView>) -> bool {
    forall|i: int, j: int| 0 <= i < j < s.len() ==> !dedup_eq(s[j], s[i])
}

/// Whether `c` would be appended to a history with entries `s`: true when
/// no present entry matches it.
pub open spec fn should_append(s: Seq<ClipView>, c: ClipView) -> bool {
    forall|i: int| 0 <= i < s.len() ==> !dedup_eq(c, #[trigger] s[i])
}

/// The entries after an `append_if_new` of `c`.
pub open spec fn append_if_new_spec(s: Seq<ClipView>, c: ClipView) -> Seq<ClipView> {
    if should_append(s, c) {
        s.push(c)
    } else {
        s
    }
}

/// The entries after a `remove_at` of index `i`: unchanged unless `i` is in
/// range.
pub open spec fn remove_spec(s: Seq<ClipView>, i: int) -> Seq<ClipView> {
    if 0 <= i < s.len() {
        s.remove(i)
    } else {
        s
    }
}

/// The ordered, in-memory record of captured clipboard entries.
pub struct History {
    items: Vec<Clip>,
}

impl View for History {
    type V = Seq<ClipView>;

    closed spec fn view(&self) -> Seq<ClipView> {
        clip_views(self.items@)
    }
}

impl History {
    /// The history starts empty and lives for the process lifetime.
    pub fn new() -> (h: History)
        ensures
            h@ == Seq::<ClipView>::empty(),
    {
        let h = History { items: Vec::new() };
        proof {
            assert(h@ =~= Seq::<ClipView>::empty());
        }
        h
    }

    pub fn len(&self) -> (n: usize)
        ensures
            n == self@.len(),
    {
        self.items.len()
    }

    pub fn get(&self, i: usize) -> (c: &Clip)
        requires
            i < self@.len(),
        ensures
            c@ == self@[i as int],
    {
        &self.items[i]
    }

    /// Whether some present entry matches `c` under the dedup rule.
    fn contains_match(&self, c: &Clip) -> (r: bool)
        ensures
            r == !should_append(self@, c@),
    {
        let mut k: usize = 0;
        while k < self.items.len()
            invariant
                k <= self.items@.len(),
                forall|i: int| 0 <= i < k ==> !dedup_eq(c@, #[trigger] self@[i]),
            decreases self.items@.len() - k,
        {
            if clips_match(c, &self.items[k]) {
                proof {
                    assert(dedup_eq(c@, self@[k as int]));
                }
                return true;
            }
            k += 1;
        }
        false
    }

    /// Appends `c` unless a present entry matches it under the dedup rule,
    /// and reports whether it appended. An image is always appended; the
    /// well-formedness of the history is preserved either way.
    pub fn append_if_new(&mut self, c: Clip) -> (appended: bool)
        ensures
            appended == should_append(old(self)@, c@),
            final(self)@ == append_if_new_spec(old(self)@, c@),
            c@ is Img ==> appended,
            wf_history(old(self)@) ==> wf_history(final(self)@),
    {
        proof {
            if c@ is Img {
                assert(should_append(self@, c@));
            }
        }
        if self.contains_match(&c) {
            false
        } else {
            let ghost s = self@;
            let ghost cv = c@;
            self.items.push(c);
            proof {
                assert(self@ =~= s.push(cv));
                if wf_history(s) {
                    lemma_wf_append(s, cv);
                }
            }
            true
        }
    }

    /// Removes the entry at `i` if `i` is in range, and reports whether it
    /// removed one. Every other entry keeps its relative order.
    pub fn remove_at(&mut self, i: usize) -> (removed: bool)
        ensures
            removed == (i < old(self)@.len()),
            final(self)@ == remove_spec(old(self)@, i as int),
            i < old(self)@.len() ==> final(self)@.len() == old(self)@.len() - 1,
            i < old(self)@.len() ==> (forall|j: int|
                0 <= j < i ==> final(self)@[j] == old(self)@[j]),
            i < old(self)@.len() ==> (forall|j: int|
                i <= j < final(self)@.len() ==> final(self)@[j] == old(self)@[j + 1]),
            wf_history(old(self)@) ==> wf_history(final(self)@),
    {
        if i < self.items.len() {
            let ghost s = self@;
            self.items.remove(i);
            proof {
                assert(self@ =~= s.remove(i as int));
                if wf_history(s) {
                    lemma_wf_remove(s, i as int);
                }
            }
            true
        } else {
            false
        }
    }
}

/// An `append_if_new` keeps the history well-formed: whatever the dedup
/// rule admits matched nothing already present.
pub proof fn lemma_wf_append(s: Seq<ClipView>, c: ClipView)
    requires
        wf_history(s),
    ensures
        wf_history(append_if_new_spec(s, c)),
{
    if should_append(s, c) {
        let r = s.push(c);
        assert forall|i: int, j: int| 0 <= i < j < r.len() implies !dedup_eq(r[j], r[i]) by {
            if j < s.len() {
                assert(!dedup_eq(s[j], s[i]));
            } else {
                assert(r[j] == c);
                assert(!dedup_eq(c, s[i]));
            }
        }
    }
}

/// Removing an entry keeps the history well-formed: the surviving entries
/// pair up exactly as they did before.
pub proof fn lemma_wf_remove(s: Seq<ClipView>, i: int)
    requires
        wf_history(s),
        0 <= i < s.len(),
    ensures
        wf_history(s.remove(i)),
{
    let r = s.remove(i);
    assert forall|a: int, b: int| 0 <= a < b < r.len() implies !dedup_eq(r[b], r[a]) by {
        let a0 = if a < i { a } else { a + 1 };
        let b0 = if b < i { b } else { b + 1 };
        assert(r[a] == s[a0]);
        assert(r[b] == s[b0]);
        assert(!dedup_eq(s[b0], s[a0]));
    }
}

/// Law: an append and a delete that race on the shared history are applied
/// under one lock, so they serialize; in either order neither effect is
/// lost. Appending and then deleting the entry that stood at `i` leaves the
/// appended entry (when the dedup rule admitted it) at the end; deleting
/// first and then appending does the same; in both orders exactly the one
/// entry `s[i]` is gone.
pub proof fn lemma_append_delete_serialized(s: Seq<ClipView>, c: ClipView, i: int)
    requires
        0 <= i < s.len(),
    ensures
        append_if_new_spec(s, c).remove(i) == (if should_append(s, c) {
            s.remove(i).push(c)
        } else {
            s.remove(i)
        }),
        should_append(s, c) ==> append_if_new_spec(s.remove(i), c) == s.remove(i).push(c),
{
    if should_append(s, c) {
        assert(append_if_new_spec(s, c).remove(i) =~= s.remove(i).push(c));
        let r = s.remove(i);
        assert forall|k: int| 0 <= k < r.len() implies !dedup_eq(c, #[trigger] r[k]) by {
            let k0 = if k < i { k } else { k + 1 };
            assert(r[k] == s[k0]);
            assert(!dedup_eq(c, s[k0]));
        }
        assert(should_append(r, c));
    }
}

} // verus!
