//! The viewer's playlist position and its cache of decoded images.
//!
//! A [`Viewer`] knows the playlist, the current index, the decoded images it
//! holds (of any type `T`, such as GPU texture handles) and the indices whose
//! decoding has been requested but not delivered yet. Its operations decide
//! which images to request and which to drop, so that the current image and
//! both its neighbours are decoded ahead of time while everything else is
//! evicted.

use std::collections::{HashMap, HashSet};
use vstd::prelude::*;

use crate::image_loader::{
    all_canonical, all_portable, final_piece, first_text_match, index_of, is_first_same_path,
    names_final_piece,
};
use crate::input::InputState;

verus! {

broadcast use vstd::std_specs::hash::group_hash_axioms;

// ---------------------------------------------------------------------------
// The window of images kept decoded
// ---------------------------------------------------------------------------

/// Indices that should be kept decoded: the current one and its neighbours
/// (the playlist wraps around at both ends).
pub open spec fn window(len: nat, index: nat) -> Seq<usize> {
    if len == 0 {
        seq![]
    } else if len == 1 {
        seq![0usize]
    } else {
        seq![
            index as usize,
            (((index + 1) as int) % (len as int)) as usize,
            (((index + len - 1) as int) % (len as int)) as usize,
        ]
    }
}

/// The indices to request, in window order: those of `w` that are neither
/// held in `have` nor requested earlier in the same pass.
pub open spec fn requests_for(w: Seq<usize>, have: Set<usize>) -> Seq<usize>
    decreases w.len(),
{
    if w.len() == 0 {
        seq![]
    } else {
        let r = requests_for(w.drop_last(), have);
        if have.contains(w.last()) || r.contains(w.last()) {
            r
        } else {
            r.push(w.last())
        }
    }
}

/// The index after `index` in a playlist of `len` images, wrapping around.
pub open spec fn next_index(len: nat, index: nat) -> nat {
    (((index + 1) as int) % (len as int)) as nat
}

/// The index before `index` in a playlist of `len` images, wrapping around.
pub open spec fn prev_index(len: nat, index: nat) -> nat {
    (((index + len - 1) as int) % (len as int)) as nat
}

proof fn lemma_neighbours(len: nat, index: nat)
    requires
        index < len,
    ensures
        next_index(len, index) == if index + 1 == len { 0 } else { index + 1 },
        prev_index(len, index) == if index == 0 { len - 1 } else { index - 1 },
{
    if index + 1 == len {
        vstd::arithmetic::div_mod::lemma_mod_self_0(len as int);
    } else {
        vstd::arithmetic::div_mod::lemma_small_mod((index + 1) as nat, len);
    }
    if index == 0 {
        vstd::arithmetic::div_mod::lemma_small_mod((len - 1) as nat, len);
    } else {
        vstd::arithmetic::div_mod::lemma_mod_add_multiples_vanish(index - 1, len as int);
        vstd::arithmetic::div_mod::lemma_small_mod((index - 1) as nat, len);
    }
}

proof fn lemma_requests_for(w: Seq<usize>, have: Set<usize>)
    ensures
        forall|k: usize| #[trigger]
            requests_for(w, have).contains(k) ==> w.contains(k) && !have.contains(k),
        forall|k: usize| w.contains(k) ==> have.contains(k) || #[trigger] requests_for(
            w,
            have,
        ).contains(k),
        requests_for(w, have).no_duplicates(),
    decreases w.len(),
{
    if w.len() > 0 {
        let d = w.drop_last();
        lemma_requests_for(d, have);
        assert forall|k: usize| #[trigger] requests_for(w, have).contains(k) implies w.contains(k)
            && !have.contains(k) by {
            if requests_for(d, have).contains(k) {
                let j = choose|j: int| 0 <= j < d.len() && d[j] == k;
                assert(w[j] == k);
            } else {
                assert(w[w.len() - 1] == k);
            }
        }
        assert forall|k: usize| w.contains(k) implies have.contains(k) || #[trigger] requests_for(
            w,
            have,
        ).contains(k) by {
            let j = choose|j: int| 0 <= j < w.len() && w[j] == k;
            let rd = requests_for(d, have);
            if j < w.len() - 1 {
                assert(d[j] == k);
                assert(d.contains(k));
                if rd.contains(k) {
                    let m = choose|m: int| 0 <= m < rd.len() && rd[m] == k;
                    assert(rd.push(w.last())[m] == k);
                }
            } else {
                if rd.contains(k) {
                    let m = choose|m: int| 0 <= m < rd.len() && rd[m] == k;
                    assert(rd.push(w.last())[m] == k);
                }
                assert(rd.push(w.last())[rd.len() as int] == w.last());
            }
        }
    }
}

/// Whether `k` occurs in `v`.
fn contains_index(v: &Vec<usize>, k: usize) -> (r: bool)
    ensures
        r == v@.contains(k),
{
    let mut i: usize = 0;
    while i < v.len()
        invariant
            i <= v@.len(),
            forall|j: int| 0 <= j < i ==> v@[j] != k,
        decreases v@.len() - i,
    {
        if v[i] == k {
            return true;
        }
        i = i + 1;
    }
    false
}

/// Where one "next image" step leads: the index and whether it moved.
pub open spec fn step_next(len: nat, index: nat) -> (nat, bool) {
    if len > 1 {
        (next_index(len, index), true)
    } else {
        (index, false)
    }
}

/// Where one "previous image" step leads: the index and whether it moved.
pub open spec fn step_prev(len: nat, index: nat) -> (nat, bool) {
    if len > 1 {
        (prev_index(len, index), true)
    } else {
        (index, false)
    }
}

/// Where a jump to `target` leads: the index and whether it moved.
pub open spec fn step_go(len: nat, index: nat, target: nat) -> (nat, bool) {
    if target < len && target != index {
        (target, true)
    } else {
        (index, false)
    }
}

/// Where the keys of one frame lead, applied in the order next, previous,
/// first, last: the final index and whether any step moved.
pub open spec fn keys_target(len: nat, index: nat, input: InputState) -> (nat, bool) {
    let s1 = if input.next { step_next(len, index) } else { (index, false) };
    let s2 = if input.prev { step_prev(len, s1.0) } else { (s1.0, false) };
    let s3 = if input.first { step_go(len, s2.0, 0) } else { (s2.0, false) };
    let s4 = if input.last && len > 0 { step_go(len, s3.0, (len - 1) as nat) } else { (s3.0, false) };
    (s4.0, s1.1 || s2.1 || s3.1 || s4.1)
}

/// Whether the view is fitted after the keys of one frame: resetting the view
/// fits it, zooming stops fitting, and moving to another image fits it again.
pub open spec fn keys_fit(fit: bool, moved: bool, input: InputState) -> bool {
    if input.reset_view {
        true
    } else if input.zoom_in || input.zoom_out {
        false
    } else if moved {
        true
    } else {
        fit
    }
}

/// Zooming, in or out, stops fitting the view to the window, so that the
/// zoomed view stays on screen; resetting the view fits it again, and wins
/// over a zoom in the same frame. Without these keys, the view is fitted
/// after a move, and otherwise stays as it was.
pub proof fn lemma_zoom_and_reset_decide_fitting(fit: bool, moved: bool, input: InputState)
    ensures
        input.reset_view ==> keys_fit(fit, moved, input),
        (input.zoom_in || input.zoom_out) && !input.reset_view ==> !keys_fit(fit, moved, input),
        !input.zoom_in && !input.zoom_out && !input.reset_view ==> keys_fit(fit, moved, input)
            == (fit || moved),
{
}

/// Appends `more` to `requests`.
fn absorb(requests: &mut Vec<usize>, more: Vec<usize>)
    ensures
        final(requests)@ == old(requests)@ + more@,
        final(requests)@.to_set() == old(requests)@.to_set().union(more@.to_set()),
{
    let mut more = more;
    let ghost a = requests@;
    let ghost b = more@;
    requests.append(&mut more);
    proof {
        assert forall|x: usize| #[trigger] (a + b).contains(x) <==> a.contains(x) || b.contains(
            x,
        ) by {
            if (a + b).contains(x) {
                let i = choose|i: int| 0 <= i < (a + b).len() && (a + b)[i] == x;
                if i >= a.len() {
                    assert(b[i - a.len()] == x);
                }
            }
            if b.contains(x) {
                let i = choose|i: int| 0 <= i < b.len() && b[i] == x;
                assert((a + b)[i + a.len()] == x);
            }
            if a.contains(x) {
                let i = choose|i: int| 0 <= i < a.len() && a[i] == x;
                assert((a + b)[i] == x);
            }
        }
        assert((a + b).to_set() =~= a.to_set().union(b.to_set()));
    }
}

// ---------------------------------------------------------------------------
// The viewer
// ---------------------------------------------------------------------------

/// What a [`Viewer`] holds, as mathematical values.
pub struct ViewState<T> {
    /// The playlist.
    pub images: Seq<String>,
    /// Position of the current image in the playlist (0 when it is empty).
    pub index: nat,
    /// Decoded images, by playlist index.
    pub cache: Map<usize, T>,
    /// Indices whose decoding was requested and has not been delivered.
    pub pending: Set<usize>,
    /// Last decoding error of the current image, if any.
    pub error: Option<String>,
    /// Whether the view is fitted to the window each frame.
    pub fit: bool,
    /// Whether the help window is shown.
    pub show_help: bool,
}

impl<T> ViewState<T> {
    /// The indices that the viewer keeps decoded around the current image.
    pub open spec fn window(self) -> Seq<usize> {
        window(self.images.len(), self.index)
    }

    /// The state's invariant: the index is in the playlist (or 0 for an empty
    /// one), and no index is both decoded and awaited.
    pub open spec fn valid(self) -> bool {
        &&& (self.images.len() == 0 ==> self.index == 0)
        &&& (self.images.len() > 0 ==> self.index < self.images.len())
        &&& forall|k: usize| self.cache.dom().contains(k) ==> !self.pending.contains(k)
    }

    /// What is already decoded or awaited, out of the window around `index`.
    pub open spec fn held_at(self, index: nat) -> Set<usize> {
        let ws = window(self.images.len(), index).to_set();
        self.cache.dom().intersect(ws).union(self.pending.intersect(ws))
    }

    /// The indices to request when the window moves to `index`: those of the
    /// window that are neither decoded nor awaited, each once, in window order.
    pub open spec fn requests_at(self, index: nat) -> Seq<usize> {
        requests_for(window(self.images.len(), index), self.held_at(index))
    }

    /// The decoded images that stay when the window moves to `index`.
    pub open spec fn cache_at(self, index: nat) -> Map<usize, T> {
        self.cache.restrict(window(self.images.len(), index).to_set())
    }

    /// The awaited indices once the window has moved to `index`: those that
    /// stay, and the new requests.
    pub open spec fn pending_at(self, index: nat) -> Set<usize> {
        self.pending.intersect(window(self.images.len(), index).to_set()).union(
            self.requests_at(index).to_set(),
        )
    }

    /// A move to `index` keeps part of the cache, awaits only what was
    /// awaited or is requested, and leaves the window around `index` loaded.
    pub proof fn lemma_moved_to(self, after: ViewState<T>, index: nat, requests: Seq<usize>)
        requires
            self.moved_to(after, index, requests),
        ensures
            after.cache.submap_of(self.cache),
            after.pending.subset_of(self.pending.union(requests.to_set())),
            after.window_loaded(),
    {
        let w = window(self.images.len(), index);
        let ws = w.to_set();
        lemma_requests_for(w, self.held_at(index));
        assert forall|k: usize| after.pending.contains(k) implies ws.contains(k) by {
            if requests.to_set().contains(k) {
                assert(requests.contains(k));
                assert(w.contains(k));
            }
        }
        assert forall|k: usize| ws.contains(k) implies after.cache.dom().contains(k)
            || after.pending.contains(k) by {
            assert(w.contains(k));
            if !self.held_at(index).contains(k) {
                assert(requests.contains(k));
            }
        }
    }

    /// `after` is this state moved to `index`, with its window refreshed by
    /// the `requests`, its error cleared and the view fitted again.
    pub open spec fn moved_to(self, after: ViewState<T>, index: nat, requests: Seq<usize>) -> bool {
        &&& after.images == self.images
        &&& after.index == index
        &&& requests == self.requests_at(index)
        &&& after.cache == self.cache_at(index)
        &&& after.pending == self.pending_at(index)
        &&& after.error is None
        &&& after.fit
        &&& after.show_help == self.show_help
    }

    /// `after` is the outcome of one navigation step from this state: a move
    /// to `step.0` when `step.1` holds, else no change and no request.
    pub open spec fn stepped(self, after: ViewState<T>, step: (nat, bool), requests: Seq<usize>) -> bool {
        if step.1 {
            self.moved_to(after, step.0, requests)
        } else {
            after == self && requests.len() == 0
        }
    }

    /// `after` is the outcome of several navigation steps from this state
    /// that end at `target.0`; `target.1` tells whether any step moved.
    pub open spec fn navigated(self, after: ViewState<T>, target: (nat, bool), requests: Seq<usize>) -> bool {
        &&& after.images == self.images
        &&& after.index == target.0
        &&& after.show_help == self.show_help
        &&& (target.1 ==> after.error is None && after.fit && after.window_loaded())
        &&& (!target.1 ==> after == self && requests.len() == 0)
        &&& after.cache.submap_of(self.cache)
        &&& after.pending.subset_of(self.pending.union(requests.to_set()))
    }

    /// Navigation steps compose.
    pub proof fn lemma_navigated_then_stepped(
        self,
        mid: ViewState<T>,
        after: ViewState<T>,
        target: (nat, bool),
        step: (nat, bool),
        r1: Seq<usize>,
        r2: Seq<usize>,
        all: Seq<usize>,
    )
        requires
            self.navigated(mid, target, r1),
            mid.stepped(after, step, r2),
            !step.1 ==> step.0 == mid.index,
            all == r1 + r2,
            all.to_set() == r1.to_set().union(r2.to_set()),
        ensures
            self.navigated(after, (step.0, target.1 || step.1), all),
    {
        if step.1 {
            mid.lemma_moved_to(after, step.0, r2);
        } else {
            assert(all =~= r1);
        }
    }

    /// The cache is exactly warm around the current image: every decoded or
    /// awaited index is in the window, and every index of the window is
    /// decoded or awaited.
    pub open spec fn window_loaded(self) -> bool {
        let w = self.window().to_set();
        &&& forall|k: usize| self.cache.dom().contains(k) ==> w.contains(k)
        &&& forall|k: usize| self.pending.contains(k) ==> w.contains(k)
        &&& forall|k: usize| w.contains(k) ==> self.cache.dom().contains(k) || self.pending.contains(k)
    }
}

/// The playlist, the current position in it, and the decoded images kept
/// around that position.
pub struct Viewer<T> {
    images: Vec<String>,
    index: usize,
    textures: HashMap<usize, T>,
    pending: HashSet<usize>,
    error: Option<String>,
    fit: bool,
    show_help: bool,
}

impl<T> View for Viewer<T> {
    type V = ViewState<T>;

    closed spec fn view(&self) -> ViewState<T> {
        ViewState {
            images: self.images@,
            index: self.index as nat,
            cache: self.textures@,
            pending: self.pending@,
            error: self.error,
            fit: self.fit,
            show_help: self.show_help,
        }
    }
}

impl<T> Viewer<T> {
    /// The viewer's invariant: its state is valid.
    pub closed spec fn well_formed(&self) -> bool {
        self@.valid()
    }

    /// What the invariant tells a caller: the state is valid, so the index is
    /// in the playlist (0 for an empty one) and no index is both decoded and
    /// awaited.
    pub proof fn lemma_well_formed(&self)
        requires
            self.well_formed(),
        ensures
            self@.valid(),
    {
    }

    /// Opens a playlist at the position of `target` in it (the first image
    /// when `target` is not found), with nothing decoded yet.
    pub fn new(images: Vec<String>, target: &str) -> (r: Self)
        ensures
            r.well_formed(),
            r@.images == images@,
            r@.index == 0 || r@.index < images@.len(),
            forall|j: int| 0 <= j < images@.len() && images@[j]@ == target@ ==> r@.index <= j,
            all_canonical(images@, target@) ==> r@.index == first_text_match(images@, target@),
            all_portable(images@, target@) ==> is_first_same_path(
                images@,
                target@,
                r@.index as int,
            ),
            forall|j: int|
                0 <= j < images@.len() && #[trigger] images@[j]@ == target@ && names_final_piece(
                    target@,
                ) && (forall|i: int|
                    0 <= i < j ==> names_final_piece(#[trigger] images@[i]@) && final_piece(
                        images@[i]@,
                    ) != final_piece(target@)) ==> r@.index == j,
            r@.cache == Map::<usize, T>::empty(),
            r@.pending == Set::<usize>::empty(),
            r@.error is None,
            r@.fit,
            !r@.show_help,
    {
        let index = index_of(images.as_slice(), target);
        let r = Viewer {
            images,
            index,
            textures: HashMap::new(),
            pending: HashSet::new(),
            error: None,
            fit: true,
            show_help: false,
        };
        r
    }

    /// The indices that should be kept decoded: current and its neighbours.
    pub fn window_indices(&self) -> (r: Vec<usize>)
        requires
            self.well_formed(),
        ensures
            r@ == self@.window(),
            forall|i: int| 0 <= i < r@.len() ==> r@[i] < self@.images.len(),
    {
        let n = self.images.len();
        if n == 0 {
            return Vec::new();
        }
        if n == 1 {
            return vec![0];
        }
        proof {
            lemma_neighbours(n as nat, self.index as nat);
        }
        let next: usize = if self.index + 1 == n { 0 } else { self.index + 1 };
        let prev: usize = if self.index == 0 { n - 1 } else { self.index - 1 };
        let r = vec![self.index, next, prev];
        assert(r@ =~= self@.window());
        r
    }

    /// Keeps only the decoded images whose index is in `keep`.
    fn retain_textures(&mut self, keep: &Vec<usize>)
        requires
            old(self).well_formed(),
        ensures
            final(self).well_formed(),
            final(self)@.cache == old(self)@.cache.restrict(keep@.to_set()),
            final(self).images == old(self).images,
            final(self).index == old(self).index,
            final(self).pending == old(self).pending,
            final(self).error == old(self).error,
            final(self).fit == old(self).fit,
            final(self).show_help == old(self).show_help,
    {
        let ghost orig = self.textures@;
        let mut kept: HashMap<usize, T> = HashMap::new();
        let mut i: usize = 0;
        while i < keep.len()
            invariant
                i <= keep@.len(),
                orig == old(self).textures@,
                kept@ == orig.restrict(keep@.take(i as int).to_set()),
                self.textures@ == orig.remove_keys(keep@.take(i as int).to_set()),
                self.images == old(self).images,
                self.index == old(self).index,
                self.pending == old(self).pending,
                self.error == old(self).error,
                self.fit == old(self).fit,
                self.show_help == old(self).show_help,
            decreases keep@.len() - i,
        {
            let k = keep[i];
            let ghost done = keep@.take(i as int).to_set();
            assert(keep@.take(i + 1) =~= keep@.take(i as int).push(k));
            proof {
                keep@.take(i as int).lemma_push_to_set_commute(k);
            }
            match self.textures.remove(&k) {
                Some(t) => {
                    kept.insert(k, t);
                },
                None => {},
            }
            assert(kept@ =~= orig.restrict(done.insert(k)));
            assert(self.textures@ =~= orig.remove_keys(done.insert(k)));
            i = i + 1;
        }
        assert(keep@.take(keep@.len() as int) =~= keep@);
        self.textures = kept;
        proof {
            assert(self@.cache == old(self)@.cache.restrict(keep@.to_set()));
            assert(self@.pending == old(self)@.pending);
            assert(old(self)@.valid());
            assert forall|k: usize| self@.cache.dom().contains(k) implies !self@.pending.contains(
                k,
            ) by {
                assert(old(self)@.cache.dom().contains(k));
                assert(!old(self)@.pending.contains(k));
            }
        }
    }

    /// Keeps only the awaited indices that are in `keep`.
    fn retain_pending(&mut self, keep: &Vec<usize>)
        requires
            old(self).well_formed(),
        ensures
            final(self).well_formed(),
            final(self)@.pending == old(self)@.pending.intersect(keep@.to_set()),
            final(self).images == old(self).images,
            final(self).index == old(self).index,
            final(self).textures == old(self).textures,
            final(self).error == old(self).error,
            final(self).fit == old(self).fit,
            final(self).show_help == old(self).show_help,
    {
        let ghost orig = self.pending@;
        let mut kept: HashSet<usize> = HashSet::new();
        let mut i: usize = 0;
        while i < keep.len()
            invariant
                i <= keep@.len(),
                orig == self.pending@,
                kept@ == orig.intersect(keep@.take(i as int).to_set()),
            decreases keep@.len() - i,
        {
            let k = keep[i];
            let ghost done = keep@.take(i as int).to_set();
            assert(keep@.take(i + 1) =~= keep@.take(i as int).push(k));
            proof {
                keep@.take(i as int).lemma_push_to_set_commute(k);
            }
            if self.pending.contains(&k) {
                kept.insert(k);
            }
            assert(kept@ =~= orig.intersect(done.insert(k)));
            i = i + 1;
        }
        assert(keep@.take(keep@.len() as int) =~= keep@);
        self.pending = kept;
        proof {
            assert(self@.pending == old(self)@.pending.intersect(keep@.to_set()));
            assert(self@.cache == old(self)@.cache);
            assert(old(self)@.valid());
            assert forall|k: usize| self@.cache.dom().contains(k) implies !self@.pending.contains(
                k,
            ) by {
                assert(old(self)@.cache.dom().contains(k));
                assert(!old(self)@.pending.contains(k));
            }
        }
    }

    /// Queues decodes for the current image and its neighbours, and drops
    /// every other decoded image and request. Returns the indices to hand to
    /// the decoder, in the window's order.
    pub fn ensure_window_loaded(&mut self) -> (requests: Vec<usize>)
        requires
            old(self).well_formed(),
        ensures
            final(self).well_formed(),
            requests@ == old(self)@.requests_at(old(self)@.index),
            final(self)@.cache == old(self)@.cache_at(old(self)@.index),
            final(self)@.pending == old(self)@.pending_at(old(self)@.index),
            final(self)@.images == old(self)@.images,
            final(self)@.index == old(self)@.index,
            final(self)@.error == old(self)@.error,
            final(self)@.fit == old(self)@.fit,
            final(self)@.show_help == old(self)@.show_help,
            final(self)@.window_loaded(),
            forall|i: int| 0 <= i < requests@.len() ==> requests@[i] < final(self)@.images.len(),
    {
        let w = self.window_indices();
        let ghost o = self@;
        let ghost ws = w@.to_set();
        self.retain_textures(&w);
        self.retain_pending(&w);
        let ghost kept = o.pending.intersect(ws);
        let ghost have = o.cache.dom().intersect(ws).union(kept);
        let mut requests: Vec<usize> = Vec::new();
        let mut i: usize = 0;
        while i < w.len()
            invariant
                self.well_formed(),
                i <= w@.len(),
                w@ == o.window(),
                ws == w@.to_set(),
                kept == o.pending.intersect(ws),
                have == o.cache.dom().intersect(ws).union(kept),
                forall|j: int| 0 <= j < w@.len() ==> w@[j] < o.images.len(),
                self@.cache == o.cache.restrict(ws),
                requests@ == requests_for(w@.take(i as int), have),
                self@.pending == kept.union(requests@.to_set()),
                self@.images == o.images,
                self@.index == o.index,
                self@.error == o.error,
                self@.fit == o.fit,
                self@.show_help == o.show_help,
            decreases w@.len() - i,
        {
            let idx = w[i];
            assert(w@.take(i + 1).drop_last() =~= w@.take(i as int));
            assert(w@.take(i + 1).last() == idx);
            assert(ws.contains(idx)) by {
                assert(w@[i as int] == idx);
            }
            let ghost before = requests@;
            let ghost pend_before = self.pending@;
            let decoded = self.textures.contains_key(&idx);
            let awaited = self.pending.contains(&idx);
            proof {
                assert(self@.pending.contains(idx) == awaited);
                assert(self@.cache.dom().contains(idx) == o.cache.dom().contains(idx));
                assert(decoded == (o.cache.dom().contains(idx) && ws.contains(idx)));
                assert(awaited == (kept.contains(idx) || before.to_set().contains(idx)));
                assert(have.contains(idx) == (o.cache.dom().intersect(ws).contains(idx)
                    || kept.contains(idx)));
                assert(have.contains(idx) || before.to_set().contains(idx) <==> decoded || awaited);
                assert(before.contains(idx) <==> before.to_set().contains(idx));
            }
            if !decoded && !awaited {
                self.pending.insert(idx);
                requests.push(idx);
                proof {
                    before.lemma_push_to_set_commute(idx);
                    assert(self.pending@ =~= kept.union(requests@.to_set()));
                    assert forall|k: usize| self@.cache.dom().contains(k) implies !self@.pending.contains(
                        k,
                    ) by {
                        if k != idx {
                            assert(self@.pending.contains(k) ==> pend_before.contains(k));
                        }
                    }
                }
            }
            i = i + 1;
        }
        assert(w@.take(w@.len() as int) =~= w@);
        proof {
            lemma_requests_for(w@, have);
            let f = self@;
            assert forall|k: usize| f.pending.contains(k) implies ws.contains(k) by {
                if requests@.contains(k) {
                    assert(w@.contains(k));
                }
            }
            assert forall|k: usize| ws.contains(k) implies f.cache.dom().contains(k)
                || f.pending.contains(k) by {
                assert(w@.contains(k));
            }
            assert forall|i: int| 0 <= i < requests@.len() implies requests@[i] < f.images.len() by {
                assert(requests@.contains(requests@[i]));
                let j = choose|j: int| 0 <= j < w@.len() && w@[j] == requests@[i];
            }
        }
        requests
    }

    /// Stores the decoded image for index `k`, replacing any earlier one.
    fn insert_texture(&mut self, k: usize, t: T)
        requires
            old(self).well_formed(),
            !old(self)@.pending.contains(k),
        ensures
            final(self).well_formed(),
            final(self)@.cache == old(self)@.cache.insert(k, t),
            final(self).images == old(self).images,
            final(self).index == old(self).index,
            final(self).pending == old(self).pending,
            final(self).error == old(self).error,
            final(self).fit == old(self).fit,
            final(self).show_help == old(self).show_help,
    {
        self.textures.insert(k, t);
        proof {
            assert forall|x: usize| self@.cache.dom().contains(x) implies !self@.pending.contains(
                x,
            ) by {
                if x != k {
                    assert(old(self)@.cache.dom().contains(x));
                }
            }
        }
    }

    /// Forgets that index `k` is awaited.
    fn remove_pending(&mut self, k: usize)
        requires
            old(self).well_formed(),
        ensures
            final(self).well_formed(),
            final(self)@.pending == old(self)@.pending.remove(k),
            final(self).images == old(self).images,
            final(self).index == old(self).index,
            final(self).textures == old(self).textures,
            final(self).error == old(self).error,
            final(self).fit == old(self).fit,
            final(self).show_help == old(self).show_help,
    {
        self.pending.remove(&k);
        proof {
            assert(self.textures@ == old(self).textures@);
            assert(self@.pending == old(self)@.pending.remove(k));
            assert(old(self)@.valid());
            assert forall|x: usize| self@.cache.dom().contains(x) implies !self@.pending.contains(
                x,
            ) by {
                assert(old(self)@.cache.dom().contains(x));
                assert(!old(self)@.pending.contains(x));
            }
        }
    }

    /// Takes in what the decoder delivered for index `index`: the index is no
    /// longer awaited, the image is stored if the index is still in the
    /// window around the current image (a late result for an index the
    /// viewer has moved away from is dropped), and an error is recorded when
    /// it concerns the current image.
    pub fn record_decoded(&mut self, index: usize, result: Result<T, String>)
        requires
            old(self).well_formed(),
        ensures
            final(self).well_formed(),
            final(self)@.pending == old(self)@.pending.remove(index),
            final(self)@.cache == (match result {
                Ok(t) => if old(self)@.window().contains(index) {
                    old(self)@.cache.insert(index, t)
                } else {
                    old(self)@.cache
                },
                Err(_) => old(self)@.cache,
            }),
            old(self)@.cache.dom().subset_of(old(self)@.window().to_set())
                ==> final(self)@.cache.dom().subset_of(final(self)@.window().to_set()),
            final(self)@.error == (if index == old(self)@.index {
                match result {
                    Ok(_) => None,
                    Err(e) => Some(e),
                }
            } else {
                old(self)@.error
            }),
            final(self)@.images == old(self)@.images,
            final(self)@.index == old(self)@.index,
            final(self)@.fit == old(self)@.fit,
            final(self)@.show_help == old(self)@.show_help,
    {
        self.remove_pending(index);
        let w = self.window_indices();
        let in_window = contains_index(&w, index);
        match result {
            Ok(t) => {
                if in_window {
                    self.insert_texture(index, t);
                }
                if index == self.index {
                    self.error = None;
                }
            },
            Err(e) => {
                if index == self.index {
                    self.error = Some(e);
                }
            },
        }
    }

    /// The decoded image for index `k`, if it is held.
    fn texture_at(&self, k: usize) -> (r: Option<&T>)
        requires
            self.well_formed(),
        ensures
            r is Some <==> self@.cache.dom().contains(k),
            r matches Some(t) ==> *t == self@.cache[k],
    {
        self.textures.get(&k)
    }

    /// The decoded current image, if it has arrived.
    pub fn current_texture(&self) -> (r: Option<&T>)
        requires
            self.well_formed(),
        ensures
            r is Some <==> self@.cache.dom().contains(self@.index as usize),
            r matches Some(t) ==> *t == self@.cache[self@.index as usize],
    {
        self.texture_at(self.index)
    }

    /// Resets the per-image view state and refreshes the decoded window.
    /// Returns the indices to hand to the decoder.
    pub fn on_image_changed(&mut self) -> (requests: Vec<usize>)
        requires
            old(self).well_formed(),
        ensures
            final(self).well_formed(),
            old(self)@.moved_to(final(self)@, old(self)@.index, requests@),
            final(self)@.window_loaded(),
            forall|i: int| 0 <= i < requests@.len() ==> requests@[i] < final(self)@.images.len(),
    {
        self.error = None;
        self.fit = true;
        self.ensure_window_loaded()
    }

    /// Moves to the next image, wrapping around to the first.
    /// Returns the indices to hand to the decoder.
    pub fn next(&mut self) -> (requests: Vec<usize>)
        requires
            old(self).well_formed(),
        ensures
            final(self).well_formed(),
            old(self)@.stepped(final(self)@, step_next(old(self)@.images.len(), old(self)@.index), requests@),
            forall|i: int| 0 <= i < requests@.len() ==> requests@[i] < final(self)@.images.len(),
    {
        let n = self.images.len();
        if n > 1 {
            proof {
                lemma_neighbours(n as nat, self.index as nat);
            }
            self.index = if self.index + 1 == n { 0 } else { self.index + 1 };
            assert(self@.cache == old(self)@.cache && self@.pending == old(self)@.pending);
            self.on_image_changed()
        } else {
            Vec::new()
        }
    }

    /// Moves to the previous image, wrapping around to the last.
    /// Returns the indices to hand to the decoder.
    pub fn prev(&mut self) -> (requests: Vec<usize>)
        requires
            old(self).well_formed(),
        ensures
            final(self).well_formed(),
            old(self)@.stepped(final(self)@, step_prev(old(self)@.images.len(), old(self)@.index), requests@),
            forall|i: int| 0 <= i < requests@.len() ==> requests@[i] < final(self)@.images.len(),
    {
        let n = self.images.len();
        if n > 1 {
            proof {
                lemma_neighbours(n as nat, self.index as nat);
            }
            self.index = if self.index == 0 { n - 1 } else { self.index - 1 };
            assert(self@.cache == old(self)@.cache && self@.pending == old(self)@.pending);
            self.on_image_changed()
        } else {
            Vec::new()
        }
    }

    /// Jumps to the image at `index`, when it exists and is not the current
    /// one. Returns the indices to hand to the decoder.
    pub fn go_to(&mut self, index: usize) -> (requests: Vec<usize>)
        requires
            old(self).well_formed(),
        ensures
            final(self).well_formed(),
            old(self)@.stepped(
                final(self)@,
                step_go(old(self)@.images.len(), old(self)@.index, index as nat),
                requests@,
            ),
            forall|i: int| 0 <= i < requests@.len() ==> requests@[i] < final(self)@.images.len(),
    {
        if index < self.images.len() && index != self.index {
            self.index = index;
            assert(self@.cache == old(self)@.cache && self@.pending == old(self)@.pending);
            self.on_image_changed()
        } else {
            Vec::new()
        }
    }

    /// Replaces the playlist and moves to the position of `target` in it (the
    /// first image when it is not found), dropping every decoded image and
    /// request of the old playlist. Returns the indices to hand to the decoder.
    pub fn open(&mut self, images: Vec<String>, target: &str) -> (requests: Vec<usize>)
        requires
            old(self).well_formed(),
        ensures
            final(self).well_formed(),
            final(self)@.images == images@,
            final(self)@.index == 0 || final(self)@.index < images@.len(),
            forall|j: int|
                0 <= j < images@.len() && images@[j]@ == target@ ==> final(self)@.index <= j,
            all_canonical(images@, target@) ==> final(self)@.index == first_text_match(
                images@,
                target@,
            ),
            all_portable(images@, target@) ==> is_first_same_path(
                images@,
                target@,
                final(self)@.index as int,
            ),
            forall|j: int|
                0 <= j < images@.len() && #[trigger] images@[j]@ == target@ && names_final_piece(
                    target@,
                ) && (forall|i: int|
                    0 <= i < j ==> names_final_piece(#[trigger] images@[i]@) && final_piece(
                        images@[i]@,
                    ) != final_piece(target@)) ==> final(self)@.index == j,
            requests@ == requests_for(final(self)@.window(), Set::empty()),
            final(self)@.cache == Map::<usize, T>::empty(),
            final(self)@.pending == requests@.to_set(),
            final(self)@.error is None,
            final(self)@.fit,
            final(self)@.show_help == old(self)@.show_help,
            final(self)@.window_loaded(),
            forall|i: int| 0 <= i < requests@.len() ==> requests@[i] < images@.len(),
    {
        let index = index_of(images.as_slice(), target);
        self.images = images;
        self.index = index;
        self.textures.clear();
        self.pending.clear();
        let ghost cleared = self@;
        proof {
            assert(cleared.held_at(index as nat) =~= Set::empty());
            assert(cleared.cache_at(index as nat) =~= Map::empty());
        }
        let requests = self.on_image_changed();
        proof {
            assert(self@.pending =~= requests@.to_set());
        }
        requests
    }

    /// Applies the navigation keys of one frame, in the order next, previous,
    /// first, last. Returns the indices to hand to the decoder.
    fn navigate(&mut self, input: &InputState) -> (requests: Vec<usize>)
        requires
            old(self).well_formed(),
        ensures
            final(self).well_formed(),
            old(self)@.navigated(
                final(self)@,
                keys_target(old(self)@.images.len(), old(self)@.index, *input),
                requests@,
            ),
            forall|i: int| 0 <= i < requests@.len() ==> requests@[i] < final(self)@.images.len(),
    {
        let ghost o = self@;
        let ghost len = o.images.len();
        let mut requests: Vec<usize> = Vec::new();
        assert(o.pending.union(requests@.to_set()) =~= o.pending);
        assert(o.cache.submap_of(o.cache));
        let ghost t0: (nat, bool) = (o.index, false);
        // next
        let ghost m = self@;
        let ghost r1 = requests@;
        let ghost s1 = if input.next { step_next(len, m.index) } else { (m.index, false) };
        let more = if input.next { self.next() } else { Vec::new() };
        absorb(&mut requests, more);
        proof {
            o.lemma_navigated_then_stepped(m, self@, t0, s1, r1, more@, requests@);
        }
        let ghost t1 = (s1.0, t0.1 || s1.1);
        // previous
        let ghost m = self@;
        let ghost r1 = requests@;
        let ghost s2 = if input.prev { step_prev(len, m.index) } else { (m.index, false) };
        let more = if input.prev { self.prev() } else { Vec::new() };
        absorb(&mut requests, more);
        proof {
            o.lemma_navigated_then_stepped(m, self@, t1, s2, r1, more@, requests@);
        }
        let ghost t2 = (s2.0, t1.1 || s2.1);
        // first
        let ghost m = self@;
        let ghost r1 = requests@;
        let ghost s3 = if input.first { step_go(len, m.index, 0) } else { (m.index, false) };
        let more = if input.first { self.go_to(0) } else { Vec::new() };
        absorb(&mut requests, more);
        proof {
            o.lemma_navigated_then_stepped(m, self@, t2, s3, r1, more@, requests@);
        }
        let ghost t3 = (s3.0, t2.1 || s3.1);
        // last
        let ghost m = self@;
        let ghost r1 = requests@;
        let ghost s4 = if input.last && len > 0 {
            step_go(len, m.index, (len - 1) as nat)
        } else {
            (m.index, false)
        };
        let more = if input.last && !self.images.is_empty() {
            let last = self.images.len() - 1;
            self.go_to(last)
        } else {
            Vec::new()
        };
        absorb(&mut requests, more);
        proof {
            o.lemma_navigated_then_stepped(m, self@, t3, s4, r1, more@, requests@);
        }
        requests
    }

    /// Applies the navigation and view keys of one frame, in the order next,
    /// previous, first, last, zoom in, zoom out, reset view, toggle help.
    /// Zooming itself and full screen are the caller's; here they only stop or
    /// keep the fitting of the view. Returns the indices to hand to the
    /// decoder.
    pub fn handle_keys(&mut self, input: &InputState) -> (requests: Vec<usize>)
        requires
            old(self).well_formed(),
        ensures
            final(self).well_formed(),
            ({
                let o = old(self)@;
                let f = final(self)@;
                let target = keys_target(o.images.len(), o.index, *input);
                &&& f.images == o.images
                &&& f.index == target.0
                &&& f.fit == keys_fit(o.fit, target.1, *input)
                &&& f.show_help == (o.show_help != input.toggle_help)
                &&& (target.1 ==> f.error is None && f.window_loaded())
                &&& (!target.1 ==> f.cache == o.cache && f.pending == o.pending && f.error
                    == o.error && requests@.len() == 0)
                &&& f.cache.submap_of(o.cache)
                &&& f.pending.subset_of(o.pending.union(requests@.to_set()))
            }),
            forall|i: int| 0 <= i < requests@.len() ==> requests@[i] < final(self)@.images.len(),
            input.reset_view ==> final(self)@.fit,
            (input.zoom_in || input.zoom_out) && !input.reset_view ==> !final(self)@.fit,
            !input.zoom_in && !input.zoom_out && !input.reset_view && !old(self)@.fit
                && final(self)@.fit ==> final(self)@.error is None && final(self)@.window_loaded(),
    {
        let requests = self.navigate(input);
        let ghost n = self@;
        if input.zoom_in {
            self.fit = false;
        }
        if input.zoom_out {
            self.fit = false;
        }
        if input.reset_view {
            self.fit = true;
        }
        if input.toggle_help {
            self.show_help = !self.show_help;
        }
        assert(self@.cache == n.cache && self@.pending == n.pending && self@.index == n.index
            && self@.images == n.images && self@.error == n.error);
        assert(self@.window() == n.window());
        requests
    }

    /// Number of images in the playlist.
    pub fn len(&self) -> (r: usize)
        ensures
            r == self@.images.len(),
    {
        self.images.len()
    }

    /// Whether the playlist is empty.
    pub fn is_empty(&self) -> (r: bool)
        ensures
            r == (self@.images.len() == 0),
    {
        self.images.len() == 0
    }

    /// Position of the current image.
    pub fn index(&self) -> (r: usize)
        ensures
            r == self@.index,
    {
        self.index
    }

    /// The path of the image at `i`, if the playlist has one there.
    pub fn path(&self, i: usize) -> (r: Option<&String>)
        ensures
            r is Some <==> i < self@.images.len(),
            r matches Some(p) ==> *p == self@.images[i as int],
    {
        if i < self.images.len() {
            Some(&self.images[i])
        } else {
            None
        }
    }

    /// The last decoding error of the current image, if any.
    pub fn error(&self) -> (r: Option<&String>)
        ensures
            r is Some <==> self@.error is Some,
            r matches Some(e) ==> self@.error == Some(*e),
    {
        match &self.error {
            Some(e) => Some(e),
            None => None,
        }
    }

    /// Whether the view is fitted to the window each frame.
    pub fn fit(&self) -> (r: bool)
        ensures
            r == self@.fit,
    {
        self.fit
    }

    /// Stops fitting the view to the window (the user zoomed or panned).
    pub fn stop_fitting(&mut self)
        requires
            old(self).well_formed(),
        ensures
            final(self).well_formed(),
            final(self)@ == (ViewState { fit: false, ..old(self)@ }),
    {
        self.fit = false;
    }

    /// Whether the help window is shown.
    pub fn show_help(&self) -> (r: bool)
        ensures
            r == self@.show_help,
    {
        self.show_help
    }

    /// Shows or hides the help window.
    pub fn set_show_help(&mut self, shown: bool)
        requires
            old(self).well_formed(),
        ensures
            final(self).well_formed(),
            final(self)@ == (ViewState { show_help: shown, ..old(self)@ }),
    {
        self.show_help = shown;
    }
}

// ---------------------------------------------------------------------------
// Laws
// ---------------------------------------------------------------------------

/// Stepping to the next image and then to the previous one comes back to the
/// same image, and so does the reverse.
pub proof fn lemma_next_prev_inverse(len: nat, index: nat)
    requires
        index < len,
    ensures
        prev_index(len, next_index(len, index)) == index,
        next_index(len, prev_index(len, index)) == index,
        next_index(len, index) < len,
        prev_index(len, index) < len,
{
    lemma_neighbours(len, index);
    lemma_neighbours(len, next_index(len, index));
    lemma_neighbours(len, prev_index(len, index));
}

/// Once the window is loaded, at most three images are decoded or awaited,
/// and the current image is one of them.
pub proof fn lemma_window_bounds<T>(s: ViewState<T>)
    requires
        s.valid(),
        s.window_loaded(),
    ensures
        s.cache.dom().finite(),
        s.cache.dom().len() <= 3,
        s.pending.finite(),
        s.pending.len() <= 3,
        s.images.len() > 0 ==> s.cache.dom().contains(s.index as usize) || s.pending.contains(
            s.index as usize,
        ),
{
    let w = s.window();
    let ws = w.to_set();
    w.lemma_cardinality_of_set();
    vstd::set_lib::lemma_len_subset(s.cache.dom(), ws);
    vstd::set_lib::lemma_len_subset(s.pending, ws);
    if s.images.len() > 0 {
        assert(w[0] == s.index as usize);
        assert(ws.contains(s.index as usize));
    }
}

/// A cache that lies within the window around the current image holds at
/// most three decoded images. Every operation of [`Viewer`] keeps the cache
/// within the window once it is there (loading the window puts it there).
pub proof fn lemma_cache_bound<T>(s: ViewState<T>)
    requires
        s.cache.dom().subset_of(s.window().to_set()),
    ensures
        s.cache.dom().finite(),
        s.cache.dom().len() <= 3,
{
    let w = s.window();
    w.lemma_cardinality_of_set();
    vstd::set_lib::lemma_len_subset(s.cache.dom(), w.to_set());
}

/// The decoder is never asked twice for one image: what a move to `index`
/// requests is in the window, neither decoded nor awaited already, and
/// requested once.
pub proof fn lemma_requests_are_fresh<T>(s: ViewState<T>, index: nat)
    ensures
        s.requests_at(index).no_duplicates(),
        forall|k: usize| #[trigger]
            s.requests_at(index).contains(k) ==> window(s.images.len(), index).contains(k)
                && !s.cache.dom().contains(k) && !s.pending.contains(k),
{
    let w = window(s.images.len(), index);
    lemma_requests_for(w, s.held_at(index));
    assert forall|k: usize| #[trigger] s.requests_at(index).contains(k) implies w.contains(k)
        && !s.cache.dom().contains(k) && !s.pending.contains(k) by {
        assert(w.to_set().contains(k));
    }
}

} // verus!
