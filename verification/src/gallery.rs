//! Browsing the files of a folder one at a time.
use vstd::prelude::*;
use crate::keys::{KeyCodes, ESCAPE, QUIT};
use crate::media::MediaType;

verus! {

/// The entry after `i` among `len` entries, wrapping to the first.
pub open spec fn next_index(i: int, len: int) -> int {
    if i + 1 == len {
        0
    } else {
        i + 1
    }
}

/// The entry before `i` among `len` entries, wrapping to the last.
pub open spec fn prev_index(i: int, len: int) -> int {
    if i == 0 {
        len - 1
    } else {
        i - 1
    }
}

/// `(i + 1) % len` is the next entry.
fn next_of(i: usize, len: usize) -> (res: usize)
    requires
        i < len,
    ensures
        res == next_index(i as int, len as int),
{
    proof {
        if i + 1 < len {
            vstd::arithmetic::div_mod::lemma_small_mod((i + 1) as nat, len as nat);
        } else {
            vstd::arithmetic::div_mod::lemma_mod_self_0(len as int);
        }
    }
    (i + 1) % len
}

/// The entry before `i`, computed without overflow.
fn prev_of(i: usize, len: usize) -> (res: usize)
    requires
        i < len,
    ensures
        res == prev_index(i as int, len as int),
{
    if i == 0 {
        len - 1
    } else {
        i - 1
    }
}

/// Where the browser stands: the current entry among `len` entries, and the
/// last video it offered to play.
pub struct GalleryView {
    pub idx: usize,
    pub len: usize,
    pub prev_video: Seq<char>,
}

/// The folder browser.
pub struct Gallery {
    idx: usize,
    len: usize,
    prev_video: String,
}

/// What to do with the entry the browser stands on.
#[derive(Debug, Clone, Copy, PartialEq, Eq, Structural)]
pub enum Visit {
    /// Show the picture.
    ShowImage,
    /// Ask whether to play the video.
    AskVideo,
    /// The video was just offered: show its name only.
    VideoSeen,
    /// Not a picture or a video: the browser has moved on to the next entry.
    Skip,
}

/// The browser's state and decision after visiting entry `path` of type
/// `media`.
pub open spec fn visit_step(g: GalleryView, path: Seq<char>, media: MediaType) -> (GalleryView, Visit) {
    match media {
        MediaType::Image => (g, Visit::ShowImage),
        MediaType::Video => if g.prev_video == path {
            (g, Visit::VideoSeen)
        } else {
            (GalleryView { prev_video: path, ..g }, Visit::AskVideo)
        },
        _ => (GalleryView { idx: next_index(g.idx as int, g.len as int) as usize, ..g }, Visit::Skip),
    }
}

/// The browser's state after `key`, and whether it quits.
pub open spec fn key_step(g: GalleryView, key: i32, keys: KeyCodes) -> (GalleryView, bool) {
    if key == ESCAPE || key == QUIT {
        (g, true)
    } else if key == keys.right {
        (GalleryView { idx: next_index(g.idx as int, g.len as int) as usize, ..g }, false)
    } else if key == keys.left {
        (GalleryView { idx: prev_index(g.idx as int, g.len as int) as usize, ..g }, false)
    } else {
        (g, false)
    }
}

impl View for Gallery {
    type V = GalleryView;

    closed spec fn view(&self) -> GalleryView {
        GalleryView { idx: self.idx, len: self.len, prev_video: self.prev_video@ }
    }
}

impl Gallery {
    #[verifier::type_invariant]
    spec fn inv(self) -> bool {
        self.idx < self.len
    }

    /// A browser over `len` entries, standing on the first, having offered no
    /// video yet.
    pub fn new(len: usize) -> (res: Gallery)
        requires
            len > 0,
        ensures
            res@ == (GalleryView { idx: 0, len, prev_video: Seq::empty() }),
    {
        Gallery { idx: 0, len, prev_video: String::new() }
    }

    /// The current entry.
    pub fn index(&self) -> (res: usize)
        ensures
            res == self@.idx,
            res < self@.len,
    {
        proof {
            use_type_invariant(self);
        }
        self.idx
    }

    /// The number of entries.
    pub fn len(&self) -> (res: usize)
        ensures
            res == self@.len,
            res > 0,
    {
        proof {
            use_type_invariant(self);
        }
        self.len
    }

    /// Decides what to do with the current entry, named `path`, of type
    /// `media`. A video is offered once until another video is offered; an
    /// entry that is neither a picture nor a video is skipped.
    pub fn visit(&mut self, path: &str, media: MediaType) -> (res: Visit)
        ensures
            final(self)@.idx < final(self)@.len,
            (final(self)@, res) == visit_step(old(self)@, path@, media),
    {
        proof {
            use_type_invariant(&*self);
        }
        match media {
            MediaType::Image => Visit::ShowImage,
            MediaType::Video => {
                let name: String = path.to_owned();
                if self.prev_video != name {
                    self.prev_video = name;
                    Visit::AskVideo
                } else {
                    Visit::VideoSeen
                }
            },
            _ => {
                self.idx = next_of(self.idx, self.len);
                Visit::Skip
            },
        }
    }

    /// Reacts to a key: Escape and `q` leave the browser (the result is
    /// `true`), right and left move to the next and the previous entry.
    pub fn on_key(&mut self, key: i32, keys: &KeyCodes) -> (quit: bool)
        ensures
            final(self)@.idx < final(self)@.len,
            (final(self)@, quit) == key_step(old(self)@, key, *keys),
    {
        proof {
            use_type_invariant(&*self);
        }
        if key == ESCAPE || key == QUIT {
            true
        } else if key == keys.right {
            self.idx = next_of(self.idx, self.len);
            false
        } else if key == keys.left {
            self.idx = prev_of(self.idx, self.len);
            false
        } else {
            false
        }
    }
}

/// Moving to the next entry and back returns to the same entry, and so does
/// moving back and then forward; the moves are `(i + 1) % len` and
/// `(i + len - 1) % len`.
pub proof fn lemma_next_prev_inverse(i: int, len: int)
    requires
        0 <= i < len,
    ensures
        prev_index(next_index(i, len), len) == i,
        next_index(prev_index(i, len), len) == i,
        0 <= next_index(i, len) < len,
        0 <= prev_index(i, len) < len,
        next_index(i, len) == (i + 1) % len,
        prev_index(i, len) == (i + len - 1) % len,
{
    if i + 1 < len {
        vstd::arithmetic::div_mod::lemma_small_mod((i + 1) as nat, len as nat);
    } else {
        vstd::arithmetic::div_mod::lemma_mod_self_0(len);
    }
    if i == 0 {
        vstd::arithmetic::div_mod::lemma_small_mod((len - 1) as nat, len as nat);
    } else {
        vstd::arithmetic::div_mod::lemma_mod_add_multiples_vanish(i - 1, len);
        vstd::arithmetic::div_mod::lemma_small_mod((i - 1) as nat, len as nat);
    }
}

/// Moving forward `len` times from any entry comes back to it.
pub proof fn lemma_full_round(i: int, len: int)
    requires
        0 <= i < len,
    ensures
        iterate_next(i, len, len as nat) == i,
{
    lemma_iterate_next(i, len, len as nat);
    vstd::arithmetic::div_mod::lemma_mod_add_multiples_vanish(i, len);
    vstd::arithmetic::div_mod::lemma_small_mod(i as nat, len as nat);
}

/// The entry reached from `i` after `n` moves forward.
pub open spec fn iterate_next(i: int, len: int, n: nat) -> int
    decreases n,
{
    if n == 0 {
        i
    } else {
        next_index(iterate_next(i, len, (n - 1) as nat), len)
    }
}

proof fn lemma_iterate_next(i: int, len: int, n: nat)
    requires
        0 <= i < len,
    ensures
        iterate_next(i, len, n) == (i + n) % len,
    decreases n,
{
    if n > 0 {
        lemma_iterate_next(i, len, (n - 1) as nat);
        let k = (i + n - 1) % len;
        vstd::arithmetic::div_mod::lemma_mod_bound(i + n - 1, len);
        vstd::arithmetic::div_mod::lemma_add_mod_noop(i + n - 1, 1, len);
        if len == 1 {
            vstd::arithmetic::div_mod::lemma_mod_bound(i + n, len);
        } else {
            vstd::arithmetic::div_mod::lemma_small_mod(1, len as nat);
        }
        if k + 1 < len {
            vstd::arithmetic::div_mod::lemma_small_mod((k + 1) as nat, len as nat);
        } else {
            vstd::arithmetic::div_mod::lemma_mod_self_0(len);
        }
    } else {
        vstd::arithmetic::div_mod::lemma_small_mod(i as nat, len as nat);
    }
}

/// Offering a video twice in a row asks only the first time; the second
/// visit changes nothing.
pub proof fn lemma_video_offered_once(g: GalleryView, path: Seq<char>)
    ensures
        ({
            let (h, a) = visit_step(g, path, MediaType::Video);
            let (k, b) = visit_step(h, path, MediaType::Video);
            &&& b == Visit::VideoSeen
            &&& k == h
            &&& (g.prev_video != path ==> a == Visit::AskVideo)
        }),
{
}

/// Keys other than the quitting and moving ones leave the browser where it
/// is.
pub proof fn lemma_other_keys_stay(g: GalleryView, key: i32, keys: KeyCodes)
    requires
        key != ESCAPE,
        key != QUIT,
        key != keys.right,
        key != keys.left,
    ensures
        key_step(g, key, keys) == (g, false),
{
}

/// Right then left, or left then right, returns to the same entry.
pub proof fn lemma_right_left_returns(g: GalleryView, keys: KeyCodes)
    requires
        keys.well_formed(),
        g.idx < g.len,
    ensures
        key_step(key_step(g, keys.right, keys).0, keys.left, keys).0 == g,
        key_step(key_step(g, keys.left, keys).0, keys.right, keys).0 == g,
{
    lemma_next_prev_inverse(g.idx as int, g.len as int);
}

/// An entry of this type is shown rather than skipped.
pub open spec fn is_shown(m: MediaType) -> bool {
    m == MediaType::Image || m == MediaType::Video
}

/// The browser after visiting entries from where it stands, moving on past
/// those it skips, until it visits one it shows (at most `fuel` visits); the
/// entries have the types `kinds` and the names `paths`.
pub open spec fn settle(g: GalleryView, kinds: Seq<MediaType>, paths: Seq<Seq<char>>, fuel: nat) -> GalleryView
    decreases fuel,
{
    if fuel == 0 {
        g
    } else {
        let (h, v) = visit_step(g, paths[g.idx as int], kinds[g.idx as int]);
        if v == Visit::Skip {
            settle(h, kinds, paths, (fuel - 1) as nat)
        } else {
            h
        }
    }
}

/// `r` is the first entry whose type is shown, going forward from `i` and
/// wrapping around.
pub open spec fn first_shown_from(kinds: Seq<MediaType>, i: int, r: int) -> bool {
    exists|s: nat|
        #![trigger iterate_next(i, kinds.len() as int, s)]
        s < kinds.len() && r == iterate_next(i, kinds.len() as int, s) && is_shown(kinds[r]) && forall|k: nat|
            k < s ==> !is_shown(kinds[#[trigger] iterate_next(i, kinds.len() as int, k)])
}

/// The browser stands on one of the entries, the folder's types and names
/// are known, and at least one entry can be shown.
pub open spec fn browsable(g: GalleryView, kinds: Seq<MediaType>, paths: Seq<Seq<char>>) -> bool {
    &&& g.idx < g.len
    &&& kinds.len() == g.len
    &&& paths.len() == g.len
    &&& exists|j: int| 0 <= j < g.len && is_shown(#[trigger] kinds[j])
}

proof fn lemma_iterate_in_range(i: int, len: int, n: nat)
    requires
        0 <= i < len,
    ensures
        0 <= iterate_next(i, len, n) < len,
    decreases n,
{
    if n > 0 {
        lemma_iterate_in_range(i, len, (n - 1) as nat);
        lemma_next_prev_inverse(iterate_next(i, len, (n - 1) as nat), len);
    }
}

proof fn lemma_iterate_shift(i: int, len: int, n: nat)
    ensures
        iterate_next(next_index(i, len), len, n) == iterate_next(i, len, n + 1),
    decreases n,
{
    if n > 0 {
        lemma_iterate_shift(i, len, (n - 1) as nat);
        assert(iterate_next(i, len, n + 1) == next_index(iterate_next(i, len, n), len));
        assert(iterate_next(next_index(i, len), len, n) == next_index(
            iterate_next(next_index(i, len), len, (n - 1) as nat),
            len,
        ));
    } else {
        assert(iterate_next(i, len, 1) == next_index(iterate_next(i, len, 0), len));
    }
}

proof fn lemma_settle_within(g: GalleryView, kinds: Seq<MediaType>, paths: Seq<Seq<char>>, f: nat, s0: nat)
    requires
        g.idx < g.len,
        kinds.len() == g.len,
        paths.len() == g.len,
        s0 < f,
        is_shown(kinds[iterate_next(g.idx as int, g.len as int, s0)]),
    ensures
        first_shown_from(kinds, g.idx as int, settle(g, kinds, paths, f).idx as int),
        settle(g, kinds, paths, f).len == g.len,
    decreases f,
{
    let i = g.idx as int;
    let len = g.len as int;
    let (h, v) = visit_step(g, paths[i], kinds[i]);
    if is_shown(kinds[i]) {
        assert(iterate_next(i, len, 0) == i);
        assert(settle(g, kinds, paths, f) == h);
        assert(h.idx == g.idx);
        assert(first_shown_from(kinds, i, h.idx as int));
    } else {
        assert(v == Visit::Skip);
        assert(s0 >= 1);
        lemma_next_prev_inverse(i, len);
        lemma_iterate_shift(i, len, (s0 - 1) as nat);
        assert(h.idx == next_index(i, len));
        lemma_settle_within(h, kinds, paths, (f - 1) as nat, (s0 - 1) as nat);
        let r = settle(h, kinds, paths, (f - 1) as nat).idx as int;
        assert(settle(g, kinds, paths, f).idx == r);
        let t = choose|t: nat|
            #![trigger iterate_next(h.idx as int, len, t)]
            t < len && r == iterate_next(h.idx as int, len, t) && is_shown(kinds[r]) && forall|k: nat|
                k < t ==> !is_shown(kinds[#[trigger] iterate_next(h.idx as int, len, k)]);
        lemma_iterate_shift(i, len, t);
        assert(t + 1 < len) by {
            if t + 1 >= len {
                lemma_full_round(i, len);
                let z = (len - 1) as nat;
                assert(z < t);
                lemma_iterate_shift(i, len, z);
                assert(iterate_next(i, len, z + 1) == i);
                assert(!is_shown(kinds[iterate_next(h.idx as int, len, z)]));
            }
        }
        assert forall|k: nat| k < t + 1 implies !is_shown(kinds[#[trigger] iterate_next(i, len, k)]) by {
            if k > 0 {
                lemma_iterate_shift(i, len, (k - 1) as nat);
                assert(!is_shown(kinds[iterate_next(h.idx as int, len, (k - 1) as nat)]));
            }
        }
        assert(first_shown_from(kinds, i, r));
    }
}

/// From any entry of a folder that holds something to show, the browser
/// settles, within one round, on the first entry that it shows, going forward
/// and wrapping around; it stays on the same entry when that one is shown.
pub proof fn lemma_settles_on_first_shown(g: GalleryView, kinds: Seq<MediaType>, paths: Seq<Seq<char>>)
    requires
        browsable(g, kinds, paths),
    ensures
        first_shown_from(kinds, g.idx as int, settle(g, kinds, paths, g.len as nat).idx as int),
        settle(g, kinds, paths, g.len as nat).idx < g.len,
        settle(g, kinds, paths, g.len as nat).len == g.len,
        is_shown(kinds[g.idx as int]) ==> settle(g, kinds, paths, g.len as nat).idx == g.idx,
{
    let i = g.idx as int;
    let len = g.len as int;
    let j = choose|j: int| 0 <= j < len && is_shown(#[trigger] kinds[j]);
    let s0: int = if j >= i { j - i } else { j - i + len };
    lemma_iterate_next(i, len, s0 as nat);
    if j >= i {
        vstd::arithmetic::div_mod::lemma_small_mod(j as nat, len as nat);
    } else {
        vstd::arithmetic::div_mod::lemma_mod_add_multiples_vanish(j, len);
        vstd::arithmetic::div_mod::lemma_small_mod(j as nat, len as nat);
    }
    assert(iterate_next(i, len, s0 as nat) == j);
    lemma_settle_within(g, kinds, paths, g.len as nat, s0 as nat);
    let r = settle(g, kinds, paths, g.len as nat).idx as int;
    let t = choose|t: nat|
        #![trigger iterate_next(i, len, t)]
        t < len && r == iterate_next(i, len, t) && is_shown(kinds[r]) && forall|k: nat|
            k < t ==> !is_shown(kinds[#[trigger] iterate_next(i, len, k)]);
    lemma_iterate_in_range(i, len, t);
    if is_shown(kinds[i]) {
        assert(iterate_next(i, len, 0) == i);
        if t > 0 {
            assert(!is_shown(kinds[iterate_next(i, len, 0)]));
        }
    }
}

/// After a key in a folder that holds something to show, the entry shown is
/// the first one that can be shown at or after the next entry (right), at or
/// after the previous entry (left), or at or after the current entry (any
/// other key but Escape and `q`), going forward and wrapping around.
pub proof fn lemma_browse_after_key(
    g: GalleryView,
    key: i32,
    keys: KeyCodes,
    kinds: Seq<MediaType>,
    paths: Seq<Seq<char>>,
)
    requires
        keys.well_formed(),
        browsable(g, kinds, paths),
        key != ESCAPE,
        key != QUIT,
    ensures
        ({
            let h = key_step(g, key, keys).0;
            let start = if key == keys.right {
                next_index(g.idx as int, g.len as int)
            } else if key == keys.left {
                prev_index(g.idx as int, g.len as int)
            } else {
                g.idx as int
            };
            &&& !key_step(g, key, keys).1
            &&& h.idx == start
            &&& first_shown_from(kinds, start, settle(h, kinds, paths, g.len as nat).idx as int)
        }),
{
    lemma_next_prev_inverse(g.idx as int, g.len as int);
    let h = key_step(g, key, keys).0;
    assert(browsable(h, kinds, paths));
    lemma_settles_on_first_shown(h, kinds, paths);
}

} // verus!
