use vstd::prelude::*;
use std::collections::VecDeque;
use rand::seq::SliceRandom;
use rand::SeedableRng;
use crate::state::{RepeatMode, ShuffleMode};
use crate::types::TrackId;
use crate::database::{DbView, LibraryDatabase};
use crate::queries::{TrackView, describes_track, has_track_view, resolve_track_view};

verus! {

broadcast use vstd::seq_lib::group_to_multiset_ensures;

/// `s` lists distinct positions of a playlist of length `n`.
pub open spec fn valid_index_set(s: Seq<usize>, n: nat) -> bool {
    &&& s.no_duplicates()
    &&& forall|k: int| 0 <= k < s.len() ==> (#[trigger] s[k]) < n
}

/// `s` is an ordering of all positions `0..n` of a playlist, each exactly once.
pub open spec fn is_index_permutation(s: Seq<usize>, n: nat) -> bool {
    &&& s.len() == n
    &&& valid_index_set(s, n)
    &&& forall|p: usize| p < n ==> #[trigger] s.contains(p)
}

/// `r` is the first position at which `x` occurs in `s`, or `None` when it does not occur.
pub open spec fn is_first_position<T>(s: Seq<T>, x: T, r: Option<usize>) -> bool {
    match r {
        Some(i) => {
            &&& i < s.len()
            &&& s[i as int] == x
            &&& forall|j: int| 0 <= j < i ==> s[j] != x
        },
        None => !s.contains(x),
    }
}

/// History after `t` has been recorded with the given capacity: nothing is kept when the
/// capacity is zero, and the oldest entry is dropped when the history is full.
pub open spec fn pushed_history(h: Seq<TrackId>, limit: nat, t: TrackId) -> Seq<TrackId> {
    if limit == 0 {
        h
    } else if h.len() >= limit {
        h.subrange(1, h.len() as int).push(t)
    } else {
        h.push(t)
    }
}

/// The newest `limit` entries of a history.
pub open spec fn truncated_history(h: Seq<TrackId>, limit: nat) -> Seq<TrackId> {
    if h.len() > limit {
        h.subrange(h.len() - limit, h.len() as int)
    } else {
        h
    }
}

/// Where the active playlist position goes when the entry at `from` is moved to `to`.
pub open spec fn index_after_move(idx: Option<usize>, from: usize, to: usize) -> Option<usize> {
    match idx {
        Some(i) => {
            if i == from {
                Some(to)
            } else if from < i && to >= i {
                Some((i - 1) as usize)
            } else if from > i && to <= i {
                Some((i + 1) as usize)
            } else {
                Some(i)
            }
        },
        None => None,
    }
}

/// Where the active playlist position goes when the entry at `index` is removed from a
/// playlist that then has `new_len` entries.
pub open spec fn index_after_removal(idx: Option<usize>, index: usize, new_len: nat) -> Option<usize> {
    match idx {
        Some(i) => {
            if i == index {
                if new_len == 0 {
                    None
                } else if index <= new_len - 1 {
                    Some(index)
                } else {
                    Some((new_len - 1) as usize)
                }
            } else if index < i {
                Some((i - 1) as usize)
            } else {
                Some(i)
            }
        },
        None => None,
    }
}

/// The mathematical value of a [`PlaybackQueue`].
#[verifier::ext_equal]
pub struct QueueView {
    pub history: Seq<TrackId>,
    pub history_limit: nat,
    pub current: Option<TrackId>,
    pub up_next: Seq<TrackId>,
    pub playlist: Seq<TrackId>,
    pub playlist_index: Option<usize>,
    pub shuffled: Seq<usize>,
    pub shuffle_cursor: nat,
    pub repeat_mode: RepeatMode,
    pub shuffle_mode: ShuffleMode,
}

impl QueueView {
    /// What every operation of the queue keeps: the history never exceeds its capacity,
    /// the active position lies inside the playlist, and the shuffle order lists distinct
    /// positions of the playlist with the cursor inside it (or at its start).
    pub open spec fn wf(self) -> bool {
        &&& self.history.len() <= self.history_limit
        &&& (self.playlist_index matches Some(i) ==> i < self.playlist.len())
        &&& valid_index_set(self.shuffled, self.playlist.len())
        &&& (self.shuffle_cursor == 0 || self.shuffle_cursor < self.shuffled.len())
    }

    /// The history once the current track (if any) has been recorded in it.
    pub open spec fn history_with_current(self) -> Seq<TrackId> {
        match self.current {
            Some(c) => pushed_history(self.history, self.history_limit, c),
            None => self.history,
        }
    }
}

/// Ordered playback state: a bounded history, the current track, a manual
/// "Up Next" queue that takes priority, and a playlist walked in order or in a
/// shuffled order.
#[derive(Debug, Clone)]
pub struct PlaybackQueue {
    history: VecDeque<TrackId>,
    history_limit: usize,
    current: Option<TrackId>,
    up_next: VecDeque<TrackId>,
    playlist: Vec<TrackId>,
    playlist_index: Option<usize>,
    shuffled_indices: Vec<usize>,
    shuffle_cursor: usize,
    pub repeat_mode: RepeatMode,
    pub shuffle_mode: ShuffleMode,
}

impl View for PlaybackQueue {
    type V = QueueView;

    closed spec fn view(&self) -> QueueView {
        QueueView {
            history: self.history@,
            history_limit: self.history_limit as nat,
            current: self.current,
            up_next: self.up_next@,
            playlist: self.playlist@,
            playlist_index: self.playlist_index,
            shuffled: self.shuffled_indices@,
            shuffle_cursor: self.shuffle_cursor as nat,
            repeat_mode: self.repeat_mode,
            shuffle_mode: self.shuffle_mode,
        }
    }
}

/// Calls `rand::seq::SliceRandom::shuffle` on the vector with a `rand::rngs::StdRng`
/// seeded from `rand::rngs::OsRng` (`SeedableRng::from_rng`).  When the operating system's
/// random source cannot give a seed, the vector is left as it was.  The contract claims
/// that every outcome is a rearrangement of the same elements (the shuffle only swaps
/// entries); which rearrangement comes out is left open.
#[verifier::external_body]
fn shuffle_in_place(v: &mut Vec<usize>)
    ensures
        final(v)@.to_multiset() == old(v)@.to_multiset(),
        final(v)@.len() == old(v)@.len(),
{
    if let Ok(mut rng) = rand::rngs::StdRng::from_rng(rand::rngs::OsRng) {
        v.as_mut_slice().shuffle(&mut rng);
    }
}

/// The positions `lo..hi` in increasing order.
fn index_range(lo: usize, hi: usize) -> (r: Vec<usize>)
    requires
        lo <= hi,
    ensures
        r@.len() == hi - lo,
        forall|k: int| 0 <= k < r@.len() ==> r@[k] == lo + k,
{
    let mut r: Vec<usize> = Vec::new();
    let mut i = lo;
    while i < hi
        invariant
            lo <= i <= hi,
            r@.len() == i - lo,
            forall|k: int| 0 <= k < r@.len() ==> r@[k] == lo + k,
        decreases hi - i,
    {
        r.push(i);
        i = i + 1;
    }
    r
}

/// Two sequences with the same elements, counted with multiplicity: if one lists
/// distinct values inside `lo..hi`, so does the other, and each value of the one occurs
/// in the other.
proof fn lemma_same_multiset_index_set(a: Seq<usize>, b: Seq<usize>, lo: nat, hi: nat)
    requires
        a.to_multiset() == b.to_multiset(),
        a.no_duplicates(),
        forall|k: int| 0 <= k < a.len() ==> lo <= #[trigger] a[k] < hi,
    ensures
        b.len() == a.len(),
        b.no_duplicates(),
        forall|k: int| 0 <= k < b.len() ==> lo <= #[trigger] b[k] < hi,
        forall|x: usize| a.contains(x) ==> #[trigger] b.contains(x),
{
    vstd::seq_lib::to_multiset_len(a);
    vstd::seq_lib::to_multiset_len(b);
    a.lemma_multiset_has_no_duplicates();
    assert forall|x: usize| b.to_multiset().contains(x) implies b.to_multiset().count(x) == 1 by {
    }
    b.lemma_multiset_has_no_duplicates_conv();
    assert forall|k: int| 0 <= k < b.len() implies lo <= #[trigger] b[k] < hi by {
        assert(b.contains(b[k]));
        assert(b.to_multiset().count(b[k]) > 0);
        assert(a.contains(b[k]));
    }
    assert forall|x: usize| a.contains(x) implies #[trigger] b.contains(x) by {
        assert(a.to_multiset().count(x) > 0);
    }
}

/// A random ordering of all positions `lo..hi`.
fn shuffled_range(lo: usize, hi: usize) -> (r: Vec<usize>)
    requires
        lo <= hi,
    ensures
        r@.len() == hi - lo,
        r@.no_duplicates(),
        forall|k: int| 0 <= k < r@.len() ==> lo <= #[trigger] r@[k] < hi,
        forall|p: usize| lo <= p < hi ==> #[trigger] r@.contains(p),
{
    let mut r = index_range(lo, hi);
    let ghost before = r@;
    proof {
        assert forall|p: usize| lo <= p < hi implies #[trigger] before.contains(p) by {
            assert(before[p - lo] == p);
        }
    }
    shuffle_in_place(&mut r);
    proof {
        lemma_same_multiset_index_set(before, r@, lo as nat, hi as nat);
    }
    r
}

/// First position of `x` in `v`.
fn position_of_index(v: &Vec<usize>, x: usize) -> (r: Option<usize>)
    ensures
        is_first_position(v@, x, r),
{
    let mut i: usize = 0;
    while i < v.len()
        invariant
            i <= v.len(),
            forall|j: int| 0 <= j < i ==> v@[j] != x,
        decreases v.len() - i,
    {
        if v[i] == x {
            return Some(i);
        }
        i = i + 1;
    }
    None
}

/// First position of `x` in `v`.
fn position_of_track(v: &Vec<TrackId>, x: TrackId) -> (r: Option<usize>)
    ensures
        is_first_position(v@, x, r),
{
    let mut i: usize = 0;
    while i < v.len()
        invariant
            i <= v.len(),
            forall|j: int| 0 <= j < i ==> v@[j] != x,
        decreases v.len() - i,
    {
        if v[i] == x {
            return Some(i);
        }
        i = i + 1;
    }
    None
}

impl PlaybackQueue {
    /// An empty queue whose history keeps at most `history_limit` tracks.
    pub fn new(history_limit: usize) -> (r: Self)
        ensures
            r@.wf(),
            r@ == (QueueView {
                history: Seq::empty(),
                history_limit: history_limit as nat,
                current: None,
                up_next: Seq::empty(),
                playlist: Seq::empty(),
                playlist_index: None,
                shuffled: Seq::empty(),
                shuffle_cursor: 0,
                repeat_mode: RepeatMode::Off,
                shuffle_mode: ShuffleMode::Off,
            }),
    {
        let r = PlaybackQueue {
            history: VecDeque::with_capacity(history_limit),
            history_limit,
            current: None,
            up_next: VecDeque::new(),
            playlist: Vec::new(),
            playlist_index: None,
            shuffled_indices: Vec::new(),
            shuffle_cursor: 0,
            repeat_mode: RepeatMode::Off,
            shuffle_mode: ShuffleMode::Off,
        };
        proof {
            assert(r@.history =~= Seq::<TrackId>::empty());
            assert(r@.up_next =~= Seq::<TrackId>::empty());
        }
        r
    }

    /// Replaces the shuffle order with a fresh random ordering of the whole playlist.
    fn rebuild_shuffle_indices(&mut self)
        ensures
            is_index_permutation(final(self)@.shuffled, final(self)@.playlist.len()),
            final(self)@ == (QueueView {
                shuffled: final(self)@.shuffled,
                shuffle_cursor: 0,
                ..old(self)@
            }),
    {
        self.shuffled_indices = shuffled_range(0, self.playlist.len());
        self.shuffle_cursor = 0;
    }

    /// Records `track_id` in the history, dropping the oldest entry when it is full.
    fn push_history(&mut self, track_id: TrackId)
        ensures
            final(self)@ == (QueueView {
                history: pushed_history(old(self)@.history, old(self)@.history_limit, track_id),
                ..old(self)@
            }),
    {
        if self.history_limit == 0 {
            return;
        }
        if self.history.len() >= self.history_limit {
            self.history.pop_front();
        }
        self.history.push_back(track_id);
    }
}


impl PlaybackQueue {
    /// Loads a new collection of tracks (an album, search results, ...) as the playlist:
    /// history and "Up Next" are emptied, a fresh shuffle order is drawn, and the track at
    /// `start_index` becomes current when that position exists (nothing is current otherwise).
    pub fn load_tracks(&mut self, tracks: Vec<TrackId>, start_index: Option<usize>)
        requires
            old(self)@.wf(),
        ensures
            final(self)@.wf(),
            final(self)@.history == Seq::<TrackId>::empty(),
            final(self)@.up_next == Seq::<TrackId>::empty(),
            final(self)@.playlist == tracks@,
            is_index_permutation(final(self)@.shuffled, tracks@.len()),
            final(self)@.history_limit == old(self)@.history_limit,
            final(self)@.repeat_mode == old(self)@.repeat_mode,
            final(self)@.shuffle_mode == old(self)@.shuffle_mode,
            (start_index matches Some(idx) && idx < tracks@.len()) ==> {
                let idx = start_index->0;
                &&& final(self)@.playlist_index == Some(idx)
                &&& final(self)@.current == Some(tracks@[idx as int])
                &&& (old(self)@.shuffle_mode != ShuffleMode::Off ==> final(self)@.shuffled[final(self)@.shuffle_cursor as int]
                    == idx)
                &&& (old(self)@.shuffle_mode == ShuffleMode::Off ==> final(self)@.shuffle_cursor
                    == 0)
            },
            !(start_index matches Some(idx) && idx < tracks@.len()) ==> {
                &&& final(self)@.playlist_index == None::<usize>
                &&& final(self)@.current == None::<TrackId>
                &&& final(self)@.shuffle_cursor == 0
            },
    {
        self.history.clear();
        self.up_next.clear();
        self.playlist = tracks;
        self.rebuild_shuffle_indices();

        if let Some(idx) = start_index {
            if idx < self.playlist.len() {
                self.playlist_index = Some(idx);
                self.current = Some(self.playlist[idx]);
                if self.shuffle_mode != ShuffleMode::Off {
                    if let Some(pos) = position_of_index(&self.shuffled_indices, idx) {
                        self.shuffle_cursor = pos;
                    } else {
                        assert(self.shuffled_indices@.contains(idx));
                    }
                }
            } else {
                self.playlist_index = None;
                self.current = None;
            }
        } else {
            self.playlist_index = None;
            self.current = None;
        }
    }

    /// Puts `track_id` at the front of "Up Next", so that it plays right after the current track.
    pub fn play_next(&mut self, track_id: TrackId)
        requires
            old(self)@.wf(),
        ensures
            final(self)@.wf(),
            final(self)@ == (QueueView { up_next: seq![track_id] + old(self)@.up_next, ..old(self)@ }),
    {
        self.up_next.push_front(track_id);
    }

    /// Appends `track_id` to the end of "Up Next".
    pub fn append_to_queue(&mut self, track_id: TrackId)
        requires
            old(self)@.wf(),
        ensures
            final(self)@.wf(),
            final(self)@ == (QueueView { up_next: old(self)@.up_next.push(track_id), ..old(self)@ }),
    {
        self.up_next.push_back(track_id);
    }

    /// Appends tracks to the playlist.  While shuffling, their positions are added to the
    /// end of the shuffle order in a random order of their own.
    pub fn append_playlist_tracks(&mut self, tracks: Vec<TrackId>)
        requires
            old(self)@.wf(),
            old(self)@.playlist.len() + tracks@.len() <= usize::MAX,
        ensures
            final(self)@.wf(),
            final(self)@ == (QueueView {
                playlist: old(self)@.playlist + tracks@,
                shuffled: final(self)@.shuffled,
                ..old(self)@
            }),
            old(self)@.shuffle_mode == ShuffleMode::Off ==> final(self)@.shuffled == old(self)@.shuffled,
            old(self)@.shuffle_mode != ShuffleMode::Off ==> {
                let n0 = old(self)@.playlist.len();
                let added = final(self)@.shuffled.subrange(
                    old(self)@.shuffled.len() as int,
                    final(self)@.shuffled.len() as int,
                );
                &&& final(self)@.shuffled.len() == old(self)@.shuffled.len() + tracks@.len()
                &&& final(self)@.shuffled.subrange(0, old(self)@.shuffled.len() as int)
                    == old(self)@.shuffled
                &&& forall|k: int| 0 <= k < added.len() ==> n0 <= #[trigger] added[k] < n0 + tracks@.len()
                &&& forall|p: usize| n0 <= p < n0 + tracks@.len() ==> #[trigger] added.contains(p)
            },
    {
        let old_len = self.playlist.len();
        let mut tracks = tracks;
        self.playlist.append(&mut tracks);

        if self.shuffle_mode != ShuffleMode::Off {
            let mut new_indices = shuffled_range(old_len, self.playlist.len());
            let ghost prev = self.shuffled_indices@;
            let ghost added = new_indices@;
            self.shuffled_indices.append(&mut new_indices);
            proof {
                let s = self.shuffled_indices@;
                assert(s.subrange(prev.len() as int, s.len() as int) =~= added);
                assert(s.subrange(0, prev.len() as int) =~= prev);
                assert forall|a: int, b: int| 0 <= a < s.len() && 0 <= b < s.len() && a != b implies s[a] != s[b] by {
                    if a < prev.len() && b >= prev.len() {
                        assert(s[b] == added[b - prev.len()]);
                    } else if b < prev.len() && a >= prev.len() {
                        assert(s[a] == added[a - prev.len()]);
                    } else if a >= prev.len() {
                        assert(s[a] == added[a - prev.len()]);
                        assert(s[b] == added[b - prev.len()]);
                    }
                }
                assert forall|k: int| 0 <= k < s.len() implies (#[trigger] s[k]) < self.playlist@.len() by {
                    if k >= prev.len() {
                        assert(s[k] == added[k - prev.len()]);
                    }
                }
            }
        }
    }
}


impl PlaybackQueue {
    /// Moves the "Up Next" entry at `from` to position `to` (drag and drop).  Returns
    /// `false`, changing nothing, when either position is outside "Up Next".
    pub fn move_up_next(&mut self, from: usize, to: usize) -> (moved: bool)
        requires
            old(self)@.wf(),
        ensures
            final(self)@.wf(),
            moved == (from < old(self)@.up_next.len() && to < old(self)@.up_next.len()),
            !moved ==> final(self)@ == old(self)@,
            moved ==> final(self)@ == (QueueView {
                up_next: old(self)@.up_next.remove(from as int).insert(
                    to as int,
                    old(self)@.up_next[from as int],
                ),
                ..old(self)@
            }),
    {
        if from >= self.up_next.len() || to >= self.up_next.len() {
            return false;
        }
        if from == to {
            proof {
                let u = old(self)@.up_next;
                assert(u.remove(from as int).insert(to as int, u[from as int]) =~= u);
            }
            return true;
        }
        if let Some(track) = self.up_next.remove(from) {
            self.up_next.insert(to, track);
            return true;
        }
        false
    }

    /// Moves the playlist entry at `from` to position `to`.  The active position follows the
    /// track it designated and a fresh shuffle order is drawn.  Returns `false`, changing
    /// nothing, when either position is outside the playlist; moving an entry onto itself
    /// changes nothing either.
    pub fn move_playlist_track(&mut self, from: usize, to: usize) -> (moved: bool)
        requires
            old(self)@.wf(),
        ensures
            final(self)@.wf(),
            moved == (from < old(self)@.playlist.len() && to < old(self)@.playlist.len()),
            !moved || from == to ==> final(self)@ == old(self)@,
            moved && from != to ==> {
                &&& final(self)@ == (QueueView {
                    playlist: old(self)@.playlist.remove(from as int).insert(
                        to as int,
                        old(self)@.playlist[from as int],
                    ),
                    playlist_index: index_after_move(old(self)@.playlist_index, from, to),
                    shuffled: final(self)@.shuffled,
                    shuffle_cursor: 0,
                    ..old(self)@
                })
                &&& is_index_permutation(final(self)@.shuffled, final(self)@.playlist.len())
            },
            // the active position designates the same track as before
            moved ==> (old(self)@.playlist_index matches Some(i) ==> (final(self)@.playlist_index matches Some(j) && final(self)@.playlist[j as int] == old(self)@.playlist[i as int])),
    {
        if from >= self.playlist.len() || to >= self.playlist.len() {
            return false;
        }
        if from == to {
            return true;
        }
        let ghost p = self.playlist@;
        let item = self.playlist.remove(from);
        self.playlist.insert(to, item);

        if let Some(idx) = self.playlist_index {
            if idx == from {
                self.playlist_index = Some(to);
            } else if from < idx && to >= idx {
                self.playlist_index = Some(idx - 1);
            } else if from > idx && to <= idx {
                self.playlist_index = Some(idx + 1);
            }
            proof {
                let q = self.playlist@;
                let j = self.playlist_index->0;
                if idx != from {
                    assert(p.remove(from as int)[if from < idx { idx - 1 } else { idx as int }] == p[idx as int]);
                }
                assert(q[j as int] == p[idx as int]);
            }
        }

        self.rebuild_shuffle_indices();
        true
    }

    /// Removes and returns the "Up Next" entry at `index` (`None` when there is none).
    pub fn remove_from_up_next(&mut self, index: usize) -> (removed: Option<TrackId>)
        requires
            old(self)@.wf(),
        ensures
            final(self)@.wf(),
            index < old(self)@.up_next.len() ==> {
                &&& removed == Some(old(self)@.up_next[index as int])
                &&& final(self)@ == (QueueView { up_next: old(self)@.up_next.remove(index as int), ..old(self)@ })
            },
            index >= old(self)@.up_next.len() ==> removed == None::<TrackId> && final(self)@ == old(self)@,
    {
        self.up_next.remove(index)
    }

    /// Removes and returns the playlist entry at `index` (`None`, changing nothing, when
    /// there is none).  The active position is shifted to keep designating the same track;
    /// when that track is the one removed, the position stays where it was (clamped to the
    /// new end, or cleared when the playlist becomes empty).  A fresh shuffle order is drawn.
    /// The current track is left as it is.
    pub fn remove_from_playlist(&mut self, index: usize) -> (removed: Option<TrackId>)
        requires
            old(self)@.wf(),
        ensures
            final(self)@.wf(),
            index >= old(self)@.playlist.len() ==> removed == None::<TrackId> && final(self)@ == old(self)@,
            index < old(self)@.playlist.len() ==> {
                &&& removed == Some(old(self)@.playlist[index as int])
                &&& final(self)@ == (QueueView {
                    playlist: old(self)@.playlist.remove(index as int),
                    playlist_index: index_after_removal(
                        old(self)@.playlist_index,
                        index,
                        (old(self)@.playlist.len() - 1) as nat,
                    ),
                    shuffled: final(self)@.shuffled,
                    shuffle_cursor: 0,
                    ..old(self)@
                })
                &&& is_index_permutation(final(self)@.shuffled, final(self)@.playlist.len())
            },
            // a surviving active track is still designated
            index < old(self)@.playlist.len() ==> (old(self)@.playlist_index matches Some(i) ==> (i
                != index ==> (final(self)@.playlist_index matches Some(j) && final(self)@.playlist[j as int] == old(self)@.playlist[i as int]))),
    {
        if index >= self.playlist.len() {
            return None;
        }
        let ghost p = self.playlist@;
        let removed = self.playlist.remove(index);

        if let Some(idx) = self.playlist_index {
            if idx == index {
                self.playlist_index = if self.playlist.len() == 0 {
                    None
                } else {
                    Some(if index <= self.playlist.len() - 1 { index } else { self.playlist.len() - 1 })
                };
            } else if index < idx {
                self.playlist_index = Some(idx - 1);
            }
            proof {
                if idx != index {
                    let j = self.playlist_index->0;
                    assert(self.playlist@[j as int] == p[idx as int]);
                }
            }
        }

        self.rebuild_shuffle_indices();
        Some(removed)
    }

    /// Empties "Up Next".
    pub fn clear_up_next(&mut self)
        requires
            old(self)@.wf(),
        ensures
            final(self)@.wf(),
            final(self)@ == (QueueView { up_next: Seq::empty(), ..old(self)@ }),
    {
        self.up_next.clear();
    }

    /// Empties the history.
    pub fn clear_history(&mut self)
        requires
            old(self)@.wf(),
        ensures
            final(self)@.wf(),
            final(self)@ == (QueueView { history: Seq::empty(), ..old(self)@ }),
    {
        self.history.clear();
    }

    /// Resets the queue: no history, no "Up Next", no playlist, nothing current.  The
    /// history capacity and the repeat and shuffle modes are kept.
    pub fn clear_all(&mut self)
        requires
            old(self)@.wf(),
        ensures
            final(self)@.wf(),
            final(self)@ == (QueueView {
                history: Seq::empty(),
                current: None,
                up_next: Seq::empty(),
                playlist: Seq::empty(),
                playlist_index: None,
                shuffled: Seq::empty(),
                shuffle_cursor: 0,
                ..old(self)@
            }),
    {
        self.history.clear();
        self.up_next.clear();
        self.playlist.clear();
        self.shuffled_indices.clear();
        self.current = None;
        self.playlist_index = None;
        self.shuffle_cursor = 0;
    }

    /// The track currently playing, if any.
    pub fn current_track(&self) -> (r: Option<TrackId>)
        ensures
            r == self@.current,
    {
        self.current
    }

    /// Jumps to the playlist entry at `index`: the current track (if any) goes to the
    /// history, the entry becomes current and the shuffle cursor moves to it.  Returns the
    /// new current track, or `None`, changing nothing, when `index` is outside the playlist.
    pub fn jump_to_playlist_index(&mut self, index: usize) -> (r: Option<TrackId>)
        requires
            old(self)@.wf(),
        ensures
            final(self)@.wf(),
            index >= old(self)@.playlist.len() ==> r == None::<TrackId> && final(self)@ == old(self)@,
            index < old(self)@.playlist.len() ==> {
                &&& r == Some(old(self)@.playlist[index as int])
                &&& final(self)@ == (QueueView {
                    history: old(self)@.history_with_current(),
                    current: r,
                    playlist_index: Some(index),
                    shuffle_cursor: final(self)@.shuffle_cursor,
                    ..old(self)@
                })
                &&& (old(self)@.shuffle_mode != ShuffleMode::Off && old(self)@.shuffled.contains(index)
                    ==> final(self)@.shuffled[final(self)@.shuffle_cursor as int] == index)
                &&& (old(self)@.shuffle_mode == ShuffleMode::Off || !old(self)@.shuffled.contains(index)
                    ==> final(self)@.shuffle_cursor == old(self)@.shuffle_cursor)
            },
    {
        if index >= self.playlist.len() {
            return None;
        }

        if let Some(curr) = self.current {
            self.push_history(curr);
        }

        self.playlist_index = Some(index);
        self.current = Some(self.playlist[index]);

        if self.shuffle_mode != ShuffleMode::Off {
            if let Some(pos) = position_of_index(&self.shuffled_indices, index) {
                self.shuffle_cursor = pos;
            }
        }

        self.current
    }
}


/// The playlist position that follows in playlist order: the next entry, or the first one
/// again when repeating the queue, or none at the end.
pub open spec fn next_in_order(v: QueueView) -> Option<usize> {
    let next_idx: int = match v.playlist_index {
        Some(i) => i + 1,
        None => 0,
    };
    if next_idx < v.playlist.len() {
        Some(next_idx as usize)
    } else if v.repeat_mode == RepeatMode::Queue {
        Some(0)
    } else {
        None
    }
}

/// What one step forward does, from `old` to `new` with result `r`: repeating a single track
/// keeps it; otherwise the current track goes to the history and the next track comes from
/// "Up Next" first, then from the playlist, in order or in the shuffle order.
pub open spec fn advance_step(old: QueueView, new: QueueView, r: Option<TrackId>) -> bool {
    if old.current is Some && old.repeat_mode == RepeatMode::Track {
        r == old.current && new == old
    } else {
        let h = old.history_with_current();
        if old.up_next.len() > 0 {
            &&& r == Some(old.up_next[0])
            &&& new == (QueueView { history: h, current: r, up_next: old.up_next.drop_first(), ..old })
        } else if old.playlist.len() == 0 || old.shuffle_mode == ShuffleMode::Albums {
            &&& r == None::<TrackId>
            &&& new == (QueueView { history: h, current: None, playlist_index: None, ..old })
        } else if old.shuffle_mode == ShuffleMode::Off {
            let pos = next_in_order(old);
            &&& r == (match pos {
                Some(p) => Some(old.playlist[p as int]),
                None => None,
            })
            &&& new == (QueueView { history: h, current: r, playlist_index: pos, ..old })
        } else {
            let nc: int = if old.current is Some {
                old.shuffle_cursor + 1int
            } else {
                old.shuffle_cursor as int
            };
            if nc < old.shuffled.len() {
                &&& r == Some(old.playlist[old.shuffled[nc] as int])
                &&& new == (QueueView {
                    history: h,
                    current: r,
                    playlist_index: Some(old.shuffled[nc]),
                    shuffle_cursor: nc as nat,
                    ..old
                })
            } else if old.repeat_mode == RepeatMode::Queue {
                &&& is_index_permutation(new.shuffled, old.playlist.len())
                &&& r == Some(old.playlist[new.shuffled[0] as int])
                &&& new == (QueueView {
                    history: h,
                    current: r,
                    playlist_index: Some(new.shuffled[0]),
                    shuffled: new.shuffled,
                    shuffle_cursor: 0,
                    ..old
                })
            } else {
                &&& r == None::<TrackId>
                &&& new == (QueueView { history: h, current: None, playlist_index: None, ..old })
            }
        }
    }
}

/// What one step back does, from `old` to `new` with result `r`: the newest history entry
/// becomes current, the track that was current goes to the front of "Up Next", and the
/// active position moves to the first playlist entry holding the new current track (none
/// when the playlist does not hold it).  With an empty history nothing changes and the
/// current track is returned.
pub open spec fn back_step(old: QueueView, new: QueueView, r: Option<TrackId>) -> bool {
    if old.history.len() == 0 {
        r == old.current && new == old
    } else {
        let prev = old.history.last();
        &&& r == Some(prev)
        &&& is_first_position(old.playlist, prev, new.playlist_index)
        &&& new == (QueueView {
            history: old.history.drop_last(),
            current: Some(prev),
            up_next: match old.current {
                Some(c) => seq![c] + old.up_next,
                None => old.up_next,
            },
            playlist_index: new.playlist_index,
            ..old
        })
    }
}

impl PlaybackQueue {
    /// Advances to the next track, respecting "Up Next", the repeat mode and the shuffle
    /// mode (see [`advance_step`]), and returns the new current track.
    pub fn next(&mut self) -> (r: Option<TrackId>)
        requires
            old(self)@.wf(),
        ensures
            final(self)@.wf(),
            advance_step(old(self)@, final(self)@, r),
    {
        if let Some(curr) = self.current {
            if self.repeat_mode == RepeatMode::Track {
                return Some(curr);
            }
            self.push_history(curr);
        }

        if let Some(next_manual) = self.up_next.pop_front() {
            self.current = Some(next_manual);
            return self.current;
        }

        if self.playlist.len() == 0 {
            self.current = None;
            self.playlist_index = None;
            return None;
        }

        match self.shuffle_mode {
            ShuffleMode::Off => {
                let next_idx = match self.playlist_index {
                    Some(idx) => idx + 1,
                    None => 0,
                };

                if next_idx < self.playlist.len() {
                    self.playlist_index = Some(next_idx);
                    self.current = Some(self.playlist[next_idx]);
                } else if self.repeat_mode == RepeatMode::Queue {
                    self.playlist_index = Some(0);
                    self.current = Some(self.playlist[0]);
                } else {
                    self.playlist_index = None;
                    self.current = None;
                }
            },
            ShuffleMode::Tracks => {
                let n_shuffled = self.shuffled_indices.len();
                let next_cursor = if self.current.is_some() {
                    self.shuffle_cursor + 1
                } else {
                    self.shuffle_cursor
                };

                if next_cursor < self.shuffled_indices.len() {
                    self.shuffle_cursor = next_cursor;
                    let playlist_idx = self.shuffled_indices[self.shuffle_cursor];
                    self.playlist_index = Some(playlist_idx);
                    self.current = Some(self.playlist[playlist_idx]);
                } else if self.repeat_mode == RepeatMode::Queue {
                    self.rebuild_shuffle_indices();
                    self.shuffle_cursor = 0;
                    if self.shuffled_indices.len() > 0 {
                        let playlist_idx = self.shuffled_indices[0];
                        self.playlist_index = Some(playlist_idx);
                        self.current = Some(self.playlist[playlist_idx]);
                    }
                } else {
                    self.playlist_index = None;
                    self.current = None;
                }
            },
            ShuffleMode::Albums => {
                self.playlist_index = None;
                self.current = None;
            },
        }

        self.current
    }

    /// Steps back in the history: the newest history entry becomes current, the track that
    /// was current goes to the front of "Up Next", and the active position moves to the first
    /// playlist entry holding that track (none when the playlist does not hold it).  With an
    /// empty history nothing changes.  Returns the current track.
    pub fn previous(&mut self) -> (r: Option<TrackId>)
        requires
            old(self)@.wf(),
        ensures
            final(self)@.wf(),
            back_step(old(self)@, final(self)@, r),
    {
        if let Some(prev) = self.history.pop_back() {
            if let Some(curr) = self.current {
                self.up_next.push_front(curr);
            }
            self.current = Some(prev);
            self.playlist_index = position_of_track(&self.playlist, prev);
            return self.current;
        }

        self.current
    }

    /// Sets the shuffle mode.  Turning shuffling on draws a fresh shuffle order and puts the
    /// cursor on the active playlist position.
    pub fn set_shuffle(&mut self, mode: ShuffleMode)
        requires
            old(self)@.wf(),
        ensures
            final(self)@.wf(),
            mode == ShuffleMode::Off ==> final(self)@ == (QueueView { shuffle_mode: mode, ..old(self)@ }),
            mode != ShuffleMode::Off ==> {
                &&& is_index_permutation(final(self)@.shuffled, old(self)@.playlist.len())
                &&& final(self)@ == (QueueView {
                    shuffle_mode: mode,
                    shuffled: final(self)@.shuffled,
                    shuffle_cursor: final(self)@.shuffle_cursor,
                    ..old(self)@
                })
                &&& (old(self)@.playlist_index matches Some(i) ==> final(self)@.shuffled[final(self)@.shuffle_cursor as int] == i)
                &&& (old(self)@.playlist_index is None ==> final(self)@.shuffle_cursor == 0)
            },
    {
        self.shuffle_mode = mode;
        if mode != ShuffleMode::Off {
            self.rebuild_shuffle_indices();
            if let Some(idx) = self.playlist_index {
                if let Some(pos) = position_of_index(&self.shuffled_indices, idx) {
                    self.shuffle_cursor = pos;
                } else {
                    assert(self.shuffled_indices@.contains(idx));
                }
            }
        }
    }

    /// Sets the repeat mode.
    pub fn set_repeat(&mut self, mode: RepeatMode)
        requires
            old(self)@.wf(),
        ensures
            final(self)@.wf(),
            final(self)@ == (QueueView { repeat_mode: mode, ..old(self)@ }),
    {
        self.repeat_mode = mode;
    }

    /// Sets the history capacity, dropping the oldest entries that no longer fit.
    pub fn set_history_limit(&mut self, limit: usize)
        requires
            old(self)@.wf(),
        ensures
            final(self)@.wf(),
            final(self)@ == (QueueView {
                history_limit: limit as nat,
                history: truncated_history(old(self)@.history, limit as nat),
                ..old(self)@
            }),
    {
        self.history_limit = limit;
        let ghost h0 = self.history@;
        let ghost v0 = self@;
        while self.history.len() > self.history_limit
            invariant
                self.history_limit == limit,
                self@ == (QueueView { history: self@.history, ..v0 }),
                v0.history == h0,
                self.history@.len() <= h0.len(),
                self.history@ == h0.subrange(h0.len() - self.history@.len(), h0.len() as int),
                self.history@.len() >= limit || self.history@.len() == h0.len(),
            decreases self.history@.len(),
        {
            self.history.pop_front();
        }
        proof {
            if h0.len() <= limit {
                assert(self.history@ =~= h0);
            }
        }
    }

    /// The history, oldest first.
    pub fn history(&self) -> (r: &VecDeque<TrackId>)
        ensures
            r@ == self@.history,
    {
        &self.history
    }

    /// The "Up Next" queue, next first.
    pub fn up_next(&self) -> (r: &VecDeque<TrackId>)
        ensures
            r@ == self@.up_next,
    {
        &self.up_next
    }

    /// The playlist.
    pub fn playlist(&self) -> (r: &[TrackId])
        ensures
            r@ == self@.playlist,
    {
        self.playlist.as_slice()
    }

    /// The active playlist position, if any.
    pub fn playlist_index(&self) -> (r: Option<usize>)
        ensures
            r == self@.playlist_index,
    {
        self.playlist_index
    }
}

impl Default for PlaybackQueue {
    /// A queue with a history capacity of 100 tracks.
    fn default() -> (r: Self)
        ensures
            r@.wf(),
            r@ == (QueueView {
                history: Seq::empty(),
                history_limit: 100,
                current: None,
                up_next: Seq::empty(),
                playlist: Seq::empty(),
                playlist_index: None,
                shuffled: Seq::empty(),
                shuffle_cursor: 0,
                repeat_mode: RepeatMode::Off,
                shuffle_mode: ShuffleMode::Off,
            }),
    {
        Self::new(100)
    }
}


/// The entries of `s` that satisfy `keep`, in order.
pub open spec fn keep_ids(s: Seq<TrackId>, keep: spec_fn(TrackId) -> bool) -> Seq<TrackId>
    decreases s.len(),
{
    if s.len() == 0 {
        Seq::empty()
    } else {
        let k = keep_ids(s.drop_last(), keep);
        if keep(s.last()) {
            k.push(s.last())
        } else {
            k
        }
    }
}

/// The library holds a track with this identifier.
pub open spec fn in_library(db: DbView) -> spec_fn(TrackId) -> bool {
    |id: TrackId| db.tracks.contains_key(id.0)
}

/// Filtering a concatenation filters each part.
pub proof fn lemma_keep_ids_append(a: Seq<TrackId>, b: Seq<TrackId>, keep: spec_fn(TrackId) -> bool)
    ensures
        keep_ids(a + b, keep) == keep_ids(a, keep) + keep_ids(b, keep),
        keep_ids(a, keep).len() <= a.len(),
    decreases b.len(),
{
    if b.len() == 0 {
        assert(a + b =~= a);
        assert(keep_ids(a, keep) + keep_ids(b, keep) =~= keep_ids(a, keep));
        lemma_keep_ids_len(a, keep);
    } else {
        assert((a + b).drop_last() =~= a + b.drop_last());
        lemma_keep_ids_append(a, b.drop_last(), keep);
        if keep(b.last()) {
            assert(keep_ids(a, keep) + keep_ids(b, keep) =~= (keep_ids(a, keep) + keep_ids(b.drop_last(), keep)).push(b.last()));
        }
    }
}

proof fn lemma_keep_ids_len(a: Seq<TrackId>, keep: spec_fn(TrackId) -> bool)
    ensures
        keep_ids(a, keep).len() <= a.len(),
    decreases a.len(),
{
    if a.len() > 0 {
        lemma_keep_ids_len(a.drop_last(), keep);
    }
}

/// An entry survives filtering exactly when it was there and is kept.
proof fn lemma_keep_ids_contains(s: Seq<TrackId>, keep: spec_fn(TrackId) -> bool, x: TrackId)
    ensures
        keep_ids(s, keep).contains(x) <==> (s.contains(x) && keep(x)),
    decreases s.len(),
{
    if s.len() > 0 {
        let d = s.drop_last();
        lemma_keep_ids_contains(d, keep, x);
        let k = keep_ids(d, keep);
        if keep_ids(s, keep).contains(x) {
            let i = choose|i: int| 0 <= i < keep_ids(s, keep).len() && keep_ids(s, keep)[i] == x;
            if i < k.len() {
                assert(k[i] == x);
                let j = choose|j: int| 0 <= j < d.len() && d[j] == x;
                assert(s[j] == x);
            } else {
                assert(s[s.len() - 1] == x);
            }
        }
        if s.contains(x) && keep(x) {
            let j = choose|j: int| 0 <= j < s.len() && s[j] == x;
            if j < d.len() {
                assert(d[j] == x);
                let i = choose|i: int| 0 <= i < k.len() && k[i] == x;
                assert(keep_ids(s, keep)[i] == x);
            } else {
                assert(keep_ids(s, keep)[keep_ids(s, keep).len() - 1] == x);
            }
        }
    }
}

/// Sanitizing leaves exactly the tracks the library holds: a track stays in "Up Next",
/// the history or the playlist if and only if it was there and the library holds it.
pub proof fn law_sanitize_keeps_exactly_library_tracks(ids: Seq<TrackId>, db: DbView, id: TrackId)
    ensures
        keep_ids(ids, in_library(db)).contains(id) <==> (ids.contains(id) && db.tracks.contains_key(id.0)),
{
    lemma_keep_ids_contains(ids, in_library(db), id);
}

/// Where the active position goes when the playlist is filtered: to the same track, or
/// nowhere when that track is dropped.
pub open spec fn index_after_filter(
    idx: Option<usize>,
    playlist: Seq<TrackId>,
    keep: spec_fn(TrackId) -> bool,
) -> Option<usize> {
    match idx {
        Some(i) => if i < playlist.len() && keep(playlist[i as int]) {
            Some(keep_ids(playlist.subrange(0, i as int), keep).len() as usize)
        } else {
            None
        },
        None => None,
    }
}

/// The kept entries of a filtered playlist still include the active track at its new position.
proof fn lemma_index_after_filter(playlist: Seq<TrackId>, i: int, keep: spec_fn(TrackId) -> bool)
    requires
        0 <= i < playlist.len(),
        keep(playlist[i]),
    ensures
        keep_ids(playlist.subrange(0, i), keep).len() < keep_ids(playlist, keep).len(),
        keep_ids(playlist, keep)[keep_ids(playlist.subrange(0, i), keep).len() as int] == playlist[i],
{
    let a = playlist.subrange(0, i);
    let b = playlist.subrange(i, playlist.len() as int);
    assert(a + b =~= playlist);
    lemma_keep_ids_append(a, b, keep);
    let c = seq![playlist[i]];
    let d = playlist.subrange(i + 1, playlist.len() as int);
    assert(c + d =~= b);
    lemma_keep_ids_append(c, d, keep);
    assert(c.drop_last() =~= Seq::<TrackId>::empty());
    assert(keep_ids(c, keep) =~= seq![playlist[i]]);
}

/// The entries of a queue-side list that the library holds.
fn kept_in_library(v: &VecDeque<TrackId>, db: &LibraryDatabase) -> (r: VecDeque<TrackId>)
    ensures
        r@ == keep_ids(v@, in_library(db@)),
{
    let mut r: VecDeque<TrackId> = VecDeque::new();
    let mut i: usize = 0;
    while i < v.len()
        invariant
            i <= v@.len(),
            r@ == keep_ids(v@.subrange(0, i as int), in_library(db@)),
        decreases v@.len() - i,
    {
        proof {
            assert(v@.subrange(0, i + 1).drop_last() =~= v@.subrange(0, i as int));
        }
        if db.get_track(v[i]).is_some() {
            r.push_back(v[i]);
        }
        i = i + 1;
    }
    proof {
        assert(v@.subrange(0, i as int) =~= v@);
    }
    r
}

/// The entries of `ids` whose track (and its artist) the library can describe.
pub open spec fn viewable_ids(ids: Seq<TrackId>, db: DbView) -> Seq<TrackId> {
    keep_ids(ids, |id: TrackId| has_track_view(db, id))
}

impl PlaybackQueue {
    /// Purges the tracks the library no longer holds (an unmounted drive, deleted files) from
    /// "Up Next", the history and the playlist; the active position follows its track (and is
    /// cleared when that track is purged), a purged current track is dropped, and a fresh
    /// shuffle order is drawn.
    pub fn sanitize(&mut self, db: &LibraryDatabase)
        requires
            old(self)@.wf(),
        ensures
            final(self)@.wf(),
            ({
                let keep = in_library(db@);
                &&& is_index_permutation(final(self)@.shuffled, final(self)@.playlist.len())
                &&& final(self)@ == (QueueView {
                    history: keep_ids(old(self)@.history, keep),
                    up_next: keep_ids(old(self)@.up_next, keep),
                    playlist: keep_ids(old(self)@.playlist, keep),
                    playlist_index: index_after_filter(old(self)@.playlist_index, old(self)@.playlist, keep),
                    current: match old(self)@.current {
                        Some(c) => if keep(c) {
                            Some(c)
                        } else {
                            None
                        },
                        None => None,
                    },
                    shuffled: final(self)@.shuffled,
                    shuffle_cursor: 0,
                    ..old(self)@
                })
            }),
            // the active position still designates its track
            old(self)@.playlist_index matches Some(i) ==> (final(self)@.playlist_index matches Some(j) ==> final(self)@.playlist[j as int] == old(self)@.playlist[i as int]),
    {
        let ghost keep = in_library(db@);
        self.up_next = kept_in_library(&self.up_next, db);
        self.history = kept_in_library(&self.history, db);
        proof {
            lemma_keep_ids_len(old(self)@.history, keep);
        }

        let mut new_playlist: Vec<TrackId> = Vec::new();
        let mut new_index: Option<usize> = None;
        let mut idx: usize = 0;
        while idx < self.playlist.len()
            invariant
                idx <= self.playlist@.len(),
                self.playlist@ == old(self)@.playlist,
                self.playlist_index == old(self)@.playlist_index,
                old(self)@.wf(),
                keep == in_library(db@),
                new_playlist@ == keep_ids(self.playlist@.subrange(0, idx as int), keep),
                new_index == (match self.playlist_index {
                    Some(i) => if i < idx && keep(self.playlist@[i as int]) {
                        Some(keep_ids(self.playlist@.subrange(0, i as int), keep).len() as usize)
                    } else {
                        None
                    },
                    None => None,
                }),
            decreases self.playlist@.len() - idx,
        {
            proof {
                assert(self.playlist@.subrange(0, idx + 1).drop_last() =~= self.playlist@.subrange(0, idx as int));
                lemma_keep_ids_len(self.playlist@.subrange(0, idx as int), keep);
            }
            let id = self.playlist[idx];
            if db.get_track(id).is_some() {
                if self.playlist_index == Some(idx) {
                    new_index = Some(new_playlist.len());
                }
                new_playlist.push(id);
            }
            idx = idx + 1;
        }
        proof {
            assert(self.playlist@.subrange(0, idx as int) =~= self.playlist@);
            if let Some(i) = old(self)@.playlist_index {
                if keep(old(self)@.playlist[i as int]) {
                    lemma_index_after_filter(old(self)@.playlist, i as int, keep);
                    lemma_keep_ids_len(old(self)@.playlist, keep);
                    let n = keep_ids(old(self)@.playlist.subrange(0, i as int), keep).len();
                    assert((n as usize) as int == n);
                }
            }
        }

        self.playlist = new_playlist;
        self.playlist_index = new_index;
        if let Some(curr) = self.current {
            if db.get_track(curr).is_none() {
                self.current = None;
            }
        }
        self.rebuild_shuffle_indices();
    }

    /// Descriptions of the "Up Next" tracks that the library can describe, in queue order.
    pub fn resolve_up_next_views(&self, db: &LibraryDatabase) -> (r: Vec<TrackView>)
        ensures
            r@.len() == viewable_ids(self@.up_next, db@).len(),
            forall|k: int| 0 <= k < r@.len() ==> describes_track(db@, viewable_ids(self@.up_next, db@)[k], #[trigger] r@[k]),
    {
        let ghost keep = |id: TrackId| has_track_view(db@, id);
        let mut r: Vec<TrackView> = Vec::new();
        let mut i: usize = 0;
        while i < self.up_next.len()
            invariant
                i <= self.up_next@.len(),
                keep == (|id: TrackId| has_track_view(db@, id)),
                r@.len() == keep_ids(self.up_next@.subrange(0, i as int), keep).len(),
                forall|k: int| 0 <= k < r@.len() ==> describes_track(db@, keep_ids(self.up_next@.subrange(0, i as int), keep)[k], #[trigger] r@[k]),
            decreases self.up_next@.len() - i,
        {
            proof {
                assert(self.up_next@.subrange(0, i + 1).drop_last() =~= self.up_next@.subrange(0, i as int));
            }
            if let Some(view) = resolve_track_view(db, self.up_next[i]) {
                r.push(view);
            }
            i = i + 1;
        }
        proof {
            assert(self.up_next@.subrange(0, i as int) =~= self.up_next@);
        }
        r
    }
}


/// The shape of a queue `k` steps into a shuffled run that started from nothing current.
spec fn shuffle_run_at(start: QueueView, v: QueueView, k: int) -> bool {
    &&& v.playlist == start.playlist
    &&& v.shuffled == start.shuffled
    &&& v.up_next.len() == 0
    &&& v.repeat_mode == RepeatMode::Off
    &&& v.shuffle_mode == ShuffleMode::Tracks
    &&& (k == 0 ==> v.current is None && v.shuffle_cursor == 0)
    &&& (k > 0 ==> v.current == Some(start.playlist[start.shuffled[k - 1] as int]) && v.shuffle_cursor == k - 1)
}

proof fn lemma_shuffle_run(states: Seq<QueueView>, results: Seq<Option<TrackId>>, k: int)
    requires
        states.len() == results.len() + 1,
        forall|i: int| 0 <= i < results.len() ==> #[trigger] advance_step(states[i], states[i + 1], results[i]),
        states[0].shuffle_mode == ShuffleMode::Tracks,
        states[0].repeat_mode == RepeatMode::Off,
        states[0].up_next.len() == 0,
        states[0].current is None,
        states[0].shuffle_cursor == 0,
        is_index_permutation(states[0].shuffled, states[0].playlist.len()),
        0 <= k <= results.len(),
        k <= states[0].playlist.len(),
    ensures
        shuffle_run_at(states[0], states[k], k),
        forall|i: int| 0 <= i < k ==> results[i] == Some(states[0].playlist[states[0].shuffled[i] as int]),
    decreases k,
{
    if k > 0 {
        lemma_shuffle_run(states, results, k - 1);
        let v = states[k - 1];
        assert(advance_step(states[k - 1], states[(k - 1) + 1], results[k - 1]));
        assert(v.playlist.len() > 0);
    }
}

/// Shuffling visits every playlist position exactly once per cycle: from a queue whose
/// shuffle order covers the whole playlist, with nothing current, nothing in "Up Next",
/// shuffling on and repeating off (as after `load_tracks(tracks, None)` with shuffle on),
/// successive steps forward return the playlist's entries in the order of a permutation of
/// its positions, and the step after the last entry returns nothing.
pub proof fn law_shuffle_cycle_visits_each_position_once(states: Seq<QueueView>, results: Seq<Option<TrackId>>)
    requires
        states.len() == results.len() + 1,
        forall|i: int| 0 <= i < results.len() ==> #[trigger] advance_step(states[i], states[i + 1], results[i]),
        states[0].shuffle_mode == ShuffleMode::Tracks,
        states[0].repeat_mode == RepeatMode::Off,
        states[0].up_next.len() == 0,
        states[0].current is None,
        states[0].shuffle_cursor == 0,
        is_index_permutation(states[0].shuffled, states[0].playlist.len()),
    ensures
        exists|order: Seq<usize>|
            #[trigger] is_index_permutation(order, states[0].playlist.len()) && forall|i: int|
                0 <= i < results.len() && i < states[0].playlist.len() ==> results[i] == Some(
                    states[0].playlist[order[i] as int],
                ),
        results.len() > states[0].playlist.len() ==> results[states[0].playlist.len() as int] is None,
{
    let n = states[0].playlist.len() as int;
    let m = if results.len() < n { results.len() as int } else { n };
    lemma_shuffle_run(states, results, m);
    assert(is_index_permutation(states[0].shuffled, states[0].playlist.len()));
    if results.len() > n {
        let v = states[n];
        assert(advance_step(states[n], states[n + 1], results[n]));
    }
}

/// "Play next" means next: after `play_next(t)`, a step forward returns `t` unless a single
/// track is being repeated.
pub proof fn law_play_next_then_next(q0: QueueView, q1: QueueView, q2: QueueView, t: TrackId, r: Option<TrackId>)
    requires
        q1 == (QueueView { up_next: seq![t] + q0.up_next, ..q0 }),
        advance_step(q1, q2, r),
        !(q0.current is Some && q0.repeat_mode == RepeatMode::Track),
    ensures
        r == Some(t),
        q2.current == Some(t),
        q2.up_next == q0.up_next,
{
    assert((seq![t] + q0.up_next).drop_first() =~= q0.up_next);
}

/// Repeating a single track keeps returning it, changing nothing.
pub proof fn law_repeat_track_loops(q0: QueueView, q1: QueueView, r: Option<TrackId>)
    requires
        q0.current is Some,
        q0.repeat_mode == RepeatMode::Track,
        advance_step(q0, q1, r),
    ensures
        r == q0.current,
        q1 == q0,
{
}

/// Repeating the queue wraps around: in playlist order, a step forward from the last
/// playlist entry (with "Up Next" empty) returns the first entry again.
pub proof fn law_repeat_queue_wraps(q0: QueueView, q1: QueueView, r: Option<TrackId>)
    requires
        q0.wf(),
        q0.repeat_mode == RepeatMode::Queue,
        q0.shuffle_mode == ShuffleMode::Off,
        q0.up_next.len() == 0,
        q0.playlist.len() > 0,
        q0.playlist_index matches Some(i) && i + 1 == q0.playlist.len(),
        advance_step(q0, q1, r),
    ensures
        r == Some(q0.playlist[0]),
        q1.playlist_index == Some(0usize),
{
}

/// Going back returns to the track left: after a step forward from a current track (with a
/// history that keeps at least one entry and no single-track repeat), a step back makes
/// that track current again and puts the track just reached at the front of "Up Next".
pub proof fn law_previous_returns_to_left_track(
    q0: QueueView,
    q1: QueueView,
    q2: QueueView,
    r1: Option<TrackId>,
    r2: Option<TrackId>,
)
    requires
        q0.current is Some,
        q0.repeat_mode != RepeatMode::Track,
        q0.history_limit > 0,
        advance_step(q0, q1, r1),
        back_step(q1, q2, r2),
    ensures
        r2 == q0.current,
        q2.current == q0.current,
        q2.up_next == (match q1.current {
            Some(c) => seq![c] + q1.up_next,
            None => q1.up_next,
        }),
{
    let h = q0.history_with_current();
    assert(h.len() > 0);
    assert(h.last() == q0.current->0);
}

/// Moving an "Up Next" entry only reorders: the same tracks remain, each as often.
pub proof fn law_move_up_next_reorders(u: Seq<TrackId>, from: int, to: int)
    requires
        0 <= from < u.len(),
        0 <= to < u.len(),
    ensures
        u.remove(from).insert(to, u[from]).to_multiset() == u.to_multiset(),
{
    let w = u.remove(from);
    assert(w.to_multiset() == u.to_multiset().remove(u[from]));
    assert(w.insert(to, u[from]).to_multiset() == w.to_multiset().insert(u[from]));
    assert(u.to_multiset().remove(u[from]).insert(u[from]) =~= u.to_multiset());
}

/// Recording a track in a history that respects its capacity keeps it within the capacity:
/// with capacity zero nothing changes; otherwise the track becomes the newest entry, and
/// the oldest entry is dropped exactly when the history was full.
pub proof fn law_history_push_is_bounded(h: Seq<TrackId>, limit: nat, t: TrackId)
    requires
        h.len() <= limit,
    ensures
        limit == 0 ==> pushed_history(h, limit, t) == h,
        limit > 0 ==> pushed_history(h, limit, t) == (if h.len() == limit {
            h.subrange(1, h.len() as int)
        } else {
            h
        }).push(t),
        pushed_history(h, limit, t).len() <= limit,
        limit > 0 ==> pushed_history(h, limit, t).last() == t,
{
}

} // verus!
