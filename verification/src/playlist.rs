use vstd::prelude::*;
use vstd::set_lib::{lemma_int_range, lemma_len_subset, lemma_subset_equality, set_int_range};

use crate::bits::{bit_seq, count_trues, lemma_count_split, BitFlags};
use crate::history::{HistView, History};

verus! {

/// Policy applied when the current track finishes playing.
///
/// `toggle_repeat_mode` cycles through the variants in declaration order.
#[derive(Clone, Copy, Debug, PartialEq, Eq, Structural)]
pub enum RepeatMode {
    NoRepeat,
    Repeat,
    RepeatTrack,
    Stop,
}

impl RepeatMode {
    /// Short name under which the mode is stored in the settings file.
    pub open spec fn spec_name(self) -> Seq<char> {
        match self {
            RepeatMode::NoRepeat => "none"@,
            RepeatMode::Repeat => "all"@,
            RepeatMode::RepeatTrack => "one"@,
            RepeatMode::Stop => "stop"@,
        }
    }

    /// Sentence shown to the user when the mode is toggled.
    pub open spec fn spec_description(self) -> Seq<char> {
        match self {
            RepeatMode::NoRepeat => "No repeat"@,
            RepeatMode::Repeat => "Repeat all"@,
            RepeatMode::RepeatTrack => "Repeat one only"@,
            RepeatMode::Stop => "Stop after every song"@,
        }
    }

    /// The mode that follows this one when the user toggles.
    pub open spec fn spec_next(self) -> RepeatMode {
        match self {
            RepeatMode::NoRepeat => RepeatMode::Repeat,
            RepeatMode::Repeat => RepeatMode::RepeatTrack,
            RepeatMode::RepeatTrack => RepeatMode::Stop,
            RepeatMode::Stop => RepeatMode::NoRepeat,
        }
    }

    pub fn get_string(&self) -> (r: String)
        ensures
            r@ == self.spec_name(),
    {
        match self {
            RepeatMode::NoRepeat => "none".to_owned(),
            RepeatMode::Repeat => "all".to_owned(),
            RepeatMode::RepeatTrack => "one".to_owned(),
            RepeatMode::Stop => "stop".to_owned(),
        }
    }

    pub fn describe(&self) -> (r: &'static str)
        ensures
            r@ == self.spec_description(),
    {
        match self {
            RepeatMode::NoRepeat => "No repeat",
            RepeatMode::Repeat => "Repeat all",
            RepeatMode::RepeatTrack => "Repeat one only",
            RepeatMode::Stop => "Stop after every song",
        }
    }
}

/// Relies on `rand::random`: draws a value from the thread-local generator.
/// Nothing is assumed of the result; every caller must cope with any value.
pub assume_specification<T>[ rand::random::<T> ]() -> (r: T)
    where
        rand::distributions::Standard: rand::distributions::Distribution<T>,
;

/// Mathematical value of a [`Playlist`]: the queue (each track as its
/// sequence of characters), the played flags, the play cursor, the policy
/// toggles and the embedded history.
#[verifier::ext_equal]
pub struct PlaylistView {
    pub songs: Seq<Seq<char>>,
    pub played: Seq<bool>,
    pub play_index: nat,
    pub play_index_deleted: bool,
    pub repeat_mode: RepeatMode,
    pub shuffle: bool,
    pub history: HistView<Seq<char>>,
}

impl PlaylistView {
    /// Model-level invariant: one played flag per track, and a live cursor
    /// always names a track.
    pub open spec fn wf(self) -> bool {
        &&& self.played.len() == self.songs.len()
        &&& self.history.wf()
        &&& self.songs.len() == 0 || self.play_index <= self.songs.len()
        &&& !self.play_index_deleted ==> ((self.songs.len() == 0 ==> self.play_index == 0) && (
        self.songs.len() > 0 ==> self.play_index < self.songs.len()))
    }

    /// The model after `append(song)`.
    pub open spec fn appended(self, song: Seq<char>) -> PlaylistView {
        let pi = if self.play_index_deleted && self.play_index >= self.songs.len() {
            self.songs.len()
        } else {
            self.play_index
        };
        PlaylistView {
            songs: self.songs.push(song),
            played: self.played.push(false),
            play_index: pi,
            ..self
        }
    }

    /// The model after `delete(i)`.
    pub open spec fn deleted_at(self, i: int) -> PlaylistView {
        PlaylistView {
            songs: self.songs.remove(i),
            played: self.played.remove(i),
            play_index: if i < self.play_index {
                (self.play_index - 1) as nat
            } else {
                self.play_index
            },
            play_index_deleted: self.play_index_deleted || i == self.play_index,
            ..self
        }
    }

    /// The model after `clear()`.
    pub open spec fn cleared(self) -> PlaylistView {
        PlaylistView {
            songs: Seq::empty(),
            played: Seq::empty(),
            play_index_deleted: true,
            ..self
        }
    }

    /// The model after `update(i, song)`.
    pub open spec fn updated_at(self, i: int, song: Seq<char>) -> PlaylistView {
        PlaylistView { songs: self.songs.update(i, song), ..self }
    }

    /// The model after `arrange(from, to)`: the track and its played flag
    /// move together, and the cursor keeps naming the same logical track.
    pub open spec fn arranged(self, from: int, to: int) -> PlaylistView {
        let pi = if from == self.play_index {
            to as nat
        } else {
            let shifted = if from < self.play_index {
                self.play_index - 1
            } else {
                self.play_index as int
            };
            (if to <= shifted {
                shifted + 1
            } else {
                shifted
            }) as nat
        };
        PlaylistView {
            songs: self.songs.remove(from).insert(to, self.songs[from]),
            played: self.played.remove(from).insert(to, self.played[from]),
            play_index: pi,
            ..self
        }
    }

    /// The model after `select(i)`: the cursor becomes live at `i` and the
    /// track is pushed into the history.
    pub open spec fn selected(self, i: int) -> PlaylistView {
        PlaylistView {
            play_index: i as nat,
            play_index_deleted: false,
            history: self.history.pushed(self.songs[i]),
            ..self
        }
    }

    /// The model after the just-finished slot is marked played (nothing is
    /// marked when the cursor is deleted or the queue is empty).
    pub open spec fn marked(self) -> PlaylistView {
        if !self.play_index_deleted && self.play_index < self.played.len() {
            PlaylistView { played: self.played.update(self.play_index as int, true), ..self }
        } else {
            self
        }
    }

    /// The model after every played flag is reset for a new cycle.
    pub open spec fn with_cleared_flags(self) -> PlaylistView {
        PlaylistView { played: Seq::new(self.played.len(), |i: int| false), ..self }
    }

    /// The sequential candidate for the next track.
    pub open spec fn next_candidate(self) -> nat {
        if self.play_index_deleted {
            self.play_index
        } else {
            self.play_index + 1
        }
    }
}

/// Everything `poll` guarantees: how the state after the call and the
/// returned track relate to the state before it.  The shuffle branches
/// constrain the randomly chosen index without fixing it.
pub open spec fn poll_rel(pre: PlaylistView, post: PlaylistView, r: Option<Seq<char>>) -> bool {
    match pre.repeat_mode {
        RepeatMode::RepeatTrack => post == pre && r == pre.history.current_opt(),
        RepeatMode::Stop => post == pre && r is None,
        _ => {
            if pre.history.lookback > 0 {
                &&& post == (PlaylistView { history: pre.history.after_advance(), ..pre })
                &&& r == Some(pre.history.after_advance().current())
            } else {
                let m = pre.marked();
                let repeat = pre.repeat_mode is Repeat;
                if pre.songs.len() == 0 {
                    post == m && r is None
                } else if pre.shuffle {
                    let n = count_trues(m.played);
                    if n < pre.songs.len() {
                        exists|c: int|
                            {
                                &&& 0 <= c < pre.songs.len()
                                &&& !m.played[c]
                                &&& post == m.selected(c)
                                &&& r == Some(pre.songs[c])
                            }
                    } else if repeat {
                        exists|c: int|
                            {
                                &&& 0 <= c < pre.songs.len()
                                &&& post == m.with_cleared_flags().selected(c)
                                &&& r == Some(pre.songs[c])
                            }
                    } else {
                        post == m.with_cleared_flags() && r is None
                    }
                } else {
                    let nx = pre.next_candidate();
                    if nx < pre.songs.len() {
                        post == m.selected(nx as int) && r == Some(pre.songs[nx as int])
                    } else if repeat {
                        post == m.with_cleared_flags().selected(0) && r == Some(pre.songs[0])
                    } else {
                        post == m.with_cleared_flags() && r is None
                    }
                }
            }
        },
    }
}

/// The view of an optional borrowed track.
pub open spec fn track_view(r: Option<&str>) -> Option<Seq<char>> {
    match r {
        Some(s) => Some(s@),
        None => None,
    }
}

/// The playback queue: an ordered list of track identifiers, one played
/// flag per track for shuffling without replacement, the play cursor, the
/// repeat/shuffle policy, and the history of selected tracks.
pub struct Playlist {
    songs: Vec<String>,
    history: History<String>,
    played: BitFlags,
    play_index: usize,
    play_index_deleted: bool,
    repeat_mode: RepeatMode,
    pub shuffle: bool,
}

impl View for Playlist {
    type V = PlaylistView;

    closed spec fn view(&self) -> PlaylistView {
        PlaylistView {
            songs: self.songs.deep_view(),
            played: bit_seq(self.played),
            play_index: self.play_index as nat,
            play_index_deleted: self.play_index_deleted,
            repeat_mode: self.repeat_mode,
            shuffle: self.shuffle,
            history: self.history@,
        }
    }
}

impl Playlist {
    /// Representation invariant.
    pub closed spec fn wf(&self) -> bool {
        &&& self.history.wf()
        &&& bit_seq(self.played).len() == self.songs.deep_view().len()
        &&& self.songs.deep_view().len() == 0 || self.play_index <= self.songs.deep_view().len()
        &&& !self.play_index_deleted ==> ((self.songs.deep_view().len() == 0
            ==> self.play_index == 0) && (self.songs.deep_view().len() > 0 ==> self.play_index
            < self.songs.deep_view().len()))
    }

    pub proof fn lemma_wf_view(&self)
        requires
            self.wf(),
        ensures
            self@.wf(),
    {
        self.history.lemma_wf_view();
    }

    pub fn new(history_keep_at_most: usize) -> (r: Self)
        ensures
            r.wf(),
            r@.songs == Seq::<Seq<char>>::empty(),
            r@.played == Seq::<bool>::empty(),
            r@.play_index == 0,
            !r@.play_index_deleted,
            r@.repeat_mode == RepeatMode::NoRepeat,
            !r@.shuffle,
            r@.history.items == Seq::<Seq<char>>::empty(),
            r@.history.lookback == 0,
            r@.history.capacity == history_keep_at_most,
    {
        let pl = Self {
            songs: Vec::new(),
            history: History::new(history_keep_at_most),
            played: BitFlags::new(),
            play_index: 0,
            play_index_deleted: false,
            repeat_mode: RepeatMode::NoRepeat,
            shuffle: false,
        };
        proof {
            assert(pl@.songs =~= Seq::<Seq<char>>::empty());
        }
        pl
    }

    /// Rebuilds a playlist from its persisted parts.
    pub fn restore(
        songs: Vec<String>,
        played: Vec<bool>,
        play_index: usize,
        play_index_deleted: bool,
        repeat_mode: RepeatMode,
        shuffle: bool,
        history: History<String>,
    ) -> (r: Self)
        requires
            history.wf(),
            played@.len() == songs@.len(),
            songs@.len() == 0 || play_index <= songs@.len(),
            !play_index_deleted ==> ((songs@.len() == 0 ==> play_index == 0) && (songs@.len() > 0
                ==> play_index < songs@.len())),
        ensures
            r.wf(),
            r@.songs == songs.deep_view(),
            r@.played == played.deep_view(),
            r@.play_index == play_index,
            r@.play_index_deleted == play_index_deleted,
            r@.repeat_mode == repeat_mode,
            r@.shuffle == shuffle,
            r@.history == history@,
    {
        let mut flags = BitFlags::new();
        let n = played.len();
        let mut i: usize = 0;
        while i < n
            invariant
                i <= n,
                n == played@.len(),
                bit_seq(flags) == played@.take(i as int),
            decreases n - i,
        {
            flags.push(played[i]);
            proof {
                assert(played@.take(i as int).push(played@[i as int]) =~= played@.take(
                    i as int + 1,
                ));
            }
            i = i + 1;
        }
        proof {
            assert(played@.take(n as int) =~= played@);
            assert(played@ =~= played.deep_view());
        }
        let pl = Self {
            songs,
            history,
            played: flags,
            play_index,
            play_index_deleted,
            repeat_mode,
            shuffle,
        };
        pl
    }

    /// Changes the capacity of the embedded history.  May only be called
    /// while the history is still empty.
    pub fn history_keep_at_most(&mut self, capacity: usize)
        requires
            old(self).wf(),
            old(self)@.history.items.len() == 0,
        ensures
            final(self).wf(),
            final(self)@ == (PlaylistView {
                history: HistView {
                    items: old(self)@.history.items,
                    lookback: 0,
                    capacity: capacity as nat,
                },
                ..old(self)@
            }),
    {
        self.history.set_capacity(capacity);
    }

    /// Number of tracks in the queue.
    pub fn count(&self) -> (r: usize)
        ensures
            r == self@.songs.len(),
    {
        self.songs.len()
    }

    pub fn get_history(&self) -> (r: &History<String>)
        ensures
            r@ == self@.history,
    {
        &self.history
    }

    /// The queue itself, for persistence and display.
    pub fn get_songs(&self) -> (r: &Vec<String>)
        ensures
            r.deep_view() == self@.songs,
    {
        &self.songs
    }

    /// The played flags, for persistence.
    pub fn played_flags(&self) -> (r: Vec<bool>)
        ensures
            r.deep_view() == self@.played,
    {
        let mut v: Vec<bool> = Vec::new();
        let n = self.played.len();
        let mut i: usize = 0;
        while i < n
            invariant
                i <= n,
                n == bit_seq(self.played).len(),
                v@ == bit_seq(self.played).take(i as int),
            decreases n - i,
        {
            v.push(self.played.get(i));
            proof {
                assert(bit_seq(self.played).take(i as int).push(bit_seq(self.played)[i as int])
                    =~= bit_seq(self.played).take(i as int + 1));
            }
            i = i + 1;
        }
        proof {
            assert(bit_seq(self.played).take(n as int) =~= bit_seq(self.played));
            assert(v.deep_view() =~= v@);
        }
        v
    }

    pub fn get_play_index(&self) -> (r: usize)
        ensures
            r == self@.play_index,
    {
        self.play_index
    }

    pub fn is_play_index_deleted(&self) -> (r: bool)
        ensures
            r == self@.play_index_deleted,
    {
        self.play_index_deleted
    }

    /// Appends a track at the end of the queue.  A cursor that a deletion
    /// left dangling past the end snaps to the new track's position.
    pub fn append(&mut self, song: String)
        requires
            old(self).wf(),
        ensures
            final(self).wf(),
            final(self)@ == old(self)@.appended(song@),
    {
        if self.play_index_deleted && self.play_index >= self.songs.len() {
            self.play_index = self.songs.len();
        }
        self.songs.push(song);
        self.played.push(false);
        proof {
            assert(self.songs.deep_view() =~= old(self).songs.deep_view().push(song.deep_view()));
            assert(self@ =~= old(self)@.appended(song@));
        }
    }

    /// Removes the track at `index`.  A cursor behind it shifts down with
    /// the queue; the cursor is marked deleted when its own track goes.
    pub fn delete(&mut self, index: usize)
        requires
            old(self).wf(),
            index < old(self)@.songs.len(),
        ensures
            final(self).wf(),
            final(self)@ == old(self)@.deleted_at(index as int),
    {
        self.songs.remove(index);
        self.played.remove(index);
        if index < self.play_index {
            self.play_index = self.play_index - 1;
        } else if self.play_index == index {
            self.play_index_deleted = true;
        }
        proof {
            assert(self.songs.deep_view() =~= old(self).songs.deep_view().remove(index as int));
            assert(self@ =~= old(self)@.deleted_at(index as int));
        }
    }

    /// Empties the queue and marks the cursor deleted.
    pub fn clear(&mut self)
        requires
            old(self).wf(),
        ensures
            final(self).wf(),
            final(self)@ == old(self)@.cleared(),
    {
        self.songs.clear();
        self.played.clear();
        self.play_index_deleted = true;
        proof {
            assert(self.songs.deep_view() =~= Seq::<Seq<char>>::empty());
            assert(self@ =~= old(self)@.cleared());
        }
    }

    /// Replaces the track at `index` in place; the cursor is unaffected.
    pub fn update(&mut self, index: usize, song: String)
        requires
            old(self).wf(),
            index < old(self)@.songs.len(),
        ensures
            final(self).wf(),
            final(self)@ == old(self)@.updated_at(index as int, song@),
    {
        self.songs.set(index, song);
        proof {
            assert(self.songs.deep_view() =~= old(self).songs.deep_view().update(
                index as int,
                song.deep_view(),
            ));
            assert(self@ =~= old(self)@.updated_at(index as int, song@));
        }
    }

    /// Moves the track at `from` to position `to`, keeping the played flags
    /// and the cursor in lockstep.
    pub fn arrange(&mut self, from: usize, to: usize)
        requires
            old(self).wf(),
            from < old(self)@.songs.len(),
            to < old(self)@.songs.len(),
        ensures
            final(self).wf(),
            final(self)@ == old(self)@.arranged(from as int, to as int),
    {
        let song = self.songs.remove(from);
        self.songs.insert(to, song);
        let played = self.played.remove(from);
        self.played.insert(to, played);

        if from == self.play_index {
            self.play_index = to;
        } else {
            if from < self.play_index {
                self.play_index = self.play_index - 1;
            }
            if to <= self.play_index {
                self.play_index = self.play_index + 1;
            }
        }
        proof {
            assert(self.songs.deep_view() =~= old(self).songs.deep_view().remove(
                from as int,
            ).insert(to as int, old(self).songs.deep_view()[from as int]));
            assert(self@ =~= old(self)@.arranged(from as int, to as int));
        }
    }

    pub fn get_repeat_mode(&self) -> (r: RepeatMode)
        ensures
            r == self@.repeat_mode,
    {
        self.repeat_mode
    }

    pub fn toggle_repeat_mode(&mut self)
        requires
            old(self).wf(),
        ensures
            final(self).wf(),
            final(self)@ == (PlaylistView {
                repeat_mode: old(self)@.repeat_mode.spec_next(),
                ..old(self)@
            }),
    {
        self.repeat_mode = match self.repeat_mode {
            RepeatMode::NoRepeat => RepeatMode::Repeat,
            RepeatMode::Repeat => RepeatMode::RepeatTrack,
            RepeatMode::RepeatTrack => RepeatMode::Stop,
            RepeatMode::Stop => RepeatMode::NoRepeat,
        };
        proof {
            assert(self@ =~= (PlaylistView {
                repeat_mode: old(self)@.repeat_mode.spec_next(),
                ..old(self)@
            }));
        }
    }

    /// Records that the track at `index` is now playing: the cursor becomes
    /// live at `index` and the track is pushed into the history (subject to
    /// the history's duplicate suppression and branch discard).
    pub fn select(&mut self, index: usize) -> (r: &str)
        requires
            old(self).wf(),
            index < old(self)@.songs.len(),
        ensures
            final(self).wf(),
            final(self)@ == old(self)@.selected(index as int),
            r@ == old(self)@.songs[index as int],
    {
        self.play_index_deleted = false;
        self.play_index = index;
        let song = self.songs[index].clone();
        self.history.push(song);
        proof {
            assert(self@ =~= old(self)@.selected(index as int));
        }
        self.songs[index].as_str()
    }

    /// Steps the history one item back and returns a copy of the track now
    /// viewed, or `None` at the oldest boundary.
    pub fn look_back(&mut self) -> (r: Option<String>)
        requires
            old(self).wf(),
        ensures
            final(self).wf(),
            final(self)@ == (PlaylistView {
                history: old(self)@.history.after_look_back(),
                ..old(self)@
            }),
            old(self)@.history.can_look_back() ==> (r matches Some(s) && s@ == final(self)@.history.current()),
            !old(self)@.history.can_look_back() ==> r is None,
    {
        let r = match self.history.look_back() {
            Some(s) => Some(s.clone()),
            None => None,
        };
        proof {
            assert(self@ =~= (PlaylistView {
                history: old(self)@.history.after_look_back(),
                ..old(self)@
            }));
        }
        r
    }

    /// The next-track decision, invoked when the current track finishes
    /// naturally.  `RepeatTrack` replays the current history item; `Stop`
    /// never advances; while the history is rewound, "next" steps forward
    /// through the history; otherwise the queue supplies the next track,
    /// sequentially or by a uniformly random choice among the unplayed
    /// tracks when shuffle is on.  An empty queue always yields `None`.
    pub fn poll(&mut self) -> (r: Option<&str>)
        requires
            old(self).wf(),
        ensures
            final(self).wf(),
            poll_rel(old(self)@, final(self)@, track_view(r)),
    {
        let repeat: bool;
        match self.repeat_mode {
            RepeatMode::NoRepeat => {
                repeat = false;
            },
            RepeatMode::Repeat => {
                repeat = true;
            },
            RepeatMode::RepeatTrack => {
                return match self.history.get_current() {
                    Some(s) => Some(s.as_str()),
                    None => None,
                };
            },
            RepeatMode::Stop => {
                return None;
            },
        }

        if self.history.is_current_latest() {
            let total = self.count();
            let next: usize;
            if self.play_index_deleted {
                next = self.play_index;
            } else {
                next = self.play_index + 1;
                if self.play_index < self.played.len() {
                    self.played.set(self.play_index, true);
                }
            }
            let ghost m = old(self)@.marked();
            proof {
                assert(self@ =~= m);
            }

            if total > 0 {
                if self.shuffle {
                    let n = self.played.count_ones();
                    if n < total {
                        proof {
                            lemma_count_split(bit_seq(self.played));
                        }
                        let x = rand::random::<usize>() % (total - n);
                        let c = self.played.nth_zero(x);
                        self.select(c);
                        proof {
                            assert(self@ == m.selected(c as int));
                        }
                        Some(self.songs[c].as_str())
                    } else if repeat {
                        // every track has been played once: start a new cycle
                        self.played.fill(false);
                        proof {
                            assert(self@ =~= m.with_cleared_flags());
                        }
                        let c = rand::random::<usize>() % total;
                        self.select(c);
                        proof {
                            assert(self@ == m.with_cleared_flags().selected(c as int));
                        }
                        Some(self.songs[c].as_str())
                    } else {
                        self.played.fill(false);
                        proof {
                            assert(self@ =~= m.with_cleared_flags());
                        }
                        None
                    }
                } else if next < total {
                    // next track in the queue
                    Some(self.select(next))
                } else if repeat {
                    // the queue finished: wrap around to its start
                    self.played.fill(false);
                    proof {
                        assert(self@ =~= m.with_cleared_flags());
                    }
                    Some(self.select(0))
                } else {
                    self.played.fill(false);
                    proof {
                        assert(self@ =~= m.with_cleared_flags());
                    }
                    None
                }
            } else {
                None
            }
        } else {
            match self.history.advance() {
                Some(s) => Some(s.as_str()),
                None => None,
            }
        }
    }
}


/// Deleting a track before the cursor shifts the cursor down by exactly
/// one and keeps it live; deleting the cursor's own track marks the cursor
/// deleted and leaves its numeric value in place, unused until the next
/// `select`.
pub proof fn lemma_delete_cursor(pl: PlaylistView, i: int)
    requires
        pl.wf(),
        0 <= i < pl.songs.len(),
        !pl.play_index_deleted,
    ensures
        i < pl.play_index ==> pl.deleted_at(i).play_index == pl.play_index - 1 && !pl.deleted_at(
            i,
        ).play_index_deleted,
        i == pl.play_index ==> pl.deleted_at(i).play_index_deleted && pl.deleted_at(i).play_index
            == pl.play_index,
{
}

/// With repeat mode `Stop`, `poll` returns `None` and changes nothing,
/// whether or not the queue holds tracks.
pub proof fn lemma_stop_mode(pre: PlaylistView, post: PlaylistView, r: Option<Seq<char>>)
    requires
        pre.repeat_mode == RepeatMode::Stop,
        poll_rel(pre, post, r),
    ensures
        r is None,
        post == pre,
{
}

/// One shuffle step of `poll`: in shuffle mode with tracks still unplayed,
/// `poll` marks the just-finished slot and then selects some unplayed
/// index `c`.  This is exactly the constraint `poll_rel` places on such a
/// call.
pub open spec fn shuffle_pick(pre: PlaylistView, post: PlaylistView, c: int) -> bool {
    let m = pre.marked();
    &&& 0 <= c < pre.songs.len()
    &&& !m.played[c]
    &&& count_trues(m.played) < pre.songs.len()
    &&& post == m.selected(c)
}

/// A run of shuffle polls: each state arises from the previous one by a
/// shuffle pick.
pub open spec fn shuffle_run(states: Seq<PlaylistView>, picks: Seq<int>) -> bool {
    &&& states.len() == picks.len() + 1
    &&& forall|i: int|
        0 <= i < picks.len() ==> #[trigger] shuffle_pick(states[i], states[i + 1], picks[i])
}

/// What `poll` guarantees in shuffle mode while unplayed tracks remain is
/// exactly a shuffle pick; this ties [`lemma_shuffle_exhaustion`] to
/// `poll`'s own contract.
pub proof fn lemma_poll_is_shuffle_pick(
    pre: PlaylistView,
    post: PlaylistView,
    r: Option<Seq<char>>,
)
    requires
        poll_rel(pre, post, r),
        pre.repeat_mode == RepeatMode::Repeat || pre.repeat_mode == RepeatMode::NoRepeat,
        pre.history.lookback == 0,
        pre.shuffle,
        pre.songs.len() > 0,
        count_trues(pre.marked().played) < pre.songs.len(),
    ensures
        exists|c: int| shuffle_pick(pre, post, c),
{
    let m = pre.marked();
    let c = choose|c: int|
        {
            &&& 0 <= c < pre.songs.len()
            &&& !m.played[c]
            &&& post == m.selected(c)
            &&& r == Some(pre.songs[c])
        };
    assert(shuffle_pick(pre, post, c));
}

/// Invariant of a shuffle run started with a deleted cursor and clear
/// flags: after `k` polls the queue is unchanged, the flags mark exactly
/// the picks before the current one, the cursor sits on the latest pick,
/// and no index has been picked twice.
proof fn lemma_shuffle_run_state(states: Seq<PlaylistView>, picks: Seq<int>, k: int)
    requires
        shuffle_run(states, picks),
        states[0].wf(),
        states[0].play_index_deleted,
        states[0].played == Seq::new(states[0].songs.len(), |i: int| false),
        0 <= k <= picks.len(),
    ensures
        states[k].songs == states[0].songs,
        states[k].played.len() == states[0].songs.len(),
        forall|t: int|
            0 <= t < states[k].played.len() ==> (states[k].played[t] <==> exists|i: int|
                0 <= i < k - 1 && picks[i] == t),
        k > 0 ==> !states[k].play_index_deleted && states[k].play_index == picks[k - 1],
        forall|i: int| 0 <= i < k ==> 0 <= #[trigger] picks[i] < states[0].songs.len(),
        forall|i: int, j: int| 0 <= i < j < k ==> picks[i] != picks[j],
    decreases k,
{
    if k > 0 {
        lemma_shuffle_run_state(states, picks, k - 1);
        let km1 = k - 1;
        assert(shuffle_pick(states[km1], states[km1 + 1], picks[km1]));
        let pre = states[k - 1];
        let post = states[k];
        let c = picks[k - 1];
        assert(shuffle_pick(pre, post, c));
        let m = pre.marked();
        if k - 1 == 0 {
            assert(m == pre);
            assert forall|t: int| 0 <= t < post.played.len() implies (post.played[t]
                <==> exists|i: int| 0 <= i < k - 1 && picks[i] == t) by {
                assert(post.played[t] == pre.played[t]);
                assert(!pre.played[t]);
            }
        } else {
            let pi = pre.play_index as int;
            assert(pi == picks[k - 2]);
            assert(0 <= pi < pre.played.len());
            assert(!pre.play_index_deleted);
            assert(m.played == pre.played.update(pi, true));
            assert forall|t: int| 0 <= t < post.played.len() implies (post.played[t]
                <==> exists|i: int| 0 <= i < k - 1 && picks[i] == t) by {
                assert(post.played[t] == m.played[t]);
                if t == pi {
                    assert(picks[k - 2] == t);
                    assert(m.played[t]);
                } else {
                    assert(m.played[t] == pre.played[t]);
                }
            }
        }
        assert forall|i: int, j: int| 0 <= i < j < k implies picks[i] != picks[j] by {
            if j == k - 1 {
                // `c` was still unplayed when it was picked, so it differs
                // from every earlier pick
                if picks[i] == c {
                    if k - 1 > 0 {
                        assert(m.played[c]) by {
                            if i == k - 2 {
                            } else {
                                assert(pre.played[c]);
                            }
                        }
                        assert(false);
                    }
                }
            }
        }
    }
}

/// Shuffle exhaustion: starting from a queue whose cursor was deleted and
/// whose played flags are all clear, a run of `count` shuffle polls
/// selects every track exactly once.
pub proof fn lemma_shuffle_exhaustion(states: Seq<PlaylistView>, picks: Seq<int>)
    requires
        shuffle_run(states, picks),
        states[0].wf(),
        states[0].play_index_deleted,
        states[0].played == Seq::new(states[0].songs.len(), |i: int| false),
        picks.len() == states[0].songs.len(),
    ensures
        picks.no_duplicates(),
        forall|t: int| 0 <= t < states[0].songs.len() ==> picks.contains(t),
{
    let n = states[0].songs.len() as int;
    lemma_shuffle_run_state(states, picks, n);
    assert(picks.no_duplicates()) by {
        assert forall|i: int, j: int|
            0 <= i < picks.len() && 0 <= j < picks.len() && i != j implies picks[i] != picks[
            j] by {}
    }
    picks.unique_seq_to_set();
    lemma_int_range(0, n);
    assert(picks.to_set().subset_of(set_int_range(0, n))) by {
        assert forall|t: int| picks.to_set().contains(t) implies set_int_range(0, n).contains(
            t,
        ) by {
            let i = choose|i: int| 0 <= i < picks.len() && picks[i] == t;
        }
    }
    lemma_len_subset(picks.to_set(), set_int_range(0, n));
    lemma_subset_equality(picks.to_set(), set_int_range(0, n));
    assert forall|t: int| 0 <= t < n implies picks.contains(t) by {
        assert(set_int_range(0, n).contains(t));
        assert(picks.to_set().contains(t));
    }
}

} // verus!
