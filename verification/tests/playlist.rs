use music_player::{Playlist, RepeatMode};

fn queue(tracks: &[&str]) -> Playlist {
    let mut pl = Playlist::new(16);
    for t in tracks {
        pl.append(t.to_string());
    }
    pl
}

fn set_mode(pl: &mut Playlist, mode: RepeatMode) {
    while pl.get_repeat_mode() != mode {
        pl.toggle_repeat_mode();
    }
}

#[test]
fn new_playlist_is_empty() {
    let pl = Playlist::new(8);
    assert_eq!(pl.count(), 0);
    assert_eq!(pl.get_play_index(), 0);
    assert!(!pl.is_play_index_deleted());
    assert_eq!(pl.get_repeat_mode(), RepeatMode::NoRepeat);
    assert!(!pl.shuffle);
    assert_eq!(pl.get_history().len(), 0);
}

#[test]
fn append_and_count() {
    let pl = queue(&["a", "b", "c"]);
    assert_eq!(pl.count(), 3);
    assert_eq!(pl.get_songs().as_slice(), ["a", "b", "c"]);
    assert_eq!(pl.played_flags(), vec![false, false, false]);
}

#[test]
fn select_pushes_into_history() {
    let mut pl = queue(&["a", "b", "c"]);
    assert_eq!(pl.select(1), "b");
    assert_eq!(pl.get_play_index(), 1);
    assert!(!pl.is_play_index_deleted());
    assert_eq!(pl.get_history().len(), 1);
    assert_eq!(pl.get_history().get_latest().unwrap(), "b");
    // re-selecting the same track does not bloat the history
    pl.select(1);
    assert_eq!(pl.get_history().len(), 1);
    pl.select(2);
    assert_eq!(pl.get_history().len(), 2);
}

#[test]
fn update_replaces_in_place() {
    let mut pl = queue(&["a", "b"]);
    pl.select(1);
    pl.update(1, "b2".to_string());
    assert_eq!(pl.get_songs().as_slice(), ["a", "b2"]);
    assert_eq!(pl.get_play_index(), 1);
    assert!(!pl.is_play_index_deleted());
}

#[test]
fn delete_before_cursor_shifts_it_down() {
    let mut pl = queue(&["a", "b", "c"]);
    pl.select(2);
    pl.delete(0);
    assert_eq!(pl.count(), 2);
    assert_eq!(pl.get_play_index(), 1);
    assert!(!pl.is_play_index_deleted());
    assert_eq!(pl.get_songs().as_slice(), ["b", "c"]);
}

#[test]
fn delete_after_cursor_leaves_it_alone() {
    let mut pl = queue(&["a", "b", "c"]);
    pl.select(0);
    pl.delete(2);
    assert_eq!(pl.get_play_index(), 0);
    assert!(!pl.is_play_index_deleted());
}

#[test]
fn delete_cursor_track_marks_it_deleted() {
    let mut pl = queue(&["a", "b", "c"]);
    pl.select(1);
    pl.delete(1);
    assert!(pl.is_play_index_deleted());
    assert_eq!(pl.get_play_index(), 1);
    assert_eq!(pl.get_songs().as_slice(), ["a", "c"]);
}

#[test]
fn delete_moves_played_flags_with_tracks() {
    let mut pl = queue(&["a", "b", "c"]);
    set_mode(&mut pl, RepeatMode::Repeat);
    pl.select(0);
    let _ = pl.poll(); // marks "a" played, selects "b"
    assert_eq!(pl.played_flags(), vec![true, false, false]);
    pl.delete(0);
    assert_eq!(pl.played_flags(), vec![false, false]);
}

#[test]
fn clear_empties_and_invalidates_cursor() {
    let mut pl = queue(&["a", "b"]);
    pl.select(1);
    pl.clear();
    assert_eq!(pl.count(), 0);
    assert!(pl.is_play_index_deleted());
}

#[test]
fn append_after_deleted_cursor_snaps_to_new_track() {
    let mut pl = queue(&["a"]);
    pl.select(0);
    pl.delete(0);
    assert!(pl.is_play_index_deleted());
    pl.append("b".to_string());
    assert_eq!(pl.get_play_index(), 0);
    assert!(pl.is_play_index_deleted());
    // the slot that slid into the cursor's place is the next candidate
    set_mode(&mut pl, RepeatMode::Repeat);
    assert_eq!(pl.poll(), Some("b"));
}

#[test]
fn arrange_moves_track_and_cursor_follows() {
    let mut pl = queue(&["a", "b", "c", "d"]);
    pl.select(1);
    pl.arrange(1, 3);
    assert_eq!(pl.get_songs().as_slice(), ["a", "c", "d", "b"]);
    assert_eq!(pl.get_play_index(), 3);
}

#[test]
fn arrange_around_cursor_compensates() {
    let mut pl = queue(&["a", "b", "c", "d"]);
    pl.select(2);
    // moving an earlier track to the end: the cursor's track slides down
    pl.arrange(0, 3);
    assert_eq!(pl.get_songs().as_slice(), ["b", "c", "d", "a"]);
    assert_eq!(pl.get_play_index(), 1);
    // moving a later track before the cursor: it slides back up
    pl.arrange(3, 0);
    assert_eq!(pl.get_songs().as_slice(), ["a", "b", "c", "d"]);
    assert_eq!(pl.get_play_index(), 2);
}

#[test]
fn arrange_moves_played_flags_in_lockstep() {
    let mut pl = queue(&["a", "b", "c"]);
    set_mode(&mut pl, RepeatMode::Repeat);
    pl.select(0);
    let _ = pl.poll(); // marks "a"
    assert_eq!(pl.played_flags(), vec![true, false, false]);
    pl.arrange(0, 2);
    assert_eq!(pl.get_songs().as_slice(), ["b", "c", "a"]);
    assert_eq!(pl.played_flags(), vec![false, false, true]);
}

#[test]
fn toggle_repeat_mode_cycles_in_order() {
    let mut pl = Playlist::new(4);
    assert_eq!(pl.get_repeat_mode(), RepeatMode::NoRepeat);
    pl.toggle_repeat_mode();
    assert_eq!(pl.get_repeat_mode(), RepeatMode::Repeat);
    pl.toggle_repeat_mode();
    assert_eq!(pl.get_repeat_mode(), RepeatMode::RepeatTrack);
    pl.toggle_repeat_mode();
    assert_eq!(pl.get_repeat_mode(), RepeatMode::Stop);
    pl.toggle_repeat_mode();
    assert_eq!(pl.get_repeat_mode(), RepeatMode::NoRepeat);
}

#[test]
fn repeat_mode_strings() {
    assert_eq!(RepeatMode::NoRepeat.get_string(), "none");
    assert_eq!(RepeatMode::Repeat.get_string(), "all");
    assert_eq!(RepeatMode::RepeatTrack.get_string(), "one");
    assert_eq!(RepeatMode::Stop.get_string(), "stop");
    assert_eq!(RepeatMode::NoRepeat.describe(), "No repeat");
    assert_eq!(RepeatMode::Repeat.describe(), "Repeat all");
    assert_eq!(RepeatMode::RepeatTrack.describe(), "Repeat one only");
    assert_eq!(RepeatMode::Stop.describe(), "Stop after every song");
}

#[test]
fn look_back_returns_previous_track() {
    let mut pl = queue(&["a", "b", "c"]);
    pl.select(0);
    pl.select(1);
    pl.select(2);
    assert_eq!(pl.look_back(), Some("b".to_string()));
    assert_eq!(pl.look_back(), Some("a".to_string()));
    assert_eq!(pl.look_back(), None);
}
