use music_player::{BooleanConditional, PlayerState, Playlist, RepeatMode, Song};

fn queue(tracks: &[&str]) -> Playlist {
    let mut pl = Playlist::new(16);
    for t in tracks {
        pl.append(t.to_string());
    }
    pl
}

fn set_mode(pl: &mut Playlist, mode: RepeatMode) {
    while pl.get_repeat_mode() != mode {
        pl.toggle_repeat_mode();
    }
}

#[test]
fn poll_on_empty_queue_is_none_in_every_mode() {
    for mode in [
        RepeatMode::NoRepeat,
        RepeatMode::Repeat,
        RepeatMode::RepeatTrack,
        RepeatMode::Stop,
    ] {
        let mut pl = Playlist::new(4);
        set_mode(&mut pl, mode);
        assert_eq!(pl.poll(), None);
        let mut shuffled = Playlist::new(4);
        set_mode(&mut shuffled, mode);
        shuffled.shuffle = true;
        assert_eq!(shuffled.poll(), None);
    }
}

#[test]
fn stop_mode_never_advances() {
    let mut pl = queue(&["a", "b"]);
    set_mode(&mut pl, RepeatMode::Stop);
    pl.select(0);
    assert_eq!(pl.poll(), None);
    assert_eq!(pl.poll(), None);
    assert_eq!(pl.count(), 2);
    assert_eq!(pl.get_play_index(), 0);
}

#[test]
fn sequential_repeat_all_wraps_and_clears_flags() {
    let mut pl = queue(&["a", "b", "c"]);
    set_mode(&mut pl, RepeatMode::Repeat);
    pl.select(0);
    assert_eq!(pl.poll(), Some("b"));
    assert_eq!(pl.get_play_index(), 1);
    assert_eq!(pl.played_flags(), vec![true, false, false]);
    assert_eq!(pl.poll(), Some("c"));
    assert_eq!(pl.get_play_index(), 2);
    assert_eq!(pl.played_flags(), vec![true, true, false]);
    assert_eq!(pl.poll(), Some("a"));
    assert_eq!(pl.get_play_index(), 0);
    // the wrap starts a fresh cycle: flags were cleared before selecting
    assert_eq!(pl.played_flags(), vec![false, false, false]);
}

#[test]
fn sequential_no_repeat_stops_at_end() {
    let mut pl = queue(&["a", "b"]);
    pl.select(0);
    assert_eq!(pl.poll(), Some("b"));
    assert_eq!(pl.poll(), None);
    assert_eq!(pl.played_flags(), vec![false, false]);
    assert_eq!(pl.count(), 2);
}

#[test]
fn single_track_repeat_all_selects_it_forever() {
    let mut pl = queue(&["only"]);
    set_mode(&mut pl, RepeatMode::Repeat);
    pl.select(0);
    for _ in 0..5 {
        assert_eq!(pl.poll(), Some("only"));
        assert_eq!(pl.get_play_index(), 0);
    }
}

#[test]
fn repeat_track_replays_current_and_ignores_queue() {
    let mut pl = queue(&["a", "b", "c"]);
    set_mode(&mut pl, RepeatMode::RepeatTrack);
    pl.select(1);
    assert_eq!(pl.poll(), Some("b"));
    assert_eq!(pl.poll(), Some("b"));
    assert_eq!(pl.get_play_index(), 1);
    assert_eq!(pl.count(), 3);
    assert_eq!(pl.get_songs().as_slice(), ["a", "b", "c"]);
    assert_eq!(pl.played_flags(), vec![false, false, false]);
}

#[test]
fn poll_after_deleted_cursor_takes_slot_that_slid_in() {
    let mut pl = queue(&["a", "b", "c"]);
    pl.select(1);
    pl.delete(1);
    assert_eq!(pl.poll(), Some("c"));
    assert_eq!(pl.get_play_index(), 1);
    assert!(!pl.is_play_index_deleted());
}

#[test]
fn poll_while_looked_back_steps_forward_through_history() {
    let mut pl = queue(&["a", "b", "c"]);
    set_mode(&mut pl, RepeatMode::Repeat);
    pl.select(0);
    pl.select(1);
    pl.select(2);
    assert_eq!(pl.look_back(), Some("b".to_string()));
    assert_eq!(pl.look_back(), Some("a".to_string()));
    // "next" while browsing history means stepping forward through it
    assert_eq!(pl.poll(), Some("b"));
    assert_eq!(pl.poll(), Some("c"));
    // back at the latest entry the queue supplies the next track again
    assert_eq!(pl.poll(), Some("a"));
}

#[test]
fn shuffle_visits_every_track_once_per_cycle() {
    let mut pl = Playlist::new(16);
    pl.clear();
    for t in ["a", "b", "c", "d", "e"] {
        pl.append(t.to_string());
    }
    set_mode(&mut pl, RepeatMode::Repeat);
    pl.shuffle = true;
    let mut seen: Vec<String> = Vec::new();
    for _ in 0..5 {
        let track = pl.poll().expect("shuffle poll must select a track").to_string();
        assert!(!seen.contains(&track), "track repeated within one cycle");
        seen.push(track);
    }
    let mut sorted = seen.clone();
    sorted.sort();
    assert_eq!(sorted, vec!["a", "b", "c", "d", "e"]);
    // the next call starts a new cycle and may repeat any track
    assert!(pl.poll().is_some());
}

#[test]
fn shuffle_no_repeat_stops_after_one_cycle() {
    let mut pl = Playlist::new(16);
    pl.clear();
    for t in ["a", "b", "c"] {
        pl.append(t.to_string());
    }
    pl.shuffle = true;
    for _ in 0..3 {
        assert!(pl.poll().is_some());
    }
    assert_eq!(pl.poll(), None);
    assert_eq!(pl.played_flags(), vec![false, false, false]);
}

#[test]
fn restore_round_trip_preserves_behaviour() {
    let mut pl = queue(&["a", "b", "c"]);
    set_mode(&mut pl, RepeatMode::Repeat);
    pl.select(0);
    let _ = pl.poll();
    let songs = pl.get_songs().clone();
    let played = pl.played_flags();
    let history_items: Vec<String> = (0..pl.get_history().len())
        .map(|i| pl.get_history().get(i).unwrap().clone())
        .collect();
    let history = music_player::History::from_parts(
        history_items,
        pl.get_history().lookback_depth(),
        16,
    );
    let mut restored = Playlist::restore(
        songs,
        played,
        pl.get_play_index(),
        pl.is_play_index_deleted(),
        pl.get_repeat_mode(),
        pl.shuffle,
        history,
    );
    assert_eq!(restored.count(), 3);
    assert_eq!(restored.get_play_index(), 1);
    assert_eq!(restored.played_flags(), vec![true, false, false]);
    assert_eq!(restored.poll(), Some("c"));
}

#[test]
fn player_state_transitions() {
    assert_eq!(PlayerState::Play.update_state(false), PlayerState::Finished);
    assert_eq!(PlayerState::Pause.update_state(false), PlayerState::Finished);
    assert_eq!(PlayerState::Play.update_state(true), PlayerState::Play);
    assert_eq!(PlayerState::Idle.update_state(false), PlayerState::Idle);
    assert_eq!(PlayerState::Finished.idle(), PlayerState::Idle);
    assert_eq!(PlayerState::Play.idle(), PlayerState::Play);
    assert_eq!(PlayerState::Play.stop(), PlayerState::Idle);
    assert_eq!(PlayerState::Finished.stop(), PlayerState::Finished);
    assert_eq!(PlayerState::Play.skip(), PlayerState::Finished);
    assert_eq!(PlayerState::Idle.skip(), PlayerState::Idle);
    assert_eq!(PlayerState::Play.pause(), PlayerState::Pause);
    assert_eq!(PlayerState::Pause.pause(), PlayerState::Pause);
    assert_eq!(PlayerState::Pause.resume(), PlayerState::Play);
    assert_eq!(PlayerState::Idle.resume(), PlayerState::Idle);
}

#[test]
fn song_carries_its_fields() {
    let song = Song::new(
        "x.mp3".to_string(),
        Some("Title".to_string()),
        None,
        vec!["One".to_string(), "Two".to_string()],
        None,
    );
    assert_eq!(song.path, "x.mp3");
    assert_eq!(song.title, Some("Title".to_string()));
    assert_eq!(song.album, None);
    assert_eq!(song.artists, vec!["One", "Two"]);
    assert_eq!(song.lyrics, None);
}

#[test]
fn boolean_conditional_runs_matching_branch() {
    let mut hits = 0;
    assert!(true.ifdo(|| hits += 1));
    assert!(!false.ifdo(|| hits += 10));
    assert!(!false.elsedo(|| hits += 100));
    assert!(true.elsedo(|| hits += 1000));
    assert_eq!(hits, 101);
}
