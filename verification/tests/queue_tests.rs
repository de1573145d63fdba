use kuroso_core::queue::PlaybackQueue;
use kuroso_core::state::{RepeatMode, ShuffleMode};
use kuroso_core::types::TrackId;
use std::collections::HashSet;

#[test]
fn test_queue_linear_progression() {
    let mut q = PlaybackQueue::default();
    let tracks = vec![TrackId(1), TrackId(2), TrackId(3)];
    q.load_tracks(tracks, Some(0));

    assert_eq!(q.current_track(), Some(TrackId(1)));
    assert_eq!(q.next(), Some(TrackId(2)));
    assert_eq!(q.next(), Some(TrackId(3)));
    assert_eq!(q.next(), None);
}

#[test]
fn test_up_next_priority() {
    let mut q = PlaybackQueue::default();
    let tracks = vec![TrackId(1), TrackId(2), TrackId(3)];
    q.load_tracks(tracks, Some(0));

    q.play_next(TrackId(99));
    assert_eq!(q.next(), Some(TrackId(99)));
    assert_eq!(q.next(), Some(TrackId(2)));
    assert_eq!(q.next(), Some(TrackId(3)));
}

#[test]
fn test_history_capacity_bound() {
    let mut q = PlaybackQueue::new(2);
    q.load_tracks(vec![TrackId(1), TrackId(2), TrackId(3), TrackId(4)], Some(0));

    q.next();
    q.next();
    q.next();

    assert_eq!(q.history().len(), 2);
    assert_eq!(q.history()[0], TrackId(2));
    assert_eq!(q.history()[1], TrackId(3));
}

#[test]
fn test_reorder_up_next() {
    let mut q = PlaybackQueue::default();
    q.append_to_queue(TrackId(10));
    q.append_to_queue(TrackId(20));
    q.append_to_queue(TrackId(30));

    assert!(q.move_up_next(2, 0));
    assert_eq!(q.up_next()[0], TrackId(30));
    assert_eq!(q.up_next()[1], TrackId(10));
    assert_eq!(q.up_next()[2], TrackId(20));
}

#[test]
fn test_jump_to_index() {
    let mut q = PlaybackQueue::default();
    q.load_tracks(vec![TrackId(1), TrackId(2), TrackId(3), TrackId(4)], Some(0));

    assert_eq!(q.jump_to_playlist_index(2), Some(TrackId(3)));
    assert_eq!(q.current_track(), Some(TrackId(3)));
    assert_eq!(q.next(), Some(TrackId(4)));
}

#[test]
fn test_queue_linear_step_and_boundaries() {
    let mut q = PlaybackQueue::new(10);
    let tracks = vec![TrackId(101), TrackId(102), TrackId(103)];

    q.load_tracks(tracks, Some(0));
    assert_eq!(q.current_track(), Some(TrackId(101)));
    assert_eq!(q.playlist_index(), Some(0));

    assert_eq!(q.next(), Some(TrackId(102)));
    assert_eq!(q.playlist_index(), Some(1));
    assert_eq!(q.next(), Some(TrackId(103)));
    assert_eq!(q.playlist_index(), Some(2));

    assert_eq!(q.next(), None);
    assert_eq!(q.current_track(), None);
    assert_eq!(q.playlist_index(), None);
}

#[test]
fn test_queue_repeat_modes() {
    let mut q = PlaybackQueue::new(10);
    q.load_tracks(vec![TrackId(1), TrackId(2)], Some(0));

    q.set_repeat(RepeatMode::Track);
    assert_eq!(q.current_track(), Some(TrackId(1)));
    assert_eq!(q.next(), Some(TrackId(1)), "Repeat Track must loop current ID indefinitely");
    assert_eq!(q.next(), Some(TrackId(1)));

    q.set_repeat(RepeatMode::Queue);
    assert_eq!(q.next(), Some(TrackId(2)));
    assert_eq!(q.next(), Some(TrackId(1)));
    assert_eq!(q.playlist_index(), Some(0));
}

#[test]
fn test_queue_up_next_interleaving_and_reordering() {
    let mut q = PlaybackQueue::new(10);
    q.load_tracks(vec![TrackId(1), TrackId(2), TrackId(3)], Some(0));

    q.append_to_queue(TrackId(99));
    q.play_next(TrackId(88));

    assert_eq!(q.up_next().len(), 2);
    assert_eq!(q.up_next()[0], TrackId(88));
    assert_eq!(q.up_next()[1], TrackId(99));

    assert_eq!(q.next(), Some(TrackId(88)));
    assert_eq!(q.next(), Some(TrackId(99)));

    assert_eq!(q.next(), Some(TrackId(2)));
    assert_eq!(q.next(), Some(TrackId(3)));
}

#[test]
fn test_queue_history_navigation_and_truncation() {
    let mut q = PlaybackQueue::new(2);
    q.load_tracks(vec![TrackId(1), TrackId(2), TrackId(3), TrackId(4)], Some(0));

    q.next();
    q.next();
    q.next();

    assert_eq!(q.history().len(), 2);
    assert_eq!(q.history()[0], TrackId(2));
    assert_eq!(q.history()[1], TrackId(3));

    let prev = q.previous();
    assert_eq!(prev, Some(TrackId(3)));
    assert_eq!(q.current_track(), Some(TrackId(3)));

    let prev2 = q.previous();
    assert_eq!(prev2, Some(TrackId(2)));
    assert_eq!(q.current_track(), Some(TrackId(2)));
}

#[test]
fn test_queue_shuffle_uniformity_and_jump() {
    let mut q = PlaybackQueue::new(10);
    let ids: Vec<TrackId> = (1..=20).map(TrackId).collect();

    q.set_repeat(RepeatMode::Off);
    q.set_shuffle(ShuffleMode::Tracks);
    q.load_tracks(ids, None);

    let mut visited = HashSet::new();
    while let Some(t) = q.next() {
        assert!(visited.insert(t), "Shuffle produced duplicate track within single cycle: {:?}", t);
    }

    assert_eq!(visited.len(), 20, "Shuffle must visit all 20 unique tracks exactly once");

    let jumped = q.jump_to_playlist_index(5);
    assert_eq!(jumped, Some(TrackId(6)));
    assert_eq!(q.current_track(), Some(TrackId(6)));
}

#[test]
fn queue_previous_without_history_keeps_current() {
    let mut q = PlaybackQueue::new(5);
    q.load_tracks(vec![TrackId(7), TrackId(8)], Some(1));
    assert_eq!(q.previous(), Some(TrackId(8)));
    assert_eq!(q.current_track(), Some(TrackId(8)));
}

#[test]
fn queue_previous_returns_to_the_track_that_was_left() {
    let mut q = PlaybackQueue::new(5);
    q.load_tracks(vec![TrackId(1), TrackId(2), TrackId(3)], Some(0));
    assert_eq!(q.next(), Some(TrackId(2)));
    assert_eq!(q.previous(), Some(TrackId(1)));
    assert_eq!(q.current_track(), Some(TrackId(1)));
    assert_eq!(q.history().len(), 0);
}

#[test]
fn queue_play_next_then_next_plays_it() {
    let mut q = PlaybackQueue::new(5);
    q.load_tracks(vec![TrackId(1), TrackId(2)], Some(0));
    q.append_to_queue(TrackId(50));
    q.play_next(TrackId(40));
    assert_eq!(q.next(), Some(TrackId(40)));
    assert_eq!(q.up_next().len(), 1);
    assert_eq!(q.up_next()[0], TrackId(50));
}

#[test]
fn queue_repeat_queue_wraps_to_the_first_track() {
    let mut q = PlaybackQueue::new(5);
    q.load_tracks(vec![TrackId(1), TrackId(2), TrackId(3)], Some(2));
    q.set_repeat(RepeatMode::Queue);
    assert_eq!(q.next(), Some(TrackId(1)));
    assert_eq!(q.playlist_index(), Some(0));
}

#[test]
fn queue_load_without_start_has_no_current_track() {
    let mut q = PlaybackQueue::new(5);
    q.load_tracks(vec![TrackId(1), TrackId(2)], None);
    assert_eq!(q.current_track(), None);
    assert_eq!(q.playlist_index(), None);
    assert_eq!(q.next(), Some(TrackId(1)));
}

#[test]
fn queue_load_with_out_of_range_start() {
    let mut q = PlaybackQueue::new(5);
    q.load_tracks(vec![TrackId(1), TrackId(2)], Some(9));
    assert_eq!(q.current_track(), None);
    assert_eq!(q.playlist().len(), 2);
}

#[test]
fn queue_move_up_next_rejects_bad_indices() {
    let mut q = PlaybackQueue::new(5);
    q.append_to_queue(TrackId(1));
    q.append_to_queue(TrackId(2));
    assert!(!q.move_up_next(2, 0));
    assert!(!q.move_up_next(0, 2));
    assert_eq!(q.up_next()[0], TrackId(1));
    assert_eq!(q.up_next()[1], TrackId(2));
}

#[test]
fn queue_move_playlist_track_keeps_current_track() {
    let mut q = PlaybackQueue::new(5);
    q.load_tracks(vec![TrackId(1), TrackId(2), TrackId(3), TrackId(4)], Some(1));
    assert!(q.move_playlist_track(1, 3));
    assert_eq!(q.playlist(), &[TrackId(1), TrackId(3), TrackId(4), TrackId(2)][..]);
    assert_eq!(q.playlist_index(), Some(3));
    assert_eq!(q.current_track(), Some(TrackId(2)));

    assert!(q.move_playlist_track(0, 3));
    assert_eq!(q.playlist(), &[TrackId(3), TrackId(4), TrackId(2), TrackId(1)][..]);
    assert_eq!(q.playlist_index(), Some(2));
    assert_eq!(q.current_track(), Some(TrackId(2)));
    assert!(!q.move_playlist_track(4, 0));
}

#[test]
fn queue_remove_from_playlist_adjusts_the_index() {
    let mut q = PlaybackQueue::new(5);
    q.load_tracks(vec![TrackId(1), TrackId(2), TrackId(3)], Some(2));
    assert_eq!(q.remove_from_playlist(0), Some(TrackId(1)));
    assert_eq!(q.playlist_index(), Some(1));
    assert_eq!(q.current_track(), Some(TrackId(3)));
    assert_eq!(q.remove_from_playlist(5), None);
    assert_eq!(q.playlist().len(), 2);
}

#[test]
fn queue_remove_current_track_from_playlist() {
    let mut q = PlaybackQueue::new(5);
    q.load_tracks(vec![TrackId(1), TrackId(2), TrackId(3)], Some(1));
    assert_eq!(q.remove_from_playlist(1), Some(TrackId(2)));
    assert_eq!(q.playlist(), &[TrackId(1), TrackId(3)][..]);
}

#[test]
fn queue_remove_from_up_next() {
    let mut q = PlaybackQueue::new(5);
    q.append_to_queue(TrackId(5));
    q.append_to_queue(TrackId(6));
    assert_eq!(q.remove_from_up_next(0), Some(TrackId(5)));
    assert_eq!(q.remove_from_up_next(3), None);
    assert_eq!(q.up_next().len(), 1);
    assert_eq!(q.up_next()[0], TrackId(6));
}

#[test]
fn queue_clear_operations() {
    let mut q = PlaybackQueue::new(5);
    q.load_tracks(vec![TrackId(1), TrackId(2), TrackId(3)], Some(0));
    q.next();
    q.append_to_queue(TrackId(9));
    q.clear_up_next();
    assert_eq!(q.up_next().len(), 0);
    q.clear_history();
    assert_eq!(q.history().len(), 0);
    assert_eq!(q.current_track(), Some(TrackId(2)));
    q.clear_all();
    assert_eq!(q.playlist().len(), 0);
    assert_eq!(q.current_track(), None);
    assert_eq!(q.playlist_index(), None);
}

#[test]
fn queue_set_history_limit_drops_the_oldest() {
    let mut q = PlaybackQueue::new(10);
    q.load_tracks(vec![TrackId(1), TrackId(2), TrackId(3), TrackId(4)], Some(0));
    q.next();
    q.next();
    q.next();
    assert_eq!(q.history().len(), 3);
    q.set_history_limit(1);
    assert_eq!(q.history().len(), 1);
    assert_eq!(q.history()[0], TrackId(3));
}

#[test]
fn queue_history_limit_zero_keeps_nothing() {
    let mut q = PlaybackQueue::new(0);
    q.load_tracks(vec![TrackId(1), TrackId(2)], Some(0));
    q.next();
    assert_eq!(q.history().len(), 0);
}

#[test]
fn queue_append_playlist_tracks_extends_the_playlist() {
    let mut q = PlaybackQueue::new(5);
    q.load_tracks(vec![TrackId(1)], Some(0));
    q.append_playlist_tracks(vec![TrackId(2), TrackId(3)]);
    assert_eq!(q.playlist(), &[TrackId(1), TrackId(2), TrackId(3)][..]);
    assert_eq!(q.next(), Some(TrackId(2)));
}

#[test]
fn queue_shuffle_off_restores_playlist_order() {
    let mut q = PlaybackQueue::new(5);
    q.load_tracks(vec![TrackId(1), TrackId(2), TrackId(3), TrackId(4)], Some(1));
    q.set_shuffle(ShuffleMode::Tracks);
    assert_eq!(q.current_track(), Some(TrackId(2)));
    q.set_shuffle(ShuffleMode::Off);
    assert_eq!(q.current_track(), Some(TrackId(2)));
    assert_eq!(q.next(), Some(TrackId(3)));
}

#[test]
fn queue_shuffle_cycle_visits_each_track_once() {
    let mut q = PlaybackQueue::new(50);
    let ids: Vec<TrackId> = (1..=8).map(TrackId).collect();
    q.set_shuffle(ShuffleMode::Tracks);
    q.load_tracks(ids, None);
    let mut seen = HashSet::new();
    for _ in 0..8 {
        let t = q.next().expect("a shuffled cycle has a track at each step");
        assert!(seen.insert(t));
    }
    assert_eq!(seen.len(), 8);
}

#[test]
fn queue_jump_out_of_range_changes_nothing() {
    let mut q = PlaybackQueue::new(5);
    q.load_tracks(vec![TrackId(1), TrackId(2)], Some(0));
    assert_eq!(q.jump_to_playlist_index(2), None);
    assert_eq!(q.current_track(), Some(TrackId(1)));
}
