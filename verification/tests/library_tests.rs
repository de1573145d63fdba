use kuroso_core::database::{DatabaseState, LibraryDatabase};
use kuroso_core::queries::{resolve_track_view, LibraryQueries};
use kuroso_core::queue::PlaybackQueue;
use kuroso_core::types::{Album, AlbumId, Artist, ArtistId, AudioFormat, TrackId};

fn gain(v: f32) -> Option<u32> {
    Some(v.to_bits())
}

fn create_populated_audio_db() -> (LibraryDatabase, [TrackId; 4]) {
    let mut db = LibraryDatabase::new();

    let t1 = db.insert_track(
        "/music/camellia/crystallized/01_crystallized.opus".to_string(),
        1700000000, 15_000_000, "Crystallized", "Camellia", None,
        Some("Crystallized"), 284_000, Some(1), Some(1), Some(2015),
        AudioFormat::Opus, Some(48_000), Some(160_000), Some(16), Some(2),
        gain(-6.0), gain(0.95), gain(-5.5), gain(0.98),
    );
    let t2 = db.insert_track(
        "/music/camellia/crystallized/02_first_town.opus".to_string(),
        1700000001, 12_000_000, "First Town", "Camellia", None,
        Some("Crystallized"), 210_000, Some(2), Some(1), Some(2015),
        AudioFormat::Opus, Some(48_000), Some(160_000), Some(16), Some(2),
        gain(-6.2), gain(0.94), gain(-5.5), gain(0.98),
    );
    let t3 = db.insert_track(
        "/music/camellia/singles/spin_eternally.opus".to_string(),
        1700000002, 18_000_000, "Spin Eternally", "Camellia", None,
        None, 290_000, None, None, Some(2021),
        AudioFormat::Opus, Some(48_000), Some(192_000), Some(16), Some(2),
        gain(-7.0), gain(0.99), None, None,
    );
    let t4 = db.insert_track(
        "/music/taku_inoue/aliens.flac".to_string(),
        1700000003, 35_000_000, "Aliens", "Taku Inoue", None,
        None, 245_000, None, None, Some(2022),
        AudioFormat::Flac, Some(96_000), Some(900_000), Some(24), Some(2),
        gain(-5.0), gain(0.92), None, None,
    );
    (db, [t1, t2, t3, t4])
}

fn insert_simple(
    db: &mut LibraryDatabase,
    path: &str,
    mtime: u64,
    file_size: u64,
    title: &str,
    artist: &str,
    album: Option<&str>,
    duration_ms: u32,
    track_number: Option<u16>,
    disc_number: Option<u8>,
    year: Option<u16>,
    format: AudioFormat,
    sample_rate: Option<u32>,
    bitrate: Option<u32>,
) -> TrackId {
    db.insert_track(
        path.to_string(), mtime, file_size, title, artist, None, album, duration_ms,
        track_number, disc_number, year, format, sample_rate, bitrate,
        None, None, None, None, None, None,
    )
}

#[test]
fn test_database_clear_resets_state() {
    let mut db = LibraryDatabase::new();
    db.insert_track(
        "/music/s.opus".to_string(),
        100, 100, "Song", "Artist", None, None, 1000, None, None, None,
        AudioFormat::Opus, None, None, None, None, None, None, None, None,
    );
    assert_eq!(db.track_count(), 1);

    db.clear();
    assert_eq!(db.track_count(), 0);
    assert_eq!(db.album_count(), 0);
    assert_eq!(db.artist_count(), 0);
}

#[test]
fn test_scoped_pruning_protects_unmounted_removable_drives() {
    let mut db = LibraryDatabase::new();
    let internal_path = "/music/internal/track1.opus";
    let usb_path = "/mnt/usb_drive/track2.opus";

    db.insert_track(
        internal_path.to_string(), 100, 1000, "Internal Track", "Artist", None, None,
        180_000, None, None, None, AudioFormat::Opus,
        None, None, None, None, None, None, None, None,
    );
    db.insert_track(
        usb_path.to_string(), 100, 1000, "USB Track", "Artist", None, None,
        180_000, None, None, None, AudioFormat::Opus,
        None, None, None, None, None, None, None, None,
    );
    assert_eq!(db.track_count(), 2);

    // Of the two scan roots, only the temporary directory is present on disk; the
    // unmounted drive "/mnt/definitely_not_mounted_usb_drive_kuroso" is left out of the
    // accessible roots, as the caller does after checking which roots exist.
    let accessible_roots = vec!["/tmp".to_string()];
    let live_paths: Vec<String> = Vec::new();

    let pruned = db.prune_missing_files_scoped(&accessible_roots, &live_paths);

    assert_eq!(pruned, 0);
    assert_eq!(db.track_count(), 2);
    assert!(db.get_track_by_path(usb_path).is_some());
}

#[test]
fn scoped_pruning_removes_missing_files_under_an_accessible_root() {
    let mut db = LibraryDatabase::new();
    insert_simple(&mut db, "/music/internal/a.opus", 1, 1, "A", "X", None, 1, None, None, None, AudioFormat::Opus, None, None);
    insert_simple(&mut db, "/music/internal/b.opus", 1, 1, "B", "X", None, 1, None, None, None, AudioFormat::Opus, None, None);
    insert_simple(&mut db, "/mnt/usb/c.opus", 1, 1, "C", "Y", None, 1, None, None, None, AudioFormat::Opus, None, None);

    let roots = vec!["/music/internal".to_string()];
    let live = vec!["/music/internal/b.opus".to_string()];
    let pruned = db.prune_missing_files_scoped(&roots, &live);
    assert_eq!(pruned, 1);
    assert!(db.get_track_by_path("/music/internal/a.opus").is_none());
    assert!(db.get_track_by_path("/music/internal/b.opus").is_some());
    assert!(db.get_track_by_path("/mnt/usb/c.opus").is_some());
    assert_eq!(db.artist_count(), 2);
}

#[test]
fn scoped_pruning_compares_whole_path_components() {
    let mut db = LibraryDatabase::new();
    insert_simple(&mut db, "/music2/a.opus", 1, 1, "A", "X", None, 1, None, None, None, AudioFormat::Opus, None, None);
    let roots = vec!["/music".to_string()];
    let live: Vec<String> = Vec::new();
    assert_eq!(db.prune_missing_files_scoped(&roots, &live), 0);
    assert_eq!(db.track_count(), 1);
}

#[test]
fn unscoped_pruning_removes_every_missing_file() {
    let (mut db, [t1, _, _, _]) = create_populated_audio_db();
    let live = vec!["/music/camellia/crystallized/01_crystallized.opus".to_string()];
    assert_eq!(db.prune_missing_files(&live), 3);
    assert_eq!(db.track_count(), 1);
    assert_eq!(db.album_count(), 1);
    assert_eq!(db.artist_count(), 1);
    assert_eq!(db.get_track(t1).unwrap().title, "Crystallized");
}

#[test]
fn test_queries_album_ordering() {
    let mut db = LibraryDatabase::new();
    insert_simple(
        &mut db, "/music/t2.opus", 100, 1000, "Track Two", "Artist", Some("Album"), 200000,
        Some(2), Some(1), Some(2024), AudioFormat::Opus, Some(48000), Some(128000),
    );
    insert_simple(
        &mut db, "/music/t1.opus", 100, 1000, "Track One", "Artist", Some("Album"), 180000,
        Some(1), Some(1), Some(2024), AudioFormat::Opus, Some(48000), Some(128000),
    );

    let queries = LibraryQueries::new(&db);
    let album_data = queries.get_album_with_tracks(AlbumId(1)).unwrap();

    assert_eq!(album_data.tracks.len(), 2);
    assert_eq!(album_data.tracks[0].track_number, Some(1));
    assert_eq!(album_data.tracks[1].track_number, Some(2));
}

#[test]
fn test_queries_search() {
    let mut db = LibraryDatabase::new();
    insert_simple(
        &mut db, "/music/a.opus", 100, 1000, "Solar Flare", "Artist", None, 150000,
        None, None, None, AudioFormat::Opus, None, None,
    );

    let queries = LibraryQueries::new(&db);
    let results = queries.search_tracks("solar");
    assert_eq!(results.len(), 1);
    assert_eq!(results[0].title.as_str(), "Solar Flare");
}

#[test]
fn search_ignores_case_and_keeps_identifier_order() {
    let mut db = LibraryDatabase::new();
    insert_simple(&mut db, "/m/1.opus", 1, 1, "Zebra Song", "A", None, 1, None, None, None, AudioFormat::Opus, None, None);
    insert_simple(&mut db, "/m/2.opus", 1, 1, "another SONG", "A", None, 1, None, None, None, AudioFormat::Opus, None, None);
    insert_simple(&mut db, "/m/3.opus", 1, 1, "Quiet", "A", None, 1, None, None, None, AudioFormat::Opus, None, None);

    let queries = LibraryQueries::new(&db);
    let results = queries.search_tracks("SONG");
    assert_eq!(results.len(), 2);
    assert_eq!(results[0].title, "Zebra Song");
    assert_eq!(results[1].title, "another SONG");
    assert_eq!(queries.search_tracks("nothing").len(), 0);
}

#[test]
fn unknown_album_and_artist_queries_give_nothing() {
    let db = LibraryDatabase::new();
    let queries = LibraryQueries::new(&db);
    assert!(queries.get_album_with_tracks(AlbumId(3)).is_none());
    assert!(queries.get_artist_with_albums(ArtistId(3)).is_none());
}

#[test]
fn test_full_library_lifecycle() {
    let mut db = LibraryDatabase::new();

    let p1 = "/music/camellia/crystallized/01_crystallized.opus";
    let p2 = "/music/camellia/crystallized/02_first_town.opus";
    let p3 = "/music/camellia/singles/spin_eternally.opus";
    let p4 = "/music/taku_inouse/aliens.flac";

    let t1 = insert_simple(
        &mut db, p1, 1700000000, 15_000_000, "Crystallized", "Camellia", Some("Crystallized"),
        284_000, Some(1), Some(1), Some(2015), AudioFormat::Opus, Some(48_000), Some(160_000),
    );
    let t2 = insert_simple(
        &mut db, p2, 1700000001, 12_000_000, "First Town", "Camellia", Some("Crystallized"),
        210_000, Some(2), Some(1), Some(2015), AudioFormat::Opus, Some(48_000), Some(160_000),
    );
    let t3 = insert_simple(
        &mut db, p3, 1700000002, 18_000_000, "Spin Eternally", "Camellia", None,
        290_000, None, None, Some(2021), AudioFormat::Opus, Some(48_000), Some(192_000),
    );
    let t4 = insert_simple(
        &mut db, p4, 1700000003, 35_000_000, "Aliens", "Taku Inoue", None,
        245_000, None, None, Some(2022), AudioFormat::Flac, Some(96_000), Some(900_000),
    );

    assert_eq!(db.track_count(), 4);
    assert_eq!(db.album_count(), 1);
    assert_eq!(db.artist_count(), 2);

    {
        let queries = LibraryQueries::new(&db);

        let camellia_artist_id = db.get_track(t1).unwrap().artist_id;
        let camellia_tree = queries
            .get_artist_with_albums(camellia_artist_id)
            .expect("Artist Camellia must exist");

        assert_eq!(camellia_tree.artist.name.as_str(), "Camellia");
        assert_eq!(camellia_tree.albums.len(), 1);
        assert_eq!(camellia_tree.standalone_tracks.len(), 1);
        assert_eq!(camellia_tree.standalone_tracks[0].id, t3);

        let crystallized_album = &camellia_tree.albums[0];
        assert_eq!(crystallized_album.album.title.as_str(), "Crystallized");
        assert_eq!(crystallized_album.tracks.len(), 2);
        assert_eq!(crystallized_album.tracks[0].id, t1);
        assert_eq!(crystallized_album.tracks[1].id, t2);

        let search_res = queries.search_tracks("spin");
        assert_eq!(search_res.len(), 1);
        assert_eq!(search_res[0].id, t3);
    }

    let resolved_track = db.get_track_by_path(p4).expect("Lookup by path failed");
    assert_eq!(resolved_track.id, t4);

    let removed = db.remove_track_by_path(p4);
    assert_eq!(removed, Some(t4));
    assert_eq!(db.track_count(), 3);
    assert_eq!(db.artist_count(), 1);
    assert!(db.get_track_by_path(p4).is_none());

    db.remove_track_by_path(p1);
    db.remove_track_by_path(p2);

    assert_eq!(db.album_count(), 0);
    assert_eq!(db.artist_count(), 1);

    db.remove_track_by_path(p3);

    assert_eq!(db.track_count(), 0);
    assert_eq!(db.album_count(), 0);
    assert_eq!(db.artist_count(), 0);
}

#[test]
fn test_queue_database_sanitization() {
    let (mut db, [t1, t2, t3, _]) = create_populated_audio_db();
    let mut q = PlaybackQueue::new(10);
    q.load_tracks(vec![t1, t2, t3], Some(0));

    db.remove_track_by_path("/music/camellia/crystallized/02_first_town.opus");

    q.sanitize(&db);

    assert_eq!(q.playlist().len(), 2);
    assert_eq!(q.playlist()[0], t1);
    assert_eq!(q.playlist()[1], t3);
    assert_eq!(q.current_track(), Some(t1));
}

#[test]
fn sanitize_drops_a_removed_current_track() {
    let (mut db, [t1, t2, t3, _]) = create_populated_audio_db();
    let mut q = PlaybackQueue::new(10);
    q.load_tracks(vec![t1, t2, t3], Some(1));
    q.append_to_queue(t2);
    q.append_to_queue(t1);
    db.remove_track_by_path("/music/camellia/crystallized/02_first_town.opus");
    q.sanitize(&db);
    assert_eq!(q.current_track(), None);
    assert_eq!(q.playlist_index(), None);
    assert_eq!(q.up_next().len(), 1);
    assert_eq!(q.up_next()[0], t1);
}

#[test]
fn inserting_a_known_path_returns_the_existing_track() {
    let mut db = LibraryDatabase::new();
    let a = insert_simple(&mut db, "/m/x.opus", 1, 2, "One", "A", None, 5, None, None, None, AudioFormat::Opus, None, None);
    let b = insert_simple(&mut db, "/m/x.opus", 9, 9, "Two", "B", None, 5, None, None, None, AudioFormat::Opus, None, None);
    assert_eq!(a, b);
    assert_eq!(db.track_count(), 1);
    assert_eq!(db.artist_count(), 1);
    assert_eq!(db.get_track(a).unwrap().title, "One");
}

#[test]
fn artists_and_albums_are_found_again_by_name() {
    let mut db = LibraryDatabase::new();
    let a = db.resolve_or_create_artist("Camellia");
    let b = db.resolve_or_create_artist("Camellia");
    assert_eq!(a, b);
    assert_eq!(db.artist_count(), 1);
    let c = db.resolve_or_create_artist("Other");
    assert!(a != c);

    let x = db.resolve_or_create_album(a, "Crystallized", Some(2015), false);
    let y = db.resolve_or_create_album(a, "Crystallized", None, false);
    assert_eq!(x, y);
    assert_eq!(db.album_count(), 1);
    let z = db.resolve_or_create_album(c, "Crystallized", None, false);
    assert!(x != z);
    assert_eq!(db.get_album(x).unwrap().year, Some(2015));
}

#[test]
fn album_artist_owns_the_album_and_various_artists_is_a_compilation() {
    let mut db = LibraryDatabase::new();
    let t = db.insert_track(
        "/m/c1.flac".to_string(), 1, 1, "Song", "Performer", Some("Various Artists"),
        Some("Hits"), 1000, Some(1), None, None, AudioFormat::Flac, None, None,
        None, None, None, None, None, None,
    );
    let track = db.get_track(t).unwrap();
    let album = db.get_album(track.album_id.unwrap()).unwrap();
    assert!(album.is_compilation);
    assert_eq!(Some(album.artist_id), track.album_artist_id);
    assert!(album.artist_id != track.artist_id);
    assert_eq!(db.artist_count(), 2);
}

#[test]
fn should_rescan_detects_changes() {
    let mut db = LibraryDatabase::new();
    insert_simple(&mut db, "/m/r.opus", 10, 20, "R", "A", None, 5, None, None, None, AudioFormat::Opus, None, None);
    assert!(!db.should_rescan("/m/r.opus", 10, 20));
    assert!(db.should_rescan("/m/r.opus", 11, 20));
    assert!(db.should_rescan("/m/r.opus", 10, 21));
    assert!(db.should_rescan("/m/unknown.opus", 10, 20));
}

#[test]
fn update_track_metadata_moves_the_track_to_its_new_album() {
    let mut db = LibraryDatabase::new();
    let t = insert_simple(&mut db, "/m/u.opus", 1, 1, "Old", "A", Some("First"), 5, Some(1), None, None, AudioFormat::Opus, None, None);
    let updated = db.update_track_metadata(
        "/m/u.opus", 2, 3, "New", "B", None, Some("Second"), 6, Some(2), None, Some(2020),
        None, None, None, None, None, None, None, None,
    );
    assert_eq!(updated, Some(t));
    let track = db.get_track(t).unwrap();
    assert_eq!(track.title, "New");
    assert_eq!(track.mtime, 2);
    assert_eq!(track.file_size, 3);
    assert_eq!(track.track_number, Some(2));
    let album = db.get_album(track.album_id.unwrap()).unwrap();
    assert_eq!(album.title, "Second");
    assert_eq!(db.album_count(), 1);
    assert_eq!(db.artist_count(), 1);
    assert_eq!(db.get_artist(track.artist_id).unwrap().name, "B");
    assert_eq!(
        db.update_track_metadata(
            "/m/none.opus", 2, 3, "New", "B", None, None, 6, None, None, None,
            None, None, None, None, None, None, None, None,
        ),
        None
    );
}

#[test]
fn identifiers_count_up_from_one() {
    let mut db = LibraryDatabase::new();
    assert_eq!(db.next_track_id(), TrackId(1));
    assert_eq!(db.next_track_id(), TrackId(2));
    assert_eq!(db.next_album_id(), AlbumId(1));
    assert_eq!(db.next_artist_id(), ArtistId(1));
}

#[test]
fn state_round_trip_keeps_the_library() {
    let (db, [t1, _, _, t4]) = create_populated_audio_db();
    let s = db.state();
    let mut state = DatabaseState::new();
    state.tracks = s.tracks.clone();
    state.albums = s.albums.clone();
    state.artists = s.artists.clone();
    for i in 0..s.path_to_track.len() {
        state.path_to_track.insert(s.path_to_track.key_at(i).clone(), s.path_to_track.value_at(i));
    }
    for i in 0..s.artist_name_to_id.len() {
        state.artist_name_to_id.insert(s.artist_name_to_id.key_at(i).clone(), s.artist_name_to_id.value_at(i));
    }
    for i in 0..s.album_lookup_to_id.len() {
        state.album_lookup_to_id.insert(s.album_lookup_to_id.key_at(i).clone(), s.album_lookup_to_id.value_at(i));
    }
    let mut again = LibraryDatabase::from_state(state);
    assert_eq!(again.track_count(), 4);
    assert_eq!(again.album_count(), 1);
    assert_eq!(again.artist_count(), 2);
    assert_eq!(again.get_track(t1).unwrap().track_gain_db, Some((-6.0f32).to_bits()));
    assert_eq!(again.get_track_by_path("/music/taku_inoue/aliens.flac").unwrap().id, t4);
    assert_eq!(again.next_track_id(), TrackId(5));
}

#[test]
fn resolve_track_view_names_artist_and_album() {
    let (db, [t1, _, t3, _]) = create_populated_audio_db();
    let v = resolve_track_view(&db, t1).unwrap();
    assert_eq!(v.artist_name, "Camellia");
    assert_eq!(v.album_title.as_deref(), Some("Crystallized"));
    assert_eq!(v.channels, Some(2));
    let w = resolve_track_view(&db, t3).unwrap();
    assert_eq!(w.album_title, None);
    assert!(resolve_track_view(&db, TrackId(77)).is_none());
}

#[test]
fn up_next_views_skip_unknown_tracks() {
    let (db, [t1, _, _, t4]) = create_populated_audio_db();
    let mut q = PlaybackQueue::new(10);
    q.append_to_queue(t4);
    q.append_to_queue(TrackId(999));
    q.append_to_queue(t1);
    let views = q.resolve_up_next_views(&db);
    assert_eq!(views.len(), 2);
    assert_eq!(views[0].title, "Aliens");
    assert_eq!(views[1].title, "Crystallized");
}

#[test]
fn test_relational_integrity_representations() {
    let artist_id = ArtistId(1);
    let album_id = AlbumId(1);
    let track_id = TrackId(100);

    let artist = Artist {
        id: artist_id,
        name: "Kuroso Sound".to_string(),
        albums: vec![album_id],
        standalone_tracks: vec![],
    };

    let album = Album {
        id: album_id,
        title: "Zero Overhead".to_string(),
        artist_id,
        year: Some(2025),
        is_compilation: false,
        tracks: vec![track_id],
    };

    assert_eq!(artist.albums[0], album.id);
    assert_eq!(album.tracks[0], track_id);
}

#[test]
fn linked_tracks_lists_each_track_with_album_and_artist() {
    let (db, [t1, _, t3, t4]) = create_populated_audio_db();
    let listing = db.linked_tracks();
    assert_eq!(listing.len(), 4);
    let mut ids: Vec<u32> = listing.iter().map(|(t, _, _)| t.id.0).collect();
    ids.sort();
    assert_eq!(ids, vec![1, 2, 3, 4]);
    for (t, album, artist) in &listing {
        assert_eq!(t.artist_id, artist.id);
        if t.id == t1 {
            assert_eq!(album.as_ref().map(|a| a.title.as_str()), Some("Crystallized"));
            assert_eq!(artist.name, "Camellia");
        }
        if t.id == t3 {
            assert!(album.is_none());
        }
        if t.id == t4 {
            assert_eq!(artist.name, "Taku Inoue");
        }
    }
}

#[test]
fn paths_with_the_same_components_name_the_same_track() {
    let mut db = LibraryDatabase::new();
    let a = insert_simple(&mut db, "/music//s.opus", 7, 8, "S", "A", None, 1, None, None, None, AudioFormat::Opus, None, None);
    let b = insert_simple(&mut db, "/music/./s.opus", 9, 9, "T", "B", None, 1, None, None, None, AudioFormat::Opus, None, None);
    assert_eq!(a, b);
    assert_eq!(db.track_count(), 1);
    assert_eq!(db.get_track_by_path("/music/s.opus").unwrap().path, "/music//s.opus");
    assert!(!db.should_rescan("/music/s.opus/", 7, 8));
    let live = vec!["/music/./s.opus".to_string()];
    assert_eq!(db.prune_missing_files(&live), 0);
    assert_eq!(db.remove_track_by_path("/music/s.opus"), Some(a));
    assert_eq!(db.track_count(), 0);
}

#[test]
fn inserting_then_removing_restores_the_library() {
    let (mut db, _) = create_populated_audio_db();
    let id = insert_simple(&mut db, "/m/new.opus", 1, 1, "New", "Camellia", None, 1, None, None, None, AudioFormat::Opus, None, None);
    assert!(id.0 > 4);
    assert_eq!(db.track_count(), 5);
    assert_eq!(db.remove_track_by_path("/m/new.opus"), Some(id));
    assert_eq!((db.track_count(), db.album_count(), db.artist_count()), (4, 1, 2));
    assert_eq!(db.remove_track_by_path("/m/new.opus"), None);
    assert_eq!(db.track_count(), 4);
}

#[test]
fn inserting_with_a_new_artist_and_album_then_removing_restores_counts() {
    let (mut db, _) = create_populated_audio_db();
    let id = insert_simple(&mut db, "/m/x.flac", 1, 1, "X", "Newcomer", Some("Debut"), 1, Some(1), None, None, AudioFormat::Flac, None, None);
    assert_eq!((db.track_count(), db.album_count(), db.artist_count()), (5, 2, 3));
    assert_eq!(db.remove_track_by_path("/m/x.flac"), Some(id));
    assert_eq!((db.track_count(), db.album_count(), db.artist_count()), (4, 1, 2));
    let id2 = insert_simple(&mut db, "/m/y.flac", 1, 1, "Y", "Camellia", Some("Crystallized"), 1, Some(3), None, None, AudioFormat::Flac, None, None);
    assert_eq!(db.remove_track_by_path("/m/y.flac"), Some(id2));
    assert_eq!((db.track_count(), db.album_count(), db.artist_count()), (4, 1, 2));
}
