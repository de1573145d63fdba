use kuroso_core::database::{database_header, validate_header, DatabaseLoadError, LibraryDatabase};
use kuroso_core::decoder::{
    packet_step, PacketAction, PacketEvent, resampling_possible, is_opus_header_packet, opus_buffer_len, opus_is_mono, opus_rate_for, stream_layout,
    DecodeErrorCounter, OpusRate,
};
use kuroso_core::hardware::{
    describe_device, negotiate_strategy, OutputConfigRange, PlaybackStrategy, SampleKind,
};
use kuroso_core::player::{
    advance_after_track_end, after_start_failure, apply_command, StartFailure, current_track_path, idle_command_ends_thread,
    known_duration_ms, pick_output_device, state_code, state_from_code, CommandEffect,
    CommandKind, PlayerState,
};
use kuroso_core::queue::PlaybackQueue;
use kuroso_core::paths::normalize_path;
use kuroso_core::scanner::{
    choose_title, format_of_extension, is_scanned_extension, kept_tag,
    detect_audio_format, extract_metadata, has_supported_extension, ingest_metadata,
    is_supported_extension,
};
use kuroso_core::state::{PlaybackStatus, RepeatMode, ShuffleMode};
use kuroso_core::text::{ascii_lowercase, contains_str, eq_ignore_ascii_case, format_duration};
use kuroso_core::types::{AudioFormat, TrackId};
use kuroso_core::watcher::{on_file_changed, on_file_removed, LibraryEvent};
use std::collections::HashSet;
use std::sync::atomic::{AtomicU32, Ordering};

#[test]
fn test_default_enums() {
    assert_eq!(PlaybackStatus::default(), PlaybackStatus::Stopped);
    assert_eq!(RepeatMode::default(), RepeatMode::Off);
    assert_eq!(ShuffleMode::default(), ShuffleMode::Off);
}

#[test]
fn test_id_hash_and_equality() {
    let mut set = HashSet::new();
    set.insert(TrackId(1));
    set.insert(TrackId(2));
    set.insert(TrackId(1));

    assert_eq!(set.len(), 2);
    assert!(set.contains(&TrackId(1)));
    assert!(set.contains(&TrackId(2)));
}

#[test]
fn test_ieee754_volume_atomic_roundtrip() {
    let vol_atomic = AtomicU32::new(1.0f32.to_bits());

    let test_volumes = [0.0f32, 0.25f32, 0.5f32, 0.85f32, 1.0f32, 1.5f32, 2.0f32];
    for &expected_vol in &test_volumes {
        vol_atomic.store(expected_vol.to_bits(), Ordering::Relaxed);
        let actual = f32::from_bits(vol_atomic.load(Ordering::Relaxed));
        assert_eq!(actual, expected_vol, "Float-to-u32 atomic bitcast failed");
    }
}

#[test]
fn test_hardware_strategy_negotiator() {
    let direct_strategy = PlaybackStrategy::BitPerfect { sample_rate: 48_000, channels: 2 };
    match direct_strategy {
        PlaybackStrategy::BitPerfect { sample_rate, channels } => {
            assert_eq!(sample_rate, 48_000);
            assert_eq!(channels, 2);
        }
        _ => panic!("Expected BitPerfect strategy"),
    }

    let resample_strategy = PlaybackStrategy::ResampleRequired {
        source_sample_rate: 96_000,
        target_sample_rate: 48_000,
        channels: 2,
    };
    match resample_strategy {
        PlaybackStrategy::ResampleRequired { source_sample_rate, target_sample_rate, channels } => {
            assert_eq!(source_sample_rate, 96_000);
            assert_eq!(target_sample_rate, 48_000);
            assert_eq!(channels, 2);
        }
        _ => panic!("Expected ResampleRequired strategy"),
    }
}

fn range(channels: u16, lo: u32, hi: u32, kind: SampleKind) -> OutputConfigRange {
    OutputConfigRange { channels, min_sample_rate: lo, max_sample_rate: hi, sample_kind: kind }
}

#[test]
fn negotiation_is_bit_perfect_inside_a_range() {
    let configs = vec![range(2, 44_100, 96_000, SampleKind::F32)];
    assert_eq!(
        negotiate_strategy(&configs, 48_000, 2),
        PlaybackStrategy::BitPerfect { sample_rate: 48_000, channels: 2 }
    );
}

#[test]
fn negotiation_prefers_the_same_rate_family() {
    let configs = vec![
        range(2, 48_000, 48_000, SampleKind::F32),
        range(2, 88_200, 88_200, SampleKind::F32),
        range(2, 96_000, 96_000, SampleKind::F32),
        range(1, 44_100, 44_100, SampleKind::F32),
    ];
    assert_eq!(
        negotiate_strategy(&configs, 44_100, 2),
        PlaybackStrategy::ResampleRequired { source_sample_rate: 44_100, target_sample_rate: 88_200, channels: 2 }
    );
    assert_eq!(
        negotiate_strategy(&configs, 32_000, 2),
        PlaybackStrategy::ResampleRequired { source_sample_rate: 32_000, target_sample_rate: 48_000, channels: 2 }
    );
}

#[test]
fn negotiation_falls_back_to_largest_rate_then_48k() {
    let configs = vec![range(2, 44_100, 48_000, SampleKind::I16)];
    assert_eq!(
        negotiate_strategy(&configs, 192_000, 2),
        PlaybackStrategy::ResampleRequired { source_sample_rate: 192_000, target_sample_rate: 48_000, channels: 2 }
    );
    let configs = vec![range(2, 8_000, 22_050, SampleKind::I16)];
    assert_eq!(
        negotiate_strategy(&configs, 96_000, 2),
        PlaybackStrategy::ResampleRequired { source_sample_rate: 96_000, target_sample_rate: 22_050, channels: 2 }
    );
    assert_eq!(
        negotiate_strategy(&[], 44_100, 6),
        PlaybackStrategy::ResampleRequired { source_sample_rate: 44_100, target_sample_rate: 48_000, channels: 6 }
    );
}

#[test]
fn describe_device_lists_standard_rates_and_channels() {
    let configs = vec![
        range(2, 44_100, 96_000, SampleKind::F32),
        range(1, 48_000, 48_000, SampleKind::I16),
        range(8, 192_000, 192_000, SampleKind::Other),
    ];
    let d = describe_device("USB DAC".to_string(), Some("USB DAC"), &configs);
    assert_eq!(d.id, "USB DAC");
    assert_eq!(d.name, "USB DAC");
    assert!(d.is_default);
    assert_eq!(d.supported_sample_rates, vec![44_100, 48_000, 88_200, 96_000, 192_000]);
    assert_eq!(d.min_channels, 1);
    assert_eq!(d.max_channels, 8);
    assert!(d.supports_f32);
    assert!(d.supports_i16);

    let empty = describe_device("Null".to_string(), None, &[]);
    assert!(!empty.is_default);
    assert_eq!(empty.supported_sample_rates.len(), 0);
    assert_eq!(empty.min_channels, 0);
    assert_eq!(empty.max_channels, 0);
    assert!(!empty.supports_f32);
}

#[test]
fn test_detect_audio_format() {
    assert_eq!(detect_audio_format("song.opus"), AudioFormat::Opus);
    assert_eq!(detect_audio_format("track.flac"), AudioFormat::Flac);
    assert_eq!(detect_audio_format("audio.mp3"), AudioFormat::Mp3);
    assert_eq!(detect_audio_format("file.ogg"), AudioFormat::Vorbis);
    assert_eq!(detect_audio_format("m4a_track.m4a"), AudioFormat::Aac);
    assert_eq!(detect_audio_format("sound.wav"), AudioFormat::Wav);
    assert_eq!(detect_audio_format("file.unknown"), AudioFormat::Unknown);
}

#[test]
fn format_detection_ignores_case_and_needs_an_extension() {
    assert_eq!(detect_audio_format("/music/LOUD.FLAC"), AudioFormat::Flac);
    assert_eq!(detect_audio_format("/music/x.AAC"), AudioFormat::Aac);
    assert_eq!(detect_audio_format("/music/noext"), AudioFormat::Unknown);
    assert!(has_supported_extension("/music/a/b.Opus"));
    assert!(!has_supported_extension("/music/notes.txt"));
    assert!(!has_supported_extension("/music/opus"));
    assert!(is_supported_extension("m4a"));
    assert!(!is_supported_extension("M4A"));
}

#[test]
fn extract_metadata_falls_back_and_cuts_numbers() {
    let m = extract_metadata(
        "/music/dir/My Song.mp3".to_string(), 5, 6,
        Some("   ".to_string()), None, Some(" Band ".to_string()), Some("".to_string()),
        (1u128 << 32) + 7, Some(65_537), Some(258), Some(2024),
        Some(44_100), Some(320), Some(16), Some(2),
        Some(1), Some(2), Some(3), Some(4),
    );
    assert_eq!(m.title, "My Song");
    assert_eq!(m.artist, "Unknown Artist");
    assert_eq!(m.album_artist.as_deref(), Some("Band"));
    assert_eq!(m.album, None);
    assert_eq!(m.duration_ms, 7);
    assert_eq!(m.track_number, Some(1));
    assert_eq!(m.disc_number, Some(2));
    assert_eq!(m.year, Some(2024));
    assert_eq!(m.format, AudioFormat::Mp3);
    assert_eq!(m.sample_rate, Some(44_100));
    assert_eq!(m.album_peak, Some(4));

    let tagged = extract_metadata(
        "/m/a.flac".to_string(), 0, 0, Some(" Title ".to_string()), Some("Art".to_string()),
        None, Some("Alb".to_string()), 1000, None, None, None, None, None, None, None,
        None, None, None, None,
    );
    assert_eq!(tagged.title, "Title");
    assert_eq!(tagged.artist, "Art");
    assert_eq!(tagged.album.as_deref(), Some("Alb"));
}

#[test]
fn ingest_metadata_inserts_every_record() {
    let mut db = LibraryDatabase::new();
    let a = extract_metadata(
        "/m/one.opus".to_string(), 1, 1, Some("One".to_string()), Some("A".to_string()),
        None, Some("Album".to_string()), 1000, Some(1), None, None, None, None, None, None,
        None, None, None, None,
    );
    let b = extract_metadata(
        "/m/two.opus".to_string(), 1, 1, Some("Two".to_string()), Some("A".to_string()),
        None, Some("Album".to_string()), 1000, Some(2), None, None, None, None, None, None,
        None, None, None, None,
    );
    assert_eq!(ingest_metadata(&mut db, vec![a, b]), 2);
    assert_eq!(db.track_count(), 2);
    assert_eq!(db.album_count(), 1);
    assert_eq!(db.artist_count(), 1);
    assert!(db.get_track_by_path("/m/two.opus").is_some());
}

#[test]
fn test_empty_and_short_headers_are_refused() {
    assert_eq!(validate_header(0, &[]), Err(DatabaseLoadError::EmptyFile));
    assert_eq!(validate_header(5, b"SHORT"), Err(DatabaseLoadError::FileTooShort));
}

#[test]
fn header_magic_and_version_are_checked() {
    let good = database_header();
    assert_eq!(good.len(), 12);
    assert_eq!(&good[0..8], b"KUROSO\x00\x01");
    assert_eq!(validate_header(100, &good), Ok(()));

    let mut bad_magic = good.clone();
    bad_magic[0] = b'X';
    assert_eq!(validate_header(100, &bad_magic), Err(DatabaseLoadError::InvalidMagic));

    let mut other_version = good.clone();
    other_version[8] = 2;
    other_version[9] = 1;
    assert_eq!(
        validate_header(12, &other_version),
        Err(DatabaseLoadError::IncompatibleVersion { found: 258, expected: 1 })
    );
}

#[test]
fn load_errors_have_messages() {
    assert_eq!(DatabaseLoadError::EmptyFile.message(), "Database cache file is empty (0 bytes)");
    assert_eq!(DatabaseLoadError::NotFound.message(), "Database cache file not found");
    assert_eq!(
        DatabaseLoadError::FileTooShort.message(),
        "Database cache file is shorter than valid header"
    );
    assert_eq!(
        DatabaseLoadError::InvalidMagic.message(),
        "Invalid magic bytes (not a Kuroso database)"
    );
    assert_eq!(
        DatabaseLoadError::IncompatibleVersion { found: 7, expected: 1 }.message(),
        "Incompatible schema version: found 7, expected 1"
    );
    assert_eq!(DatabaseLoadError::Io("disk".to_string()).message(), "I/O error: disk");
    assert_eq!(
        DatabaseLoadError::CorruptedData("bad".to_string()).message(),
        "Corrupted database payload: bad"
    );
}

#[test]
fn durations_are_written_as_minutes_and_seconds() {
    assert_eq!(format_duration(0), "0:00");
    assert_eq!(format_duration(185_999), "3:05");
    assert_eq!(format_duration(3_600_000), "60:00");
    assert_eq!(format_duration(59_000), "0:59");
}

#[test]
fn text_helpers() {
    assert_eq!(ascii_lowercase("ÄBC Def"), "Äbc def");
    assert!(eq_ignore_ascii_case("Various Artists", "VARIOUS artists"));
    assert!(!eq_ignore_ascii_case("Various", "Various Artists"));
    assert!(contains_str("solar flare", "flare"));
    assert!(contains_str("abc", ""));
    assert!(!contains_str("ab", "abc"));
}

#[test]
fn decoder_layout_and_opus_settings() {
    assert_eq!(stream_layout(None, None), (48_000, 2));
    assert_eq!(stream_layout(Some(44_100), Some(0)), (44_100, 1));
    assert_eq!(stream_layout(Some(96_000), Some(6)), (96_000, 6));
    assert_eq!(opus_rate_for(16_000), OpusRate::Hz16000);
    assert_eq!(opus_rate_for(44_100), OpusRate::Hz48000);
    assert!(opus_is_mono(1));
    assert!(!opus_is_mono(2));
    assert_eq!(opus_buffer_len(2), 11_520);
    assert!(is_opus_header_packet(b"OpusHead\x01\x02"));
    assert!(is_opus_header_packet(b"OpusTags"));
    assert!(!is_opus_header_packet(b"OpusHea"));
    assert!(!is_opus_header_packet(b"\x00\x01OpusHead"));
}

#[test]
fn decode_errors_give_up_after_the_limit() {
    let mut c = DecodeErrorCounter::new();
    for _ in 0..20 {
        assert!(!c.register_error());
    }
    assert!(c.register_error());
    c.reset();
    assert_eq!(c.consecutive, 0);
    assert!(!c.register_error());
}

#[test]
fn player_state_codes_round_trip() {
    for s in [PlayerState::Stopped, PlayerState::Playing, PlayerState::Paused] {
        assert_eq!(state_from_code(state_code(s)), s);
    }
    assert_eq!(state_from_code(9), PlayerState::Stopped);
    assert_eq!(known_duration_ms(0), None);
    assert_eq!(known_duration_ms(5), Some(5));
}

#[test]
fn player_commands_move_the_queue() {
    let mut q = PlaybackQueue::new(10);
    q.load_tracks(vec![TrackId(1), TrackId(2)], Some(0));
    assert_eq!(apply_command(&mut q, false, CommandKind::TogglePause), CommandEffect::Pause);
    assert_eq!(apply_command(&mut q, true, CommandKind::TogglePause), CommandEffect::Resume);
    assert_eq!(apply_command(&mut q, true, CommandKind::Play), CommandEffect::Resume);
    assert_eq!(apply_command(&mut q, false, CommandKind::Seek), CommandEffect::Seek);
    assert_eq!(q.current_track(), Some(TrackId(1)));
    assert_eq!(apply_command(&mut q, false, CommandKind::Next), CommandEffect::ChangeTrack);
    assert_eq!(q.current_track(), Some(TrackId(2)));
    assert_eq!(apply_command(&mut q, false, CommandKind::Prev), CommandEffect::ChangeTrack);
    assert_eq!(q.current_track(), Some(TrackId(1)));
    assert_eq!(apply_command(&mut q, false, CommandKind::Stop), CommandEffect::Stop);
    assert!(idle_command_ends_thread(None));
    assert!(idle_command_ends_thread(Some(CommandKind::Stop)));
    assert!(!idle_command_ends_thread(Some(CommandKind::Play)));

    // the track left by "previous" waits in up-next, then the playlist goes on
    assert_eq!(q.up_next().len(), 1);
    assert!(advance_after_track_end(&mut q));
    assert_eq!(q.current_track(), Some(TrackId(2)));
    assert!(advance_after_track_end(&mut q));
    assert_eq!(q.playlist_index(), Some(1));
    assert!(!advance_after_track_end(&mut q));
    assert_eq!(q.current_track(), None);
}

#[test]
fn player_finds_the_current_file() {
    let mut db = LibraryDatabase::new();
    let t = db.insert_track(
        "/m/p.opus".to_string(), 1, 1, "P", "A", None, None, 1, None, None, None,
        AudioFormat::Opus, None, None, None, None, None, None, None, None,
    );
    let mut q = PlaybackQueue::new(3);
    q.load_tracks(vec![t, TrackId(50)], Some(0));
    assert_eq!(current_track_path(&q, &db).as_deref(), Some("/m/p.opus"));
    q.next();
    assert_eq!(current_track_path(&q, &db), None);
}

#[test]
fn output_device_preference() {
    let names = vec![Some("Speakers".to_string()), None, Some("PulseAudio".to_string()), Some("pulse".to_string())];
    assert_eq!(pick_output_device(&names), Some(3));
    let names = vec![Some("Pulse".to_string()), Some("PipeWire".to_string())];
    assert_eq!(pick_output_device(&names), Some(1));
    let names = vec![Some("hdmi".to_string())];
    assert_eq!(pick_output_device(&names), None);
}

#[test]
fn watcher_reports_added_updated_and_removed_tracks() {
    let mut db = LibraryDatabase::new();
    let meta = extract_metadata(
        "/m/w.flac".to_string(), 1, 1, Some("W".to_string()), Some("A".to_string()),
        None, None, 1000, None, None, None, None, None, None, None, None, None, None, None,
    );
    let id = match on_file_changed(&mut db, meta) {
        Some(LibraryEvent::TrackAdded(v)) => {
            assert_eq!(v.title, "W");
            assert_eq!(v.artist_name, "A");
            v.id
        }
        other => panic!("expected an addition, got {:?}", other),
    };
    let meta = extract_metadata(
        "/m/w.flac".to_string(), 2, 1, Some("W2".to_string()), Some("A".to_string()),
        None, None, 1000, None, None, None, None, None, None, None, None, None, None, None,
    );
    match on_file_changed(&mut db, meta) {
        Some(LibraryEvent::TrackUpdated(v)) => {
            assert_eq!(v.id, id);
            assert_eq!(v.title, "W2");
        }
        other => panic!("expected an update, got {:?}", other),
    }
    match on_file_removed(&mut db, "/m/w.flac") {
        Some(LibraryEvent::TrackRemoved(r)) => assert_eq!(r, id),
        other => panic!("expected a removal, got {:?}", other),
    }
    assert!(on_file_removed(&mut db, "/m/w.flac").is_none());
    assert_eq!(db.track_count(), 0);
}

#[test]
fn path_normal_forms() {
    assert_eq!(normalize_path("/music//a/./b.opus"), "/music/a/b.opus");
    assert_eq!(normalize_path("/music/a/"), "/music/a");
    assert_eq!(normalize_path("./a//b"), "./a/b");
    assert_eq!(normalize_path("a/./."), "a");
    assert_eq!(normalize_path("/"), "/");
    assert_eq!(normalize_path("//"), "/");
    assert_eq!(normalize_path(""), "");
    assert_eq!(normalize_path("a/../b"), "a/../b");
}

#[test]
fn extension_and_tag_decisions() {
    assert_eq!(format_of_extension(Some("OGG")), AudioFormat::Vorbis);
    assert_eq!(format_of_extension(Some("txt")), AudioFormat::Unknown);
    assert_eq!(format_of_extension(None), AudioFormat::Unknown);
    assert!(is_scanned_extension(Some("WAV")));
    assert!(!is_scanned_extension(Some("txt")));
    assert!(!is_scanned_extension(None));
    assert_eq!(kept_tag("".to_string()), None);
    assert_eq!(kept_tag("x".to_string()), Some("x".to_string()));
    assert_eq!(choose_title(Some("T".to_string()), Some("stem".to_string())), "T");
    assert_eq!(choose_title(None, Some("stem".to_string())), "stem");
    assert_eq!(choose_title(None, None), "Unknown Title");
}

#[test]
fn start_failures_and_resampling_guard() {
    let mut q = PlaybackQueue::new(5);
    q.load_tracks(vec![TrackId(1), TrackId(2)], Some(0));
    assert!(after_start_failure(&mut q, StartFailure::Open));
    assert_eq!(q.current_track(), Some(TrackId(2)));
    assert!(!after_start_failure(&mut q, StartFailure::Sink));
    assert!(!after_start_failure(&mut q, StartFailure::Negotiation));
    assert_eq!(q.current_track(), Some(TrackId(2)));
    assert!(!resampling_possible(48_000, 48_000));
    assert!(resampling_possible(44_100, 48_000));
}

#[test]
fn packet_events_are_decided_by_the_step() {
    let mut c = DecodeErrorCounter::new();
    assert_eq!(packet_step(&mut c, PacketEvent::EndOfStream), PacketAction::End);
    assert_eq!(packet_step(&mut c, PacketEvent::ResetRequired), PacketAction::Reset);
    for _ in 0..20 {
        assert_eq!(packet_step(&mut c, PacketEvent::ReadError), PacketAction::Continue);
    }
    assert_eq!(c.consecutive, 20);
    assert_eq!(packet_step(&mut c, PacketEvent::ReadError), PacketAction::Fail);
    assert_eq!(packet_step(&mut c, PacketEvent::Decoded), PacketAction::Yield);
    assert_eq!(c.consecutive, 0);
    assert_eq!(packet_step(&mut c, PacketEvent::DecodeError), PacketAction::Continue);
    assert_eq!(c.consecutive, 1);
    assert_eq!(packet_step(&mut c, PacketEvent::OpusHeader), PacketAction::Continue);
    assert_eq!(packet_step(&mut c, PacketEvent::OtherTrack), PacketAction::Continue);
    assert_eq!(packet_step(&mut c, PacketEvent::FatalError), PacketAction::Fail);
    assert_eq!(c.consecutive, 0);
}
