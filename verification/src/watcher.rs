use vstd::prelude::*;
use crate::types::TrackId;
use crate::database::{DbView, LibraryDatabase, opt_text, track_inserted, track_updated};
use crate::queries::{TrackView, describes_track, has_track_view, resolve_track_view};
use crate::scanner::{ExtractedMetadata, opt_str, opt_view};

verus! {

/// What the library watcher reports after a change on disk.
#[derive(Debug, Clone)]
pub enum LibraryEvent {
    TrackAdded(TrackView),
    TrackUpdated(TrackView),
    TrackRemoved(TrackId),
}

/// A file the watcher saw disappear: its track is deleted (see
/// [`DbView::remove_track`]) and its removal is reported when the track existed.
pub fn on_file_removed(db: &mut LibraryDatabase, path: &str) -> (r: Option<LibraryEvent>)
    requires
        old(db).wf(),
    ensures
        final(db).wf(),
        final(db)@ == old(db)@.remove_track(path@).0,
        match old(db)@.remove_track(path@).1 {
            Some(id) => r matches Some(LibraryEvent::TrackRemoved(rid)) && rid == id,
            None => r is None,
        },
{
    match db.remove_track_by_path(path) {
        Some(id) => Some(LibraryEvent::TrackRemoved(id)),
        None => None,
    }
}

/// `meta` read into `old`, giving `new`, as the watcher does it: the track under its path
/// is updated when there is one, inserted otherwise.
pub open spec fn meta_applied(old: DbView, new: DbView, meta: ExtractedMetadata, id: Option<TrackId>) -> bool {
    if old.track_at_path(meta.path@) is Some {
        track_updated(
            old,
            new,
            id,
            meta.path@,
            meta.mtime,
            meta.file_size,
            meta.title@,
            meta.artist@,
            opt_view(meta.album_artist),
            opt_view(meta.album),
            meta.duration_ms,
            meta.track_number,
            meta.disc_number,
            meta.year,
            meta.sample_rate,
            meta.bitrate,
            meta.bit_depth,
            meta.channels,
            meta.track_gain_db,
            meta.track_peak,
            meta.album_gain_db,
            meta.album_peak,
        )
    } else {
        id is Some && track_inserted(
            old,
            new,
            id->0,
            meta.path@,
            meta.mtime,
            meta.file_size,
            meta.title@,
            meta.artist@,
            opt_view(meta.album_artist),
            opt_view(meta.album),
            meta.duration_ms,
            meta.track_number,
            meta.disc_number,
            meta.year,
            meta.format,
            meta.sample_rate,
            meta.bitrate,
            meta.bit_depth,
            meta.channels,
            meta.track_gain_db,
            meta.track_peak,
            meta.album_gain_db,
            meta.album_peak,
        )
    }
}

/// A file the watcher saw created or modified, whose tags were read into `meta`: the track
/// under its path is updated when the library has one (and an update is reported), or
/// else a track is inserted (and an addition is reported).  Nothing is reported when the
/// resulting track cannot be described (its artist is missing).
pub fn on_file_changed(db: &mut LibraryDatabase, meta: ExtractedMetadata) -> (r: Option<LibraryEvent>)
    requires
        old(db).wf(),
    ensures
        final(db).wf(),
        exists|id: Option<TrackId>| #[trigger] meta_applied(old(db)@, final(db)@, meta, id) && match id {
            Some(tid) => {
                &&& has_track_view(final(db)@, tid) ==> match r {
                    Some(LibraryEvent::TrackUpdated(v)) => old(db)@.track_at_path(meta.path@) is Some
                        && describes_track(final(db)@, tid, v),
                    Some(LibraryEvent::TrackAdded(v)) => old(db)@.track_at_path(meta.path@) is None
                        && describes_track(final(db)@, tid, v),
                    _ => false,
                }
                &&& !has_track_view(final(db)@, tid) ==> r is None
            },
            None => r is None,
        },
{
    let is_update = db.get_track_by_path(meta.path.as_str()).is_some();
    if is_update {
        let updated = db.update_track_metadata(
            meta.path.as_str(),
            meta.mtime,
            meta.file_size,
            meta.title.as_str(),
            meta.artist.as_str(),
            opt_str(&meta.album_artist),
            opt_str(&meta.album),
            meta.duration_ms,
            meta.track_number,
            meta.disc_number,
            meta.year,
            meta.sample_rate,
            meta.bitrate,
            meta.bit_depth,
            meta.channels,
            meta.track_gain_db,
            meta.track_peak,
            meta.album_gain_db,
            meta.album_peak,
        );
        proof {
            assert(meta_applied(old(db)@, db@, meta, updated));
        }
        match updated {
            Some(track_id) => match resolve_track_view(db, track_id) {
                Some(view) => Some(LibraryEvent::TrackUpdated(view)),
                None => None,
            },
            None => None,
        }
    } else {
        let track_id = db.insert_track(
            meta.path.clone(),
            meta.mtime,
            meta.file_size,
            meta.title.as_str(),
            meta.artist.as_str(),
            opt_str(&meta.album_artist),
            opt_str(&meta.album),
            meta.duration_ms,
            meta.track_number,
            meta.disc_number,
            meta.year,
            meta.format,
            meta.sample_rate,
            meta.bitrate,
            meta.bit_depth,
            meta.channels,
            meta.track_gain_db,
            meta.track_peak,
            meta.album_gain_db,
            meta.album_peak,
        );
        proof {
            assert(meta_applied(old(db)@, db@, meta, Some(track_id)));
        }
        match resolve_track_view(db, track_id) {
            Some(view) => Some(LibraryEvent::TrackAdded(view)),
            None => None,
        }
    }
}

} // verus!
