use vstd::prelude::*;
use std::collections::HashMap;
use crate::types::{AlbumId, AlbumView, Album, ArtistId, ArtistView, Artist, AudioFormat, Track, TrackId};
use crate::index::{AlbumKey, KeyIndex};
use crate::text::{eq_ignore_ascii_case, eq_ignore_ascii_case_spec, text_eq};

use crate::paths::{lemma_components_of_child, components, normal_path, normalize_path, path_components};

verus! {

broadcast use vstd::std_specs::hash::group_hash_axioms;

/// All occurrences of `x` taken out of `s`, the rest in order.
pub open spec fn without<T>(s: Seq<T>, x: T) -> Seq<T>
    decreases s.len(),
{
    if s.len() == 0 {
        s
    } else {
        let w = without(s.drop_last(), x);
        if s.last() == x {
            w
        } else {
            w.push(s.last())
        }
    }
}

/// The identifier counter after one identifier has been handed out (it wraps around).
pub open spec fn next_counter(c: u32) -> u32 {
    if c == u32::MAX {
        0
    } else {
        (c + 1) as u32
    }
}

/// The album-artist name that marks an album as a compilation.
pub open spec fn various_artists() -> Seq<char> {
    seq!['v', 'a', 'r', 'i', 'o', 'u', 's', ' ', 'a', 'r', 't', 'i', 's', 't', 's']
}

/// Whether an album artist makes its album a compilation.
pub open spec fn is_compilation_artist(album_artist_name: Option<Seq<char>>) -> bool {
    match album_artist_name {
        Some(n) => eq_ignore_ascii_case_spec(n, various_artists()),
        None => false,
    }
}

/// The mathematical value of a [`LibraryDatabase`]: its three tables, its three lookup
/// indexes and the next identifier of each kind.
#[verifier::ext_equal]
pub struct DbView {
    pub tracks: Map<u32, Track>,
    pub albums: Map<u32, AlbumView>,
    pub artists: Map<u32, ArtistView>,
    pub path_to_track: Map<Seq<char>, TrackId>,
    pub artist_name_to_id: Map<Seq<char>, ArtistId>,
    pub album_lookup_to_id: Map<(ArtistId, Seq<char>), AlbumId>,
    pub track_counter: u32,
    pub album_counter: u32,
    pub artist_counter: u32,
}

impl DbView {
    /// The artist called `name`, created (with the next artist identifier, no albums and no
    /// tracks) when there is none.
    pub open spec fn resolve_artist(self, name: Seq<char>) -> (DbView, ArtistId) {
        if self.artist_name_to_id.contains_key(name) {
            (self, self.artist_name_to_id[name])
        } else {
            let id = ArtistId(self.artist_counter);
            (
                DbView {
                    artists: self.artists.insert(
                        id.0,
                        ArtistView { id, name, albums: Seq::empty(), standalone_tracks: Seq::empty() },
                    ),
                    artist_name_to_id: self.artist_name_to_id.insert(name, id),
                    artist_counter: next_counter(self.artist_counter),
                    ..self
                },
                id,
            )
        }
    }

    /// The album titled `title` owned by `owner`, created (with the next album identifier and
    /// no tracks, and listed under its owner when the owner exists) when there is none.
    pub open spec fn resolve_album(
        self,
        owner: ArtistId,
        title: Seq<char>,
        year: Option<u16>,
        is_compilation: bool,
    ) -> (DbView, AlbumId) {
        let key = (owner, title);
        if self.album_lookup_to_id.contains_key(key) {
            (self, self.album_lookup_to_id[key])
        } else {
            let id = AlbumId(self.album_counter);
            (
                DbView {
                    albums: self.albums.insert(
                        id.0,
                        AlbumView { id, title, artist_id: owner, year, is_compilation, tracks: Seq::empty() },
                    ),
                    album_lookup_to_id: self.album_lookup_to_id.insert(key, id),
                    album_counter: next_counter(self.album_counter),
                    artists: if self.artists.contains_key(owner.0) {
                        self.artists.insert(
                            owner.0,
                            ArtistView {
                                albums: self.artists[owner.0].albums.push(id),
                                ..self.artists[owner.0]
                            },
                        )
                    } else {
                        self.artists
                    },
                    ..self
                },
                id,
            )
        }
    }

    /// The artist (and album artist) a track's tags name: both are resolved, the album
    /// artist (if any) after the artist.
    pub open spec fn resolve_artists(
        self,
        artist_name: Seq<char>,
        album_artist_name: Option<Seq<char>>,
    ) -> (DbView, ArtistId, Option<ArtistId>) {
        let (s1, artist_id) = self.resolve_artist(artist_name);
        match album_artist_name {
            Some(n) => {
                let (s2, aa) = s1.resolve_artist(n);
                (s2, artist_id, Some(aa))
            },
            None => (s1, artist_id, None),
        }
    }

    /// The album a track's tags name (if any), owned by the album artist when there is one
    /// and by the track artist otherwise.
    pub open spec fn resolve_track_album(
        self,
        owner: ArtistId,
        album_name: Option<Seq<char>>,
        year: Option<u16>,
        is_compilation: bool,
    ) -> (DbView, Option<AlbumId>) {
        match album_name {
            Some(n) => {
                let (s, id) = self.resolve_album(owner, n, year, is_compilation);
                (s, Some(id))
            },
            None => (self, None),
        }
    }

    /// Takes `tid` out of album `aid`; an album left with no tracks is deleted, together with
    /// its lookup key and its place in its owner's album list.
    pub open spec fn detach_from_album(self, aid: AlbumId, tid: TrackId) -> DbView {
        if !self.albums.contains_key(aid.0) {
            self
        } else {
            let a = self.albums[aid.0];
            let remaining = without(a.tracks, tid);
            if remaining.len() > 0 {
                DbView { albums: self.albums.insert(aid.0, AlbumView { tracks: remaining, ..a }), ..self }
            } else {
                DbView {
                    albums: self.albums.remove(aid.0),
                    album_lookup_to_id: self.album_lookup_to_id.remove((a.artist_id, a.title)),
                    artists: if self.artists.contains_key(a.artist_id.0) {
                        self.artists.insert(
                            a.artist_id.0,
                            ArtistView {
                                albums: without(self.artists[a.artist_id.0].albums, aid),
                                ..self.artists[a.artist_id.0]
                            },
                        )
                    } else {
                        self.artists
                    },
                    ..self
                }
            }
        }
    }

    /// Takes `tid` out of the standalone tracks of `artist` (when that artist exists).
    pub open spec fn detach_standalone(self, artist: ArtistId, tid: TrackId) -> DbView {
        if self.artists.contains_key(artist.0) {
            DbView {
                artists: self.artists.insert(
                    artist.0,
                    ArtistView {
                        standalone_tracks: without(self.artists[artist.0].standalone_tracks, tid),
                        ..self.artists[artist.0]
                    },
                ),
                ..self
            }
        } else {
            self
        }
    }

    /// Deletes `artist`, and its name from the name lookup, when it has neither albums nor
    /// standalone tracks.
    pub open spec fn drop_artist_if_empty(self, artist: ArtistId) -> DbView {
        if self.artists.contains_key(artist.0) && self.artists[artist.0].albums.len() == 0
            && self.artists[artist.0].standalone_tracks.len() == 0 {
            DbView {
                artists: self.artists.remove(artist.0),
                artist_name_to_id: self.artist_name_to_id.remove(self.artists[artist.0].name),
                ..self
            }
        } else {
            self
        }
    }

    /// Lists `tid` in album `aid` when given (and the album exists), or else among the
    /// standalone tracks of `artist` (when it exists).
    pub open spec fn attach(self, album: Option<AlbumId>, artist: ArtistId, tid: TrackId) -> DbView {
        match album {
            Some(aid) => if self.albums.contains_key(aid.0) {
                DbView {
                    albums: self.albums.insert(
                        aid.0,
                        AlbumView { tracks: self.albums[aid.0].tracks.push(tid), ..self.albums[aid.0] },
                    ),
                    ..self
                }
            } else {
                self
            },
            None => if self.artists.contains_key(artist.0) {
                DbView {
                    artists: self.artists.insert(
                        artist.0,
                        ArtistView {
                            standalone_tracks: self.artists[artist.0].standalone_tracks.push(tid),
                            ..self.artists[artist.0]
                        },
                    ),
                    ..self
                }
            } else {
                self
            },
        }
    }

    /// As [`DbView::attach`], but leaves a list that already holds `tid` as it is.
    pub open spec fn attach_once(self, album: Option<AlbumId>, artist: ArtistId, tid: TrackId) -> DbView {
        match album {
            Some(aid) => if self.albums.contains_key(aid.0) && !self.albums[aid.0].tracks.contains(tid) {
                self.attach(album, artist, tid)
            } else {
                self
            },
            None => if self.artists.contains_key(artist.0) && !self.artists[artist.0].standalone_tracks.contains(tid) {
                self.attach(album, artist, tid)
            } else {
                self
            },
        }
    }

    /// The artist, album artist and album named by a track's tags, resolved or created in
    /// that order.  The album is owned by the album artist when there is one and by the
    /// artist otherwise, and is a compilation when the album artist is "various artists".
    pub open spec fn resolve_links(
        self,
        artist_name: Seq<char>,
        album_artist_name: Option<Seq<char>>,
        album_name: Option<Seq<char>>,
        year: Option<u16>,
    ) -> (DbView, ArtistId, Option<ArtistId>, Option<AlbumId>) {
        let (s1, artist_id, album_artist_id) = self.resolve_artists(artist_name, album_artist_name);
        let owner = match album_artist_id {
            Some(a) => a,
            None => artist_id,
        };
        let (s2, album_id) = s1.resolve_track_album(
            owner,
            album_name,
            year,
            is_compilation_artist(album_artist_name),
        );
        (s2, artist_id, album_artist_id, album_id)
    }

    /// Moves track `tid` from its old album and artist to new ones: when the album changes
    /// the track leaves the old album; when the artist changes a standalone track leaves the
    /// old artist and the old artist is deleted if left with nothing; when the album changes
    /// the track joins the new album (or the new artist's standalone tracks) unless already
    /// listed there.
    pub open spec fn relink(
        self,
        tid: TrackId,
        old_album: Option<AlbumId>,
        old_artist: ArtistId,
        new_album: Option<AlbumId>,
        new_artist: ArtistId,
    ) -> DbView {
        let s3 = if old_album != new_album && old_album is Some {
            self.detach_from_album(old_album->0, tid)
        } else {
            self
        };
        let s4 = if old_artist != new_artist && old_album is None {
            s3.detach_standalone(old_artist, tid)
        } else {
            s3
        };
        let s5 = if old_artist != new_artist {
            s4.drop_artist_if_empty(old_artist)
        } else {
            s4
        };
        if old_album != new_album {
            s5.attach_once(new_album, new_artist, tid)
        } else {
            s5
        }
    }

    /// The track stored under the path, if any.
    pub open spec fn track_at_path(self, path: Seq<char>) -> Option<Track> {
        let key = normal_path(path);
        if self.path_to_track.contains_key(key) && self.tracks.contains_key(self.path_to_track[key].0) {
            Some(self.tracks[self.path_to_track[key].0])
        } else {
            None
        }
    }

    /// The path lookup and the track table agree: every path entry names a stored track
    /// whose path has that normal form, and every stored track carries its own identifier
    /// and is found again under the normal form of its path.
    pub open spec fn paths_agree(self) -> bool {
        &&& forall|p: Seq<char>| #[trigger] self.path_to_track.contains_key(p) ==> {
            let id = self.path_to_track[p];
            self.tracks.contains_key(id.0) && normal_path(self.tracks[id.0].path@) == p
        }
        &&& forall|id: u32| #[trigger] self.tracks.contains_key(id) ==> {
            &&& self.tracks[id].id == TrackId(id)
            &&& self.path_to_track.contains_key(normal_path(self.tracks[id].path@))
            &&& self.path_to_track[normal_path(self.tracks[id].path@)] == TrackId(id)
        }
    }

    /// Every stored track identifier lies below the next one to be handed out.
    pub open spec fn ids_below_counter(self) -> bool {
        forall|id: u32| #[trigger] self.tracks.contains_key(id) ==> id < self.track_counter
    }

    /// The shape that inserting tracks (without an album artist) and removing them keep:
    /// identifiers lie below their counters (also where albums and artists list them); no
    /// album is empty and each is listed by its owner, who is the artist of its tracks; no
    /// artist is without albums and standalone tracks; and the name and album lookups lead
    /// to the artist of that name and the album of that owner and title.
    pub open spec fn tidy(self) -> bool {
        &&& self.ids_below_counter()
        &&& forall|a: u32| #[trigger] self.artists.contains_key(a) ==> {
            &&& a < self.artist_counter
            &&& (self.artists[a].albums.len() > 0 || self.artists[a].standalone_tracks.len() > 0)
            &&& forall|t: TrackId| #[trigger] self.artists[a].standalone_tracks.contains(t) ==> t.0 < self.track_counter
            &&& forall|x: AlbumId| #[trigger] self.artists[a].albums.contains(x) ==> x.0 < self.album_counter
        }
        &&& forall|x: u32| #[trigger] self.albums.contains_key(x) ==> {
            &&& x < self.album_counter
            &&& self.albums[x].tracks.len() > 0
            &&& forall|t: TrackId| #[trigger] self.albums[x].tracks.contains(t) ==> t.0 < self.track_counter
            &&& self.artists.contains_key(self.albums[x].artist_id.0)
            &&& self.artists[self.albums[x].artist_id.0].albums.contains(AlbumId(x))
        }
        &&& forall|id: u32| #[trigger] self.tracks.contains_key(id) ==> (self.tracks[id].album_id is Some ==> {
            &&& (self.tracks[id].album_id->0).0 < self.album_counter
            &&& self.albums.contains_key((self.tracks[id].album_id->0).0) ==> self.albums[(self.tracks[id].album_id->0).0].artist_id
                == self.tracks[id].artist_id
        })
        &&& forall|n: Seq<char>| #[trigger] self.artist_name_to_id.contains_key(n) ==> {
            &&& self.artists.contains_key(self.artist_name_to_id[n].0)
            &&& self.artists[self.artist_name_to_id[n].0].name == n
        }
        &&& forall|k: (ArtistId, Seq<char>)| #[trigger] self.album_lookup_to_id.contains_key(k) ==> {
            &&& self.albums.contains_key(self.album_lookup_to_id[k].0)
            &&& self.albums[self.album_lookup_to_id[k].0].artist_id == k.0
            &&& self.albums[self.album_lookup_to_id[k].0].title == k.1
        }
    }

    /// Deletes the track stored under the path whose normal form is `key`: its path entry,
    /// its record, its place in its album (deleting an album left empty) or among its
    /// artist's standalone tracks, and its artist when that is left with nothing.  The
    /// identifier is returned when the record existed.
    pub open spec fn remove_key(self, key: Seq<char>) -> (DbView, Option<TrackId>) {
        if !self.path_to_track.contains_key(key) {
            (self, None)
        } else {
            let tid = self.path_to_track[key];
            let s1 = DbView { path_to_track: self.path_to_track.remove(key), ..self };
            if !s1.tracks.contains_key(tid.0) {
                (s1, None)
            } else {
                let t = s1.tracks[tid.0];
                let s2 = DbView { tracks: s1.tracks.remove(tid.0), ..s1 };
                let s3 = match t.album_id {
                    Some(aid) => s2.detach_from_album(aid, tid),
                    None => s2.detach_standalone(t.artist_id, tid),
                };
                (s3.drop_artist_if_empty(t.artist_id), Some(tid))
            }
        }
    }

    /// Deletes the track stored under `path` (see [`DbView::remove_key`]): paths with the same
    /// normal form name the same track.
    pub open spec fn remove_track(self, path: Seq<char>) -> (DbView, Option<TrackId>) {
        self.remove_key(normal_path(path))
    }

    /// The database after deleting the tracks under each of the normal forms `paths`, in
    /// order.
    pub open spec fn remove_keys(self, paths: Seq<Seq<char>>) -> DbView
        decreases paths.len(),
    {
        if paths.len() == 0 {
            self
        } else {
            self.remove_keys(paths.drop_last()).remove_key(paths.last()).0
        }
    }
}

/// The contents of the library: tracks, albums and artists by identifier, and the lookups
/// from a path (by its normal form, see [`normal_path`]) to its track, from a name to its
/// artist and from an (owner, title) pair to its album.
pub struct DatabaseState {
    pub tracks: HashMap<u32, Track>,
    pub albums: HashMap<u32, Album>,
    pub artists: HashMap<u32, Artist>,
    pub path_to_track: KeyIndex<String, TrackId>,
    pub artist_name_to_id: KeyIndex<String, ArtistId>,
    pub album_lookup_to_id: KeyIndex<AlbumKey, AlbumId>,
}

impl DatabaseState {
    /// The three lookups are well formed.
    pub open spec fn wf(&self) -> bool {
        &&& self.path_to_track.wf()
        &&& self.artist_name_to_id.wf()
        &&& self.album_lookup_to_id.wf()
    }

    /// An empty library.
    pub fn new() -> (r: Self)
        ensures
            r.wf(),
            r.tracks@ == Map::<u32, Track>::empty(),
            r.albums@ == Map::<u32, Album>::empty(),
            r.artists@ == Map::<u32, Artist>::empty(),
            r.path_to_track@ == Map::<Seq<char>, TrackId>::empty(),
            r.artist_name_to_id@ == Map::<Seq<char>, ArtistId>::empty(),
            r.album_lookup_to_id@ == Map::<(ArtistId, Seq<char>), AlbumId>::empty(),
    {
        DatabaseState {
            tracks: HashMap::new(),
            albums: HashMap::new(),
            artists: HashMap::new(),
            path_to_track: KeyIndex::new(),
            artist_name_to_id: KeyIndex::new(),
            album_lookup_to_id: KeyIndex::new(),
        }
    }
}

/// The in-memory music library: tracks, albums and artists with the lookups between them,
/// and the counters that hand out new identifiers.
pub struct LibraryDatabase {
    state: DatabaseState,
    track_id_counter: u32,
    album_id_counter: u32,
    artist_id_counter: u32,
}

/// The albums of a table by identifier, each by its value.
pub open spec fn album_views(m: Map<u32, Album>) -> Map<u32, AlbumView> {
    m.map_values(|a: Album| a@)
}

/// The artists of a table by identifier, each by its value.
pub open spec fn artist_views(m: Map<u32, Artist>) -> Map<u32, ArtistView> {
    m.map_values(|a: Artist| a@)
}

impl View for LibraryDatabase {
    type V = DbView;

    closed spec fn view(&self) -> DbView {
        DbView {
            tracks: self.state.tracks@,
            albums: album_views(self.state.albums@),
            artists: artist_views(self.state.artists@),
            path_to_track: self.state.path_to_track@,
            artist_name_to_id: self.state.artist_name_to_id@,
            album_lookup_to_id: self.state.album_lookup_to_id@,
            track_counter: self.track_id_counter,
            album_counter: self.album_id_counter,
            artist_counter: self.artist_id_counter,
        }
    }
}

/// The counter after one identifier has been handed out.
fn bump(c: u32) -> (r: u32)
    ensures
        r == next_counter(c),
{
    if c == u32::MAX {
        0
    } else {
        c + 1
    }
}

impl LibraryDatabase {
    /// The lookups of the library are well formed.
    pub closed spec fn wf(&self) -> bool {
        self.state.wf()
    }

    /// An empty library whose identifiers start at 1.
    pub fn new() -> (r: Self)
        ensures
            r.wf(),
            r@ == (DbView {
                tracks: Map::empty(),
                albums: Map::empty(),
                artists: Map::empty(),
                path_to_track: Map::empty(),
                artist_name_to_id: Map::empty(),
                album_lookup_to_id: Map::empty(),
                track_counter: 1,
                album_counter: 1,
                artist_counter: 1,
            }),
            r@.paths_agree(),
            r@.ids_below_counter(),
            r@.tidy(),
    {
        let r = LibraryDatabase {
            state: DatabaseState::new(),
            track_id_counter: 1,
            album_id_counter: 1,
            artist_id_counter: 1,
        };
        proof {
            assert(album_views(r.state.albums@) =~= Map::empty());
            assert(artist_views(r.state.artists@) =~= Map::empty());
        }
        r
    }

    /// Forgets every track, album and artist and restarts the identifiers at 1.
    pub fn clear(&mut self)
        ensures
            final(self).wf(),
            final(self)@ == (DbView {
                tracks: Map::empty(),
                albums: Map::empty(),
                artists: Map::empty(),
                path_to_track: Map::empty(),
                artist_name_to_id: Map::empty(),
                album_lookup_to_id: Map::empty(),
                track_counter: 1,
                album_counter: 1,
                artist_counter: 1,
            }),
            final(self)@.paths_agree(),
            final(self)@.ids_below_counter(),
            final(self)@.tidy(),
    {
        *self = LibraryDatabase::new();
    }

    /// Hands out the next track identifier.
    pub fn next_track_id(&mut self) -> (r: TrackId)
        ensures
            r == TrackId(old(self)@.track_counter),
            final(self)@ == (DbView { track_counter: next_counter(old(self)@.track_counter), ..old(self)@ }),
            final(self).wf() == old(self).wf(),
    {
        let id = TrackId(self.track_id_counter);
        self.track_id_counter = bump(self.track_id_counter);
        id
    }

    /// Hands out the next album identifier.
    pub fn next_album_id(&mut self) -> (r: AlbumId)
        ensures
            r == AlbumId(old(self)@.album_counter),
            final(self)@ == (DbView { album_counter: next_counter(old(self)@.album_counter), ..old(self)@ }),
            final(self).wf() == old(self).wf(),
    {
        let id = AlbumId(self.album_id_counter);
        self.album_id_counter = bump(self.album_id_counter);
        id
    }

    /// Hands out the next artist identifier.
    pub fn next_artist_id(&mut self) -> (r: ArtistId)
        ensures
            r == ArtistId(old(self)@.artist_counter),
            final(self)@ == (DbView { artist_counter: next_counter(old(self)@.artist_counter), ..old(self)@ }),
            final(self).wf() == old(self).wf(),
    {
        let id = ArtistId(self.artist_id_counter);
        self.artist_id_counter = bump(self.artist_id_counter);
        id
    }

    /// The track with identifier `id`.
    pub fn get_track(&self, id: TrackId) -> (r: Option<Track>)
        ensures
            r == (if self@.tracks.contains_key(id.0) { Some(self@.tracks[id.0]) } else { None }),
    {
        match self.state.tracks.get(&id.0) {
            Some(t) => Some(t.duplicate()),
            None => None,
        }
    }

    /// The album with identifier `id`.
    pub fn get_album(&self, id: AlbumId) -> (r: Option<Album>)
        ensures
            match r {
                Some(a) => self@.albums.contains_key(id.0) && a@ == self@.albums[id.0],
                None => !self@.albums.contains_key(id.0),
            },
    {
        match self.state.albums.get(&id.0) {
            Some(a) => Some(a.duplicate()),
            None => None,
        }
    }

    /// The artist with identifier `id`.
    pub fn get_artist(&self, id: ArtistId) -> (r: Option<Artist>)
        ensures
            match r {
                Some(a) => self@.artists.contains_key(id.0) && a@ == self@.artists[id.0],
                None => !self@.artists.contains_key(id.0),
            },
    {
        match self.state.artists.get(&id.0) {
            Some(a) => Some(a.duplicate()),
            None => None,
        }
    }

    /// Number of tracks.
    pub fn track_count(&self) -> (r: usize)
        ensures
            r == self@.tracks.dom().len(),
    {
        self.state.tracks.len()
    }

    /// Number of albums.
    pub fn album_count(&self) -> (r: usize)
        ensures
            r == self@.albums.dom().len(),
    {
        proof {
            assert(self@.albums.dom() =~= self.state.albums@.dom());
        }
        self.state.albums.len()
    }

    /// Number of artists.
    pub fn artist_count(&self) -> (r: usize)
        ensures
            r == self@.artists.dom().len(),
    {
        proof {
            assert(self@.artists.dom() =~= self.state.artists@.dom());
        }
        self.state.artists.len()
    }
}


/// The track stored under `k` has an artist in the library.
pub open spec fn has_artist(v: DbView, k: u32) -> bool {
    v.tracks.contains_key(k) && v.artists.contains_key(v.tracks[k].artist_id.0)
}

/// `e` lists the track stored under `k` with its album (when the library holds it) and its
/// artist.
pub open spec fn is_linked_entry(v: DbView, k: u32, e: (Track, Option<Album>, Artist)) -> bool {
    &&& has_artist(v, k)
    &&& e.0 == v.tracks[k]
    &&& e.2@ == v.artists[e.0.artist_id.0]
    &&& match e.0.album_id {
        Some(a) => if v.albums.contains_key(a.0) {
            e.1 matches Some(al) && al@ == v.albums[a.0]
        } else {
            e.1 is None
        },
        None => e.1 is None,
    }
}

/// The keys of `s` whose track has an artist, in order.
pub open spec fn keys_with_artist(v: DbView, s: Seq<u32>) -> Seq<u32>
    decreases s.len(),
{
    if s.len() == 0 {
        Seq::empty()
    } else {
        let d = keys_with_artist(v, s.drop_last());
        if has_artist(v, s.last()) {
            d.push(s.last())
        } else {
            d
        }
    }
}

/// A key is kept exactly when it occurs and its track has an artist; nothing is kept twice.
proof fn lemma_keys_with_artist(v: DbView, s: Seq<u32>)
    requires
        s.no_duplicates(),
    ensures
        keys_with_artist(v, s).no_duplicates(),
        forall|k: u32| #[trigger] keys_with_artist(v, s).contains(k) <==> (s.contains(k) && has_artist(v, k)),
    decreases s.len(),
{
    if s.len() > 0 {
        let d = s.drop_last();
        assert(d.no_duplicates());
        lemma_keys_with_artist(v, d);
        let kd = keys_with_artist(v, d);
        assert forall|k: u32| #[trigger] keys_with_artist(v, s).contains(k) <==> (s.contains(k) && has_artist(v, k)) by {
            if keys_with_artist(v, s).contains(k) {
                let i = choose|i: int| 0 <= i < keys_with_artist(v, s).len() && keys_with_artist(v, s)[i] == k;
                if i < kd.len() {
                    assert(kd[i] == k);
                    assert(kd.contains(k));
                    let j = choose|j: int| 0 <= j < d.len() && d[j] == k;
                    assert(s[j] == k);
                } else {
                    assert(s[s.len() - 1] == k);
                }
            }
            if s.contains(k) && has_artist(v, k) {
                let j = choose|j: int| 0 <= j < s.len() && s[j] == k;
                if j < d.len() {
                    assert(d[j] == k);
                    assert(kd.contains(k));
                    let i = choose|i: int| 0 <= i < kd.len() && kd[i] == k;
                    assert(keys_with_artist(v, s)[i] == k);
                } else {
                    assert(keys_with_artist(v, s)[keys_with_artist(v, s).len() - 1] == k);
                }
            }
        }
        if has_artist(v, s.last()) {
            assert(!d.contains(s.last()));
            assert(!kd.contains(s.last()));
        }
    }
}

impl LibraryDatabase {
    /// Every track whose artist the library holds, with its album (when the library holds
    /// it) and its artist, each track once, in the order in which the track table is walked
    /// (which the contract leaves open).
    pub fn linked_tracks(&self) -> (r: Vec<(Track, Option<Album>, Artist)>)
        ensures
            exists|ks: Seq<u32>|
                #![trigger ks.no_duplicates()]
                ks.len() == r@.len() && ks.no_duplicates() && (forall|i: int|
                    0 <= i < ks.len() ==> is_linked_entry(self@, ks[i], #[trigger] r@[i])) && (forall|k: u32|
                    has_artist(self@, k) ==> #[trigger] ks.contains(k)),
    {
        let ghost v = self@;
        let ghost dom = self.state.tracks@.dom();
        let mut keys: Vec<u32> = Vec::new();
        for k in it: self.state.tracks.keys()
            invariant
                dom == v.tracks.dom(),
                it.seq().unref().to_set() == dom,
                it.seq().unref().no_duplicates(),
                it.seq().unref().len() == it.seq().len(),
                keys@ == it.seq().unref().subrange(0, it.index() as int),
                it.index() == it.seq().len() ==> keys@.to_set() == dom && keys@.no_duplicates(),
        {
            proof {
                assert(it.seq().unref()[it.index() as int] == *k);
            }
            keys.push(*k);
            proof {
                assert(keys@ =~= it.seq().unref().subrange(0, it.index() + 1));
                assert(it.seq().unref().subrange(0, it.seq().len() as int) =~= it.seq().unref());
            }
        }
        let mut r: Vec<(Track, Option<Album>, Artist)> = Vec::new();
        let n = keys.len();
        let mut i: usize = 0;
        while i < n
            invariant
                v == self@,
                n == keys@.len(),
                i <= n,
                keys@.to_set() == v.tracks.dom(),
                keys@.no_duplicates(),
                keys_with_artist(v, keys@.subrange(0, i as int)).len() == r@.len(),
                forall|j: int|
                    0 <= j < r@.len() ==> is_linked_entry(v, keys_with_artist(v, keys@.subrange(0, i as int))[j], #[trigger] r@[j]),
            decreases n - i,
        {
            let k = keys[i];
            let ghost pre = keys@.subrange(0, i as int);
            let ghost next = keys@.subrange(0, i + 1);
            proof {
                assert(next.drop_last() =~= pre);
                assert(next.last() == k);
                assert(keys@.to_set().contains(k));
            }
            let track = match self.state.tracks.get(&k) {
                Some(t) => t.duplicate(),
                None => {
                    proof {
                        assert(false);
                    }
                    i = i + 1;
                    continue;
                },
            };
            if let Some(artist) = self.get_artist(track.artist_id) {
                let album = match track.album_id {
                    Some(aid) => self.get_album(aid),
                    None => None,
                };
                r.push((track, album, artist));
                proof {
                    assert(keys_with_artist(v, next) == keys_with_artist(v, pre).push(k));
                }
            } else {
                proof {
                    assert(keys_with_artist(v, next) == keys_with_artist(v, pre));
                }
            }
            i = i + 1;
        }
        proof {
            let s = keys@;
            assert(s.subrange(0, n as int) =~= s);
            lemma_keys_with_artist(v, s);
            let ks = keys_with_artist(v, s);
            assert forall|k: u32| has_artist(v, k) implies #[trigger] ks.contains(k) by {
                assert(s.to_set().contains(k));
            }
            assert(ks.no_duplicates());
        }
        r
    }
}

proof fn lemma_album_views_insert(m: Map<u32, Album>, k: u32, a: Album)
    ensures
        album_views(m.insert(k, a)) == album_views(m).insert(k, a@),
{
    assert(album_views(m.insert(k, a)) =~= album_views(m).insert(k, a@));
}

proof fn lemma_album_views_remove(m: Map<u32, Album>, k: u32)
    ensures
        album_views(m.remove(k)) == album_views(m).remove(k),
{
    assert(album_views(m.remove(k)) =~= album_views(m).remove(k));
}

proof fn lemma_artist_views_insert(m: Map<u32, Artist>, k: u32, a: Artist)
    ensures
        artist_views(m.insert(k, a)) == artist_views(m).insert(k, a@),
{
    assert(artist_views(m.insert(k, a)) =~= artist_views(m).insert(k, a@));
}

proof fn lemma_artist_views_remove(m: Map<u32, Artist>, k: u32)
    ensures
        artist_views(m.remove(k)) == artist_views(m).remove(k),
{
    assert(artist_views(m.remove(k)) =~= artist_views(m).remove(k));
}

/// The list with every occurrence of `x` taken out.
fn without_track(v: &Vec<TrackId>, x: TrackId) -> (r: Vec<TrackId>)
    ensures
        r@ == without(v@, x),
{
    let mut r: Vec<TrackId> = Vec::new();
    let mut i: usize = 0;
    while i < v.len()
        invariant
            i <= v@.len(),
            r@ == without(v@.subrange(0, i as int), x),
        decreases v@.len() - i,
    {
        proof {
            assert(v@.subrange(0, i + 1).drop_last() =~= v@.subrange(0, i as int));
        }
        if v[i] != x {
            r.push(v[i]);
        }
        i = i + 1;
    }
    proof {
        assert(v@.subrange(0, i as int) =~= v@);
    }
    r
}

/// The list with every occurrence of `x` taken out.
fn without_album(v: &Vec<AlbumId>, x: AlbumId) -> (r: Vec<AlbumId>)
    ensures
        r@ == without(v@, x),
{
    let mut r: Vec<AlbumId> = Vec::new();
    let mut i: usize = 0;
    while i < v.len()
        invariant
            i <= v@.len(),
            r@ == without(v@.subrange(0, i as int), x),
        decreases v@.len() - i,
    {
        proof {
            assert(v@.subrange(0, i + 1).drop_last() =~= v@.subrange(0, i as int));
        }
        if v[i] != x {
            r.push(v[i]);
        }
        i = i + 1;
    }
    proof {
        assert(v@.subrange(0, i as int) =~= v@);
    }
    r
}

/// Whether `x` occurs in the list.
fn holds_track(v: &Vec<TrackId>, x: TrackId) -> (r: bool)
    ensures
        r == v@.contains(x),
{
    let mut i: usize = 0;
    while i < v.len()
        invariant
            i <= v@.len(),
            forall|j: int| 0 <= j < i ==> v@[j] != x,
        decreases v@.len() - i,
    {
        if v[i] == x {
            return true;
        }
        i = i + 1;
    }
    false
}

impl LibraryDatabase {
    /// The artist called `name`, created when the library has none (see
    /// [`DbView::resolve_artist`]).
    pub fn resolve_or_create_artist(&mut self, name: &str) -> (r: ArtistId)
        requires
            old(self).wf(),
        ensures
            final(self).wf(),
            final(self)@ == old(self)@.resolve_artist(name@).0,
            r == old(self)@.resolve_artist(name@).1,
    {
        let key = name.to_owned();
        if let Some(id) = self.state.artist_name_to_id.get(&key) {
            return id;
        }
        let id = self.next_artist_id();
        let artist = Artist { id, name: key.clone(), albums: Vec::new(), standalone_tracks: Vec::new() };
        proof {
            assert(artist@.albums =~= Seq::<AlbumId>::empty());
            assert(artist@.standalone_tracks =~= Seq::<TrackId>::empty());
            lemma_artist_views_insert(self.state.artists@, id.0, artist);
        }
        self.state.artist_name_to_id.insert(key, id);
        self.state.artists.insert(id.0, artist);
        id
    }

    /// The album titled `title` owned by `artist_id`, created when the library has none (see
    /// [`DbView::resolve_album`]).
    pub fn resolve_or_create_album(
        &mut self,
        artist_id: ArtistId,
        title: &str,
        year: Option<u16>,
        is_compilation: bool,
    ) -> (r: AlbumId)
        requires
            old(self).wf(),
        ensures
            final(self).wf(),
            final(self)@ == old(self)@.resolve_album(artist_id, title@, year, is_compilation).0,
            r == old(self)@.resolve_album(artist_id, title@, year, is_compilation).1,
    {
        let title_str = title.to_owned();
        let key = AlbumKey { artist_id, title: title_str.clone() };
        if let Some(id) = self.state.album_lookup_to_id.get(&key) {
            return id;
        }
        let id = self.next_album_id();
        let album = Album { id, title: title_str, artist_id, year, is_compilation, tracks: Vec::new() };
        proof {
            assert(album@.tracks =~= Seq::<TrackId>::empty());
            lemma_album_views_insert(self.state.albums@, id.0, album);
        }
        self.state.album_lookup_to_id.insert(key, id);
        self.state.albums.insert(id.0, album);

        let ghost arts0 = self.state.artists@;
        match self.state.artists.remove(&artist_id.0) {
            Some(mut artist) => {
                artist.albums.push(id);
                proof {
                    assert(artist@ == (ArtistView { albums: arts0[artist_id.0]@.albums.push(id), ..arts0[artist_id.0]@ }));
                    assert(self.state.artists@.insert(artist_id.0, artist) =~= arts0.insert(artist_id.0, artist));
                    lemma_artist_views_insert(arts0, artist_id.0, artist);
                }
                self.state.artists.insert(artist_id.0, artist);
            },
            None => {},
        }
        id
    }
}


/// The text of an optional name.
pub open spec fn opt_text(o: Option<&str>) -> Option<Seq<char>> {
    match o {
        Some(s) => Some(s@),
        None => None,
    }
}

/// `t` is a track record with the given identifier and fields.
pub open spec fn is_track_record(
    t: Track,
    id: TrackId,
    path: Seq<char>,
    mtime: u64,
    file_size: u64,
    title: Seq<char>,
    artist_id: ArtistId,
    album_artist_id: Option<ArtistId>,
    album_id: Option<AlbumId>,
    duration_ms: u32,
    track_number: Option<u16>,
    disc_number: Option<u8>,
    year: Option<u16>,
    format: AudioFormat,
    sample_rate: Option<u32>,
    bitrate: Option<u32>,
    bit_depth: Option<u8>,
    channels: Option<u8>,
    track_gain_db: Option<u32>,
    track_peak: Option<u32>,
    album_gain_db: Option<u32>,
    album_peak: Option<u32>,
) -> bool {
    &&& t.id == id
    &&& t.path@ == path
    &&& t.mtime == mtime
    &&& t.file_size == file_size
    &&& t.title@ == title
    &&& t.artist_id == artist_id
    &&& t.album_artist_id == album_artist_id
    &&& t.album_id == album_id
    &&& t.duration_ms == duration_ms
    &&& t.track_number == track_number
    &&& t.disc_number == disc_number
    &&& t.year == year
    &&& t.format == format
    &&& t.sample_rate == sample_rate
    &&& t.bitrate == bitrate
    &&& t.bit_depth == bit_depth
    &&& t.channels == channels
    &&& t.track_gain_db == track_gain_db
    &&& t.track_peak == track_peak
    &&& t.album_gain_db == album_gain_db
    &&& t.album_peak == album_peak
}


/// What [`LibraryDatabase::insert_track`] does (see there), from `old` to `new` with result `r`.
pub open spec fn track_inserted(
    old: DbView,
    new: DbView,
    r: TrackId,
    path: Seq<char>,
    mtime: u64,
    file_size: u64,
    title: Seq<char>,
    artist_name: Seq<char>,
    album_artist_name: Option<Seq<char>>,
    album_name: Option<Seq<char>>,
    duration_ms: u32,
    track_number: Option<u16>,
    disc_number: Option<u8>,
    year: Option<u16>,
    format: AudioFormat,
    sample_rate: Option<u32>,
    bitrate: Option<u32>,
    bit_depth: Option<u8>,
    channels: Option<u8>,
    track_gain_db: Option<u32>,
    track_peak: Option<u32>,
    album_gain_db: Option<u32>,
    album_peak: Option<u32>,
) -> bool {
    &&& new.path_to_track =~= old.path_to_track.insert(normal_path(path), r)
    &&& (old.path_to_track.contains_key(normal_path(path)) ==> r == old.path_to_track[normal_path(path)] && new == old)
    &&& (!old.path_to_track.contains_key(normal_path(path)) ==> {

                let (s2, artist_id, album_artist_id, album_id) = old.resolve_links(
                    artist_name,
                    album_artist_name,
                    album_name,
                    year,
                );
                let tid = TrackId(s2.track_counter);
                let s3 = s2.attach(album_id, artist_id, tid);
                &&& r == tid
                &&& new == (DbView {
                    tracks: s2.tracks.insert(tid.0, new.tracks[tid.0]),
                    path_to_track: s2.path_to_track.insert(normal_path(path), tid),
                    track_counter: next_counter(s2.track_counter),
                    ..s3
                })
                &&& is_track_record(
                    new.tracks[tid.0],
                    tid,
                    path,
                    mtime,
                    file_size,
                    title,
                    artist_id,
                    album_artist_id,
                    album_id,
                    duration_ms,
                    track_number,
                    disc_number,
                    year,
                    format,
                    sample_rate,
                    bitrate,
                    bit_depth,
                    channels,
                    track_gain_db,
                    track_peak,
                    album_gain_db,
                    album_peak,
                )
                })
}

/// What [`LibraryDatabase::update_track_metadata`] does (see there), from `old` to `new`
/// with result `r`.
pub open spec fn track_updated(
    old: DbView,
    new: DbView,
    r: Option<TrackId>,
    path: Seq<char>,
    mtime: u64,
    file_size: u64,
    title: Seq<char>,
    artist_name: Seq<char>,
    album_artist_name: Option<Seq<char>>,
    album_name: Option<Seq<char>>,
    duration_ms: u32,
    track_number: Option<u16>,
    disc_number: Option<u8>,
    year: Option<u16>,
    sample_rate: Option<u32>,
    bitrate: Option<u32>,
    bit_depth: Option<u8>,
    channels: Option<u8>,
    track_gain_db: Option<u32>,
    track_peak: Option<u32>,
    album_gain_db: Option<u32>,
    album_peak: Option<u32>,
) -> bool {
    &&& (old.track_at_path(path) is None ==> r == None::<TrackId> && new == old)
    &&& (old.track_at_path(path) matches Some(old_t) ==> {
                let tid = old.path_to_track[normal_path(path)];
                let (s2, new_artist, new_album_artist, new_album) = old.resolve_links(
                    artist_name,
                    album_artist_name,
                    album_name,
                    year,
                );
                let s6 = s2.relink(tid, old_t.album_id, old_t.artist_id, new_album, new_artist);
                &&& r == Some(tid)
                &&& new == (DbView { tracks: s6.tracks.insert(tid.0, new.tracks[tid.0]), ..s6 })
                &&& is_track_record(
                    new.tracks[tid.0],
                    old_t.id,
                    old_t.path@,
                    mtime,
                    file_size,
                    title,
                    new_artist,
                    new_album_artist,
                    new_album,
                    duration_ms,
                    track_number,
                    disc_number,
                    year,
                    old_t.format,
                    sample_rate,
                    bitrate,
                    bit_depth,
                    channels,
                    track_gain_db,
                    track_peak,
                    album_gain_db,
                    album_peak,
                )
            })
}

/// Whether an album-artist name marks a compilation ("various artists", in any ASCII case).
fn names_compilation(name: &str) -> (r: bool)
    ensures
        r == eq_ignore_ascii_case_spec(name@, various_artists()),
{
    proof {
        reveal_strlit("various artists");
        assert("various artists"@ =~= various_artists());
    }
    eq_ignore_ascii_case(name, "various artists")
}

impl LibraryDatabase {
    /// See [`DbView::detach_from_album`].
    fn detach_from_album(&mut self, aid: AlbumId, tid: TrackId)
        requires
            old(self).wf(),
        ensures
            final(self).wf(),
            final(self)@ == old(self)@.detach_from_album(aid, tid),
    {
        let ghost albums0 = self.state.albums@;
        let ghost arts0 = self.state.artists@;
        match self.state.albums.remove(&aid.0) {
            Some(mut album) => {
                album.tracks = without_track(&album.tracks, tid);
                if album.tracks.len() > 0 {
                    proof {
                        assert(self.state.albums@.insert(aid.0, album) =~= albums0.insert(aid.0, album));
                        lemma_album_views_insert(albums0, aid.0, album);
                    }
                    self.state.albums.insert(aid.0, album);
                } else {
                    proof {
                        lemma_album_views_remove(albums0, aid.0);
                    }
                    let owner = album.artist_id;
                    let key = AlbumKey { artist_id: album.artist_id, title: album.title };
                    self.state.album_lookup_to_id.remove(&key);
                    match self.state.artists.remove(&owner.0) {
                        Some(mut art) => {
                            art.albums = without_album(&art.albums, aid);
                            proof {
                                assert(self.state.artists@.insert(owner.0, art) =~= arts0.insert(owner.0, art));
                                lemma_artist_views_insert(arts0, owner.0, art);
                            }
                            self.state.artists.insert(owner.0, art);
                        },
                        None => {},
                    }
                }
            },
            None => {},
        }
    }

    /// See [`DbView::detach_standalone`].
    fn detach_standalone(&mut self, artist: ArtistId, tid: TrackId)
        requires
            old(self).wf(),
        ensures
            final(self).wf(),
            final(self)@ == old(self)@.detach_standalone(artist, tid),
    {
        let ghost arts0 = self.state.artists@;
        match self.state.artists.remove(&artist.0) {
            Some(mut art) => {
                art.standalone_tracks = without_track(&art.standalone_tracks, tid);
                proof {
                    assert(self.state.artists@.insert(artist.0, art) =~= arts0.insert(artist.0, art));
                    lemma_artist_views_insert(arts0, artist.0, art);
                }
                self.state.artists.insert(artist.0, art);
            },
            None => {},
        }
    }

    /// See [`DbView::drop_artist_if_empty`].
    fn drop_artist_if_empty(&mut self, artist: ArtistId)
        requires
            old(self).wf(),
        ensures
            final(self).wf(),
            final(self)@ == old(self)@.drop_artist_if_empty(artist),
    {
        let mut name: Option<String> = None;
        match self.state.artists.get(&artist.0) {
            Some(a) => {
                if a.albums.len() == 0 && a.standalone_tracks.len() == 0 {
                    name = Some(a.name.clone());
                }
            },
            None => {},
        }
        match name {
            Some(n) => {
                proof {
                    lemma_artist_views_remove(self.state.artists@, artist.0);
                }
                self.state.artists.remove(&artist.0);
                self.state.artist_name_to_id.remove(&n);
            },
            None => {},
        }
    }

    /// See [`DbView::attach`].
    fn attach(&mut self, album: Option<AlbumId>, artist: ArtistId, tid: TrackId)
        requires
            old(self).wf(),
        ensures
            final(self).wf(),
            final(self)@ == old(self)@.attach(album, artist, tid),
    {
        match album {
            Some(aid) => {
                let ghost albums0 = self.state.albums@;
                match self.state.albums.remove(&aid.0) {
                    Some(mut a) => {
                        a.tracks.push(tid);
                        proof {
                            assert(self.state.albums@.insert(aid.0, a) =~= albums0.insert(aid.0, a));
                            lemma_album_views_insert(albums0, aid.0, a);
                        }
                        self.state.albums.insert(aid.0, a);
                    },
                    None => {},
                }
            },
            None => {
                let ghost arts0 = self.state.artists@;
                match self.state.artists.remove(&artist.0) {
                    Some(mut art) => {
                        art.standalone_tracks.push(tid);
                        proof {
                            assert(self.state.artists@.insert(artist.0, art) =~= arts0.insert(artist.0, art));
                            lemma_artist_views_insert(arts0, artist.0, art);
                        }
                        self.state.artists.insert(artist.0, art);
                    },
                    None => {},
                }
            },
        }
    }

    /// See [`DbView::attach_once`].
    fn attach_once(&mut self, album: Option<AlbumId>, artist: ArtistId, tid: TrackId)
        requires
            old(self).wf(),
        ensures
            final(self).wf(),
            final(self)@ == old(self)@.attach_once(album, artist, tid),
    {
        let listed = match album {
            Some(aid) => match self.state.albums.get(&aid.0) {
                Some(a) => holds_track(&a.tracks, tid),
                None => true,
            },
            None => match self.state.artists.get(&artist.0) {
                Some(a) => holds_track(&a.standalone_tracks, tid),
                None => true,
            },
        };
        if !listed {
            self.attach(album, artist, tid);
        }
    }

    /// Adds a track for the file at `path`, creating its artist, album artist and album when
    /// the library does not have them yet.  The track is listed in its album, or among its
    /// artist's standalone tracks when it has no album.  The album is owned by the album
    /// artist when there is one, by the track artist otherwise, and is a compilation when
    /// the album artist is "various artists" (in any ASCII case).  A path the library
    /// already holds (paths with the same normal form are one) is left as it is, and its
    /// track identifier is returned.
    pub fn insert_track(
        &mut self,
        path: String,
        mtime: u64,
        file_size: u64,
        title: &str,
        artist_name: &str,
        album_artist_name: Option<&str>,
        album_name: Option<&str>,
        duration_ms: u32,
        track_number: Option<u16>,
        disc_number: Option<u8>,
        year: Option<u16>,
        format: AudioFormat,
        sample_rate: Option<u32>,
        bitrate: Option<u32>,
        bit_depth: Option<u8>,
        channels: Option<u8>,
        track_gain_db: Option<u32>,
        track_peak: Option<u32>,
        album_gain_db: Option<u32>,
        album_peak: Option<u32>,
    ) -> (r: TrackId)
        requires
            old(self).wf(),
        ensures
            final(self).wf(),
            track_inserted(
                old(self)@,
                final(self)@,
                r,
                path@,
                mtime,
                file_size,
                title@,
                artist_name@,
                opt_text(album_artist_name),
                opt_text(album_name),
                duration_ms,
                track_number,
                disc_number,
                year,
                format,
                sample_rate,
                bitrate,
                bit_depth,
                channels,
                track_gain_db,
                track_peak,
                album_gain_db,
                album_peak,
            ),
            // a new track is found again by its path
            !old(self)@.path_to_track.contains_key(normal_path(path@)) ==> final(self)@.track_at_path(path@) == Some(
                final(self)@.tracks[r.0],
            ),
            // a new track gets the counter's identifier, which is fresh while every stored
            // identifier lies below the counter
            !old(self)@.path_to_track.contains_key(normal_path(path@)) ==> r.0 == old(self)@.track_counter,
            !old(self)@.path_to_track.contains_key(normal_path(path@)) && old(self)@.ids_below_counter()
                ==> !old(self)@.tracks.contains_key(r.0),
            old(self)@.ids_below_counter() && old(self)@.track_counter < u32::MAX
                ==> final(self)@.ids_below_counter(),
    {
        let key = normalize_path(path.as_str());
        if let Some(existing_id) = self.state.path_to_track.get(&key) {
            return existing_id;
        }

        let (artist_id, album_artist_id, album_id) = self.resolve_links(
            artist_name,
            album_artist_name,
            album_name,
            year,
        );
        let track_id = self.next_track_id();

        let track = Track {
            id: track_id,
            path: path.clone(),
            mtime,
            file_size,
            title: title.to_owned(),
            artist_id,
            album_artist_id,
            album_id,
            duration_ms,
            track_number,
            disc_number,
            year,
            format,
            sample_rate,
            bitrate,
            bit_depth,
            channels,
            track_gain_db,
            track_peak,
            album_gain_db,
            album_peak,
        };

        self.state.path_to_track.insert(key, track_id);
        self.state.tracks.insert(track_id.0, track);
        self.attach(album_id, artist_id, track_id);
        track_id
    }

    /// Deletes the track stored under `path` (see [`DbView::remove_track`]) and returns its
    /// identifier.  Paths with the same normal form name the same track.
    pub fn remove_track_by_path(&mut self, path: &str) -> (r: Option<TrackId>)
        requires
            old(self).wf(),
        ensures
            final(self).wf(),
            final(self)@ == old(self)@.remove_track(path@).0,
            r == old(self)@.remove_track(path@).1,
            // a removed path is gone
            !final(self)@.path_to_track.contains_key(normal_path(path@)),
            final(self)@.track_at_path(path@) is None,
    {
        let key = normalize_path(path);
        self.remove_by_key(key)
    }

    /// Deletes the track stored under the normal form `key` (see [`DbView::remove_key`]).
    fn remove_by_key(&mut self, key: String) -> (r: Option<TrackId>)
        requires
            old(self).wf(),
        ensures
            final(self).wf(),
            final(self)@ == old(self)@.remove_key(key@).0,
            r == old(self)@.remove_key(key@).1,
            !final(self)@.path_to_track.contains_key(key@),
    {
        let track_id = match self.state.path_to_track.remove(&key) {
            Some(t) => t,
            None => {
                return None;
            },
        };
        let track = match self.state.tracks.remove(&track_id.0) {
            Some(t) => t,
            None => {
                return None;
            },
        };

        match track.album_id {
            Some(album_id) => self.detach_from_album(album_id, track_id),
            None => self.detach_standalone(track.artist_id, track_id),
        }
        self.drop_artist_if_empty(track.artist_id);
        Some(track_id)
    }

    /// The track stored under `path` (or under any path with the same normal form).
    pub fn get_track_by_path(&self, path: &str) -> (r: Option<Track>)
        requires
            self.wf(),
        ensures
            r == self@.track_at_path(path@),
    {
        let key = normalize_path(path);
        match self.state.path_to_track.get(&key) {
            Some(id) => self.get_track(id),
            None => None,
        }
    }

    /// Whether the file at `path` must be read again: it is unknown, or its stored
    /// modification time or size differ from the given ones.
    pub fn should_rescan(&self, path: &str, mtime: u64, file_size: u64) -> (r: bool)
        requires
            self.wf(),
        ensures
            r == match self@.track_at_path(path@) {
                Some(t) => t.mtime != mtime || t.file_size != file_size,
                None => true,
            },
    {
        match self.get_track_by_path(path) {
            Some(t) => t.mtime != mtime || t.file_size != file_size,
            None => true,
        }
    }
}


/// Whether two optional album identifiers are the same.
fn same_album(a: Option<AlbumId>, b: Option<AlbumId>) -> (r: bool)
    ensures
        r == (a == b),
{
    match (a, b) {
        (Some(x), Some(y)) => x.0 == y.0,
        (None, None) => true,
        _ => false,
    }
}

impl LibraryDatabase {
    /// See [`DbView::resolve_links`].
    fn resolve_links(
        &mut self,
        artist_name: &str,
        album_artist_name: Option<&str>,
        album_name: Option<&str>,
        year: Option<u16>,
    ) -> (r: (ArtistId, Option<ArtistId>, Option<AlbumId>))
        requires
            old(self).wf(),
        ensures
            final(self).wf(),
            ({
                let (s, a, aa, al) = old(self)@.resolve_links(
                    artist_name@,
                    opt_text(album_artist_name),
                    opt_text(album_name),
                    year,
                );
                final(self)@ == s && r == (a, aa, al)
            }),
    {
        let artist_id = self.resolve_or_create_artist(artist_name);
        let album_artist_id = match album_artist_name {
            Some(name) => Some(self.resolve_or_create_artist(name)),
            None => None,
        };
        let album_owner_id = match album_artist_id {
            Some(a) => a,
            None => artist_id,
        };
        let is_compilation = match album_artist_name {
            Some(a) => names_compilation(a),
            None => false,
        };
        let album_id = match album_name {
            Some(name) => Some(self.resolve_or_create_album(album_owner_id, name, year, is_compilation)),
            None => None,
        };
        (artist_id, album_artist_id, album_id)
    }

    /// See [`DbView::relink`].
    fn relink(
        &mut self,
        tid: TrackId,
        old_album: Option<AlbumId>,
        old_artist: ArtistId,
        new_album: Option<AlbumId>,
        new_artist: ArtistId,
    )
        requires
            old(self).wf(),
        ensures
            final(self).wf(),
            final(self)@ == old(self)@.relink(tid, old_album, old_artist, new_album, new_artist),
    {
        let album_changed = !same_album(old_album, new_album);
        if album_changed {
            if let Some(old_aid) = old_album {
                self.detach_from_album(old_aid, tid);
            }
        }
        if old_artist != new_artist && old_album.is_none() {
            self.detach_standalone(old_artist, tid);
        }
        if old_artist != new_artist {
            self.drop_artist_if_empty(old_artist);
        }
        if album_changed {
            self.attach_once(new_album, new_artist, tid);
        }
    }
}

impl LibraryDatabase {
    /// Replaces the tags of the track stored under `path` (its path, identifier and format
    /// stay).  The new artist, album artist and album are resolved or created as for
    /// [`LibraryDatabase::insert_track`]; when the album changes, the track leaves its old
    /// album (deleting it when left empty) and joins the new one; when the artist changes,
    /// a standalone track leaves its old artist, and the old artist is deleted when left
    /// with nothing.  Returns `None`, changing nothing, when no track is stored under `path`.
    #[verifier::rlimit(40)]
    pub fn update_track_metadata(
        &mut self,
        path: &str,
        mtime: u64,
        file_size: u64,
        title: &str,
        artist_name: &str,
        album_artist_name: Option<&str>,
        album_name: Option<&str>,
        duration_ms: u32,
        track_number: Option<u16>,
        disc_number: Option<u8>,
        year: Option<u16>,
        sample_rate: Option<u32>,
        bitrate: Option<u32>,
        bit_depth: Option<u8>,
        channels: Option<u8>,
        track_gain_db: Option<u32>,
        track_peak: Option<u32>,
        album_gain_db: Option<u32>,
        album_peak: Option<u32>,
    ) -> (r: Option<TrackId>)
        requires
            old(self).wf(),
        ensures
            final(self).wf(),
            track_updated(
                old(self)@,
                final(self)@,
                r,
                path@,
                mtime,
                file_size,
                title@,
                artist_name@,
                opt_text(album_artist_name),
                opt_text(album_name),
                duration_ms,
                track_number,
                disc_number,
                year,
                sample_rate,
                bitrate,
                bit_depth,
                channels,
                track_gain_db,
                track_peak,
                album_gain_db,
                album_peak,
            ),
    {
        let key = normalize_path(path);
        let track_id = match self.state.path_to_track.get(&key) {
            Some(t) => t,
            None => {
                return None;
            },
        };
        let old_track = match self.state.tracks.get(&track_id.0) {
            Some(t) => t.duplicate(),
            None => {
                return None;
            },
        };

        let (new_artist_id, new_album_artist_id, new_album_id) = self.resolve_links(
            artist_name,
            album_artist_name,
            album_name,
            year,
        );
        self.relink(track_id, old_track.album_id, old_track.artist_id, new_album_id, new_artist_id);

        let ghost tracks0 = self.state.tracks@;
        match self.state.tracks.remove(&track_id.0) {
            Some(mut track) => {
                track.mtime = mtime;
                track.file_size = file_size;
                track.title = title.to_owned();
                track.artist_id = new_artist_id;
                track.album_artist_id = new_album_artist_id;
                track.album_id = new_album_id;
                track.duration_ms = duration_ms;
                track.track_number = track_number;
                track.disc_number = disc_number;
                track.year = year;
                track.sample_rate = sample_rate;
                track.bitrate = bitrate;
                track.bit_depth = bit_depth;
                track.channels = channels;
                track.track_gain_db = track_gain_db;
                track.track_peak = track_peak;
                track.album_gain_db = album_gain_db;
                track.album_peak = album_peak;
                proof {
                    assert(self.state.tracks@.insert(track_id.0, track) =~= tracks0.insert(track_id.0, track));
                }
                self.state.tracks.insert(track_id.0, track);
            },
            None => {},
        }

        Some(track_id)
    }
}


/// Whether `path` lies under `base`, as `std::path::Path::starts_with` answers it on Unix:
/// the components of `base` (see [`components`]) are the leading components of `path`.
pub open spec fn path_has_prefix(path: Seq<char>, base: Seq<char>) -> bool {
    let cp = components(path);
    let cb = components(base);
    cb.len() <= cp.len() && cp.subrange(0, cb.len() as int) == cb
}

/// Whether `path` lies under `base` (see [`path_has_prefix`]).
fn path_starts_with(path: &str, base: &str) -> (r: bool)
    ensures
        r == path_has_prefix(path@, base@),
{
    let cp = path_components(path);
    let cb = path_components(base);
    let ghost vp = cp@.map_values(|x: String| x@);
    let ghost vb = cb@.map_values(|x: String| x@);
    if cb.len() > cp.len() {
        return false;
    }
    let mut i: usize = 0;
    while i < cb.len()
        invariant
            cb.len() <= cp.len(),
            vp == cp@.map_values(|x: String| x@),
            vb == cb@.map_values(|x: String| x@),
            vp == components(path@),
            vb == components(base@),
            i <= cb.len(),
            forall|j: int| 0 <= j < i ==> vp[j] == vb[j],
        decreases cb.len() - i,
    {
        if !text_eq(cp[i].as_str(), cb[i].as_str()) {
            proof {
                assert(vp[i as int] == cp@[i as int]@);
                assert(vb[i as int] == cb@[i as int]@);
                assert(vp.subrange(0, vb.len() as int)[i as int] != vb[i as int]);
            }
            return false;
        }
        proof {
            assert(vp[i as int] == cp@[i as int]@);
            assert(vb[i as int] == cb@[i as int]@);
        }
        i = i + 1;
    }
    proof {
        assert(vp.subrange(0, vb.len() as int) =~= vb);
    }
    true
}

/// A path lies under a base exactly when the base's components are its leading
/// components, position by position: a path whose component differs from the base's at
/// any position of the base (as `/media/alice/USB2/x` against `/media/alice/USB1`) is not
/// under it.  Every path lies under itself, and lying under is transitive.
pub proof fn law_prefix_means_leading_components(p: Seq<char>, b: Seq<char>, c: Seq<char>)
    ensures
        path_has_prefix(p, b) <==> (components(b).len() <= components(p).len() && forall|i: int|
            0 <= i < components(b).len() ==> #[trigger] components(p)[i] == components(b)[i]),
        (exists|i: int|
            0 <= i < components(b).len() && i < components(p).len() && #[trigger] components(p)[i]
                != components(b)[i]) ==> !path_has_prefix(p, b),
        path_has_prefix(p, p),
        path_has_prefix(p, b) && path_has_prefix(b, c) ==> path_has_prefix(p, c),
{
    let cp = components(p);
    let cb = components(b);
    let cc = components(c);
    if cb.len() <= cp.len() && forall|i: int| 0 <= i < cb.len() ==> #[trigger] cp[i] == cb[i] {
        assert(cp.subrange(0, cb.len() as int) =~= cb);
    }
    if path_has_prefix(p, b) {
        assert forall|i: int| 0 <= i < cb.len() implies #[trigger] cp[i] == cb[i] by {
            assert(cp.subrange(0, cb.len() as int)[i] == cp[i]);
        }
    }
    assert(cp.subrange(0, cp.len() as int) =~= cp);
    if path_has_prefix(p, b) && path_has_prefix(b, c) {
        assert(cp.subrange(0, cc.len() as int) =~= cc) by {
            assert forall|i: int| 0 <= i < cc.len() implies cp.subrange(0, cc.len() as int)[i] == cc[i] by {
                assert(cb.subrange(0, cc.len() as int)[i] == cb[i]);
                assert(cp.subrange(0, cb.len() as int)[i] == cp[i]);
            }
        }
    }
}

/// A path lies under its parent: a name (with no separator, and not ".") appended after a
/// separator gives a path under the original one, one component deeper.  Two different
/// names give two places that no path lies under both: what lies under
/// `/media/alice/USB2` does not lie under `/media/alice/USB1`.
pub proof fn law_children_lie_under_their_parent_only(p: Seq<char>, b: Seq<char>, x: Seq<char>, y: Seq<char>)
    requires
        b.len() > 0,
        x.len() > 0,
        x != seq!['.'],
        forall|i: int| 0 <= i < x.len() ==> x[i] != '/',
        y.len() > 0,
        y != seq!['.'],
        forall|i: int| 0 <= i < y.len() ==> y[i] != '/',
    ensures
        path_has_prefix(b + seq!['/'] + x, b),
        !path_has_prefix(b, b + seq!['/'] + x),
        x != y && path_has_prefix(p, b + seq!['/'] + x) ==> !path_has_prefix(p, b + seq!['/'] + y),
{
    lemma_components_of_child(b, x);
    lemma_components_of_child(b, y);
    let cb = components(b);
    let cx = components(b + seq!['/'] + x);
    let cy = components(b + seq!['/'] + y);
    assert(cx.subrange(0, cb.len() as int) =~= cb);
    let cp = components(p);
    if x != y && path_has_prefix(p, b + seq!['/'] + x) && path_has_prefix(p, b + seq!['/'] + y) {
        assert(cp.subrange(0, cx.len() as int)[cb.len() as int] == cx[cb.len() as int]);
        assert(cp.subrange(0, cy.len() as int)[cb.len() as int] == cy[cb.len() as int]);
    }
}

/// The texts of a list of strings.
pub open spec fn texts(v: Seq<String>) -> Seq<Seq<char>> {
    v.map_values(|s: String| s@)
}

/// The normal forms of a list of paths (see [`normal_path`]).
fn normalize_all(v: &[String]) -> (r: Vec<String>)
    ensures
        texts(r@) == normal_paths(texts(v@)),
{
    let mut r: Vec<String> = Vec::new();
    let mut i: usize = 0;
    while i < v.len()
        invariant
            i <= v@.len(),
            texts(r@) == normal_paths(texts(v@.subrange(0, i as int))),
        decreases v@.len() - i,
    {
        let k = normalize_path(v[i].as_str());
        let ghost before = r@;
        r.push(k);
        proof {
            assert(texts(r@) =~= texts(before).push(k@));
            assert(normal_paths(texts(v@.subrange(0, i + 1))) =~= normal_paths(texts(v@.subrange(0, i as int))).push(
                normal_path(v@[i as int]@),
            ));
        }
        i = i + 1;
    }
    proof {
        assert(v@.subrange(0, i as int) =~= v@);
    }
    r
}

/// Whether `p` is one of the texts in `v`.
fn holds_text(v: &[String], p: &str) -> (r: bool)
    ensures
        r == texts(v@).contains(p@),
{
    let ps = p.to_owned();
    let mut i: usize = 0;
    while i < v.len()
        invariant
            ps@ == p@,
            i <= v@.len(),
            forall|j: int| 0 <= j < i ==> v@[j]@ != p@,
        decreases v@.len() - i,
    {
        if v[i] == ps {
            proof {
                assert(v@[i as int]@ == p@);
                assert(texts(v@)[i as int] == p@);
            }
            return true;
        }
        i = i + 1;
    }
    proof {
        assert forall|j: int| 0 <= j < texts(v@).len() implies texts(v@)[j] != p@ by {
            assert(v@[j]@ != p@);
        }
    }
    false
}

/// Whether `path` lies under one of `roots`.
fn under_some_root(path: &str, roots: &[String]) -> (r: bool)
    ensures
        r == exists|i: int| 0 <= i < roots@.len() && path_has_prefix(path@, #[trigger] texts(roots@)[i]),
{
    let mut found = false;
    let mut j: usize = 0;
    while j < roots.len()
        invariant
            j <= roots@.len(),
            found == exists|t: int| 0 <= t < j && path_has_prefix(path@, #[trigger] texts(roots@)[t]),
        decreases roots@.len() - j,
    {
        if path_starts_with(path, roots[j].as_str()) {
            found = true;
        }
        proof {
            assert(texts(roots@)[j as int] == roots@[j as int]@);
        }
        j = j + 1;
    }
    found
}

/// The normal forms of a list of paths.
pub open spec fn normal_paths(v: Seq<Seq<char>>) -> Seq<Seq<char>> {
    v.map_values(|p: Seq<char>| normal_path(p))
}

/// Whether the track under the normal form `path` is to be pruned: no live path has that
/// normal form and, when roots are given, it lies under one of them.
pub open spec fn is_prunable(path: Seq<char>, roots: Option<Seq<Seq<char>>>, live: Seq<Seq<char>>) -> bool {
    &&& !normal_paths(live).contains(path)
    &&& match roots {
        Some(rs) => exists|i: int| 0 <= i < rs.len() && path_has_prefix(path, #[trigger] rs[i]),
        None => true,
    }
}

/// The paths of `keys` that are to be pruned, in order.
pub open spec fn prunable_paths(
    keys: Seq<Seq<char>>,
    roots: Option<Seq<Seq<char>>>,
    live: Seq<Seq<char>>,
) -> Seq<Seq<char>>
    decreases keys.len(),
{
    if keys.len() == 0 {
        Seq::empty()
    } else {
        let d = prunable_paths(keys.drop_last(), roots, live);
        if is_prunable(keys.last(), roots, live) {
            d.push(keys.last())
        } else {
            d
        }
    }
}

/// `k` is the largest key of `dom`, or 0 when `dom` is empty.
pub open spec fn is_max_key(dom: Set<u32>, k: u32) -> bool {
    &&& dom.is_empty() ==> k == 0
    &&& !dom.is_empty() ==> dom.contains(k) && forall|x: u32| dom.contains(x) ==> x <= k
}

/// `c` is the counter that follows the largest key of `dom` (1 when `dom` is empty).
pub open spec fn counter_after(dom: Set<u32>, c: u32) -> bool {
    exists|k: u32| #[trigger] is_max_key(dom, k) && c == next_counter(k)
}

/// The largest key of a table (0 when it is empty).
fn max_key<V>(m: &HashMap<u32, V>) -> (r: u32)
    ensures
        is_max_key(m@.dom(), r),
{
    let mut best: u32 = 0;
    let mut seen = false;
    let ghost dom = m@.dom();
    for k in it: m.keys()
        invariant
            it.seq().unref().to_set() == dom,
            it.seq().unref().len() == it.seq().len(),
            seen <==> it.index() > 0,
            !seen ==> best == 0,
            seen ==> dom.contains(best),
            forall|j: int| 0 <= j < it.index() ==> it.seq().unref()[j] <= best,
            it.index() == it.seq().len() ==> is_max_key(dom, best),
    {
        proof {
            assert(it.seq().unref()[it.index() as int] == *k);
            assert(it.seq().unref().to_set().contains(*k));
        }
        if !seen || *k > best {
            best = *k;
        }
        seen = true;
        proof {
            assert forall|x: u32| dom.contains(x) && it.index() == it.seq().len() implies x <= best by {
                assert(it.seq().unref().to_set().contains(x));
                assert(it.seq().unref().contains(x));
            }
        }
    }
    best
}

impl LibraryDatabase {
    /// The paths of the library in the order in which they were first added.
    pub closed spec fn path_order(&self) -> Seq<Seq<char>> {
        self.state.path_to_track.key_order()
    }

    /// The path order lists every path of the library exactly once.
    pub proof fn lemma_path_order(&self)
        requires
            self.wf(),
        ensures
            self.path_order().no_duplicates(),
            forall|p: Seq<char>| #[trigger] self@.path_to_track.contains_key(p) <==> self.path_order().contains(p),
    {
        self.state.path_to_track.lemma_key_order();
    }

    /// The contents of the library.
    pub fn state(&self) -> (r: &DatabaseState)
        ensures
            self.wf() ==> r.wf(),
            r.tracks@ == self@.tracks,
            album_views(r.albums@) == self@.albums,
            artist_views(r.artists@) == self@.artists,
            r.path_to_track@ == self@.path_to_track,
            r.artist_name_to_id@ == self@.artist_name_to_id,
            r.album_lookup_to_id@ == self@.album_lookup_to_id,
    {
        &self.state
    }

    /// A library holding `state`, whose counters continue after the largest identifier of
    /// each table (they start at 1 for an empty table).
    pub fn from_state(state: DatabaseState) -> (r: Self)
        requires
            state.wf(),
        ensures
            r.wf(),
            r@.tracks == state.tracks@,
            r@.albums == album_views(state.albums@),
            r@.artists == artist_views(state.artists@),
            r@.path_to_track == state.path_to_track@,
            r@.artist_name_to_id == state.artist_name_to_id@,
            r@.album_lookup_to_id == state.album_lookup_to_id@,
            counter_after(state.tracks@.dom(), r@.track_counter),
            counter_after(state.albums@.dom(), r@.album_counter),
            counter_after(state.artists@.dom(), r@.artist_counter),
    {
        let max_track = max_key(&state.tracks);
        let max_album = max_key(&state.albums);
        let max_artist = max_key(&state.artists);
        let r = LibraryDatabase {
            state,
            track_id_counter: bump(max_track),
            album_id_counter: bump(max_album),
            artist_id_counter: bump(max_artist),
        };
        proof {
            assert(is_max_key(r.state.tracks@.dom(), max_track));
            assert(is_max_key(r.state.albums@.dom(), max_album));
            assert(is_max_key(r.state.artists@.dom(), max_artist));
        }
        r
    }

    /// The paths of the library that are to be pruned, in path order.
    fn collect_prunable(&self, roots: Option<&[String]>, live_paths: &[String]) -> (r: Vec<String>)
        requires
            self.wf(),
        ensures
            texts(r@) == prunable_paths(
                self.path_order(),
                match roots {
                    Some(rs) => Some(texts(rs@)),
                    None => None,
                },
                texts(live_paths@),
            ),
    {
        let ghost rv = match roots {
            Some(rs) => Some(texts(rs@)),
            None => None,
        };
        let ghost live = texts(live_paths@);
        let live_keys = normalize_all(live_paths);
        let n = self.state.path_to_track.len();
        proof {
            self.state.path_to_track.lemma_key_order();
        }
        let mut dead: Vec<String> = Vec::new();
        let mut i: usize = 0;
        while i < n
            invariant
                self.wf(),
                n == self.path_order().len(),
                i <= n,
                texts(dead@) == prunable_paths(self.path_order().subrange(0, i as int), rv, live),
                rv == match roots {
                    Some(rs) => Some(texts(rs@)),
                    None => None::<Seq<Seq<char>>>,
                },
                live == texts(live_paths@),
                texts(live_keys@) == normal_paths(live),
            decreases n - i,
        {
            let p = self.state.path_to_track.key_at(i);
            let under_root = match roots {
                Some(rs) => under_some_root(p.as_str(), rs),
                None => true,
            };
            proof {
                assert(self.path_order().subrange(0, i + 1).drop_last() =~= self.path_order().subrange(0, i as int));
            }
            if under_root && !holds_text(&live_keys, p.as_str()) {
                dead.push(p.clone());
                proof {
                    assert(texts(dead@) =~= texts(dead@.drop_last()).push(p@));
                }
            }
            i = i + 1;
        }
        proof {
            assert(self.path_order().subrange(0, n as int) =~= self.path_order());
        }
        dead
    }

    /// Deletes the tracks under each of `paths`, in order.
    fn remove_all_paths(&mut self, paths: &Vec<String>)
        requires
            old(self).wf(),
        ensures
            final(self).wf(),
            final(self)@ == old(self)@.remove_keys(texts(paths@)),
    {
        let mut j: usize = 0;
        while j < paths.len()
            invariant
                self.wf(),
                j <= paths@.len(),
                self@ == old(self)@.remove_keys(texts(paths@).subrange(0, j as int)),
            decreases paths@.len() - j,
        {
            self.remove_by_key(paths[j].clone());
            proof {
                assert(texts(paths@).subrange(0, j + 1).drop_last() =~= texts(paths@).subrange(0, j as int));
            }
            j = j + 1;
        }
        proof {
            assert(texts(paths@).subrange(0, j as int) =~= texts(paths@));
        }
    }

    /// Prunes the tracks whose files are missing from `live_paths`, but only those lying under
    /// one of `accessible_roots` (the scan roots that are currently present as directories):
    /// tracks of an unmounted drive are kept.  Returns the number of tracks pruned.
    pub fn prune_missing_files_scoped(&mut self, accessible_roots: &[String], live_paths: &[String]) -> (r: usize)
        requires
            old(self).wf(),
        ensures
            final(self).wf(),
            ({
                let dead = prunable_paths(old(self).path_order(), Some(texts(accessible_roots@)), texts(live_paths@));
                r == dead.len() && final(self)@ == old(self)@.remove_keys(dead)
            }),
    {
        let dead = self.collect_prunable(Some(accessible_roots), live_paths);
        let count = dead.len();
        self.remove_all_paths(&dead);
        count
    }

    /// Prunes every track whose file is missing from `live_paths` (compared by normal form).
    /// Returns the number of tracks pruned.
    pub fn prune_missing_files(&mut self, live_paths: &[String]) -> (r: usize)
        requires
            old(self).wf(),
        ensures
            final(self).wf(),
            ({
                let dead = prunable_paths(old(self).path_order(), None, texts(live_paths@));
                r == dead.len() && final(self)@ == old(self)@.remove_keys(dead)
            }),
    {
        let dead = self.collect_prunable(None, live_paths);
        let count = dead.len();
        self.remove_all_paths(&dead);
        count
    }
}


/// Schema version written after the magic bytes of a cache file.
pub const DB_VERSION: u32 = 1;

/// Length of a cache file's header: 8 magic bytes and a 4-byte version.
pub const HEADER_SIZE: usize = 12;

/// The magic bytes that open a cache file: "KUROSO", a zero byte and a one byte.
pub open spec fn db_magic() -> Seq<u8> {
    seq![75u8, 85u8, 82u8, 79u8, 83u8, 79u8, 0u8, 1u8]
}

/// The little-endian value of four bytes.
pub open spec fn le_u32(b0: u8, b1: u8, b2: u8, b3: u8) -> int {
    b0 + 256 * b1 + 65536 * b2 + 16777216 * b3
}

/// The header of a cache file: the magic bytes, then the schema version in little-endian.
pub open spec fn db_header() -> Seq<u8> {
    db_magic() + seq![1u8, 0u8, 0u8, 0u8]
}

/// Why a cache file could not be loaded.
#[derive(Debug, Clone, PartialEq, Eq)]
pub enum DatabaseLoadError {
    /// Reading the file failed; the text describes the failure.
    Io(String),
    NotFound,
    EmptyFile,
    FileTooShort,
    InvalidMagic,
    IncompatibleVersion { found: u32, expected: u32 },
    /// The payload could not be decoded; the text describes the failure.
    CorruptedData(String),
}

/// The bytes that open every cache file.
pub fn database_header() -> (r: Vec<u8>)
    ensures
        r@ == db_header(),
{
    let r: Vec<u8> = vec![75u8, 85u8, 82u8, 79u8, 83u8, 79u8, 0u8, 1u8, 1u8, 0u8, 0u8, 0u8];
    assert(r@ =~= db_header());
    r
}

/// Checks the length and the header of a cache file: an empty file, a file shorter than a
/// header, wrong magic bytes and another schema version are each refused; `head` holds the
/// file's first bytes (at least a header's worth whenever the file is that long).
pub fn validate_header(file_len: u64, head: &[u8]) -> (r: Result<(), DatabaseLoadError>)
    requires
        file_len >= 12 ==> head@.len() >= 12,
    ensures
        file_len == 0 ==> r == Err::<(), DatabaseLoadError>(DatabaseLoadError::EmptyFile),
        0 < file_len < 12 ==> r == Err::<(), DatabaseLoadError>(DatabaseLoadError::FileTooShort),
        file_len >= 12 && head@.subrange(0, 8) != db_magic() ==> r == Err::<(), DatabaseLoadError>(
            DatabaseLoadError::InvalidMagic,
        ),
        file_len >= 12 && head@.subrange(0, 8) == db_magic() ==> {
            let found = le_u32(head@[8], head@[9], head@[10], head@[11]);
            &&& found == 1 ==> r == Ok::<(), DatabaseLoadError>(())
            &&& found != 1 ==> r == Err::<(), DatabaseLoadError>(
                DatabaseLoadError::IncompatibleVersion { found: found as u32, expected: DB_VERSION },
            )
        },
{
    if file_len == 0 {
        return Err(DatabaseLoadError::EmptyFile);
    }
    if file_len < 12 {
        return Err(DatabaseLoadError::FileTooShort);
    }
    let magic: [u8; 8] = [75u8, 85u8, 82u8, 79u8, 83u8, 79u8, 0u8, 1u8];
    let mut i: usize = 0;
    while i < 8
        invariant
            file_len >= 12,
            head@.len() >= 12,
            i <= 8,
            magic@ == db_magic(),
            forall|j: int| 0 <= j < i ==> head@[j] == db_magic()[j],
        decreases 8 - i,
    {
        if head[i] != magic[i] {
            proof {
                assert(head@.subrange(0, 8)[i as int] != db_magic()[i as int]);
            }
            return Err(DatabaseLoadError::InvalidMagic);
        }
        i = i + 1;
    }
    proof {
        assert(head@.subrange(0, 8) =~= db_magic());
    }
    let version: u32 = head[8] as u32 + 256 * (head[9] as u32) + 65536 * (head[10] as u32) + 16777216 * (head[11] as u32);
    if version != DB_VERSION {
        return Err(DatabaseLoadError::IncompatibleVersion { found: version, expected: DB_VERSION });
    }
    Ok(())
}

impl DatabaseLoadError {
    /// The text that describes the error.
    pub fn message(&self) -> (r: String)
        ensures
            r@ == match self {
                DatabaseLoadError::Io(e) => "I/O error: "@ + e@,
                DatabaseLoadError::NotFound => "Database cache file not found"@,
                DatabaseLoadError::EmptyFile => "Database cache file is empty (0 bytes)"@,
                DatabaseLoadError::FileTooShort => "Database cache file is shorter than valid header"@,
                DatabaseLoadError::InvalidMagic => "Invalid magic bytes (not a Kuroso database)"@,
                DatabaseLoadError::IncompatibleVersion { found, expected } => "Incompatible schema version: found "@
                    + crate::text::decimal(*found as nat) + ", expected "@ + crate::text::decimal(*expected as nat),
                DatabaseLoadError::CorruptedData(e) => "Corrupted database payload: "@ + e@,
            },
    {
        let mut r = String::new();
        match self {
            DatabaseLoadError::Io(e) => {
                crate::text::push_text(&mut r, "I/O error: ");
                crate::text::push_text(&mut r, e.as_str());
            },
            DatabaseLoadError::NotFound => {
                crate::text::push_text(&mut r, "Database cache file not found");
            },
            DatabaseLoadError::EmptyFile => {
                crate::text::push_text(&mut r, "Database cache file is empty (0 bytes)");
            },
            DatabaseLoadError::FileTooShort => {
                crate::text::push_text(&mut r, "Database cache file is shorter than valid header");
            },
            DatabaseLoadError::InvalidMagic => {
                crate::text::push_text(&mut r, "Invalid magic bytes (not a Kuroso database)");
            },
            DatabaseLoadError::IncompatibleVersion { found, expected } => {
                crate::text::push_text(&mut r, "Incompatible schema version: found ");
                crate::text::push_decimal(&mut r, *found as u64);
                crate::text::push_text(&mut r, ", expected ");
                crate::text::push_decimal(&mut r, *expected as u64);
            },
            DatabaseLoadError::CorruptedData(e) => {
                crate::text::push_text(&mut r, "Corrupted database payload: ");
                crate::text::push_text(&mut r, e.as_str());
            },
        }
        proof {
            assert(Seq::<char>::empty() + "I/O error: "@ =~= "I/O error: "@);
        }
        r
    }
}


impl DbView {
    /// Deleting a track only drops its own key from the path lookup.
    pub proof fn lemma_remove_key_paths(self, key: Seq<char>)
        ensures
            self.remove_key(key).0.path_to_track == self.path_to_track.remove(key),
    {
        assert(self.remove_key(key).0.path_to_track =~= self.path_to_track.remove(key));
    }
}

/// Pruning removes exactly the listed paths from the path lookup: a listed path is gone
/// afterwards, and any other path keeps the track it had.
pub proof fn law_remove_tracks_paths(v: DbView, dead: Seq<Seq<char>>, p: Seq<char>)
    ensures
        dead.contains(p) ==> !v.remove_keys(dead).path_to_track.contains_key(p),
        !dead.contains(p) ==> v.remove_keys(dead).path_to_track.contains_key(p) == v.path_to_track.contains_key(p),
        !dead.contains(p) && v.path_to_track.contains_key(p) ==> v.remove_keys(dead).path_to_track[p] == v.path_to_track[p],
    decreases dead.len(),
{
    if dead.len() > 0 {
        let d0 = dead.drop_last();
        law_remove_tracks_paths(v, d0, p);
        v.remove_keys(d0).lemma_remove_key_paths(dead.last());
        if dead.contains(p) && !d0.contains(p) {
            let i = choose|i: int| 0 <= i < dead.len() && dead[i] == p;
            if i < d0.len() {
                assert(d0[i] == p);
            }
        }
        if d0.contains(p) {
            let i = choose|i: int| 0 <= i < d0.len() && d0[i] == p;
            assert(dead[i] == p);
        }
    }
}

/// Every path chosen for pruning is prunable.
proof fn lemma_prunable_paths_sound(
    keys: Seq<Seq<char>>,
    roots: Option<Seq<Seq<char>>>,
    live: Seq<Seq<char>>,
    p: Seq<char>,
)
    ensures
        prunable_paths(keys, roots, live).contains(p) ==> is_prunable(p, roots, live),
    decreases keys.len(),
{
    if keys.len() > 0 {
        lemma_prunable_paths_sound(keys.drop_last(), roots, live, p);
        let d = prunable_paths(keys.drop_last(), roots, live);
        if prunable_paths(keys, roots, live).contains(p) && !d.contains(p) {
            let i = choose|i: int| 0 <= i < prunable_paths(keys, roots, live).len() && prunable_paths(keys, roots, live)[i] == p;
            if i < d.len() {
                assert(d[i] == p);
            }
        }
    }
}

/// Scoped pruning protects what lies outside the accessible roots (an unmounted drive) and
/// what is still live (some live path has the same normal form): such a path keeps its
/// track.
pub proof fn law_scoped_pruning_keeps_protected_paths(
    db: DbView,
    order: Seq<Seq<char>>,
    roots: Seq<Seq<char>>,
    live: Seq<Seq<char>>,
    p: Seq<char>,
)
    requires
        normal_paths(live).contains(p) || forall|i: int| 0 <= i < roots.len() ==> !path_has_prefix(p, #[trigger] roots[i]),
    ensures
        ({
            let after = db.remove_keys(prunable_paths(order, Some(roots), live));
            &&& after.path_to_track.contains_key(p) == db.path_to_track.contains_key(p)
            &&& db.path_to_track.contains_key(p) ==> after.path_to_track[p] == db.path_to_track[p]
        }),
{
    lemma_prunable_paths_sound(order, Some(roots), live, p);
    law_remove_tracks_paths(db, prunable_paths(order, Some(roots), live), p);
}

/// An artist name is resolved once: resolving it again gives the same artist and changes
/// nothing.
pub proof fn law_artist_resolved_once(v: DbView, name: Seq<char>)
    ensures
        v.resolve_artist(name).0.resolve_artist(name) == (v.resolve_artist(name).0, v.resolve_artist(name).1),
{
}

/// An album (owner and title) is resolved once: resolving it again gives the same album and
/// changes nothing.
pub proof fn law_album_resolved_once(v: DbView, owner: ArtistId, title: Seq<char>, year: Option<u16>, comp: bool)
    ensures
        ({
            let (v1, a) = v.resolve_album(owner, title, year, comp);
            v1.resolve_album(owner, title, year, comp) == (v1, a)
        }),
{
}

/// The header written to every cache file passes the header check: it holds the magic
/// bytes and the current schema version.
pub proof fn law_written_header_is_valid()
    ensures
        db_header().len() == HEADER_SIZE,
        db_header().subrange(0, 8) == db_magic(),
        le_u32(db_header()[8], db_header()[9], db_header()[10], db_header()[11]) == DB_VERSION,
{
    assert(db_header().subrange(0, 8) =~= db_magic());
}

/// A library rebuilt from saved contents hands out fresh identifiers: the counter that
/// follows the largest identifier of a table names no entry of that table, unless the
/// largest identifier is the last one a 32-bit counter can reach.
pub proof fn law_reloaded_counters_are_fresh(dom: Set<u32>, c: u32)
    requires
        counter_after(dom, c),
        !dom.contains(u32::MAX),
    ensures
        !dom.contains(c),
{
    let k = choose|k: u32| #[trigger] is_max_key(dom, k) && c == next_counter(k);
    if dom.contains(c) {
        assert(c <= k);
    }
}

/// Inserting a track keeps the path lookup and the track table in agreement, provided the
/// identifier handed out is fresh (every stored identifier lies below the counter); the
/// identifiers stay below the counter unless the counter wraps around.
pub proof fn law_insert_keeps_paths_agreeing(
    old: DbView,
    new: DbView,
    r: TrackId,
    path: Seq<char>,
    mtime: u64,
    file_size: u64,
    title: Seq<char>,
    artist_name: Seq<char>,
    album_artist_name: Option<Seq<char>>,
    album_name: Option<Seq<char>>,
    duration_ms: u32,
    track_number: Option<u16>,
    disc_number: Option<u8>,
    year: Option<u16>,
    format: AudioFormat,
    sample_rate: Option<u32>,
    bitrate: Option<u32>,
    bit_depth: Option<u8>,
    channels: Option<u8>,
    track_gain_db: Option<u32>,
    track_peak: Option<u32>,
    album_gain_db: Option<u32>,
    album_peak: Option<u32>,
)
    requires
        old.paths_agree(),
        old.ids_below_counter(),
        track_inserted(
            old,
            new,
            r,
            path,
            mtime,
            file_size,
            title,
            artist_name,
            album_artist_name,
            album_name,
            duration_ms,
            track_number,
            disc_number,
            year,
            format,
            sample_rate,
            bitrate,
            bit_depth,
            channels,
            track_gain_db,
            track_peak,
            album_gain_db,
            album_peak,
        ),
    ensures
        new.paths_agree(),
        old.track_counter < u32::MAX ==> new.ids_below_counter(),
{
    if !old.path_to_track.contains_key(normal_path(path)) {
        let (s2, artist_id, album_artist_id, album_id) = old.resolve_links(
            artist_name,
            album_artist_name,
            album_name,
            year,
        );
        assert(s2.tracks == old.tracks && s2.path_to_track == old.path_to_track && s2.track_counter
            == old.track_counter);
        let tid = TrackId(s2.track_counter);
        assert(!old.tracks.contains_key(tid.0));
        assert forall|p: Seq<char>| #[trigger] new.path_to_track.contains_key(p) implies ({
            let id = new.path_to_track[p];
            new.tracks.contains_key(id.0) && normal_path(new.tracks[id.0].path@) == p
        }) by {
            if p != normal_path(path) {
                assert(old.path_to_track.contains_key(p));
                assert(old.path_to_track[p] != tid);
            }
        }
        assert forall|id: u32| #[trigger] new.tracks.contains_key(id) implies ({
            &&& new.tracks[id].id == TrackId(id)
            &&& new.path_to_track.contains_key(normal_path(new.tracks[id].path@))
            &&& new.path_to_track[normal_path(new.tracks[id].path@)] == TrackId(id)
        }) by {
            if id != tid.0 {
                assert(old.tracks.contains_key(id));
                assert(normal_path(old.tracks[id].path@) != normal_path(path));
            }
        }
    }
}

/// Updating a track's tags keeps the path lookup and the track table in agreement and
/// hands out no track identifier.
pub proof fn law_update_keeps_paths_agreeing(
    old: DbView,
    new: DbView,
    r: Option<TrackId>,
    path: Seq<char>,
    mtime: u64,
    file_size: u64,
    title: Seq<char>,
    artist_name: Seq<char>,
    album_artist_name: Option<Seq<char>>,
    album_name: Option<Seq<char>>,
    duration_ms: u32,
    track_number: Option<u16>,
    disc_number: Option<u8>,
    year: Option<u16>,
    sample_rate: Option<u32>,
    bitrate: Option<u32>,
    bit_depth: Option<u8>,
    channels: Option<u8>,
    track_gain_db: Option<u32>,
    track_peak: Option<u32>,
    album_gain_db: Option<u32>,
    album_peak: Option<u32>,
)
    requires
        old.paths_agree(),
        track_updated(
            old,
            new,
            r,
            path,
            mtime,
            file_size,
            title,
            artist_name,
            album_artist_name,
            album_name,
            duration_ms,
            track_number,
            disc_number,
            year,
            sample_rate,
            bitrate,
            bit_depth,
            channels,
            track_gain_db,
            track_peak,
            album_gain_db,
            album_peak,
        ),
    ensures
        new.paths_agree(),
        new.track_counter == old.track_counter,
        new.tracks.dom() == old.tracks.dom(),
{
    if old.track_at_path(path) is Some {
        let old_t = old.track_at_path(path)->0;
        let tid = old.path_to_track[normal_path(path)];
        let (s2, new_artist, new_album_artist, new_album) = old.resolve_links(
            artist_name,
            album_artist_name,
            album_name,
            year,
        );
        let s6 = s2.relink(tid, old_t.album_id, old_t.artist_id, new_album, new_artist);
        assert(s6.tracks == old.tracks && s6.path_to_track == old.path_to_track && s6.track_counter
            == old.track_counter);
        assert(new.tracks.dom() =~= old.tracks.dom());
        assert forall|id: u32| #[trigger] new.tracks.contains_key(id) implies ({
            &&& new.tracks[id].id == TrackId(id)
            &&& new.path_to_track.contains_key(normal_path(new.tracks[id].path@))
            &&& new.path_to_track[normal_path(new.tracks[id].path@)] == TrackId(id)
        }) by {
            assert(old.tracks.contains_key(id));
        }
        assert forall|p: Seq<char>| #[trigger] new.path_to_track.contains_key(p) implies ({
            let id = new.path_to_track[p];
            new.tracks.contains_key(id.0) && normal_path(new.tracks[id.0].path@) == p
        }) by {
            assert(old.path_to_track.contains_key(p));
        }
    }
}

/// Deleting the track under a path (given by its normal form `key`, as
/// [`DbView::remove_track`] does for any path) keeps the path lookup and the track table in
/// agreement, and keeps every identifier below the counter.
pub proof fn law_remove_keeps_paths_agreeing(v: DbView, key: Seq<char>)
    ensures
        v.paths_agree() ==> v.remove_key(key).0.paths_agree(),
        v.ids_below_counter() ==> v.remove_key(key).0.ids_below_counter(),
        v.remove_key(key).0.track_counter == v.track_counter,
{
    let after = v.remove_key(key).0;
    if v.path_to_track.contains_key(key) && v.tracks.contains_key(v.path_to_track[key].0) {
        let tid = v.path_to_track[key];
        assert(after.tracks == v.tracks.remove(tid.0));
        assert(after.path_to_track == v.path_to_track.remove(key));
        if v.paths_agree() {
            assert forall|p: Seq<char>| #[trigger] after.path_to_track.contains_key(p) implies ({
                let id = after.path_to_track[p];
                after.tracks.contains_key(id.0) && normal_path(after.tracks[id.0].path@) == p
            }) by {
                assert(v.path_to_track.contains_key(p));
                assert(v.tracks.contains_key(v.path_to_track[p].0));
                assert(v.path_to_track[p] != tid);
            }
            assert forall|id: u32| #[trigger] after.tracks.contains_key(id) implies ({
                &&& after.tracks[id].id == TrackId(id)
                &&& after.path_to_track.contains_key(normal_path(after.tracks[id].path@))
                &&& after.path_to_track[normal_path(after.tracks[id].path@)] == TrackId(id)
            }) by {
                assert(v.tracks.contains_key(id));
                assert(v.tracks.contains_key(tid.0));
                assert(normal_path(v.tracks[id].path@) != key);
            }
        }
    } else if v.path_to_track.contains_key(key) {
        assert(after.tracks == v.tracks);
        assert(after.path_to_track == v.path_to_track.remove(key));
        if v.paths_agree() {
            assert(false);
        }
    }
}

/// Pruning keeps the path lookup and the track table in agreement, keeps every
/// identifier below the counter, and keeps the library's shape ([`DbView::tidy`]).
pub proof fn law_prune_keeps_paths_agreeing(v: DbView, dead: Seq<Seq<char>>)
    ensures
        v.paths_agree() ==> v.remove_keys(dead).paths_agree(),
        v.ids_below_counter() ==> v.remove_keys(dead).ids_below_counter(),
        v.remove_keys(dead).track_counter == v.track_counter,
        v.tidy() ==> v.remove_keys(dead).tidy(),
    decreases dead.len(),
{
    if dead.len() > 0 {
        law_prune_keeps_paths_agreeing(v, dead.drop_last());
        law_remove_keeps_paths_agreeing(v.remove_keys(dead.drop_last()), dead.last());
        if v.tidy() {
            law_remove_keeps_tidy(v.remove_keys(dead.drop_last()), dead.last());
        }
    }
}

/// The paths chosen for pruning are exactly the listed keys that are prunable, each once.
proof fn lemma_prunable_paths_exact(
    keys: Seq<Seq<char>>,
    roots: Option<Seq<Seq<char>>>,
    live: Seq<Seq<char>>,
)
    requires
        keys.no_duplicates(),
    ensures
        prunable_paths(keys, roots, live).no_duplicates(),
        forall|p: Seq<char>| #[trigger] prunable_paths(keys, roots, live).contains(p) <==> (keys.contains(p)
            && is_prunable(p, roots, live)),
    decreases keys.len(),
{
    if keys.len() > 0 {
        let d = keys.drop_last();
        assert(d.no_duplicates());
        lemma_prunable_paths_exact(d, roots, live);
        let pd = prunable_paths(d, roots, live);
        let pk = prunable_paths(keys, roots, live);
        assert forall|p: Seq<char>| #[trigger] pk.contains(p) <==> (keys.contains(p) && is_prunable(p, roots, live)) by {
            if pk.contains(p) {
                let i = choose|i: int| 0 <= i < pk.len() && pk[i] == p;
                if i < pd.len() {
                    assert(pd[i] == p);
                    assert(pd.contains(p));
                    let j = choose|j: int| 0 <= j < d.len() && d[j] == p;
                    assert(keys[j] == p);
                } else {
                    assert(keys[keys.len() - 1] == p);
                }
            }
            if keys.contains(p) && is_prunable(p, roots, live) {
                let j = choose|j: int| 0 <= j < keys.len() && keys[j] == p;
                if j < d.len() {
                    assert(d[j] == p);
                    assert(pd.contains(p));
                    let i = choose|i: int| 0 <= i < pd.len() && pd[i] == p;
                    assert(pk[i] == p);
                } else {
                    assert(pk[pk.len() - 1] == p);
                }
            }
        }
        if is_prunable(keys.last(), roots, live) {
            assert(!d.contains(keys.last()));
            assert(!pd.contains(keys.last()));
        }
    }
}

/// Pruning counts what it removes: the paths it prunes (and whose number it returns) are,
/// each once, exactly the library's paths that are prunable.
pub proof fn law_pruned_paths_are_the_prunable_ones(
    db: &LibraryDatabase,
    roots: Option<Seq<Seq<char>>>,
    live: Seq<Seq<char>>,
)
    requires
        db.wf(),
    ensures
        ({
            let dead = prunable_paths(db.path_order(), roots, live);
            let expected = db@.path_to_track.dom().filter(|p: Seq<char>| is_prunable(p, roots, live));
            &&& dead.no_duplicates()
            &&& dead.to_set() == expected
            &&& dead.len() == expected.len()
        }),
{
    db.lemma_path_order();
    lemma_prunable_paths_exact(db.path_order(), roots, live);
    let dead = prunable_paths(db.path_order(), roots, live);
    let expected = db@.path_to_track.dom().filter(|p: Seq<char>| is_prunable(p, roots, live));
    assert(dead.to_set() =~= expected);
    dead.unique_seq_to_set();
}

/// Removing a newly inserted track undoes the insertion on the track table and the path
/// lookup: when the path (by its normal form) was not in the library and the identifier
/// handed out was fresh, removing the path right after inserting it returns the new
/// identifier and gives back the old track table and path lookup; removing it once more
/// finds nothing and changes nothing.
pub proof fn law_insert_then_remove(
    old: DbView,
    mid: DbView,
    r: TrackId,
    path: Seq<char>,
    mtime: u64,
    file_size: u64,
    title: Seq<char>,
    artist_name: Seq<char>,
    album_artist_name: Option<Seq<char>>,
    album_name: Option<Seq<char>>,
    duration_ms: u32,
    track_number: Option<u16>,
    disc_number: Option<u8>,
    year: Option<u16>,
    format: AudioFormat,
    sample_rate: Option<u32>,
    bitrate: Option<u32>,
    bit_depth: Option<u8>,
    channels: Option<u8>,
    track_gain_db: Option<u32>,
    track_peak: Option<u32>,
    album_gain_db: Option<u32>,
    album_peak: Option<u32>,
)
    requires
        old.ids_below_counter(),
        !old.path_to_track.contains_key(normal_path(path)),
        track_inserted(
            old,
            mid,
            r,
            path,
            mtime,
            file_size,
            title,
            artist_name,
            album_artist_name,
            album_name,
            duration_ms,
            track_number,
            disc_number,
            year,
            format,
            sample_rate,
            bitrate,
            bit_depth,
            channels,
            track_gain_db,
            track_peak,
            album_gain_db,
            album_peak,
        ),
    ensures
        ({
            let (fin, removed) = mid.remove_track(path);
            &&& removed == Some(r)
            &&& fin.tracks == old.tracks
            &&& fin.path_to_track == old.path_to_track
            &&& fin.remove_track(path) == (fin, None::<TrackId>)
        }),
{
    let key = normal_path(path);
    let (s2, artist_id, album_artist_id, album_id) = old.resolve_links(
        artist_name,
        album_artist_name,
        album_name,
        year,
    );
    assert(s2.tracks == old.tracks && s2.path_to_track == old.path_to_track && s2.track_counter
        == old.track_counter);
    assert(!old.tracks.contains_key(r.0));
    let (fin, removed) = mid.remove_track(path);
    assert(mid.path_to_track[key] == r);
    assert(mid.tracks.contains_key(r.0));
    assert(fin.tracks =~= old.tracks);
    assert(fin.path_to_track =~= old.path_to_track);
}

/// Taking out an entry that was just added gives the list back.
proof fn lemma_without_pushed<T>(s: Seq<T>, x: T)
    requires
        !s.contains(x),
    ensures
        without(s.push(x), x) == s,
        without(s, x) == s,
    decreases s.len(),
{
    if s.len() > 0 {
        lemma_without_pushed(s.drop_last(), x);
        assert(s.drop_last().push(s.last()) =~= s);
    } else {
        assert(without(s, x) =~= s);
    }
    assert(s.push(x).drop_last() =~= s);
    assert(s.push(x).last() == x);
    assert(without(s.push(x), x) == without(s, x));
}

/// Removing a newly inserted track gives the albums and artists back: when the library
/// has the shape that inserting and removing keep ([`DbView::tidy`]), the path (by its
/// normal form) is new, no album artist is given and the counters have room, inserting a
/// track and then removing its path leaves the same albums and artists as before, so
/// their counts come back too.
pub proof fn law_insert_then_remove_restores_albums_and_artists(
    old: DbView,
    mid: DbView,
    r: TrackId,
    path: Seq<char>,
    mtime: u64,
    file_size: u64,
    title: Seq<char>,
    artist_name: Seq<char>,
    album_artist_name: Option<Seq<char>>,
    album_name: Option<Seq<char>>,
    duration_ms: u32,
    track_number: Option<u16>,
    disc_number: Option<u8>,
    year: Option<u16>,
    format: AudioFormat,
    sample_rate: Option<u32>,
    bitrate: Option<u32>,
    bit_depth: Option<u8>,
    channels: Option<u8>,
    track_gain_db: Option<u32>,
    track_peak: Option<u32>,
    album_gain_db: Option<u32>,
    album_peak: Option<u32>,
)
    requires
        old.tidy(),
        old.track_counter < u32::MAX,
        old.album_counter < u32::MAX,
        old.artist_counter < u32::MAX,
        album_artist_name is None,
        !old.path_to_track.contains_key(normal_path(path)),
        track_inserted(
            old,
            mid,
            r,
            path,
            mtime,
            file_size,
            title,
            artist_name,
            album_artist_name,
            album_name,
            duration_ms,
            track_number,
            disc_number,
            year,
            format,
            sample_rate,
            bitrate,
            bit_depth,
            channels,
            track_gain_db,
            track_peak,
            album_gain_db,
            album_peak,
        ),
    ensures
        ({
            let fin = mid.remove_track(path).0;
            &&& fin.albums.dom() == old.albums.dom()
            &&& fin.artists.dom() == old.artists.dom()
            &&& fin.albums.dom().len() == old.albums.dom().len()
            &&& fin.artists.dom().len() == old.artists.dom().len()
        }),
{
    let key = normal_path(path);
    let (s1, artist_id) = old.resolve_artist(artist_name);
    let (s2, album_id) = s1.resolve_track_album(artist_id, album_name, year, false);
    let tid = TrackId(old.track_counter);
    assert(old.resolve_links(artist_name, album_artist_name, album_name, year) == (s2, artist_id, None::<ArtistId>, album_id));
    let s3 = s2.attach(album_id, artist_id, tid);
    assert(r == tid);
    assert(mid.albums == s3.albums && mid.artists == s3.artists);
    assert(mid.path_to_track[key] == tid);
    assert(mid.tracks.contains_key(tid.0));
    let t = mid.tracks[tid.0];
    assert(t.album_id == album_id && t.artist_id == artist_id);
    let m1 = DbView { path_to_track: mid.path_to_track.remove(key), ..mid };
    let m2 = DbView { tracks: m1.tracks.remove(tid.0), ..m1 };
    let new_artist = !old.artist_name_to_id.contains_key(artist_name);
    if new_artist {
        assert(!old.artists.contains_key(artist_id.0));
    } else {
        assert(old.artists.contains_key(artist_id.0));
    }
    match album_name {
        None => {
            assert(s2 == s1);
            let a1 = s1.artists[artist_id.0];
            assert(!a1.standalone_tracks.contains(tid)) by {
                if !new_artist {
                    assert(a1 == old.artists[artist_id.0]);
                } else {
                    assert(a1.standalone_tracks =~= Seq::<TrackId>::empty());
                }
            }
            lemma_without_pushed(a1.standalone_tracks, tid);
            let m3 = m2.detach_standalone(artist_id, tid);
            assert(m3.artists[artist_id.0] == a1);
            let fin = m3.drop_artist_if_empty(artist_id);
            assert(fin == mid.remove_track(path).0);
            if new_artist {
                assert(fin.artists =~= old.artists);
            } else {
                assert(a1 == old.artists[artist_id.0]);
                assert(fin.artists.dom() =~= old.artists.dom());
            }
            assert(fin.albums =~= old.albums);
        },
        Some(title) => {
            let lkey = (artist_id, title);
            let new_album = !s1.album_lookup_to_id.contains_key(lkey);
            let aid = album_id->0;
            if new_album {
                assert(!old.albums.contains_key(aid.0));
                assert(s2.albums[aid.0].tracks =~= Seq::<TrackId>::empty());
                assert(s3.albums[aid.0].tracks =~= seq![tid]);
                assert(without(seq![tid], tid) =~= Seq::<TrackId>::empty()) by {
                    lemma_without_pushed(Seq::<TrackId>::empty(), tid);
                    assert(Seq::<TrackId>::empty().push(tid) =~= seq![tid]);
                }
                let al = m2.albums[aid.0];
                assert(al.artist_id == artist_id);
                let a2 = s2.artists[artist_id.0];
                let a1 = s1.artists[artist_id.0];
                assert(!a1.albums.contains(aid)) by {
                    if !new_artist {
                        assert(a1 == old.artists[artist_id.0]);
                    } else {
                        assert(a1.albums =~= Seq::<AlbumId>::empty());
                    }
                }
                assert(a2.albums == a1.albums.push(aid));
                lemma_without_pushed(a1.albums, aid);
                let m3 = m2.detach_from_album(aid, tid);
                assert(m3.albums =~= old.albums);
                assert(m3.artists[artist_id.0] == a1);
                let fin = m3.drop_artist_if_empty(artist_id);
                assert(fin == mid.remove_track(path).0);
                if new_artist {
                    assert(a1.standalone_tracks =~= Seq::<TrackId>::empty());
                    assert(fin.artists =~= old.artists);
                } else {
                    assert(a1 == old.artists[artist_id.0]);
                    assert(fin.artists.dom() =~= old.artists.dom());
                }
            } else {
                assert(s2 == s1);
                assert(old.album_lookup_to_id.contains_key(lkey));
                assert(old.albums.contains_key(aid.0));
                assert(!new_artist);
                let al = old.albums[aid.0];
                assert(!al.tracks.contains(tid));
                lemma_without_pushed(al.tracks, tid);
                let m3 = m2.detach_from_album(aid, tid);
                assert(m3.albums[aid.0] == al);
                assert(m3.albums =~= old.albums);
                assert(m3.artists == old.artists);
                let fin = m3.drop_artist_if_empty(artist_id);
                assert(fin == mid.remove_track(path).0);
                assert(fin.artists.dom() =~= old.artists.dom());
            }
        },
    }
}

/// An entry stays in a list after taking out another value exactly when it was there.
proof fn lemma_without_contains<T>(s: Seq<T>, x: T, y: T)
    ensures
        without(s, x).contains(y) <==> (s.contains(y) && y != x),
    decreases s.len(),
{
    if s.len() > 0 {
        let d = s.drop_last();
        lemma_without_contains(d, x, y);
        let w = without(d, x);
        if without(s, x).contains(y) {
            let i = choose|i: int| 0 <= i < without(s, x).len() && without(s, x)[i] == y;
            if i < w.len() {
                assert(w[i] == y);
                let j = choose|j: int| 0 <= j < d.len() && d[j] == y;
                assert(s[j] == y);
            } else {
                assert(s[s.len() - 1] == y);
            }
        }
        if s.contains(y) && y != x {
            let j = choose|j: int| 0 <= j < s.len() && s[j] == y;
            if j < d.len() {
                assert(d[j] == y);
                let i = choose|i: int| 0 <= i < w.len() && w[i] == y;
                assert(without(s, x)[i] == y);
            } else {
                assert(without(s, x)[without(s, x).len() - 1] == y);
            }
        }
    }
}

/// Inserting a track without an album artist keeps the library's shape
/// ([`DbView::tidy`]), while the counters have room.
pub proof fn law_insert_keeps_tidy(
    old: DbView,
    new: DbView,
    r: TrackId,
    path: Seq<char>,
    mtime: u64,
    file_size: u64,
    title: Seq<char>,
    artist_name: Seq<char>,
    album_artist_name: Option<Seq<char>>,
    album_name: Option<Seq<char>>,
    duration_ms: u32,
    track_number: Option<u16>,
    disc_number: Option<u8>,
    year: Option<u16>,
    format: AudioFormat,
    sample_rate: Option<u32>,
    bitrate: Option<u32>,
    bit_depth: Option<u8>,
    channels: Option<u8>,
    track_gain_db: Option<u32>,
    track_peak: Option<u32>,
    album_gain_db: Option<u32>,
    album_peak: Option<u32>,
)
    requires
        old.tidy(),
        old.track_counter < u32::MAX,
        old.album_counter < u32::MAX,
        old.artist_counter < u32::MAX,
        album_artist_name is None,
        track_inserted(
            old,
            new,
            r,
            path,
            mtime,
            file_size,
            title,
            artist_name,
            album_artist_name,
            album_name,
            duration_ms,
            track_number,
            disc_number,
            year,
            format,
            sample_rate,
            bitrate,
            bit_depth,
            channels,
            track_gain_db,
            track_peak,
            album_gain_db,
            album_peak,
        ),
    ensures
        new.tidy(),
{
    if old.path_to_track.contains_key(normal_path(path)) {
        return;
    }
    let (s1, artist_id) = old.resolve_artist(artist_name);
    let (s2, album_id) = s1.resolve_track_album(artist_id, album_name, year, false);
    let tid = TrackId(old.track_counter);
    let a = artist_id.0;
    assert(old.resolve_links(artist_name, album_artist_name, album_name, year) == (s2, artist_id, None::<ArtistId>, album_id));
    let s3 = s2.attach(album_id, artist_id, tid);
    assert(new.albums == s3.albums && new.artists == s3.artists);
    assert(new.artist_name_to_id == s3.artist_name_to_id && new.album_lookup_to_id == s3.album_lookup_to_id);
    assert(new.tracks == old.tracks.insert(tid.0, new.tracks[tid.0]));
    assert(new.tracks[tid.0].album_id == album_id && new.tracks[tid.0].artist_id == artist_id);
    let new_artist = !old.artist_name_to_id.contains_key(artist_name);
    if new_artist {
        assert(!old.artists.contains_key(a));
        assert(s1.artists == old.artists.insert(
            a,
            ArtistView { id: artist_id, name: artist_name, albums: Seq::empty(), standalone_tracks: Seq::empty() },
        ));
    } else {
        assert(s1 == old);
        assert(old.artists.contains_key(a));
    }
    assert(s1.artists.contains_key(a) && s1.artists[a].name == artist_name);
    assert(s1.albums == old.albums && s1.album_lookup_to_id == old.album_lookup_to_id);
    // what the album step does
    let mut new_album = false;
    if album_id is Some {
        let title = album_name->0;
        let aid = album_id->0;
        let key = (artist_id, title);
        if s1.album_lookup_to_id.contains_key(key) {
            assert(old.album_lookup_to_id.contains_key(key));
            assert(old.albums.contains_key(aid.0));
            assert(old.albums[aid.0].artist_id == artist_id);
            assert(old.artists.contains_key(a));
            assert(!new_artist);
            assert(s2 == s1);
            assert(old.artists[a].albums.contains(aid));
        } else {
            new_album = true;
            assert(aid.0 == old.album_counter);
            assert(!old.albums.contains_key(aid.0));
            let al = s1.artists[a].albums;
            assert(s2.artists[a].albums == al.push(aid));
            assert(s2.artists[a].albums[al.len() as int] == aid);
            assert(s2.albums[aid.0].tracks == Seq::<TrackId>::empty());
        }
        assert(s2.albums.contains_key(aid.0));
        assert(s2.albums[aid.0].artist_id == artist_id);
        assert(s2.artists[a].albums.contains(aid));
        let tr = s2.albums[aid.0].tracks;
        assert(new.albums[aid.0].tracks == tr.push(tid));
        assert(new.albums[aid.0].tracks[tr.len() as int] == tid);
        assert(new.artists == s2.artists);
    } else {
        assert(s2 == s1);
        let st = s1.artists[a].standalone_tracks;
        assert(new.artists[a].standalone_tracks == st.push(tid));
        assert(new.artists[a].standalone_tracks[st.len() as int] == tid);
        assert(new.albums == old.albums);
    }
    assert forall|b: u32| #[trigger] new.artists.contains_key(b) implies {
        &&& b < new.artist_counter
        &&& (new.artists[b].albums.len() > 0 || new.artists[b].standalone_tracks.len() > 0)
        &&& forall|t: TrackId| #[trigger] new.artists[b].standalone_tracks.contains(t) ==> t.0 < new.track_counter
        &&& forall|x: AlbumId| #[trigger] new.artists[b].albums.contains(x) ==> x.0 < new.album_counter
    } by {
        if b != a {
            assert(old.artists.contains_key(b));
            assert(new.artists[b] == old.artists[b]);
        } else {
            let st0 = s1.artists[a].standalone_tracks;
            let al0 = s1.artists[a].albums;
            assert forall|t: TrackId| #[trigger] st0.contains(t) implies t.0 < old.track_counter by {
                if !new_artist {
                    assert(old.artists[a].standalone_tracks.contains(t));
                }
            }
            assert forall|x: AlbumId| #[trigger] al0.contains(x) implies x.0 < old.album_counter by {
                if !new_artist {
                    assert(old.artists[a].albums.contains(x));
                }
            }
            assert forall|t: TrackId| #[trigger] new.artists[b].standalone_tracks.contains(t) implies t.0
                < new.track_counter by {
                if album_id is None {
                    assert(new.artists[b].standalone_tracks == st0.push(tid));
                    if t != tid {
                        let i = choose|i: int| 0 <= i < st0.push(tid).len() && st0.push(tid)[i] == t;
                        assert(st0[i] == t);
                        assert(st0.contains(t));
                    }
                } else {
                    assert(new.artists[b].standalone_tracks == st0);
                }
            }
            assert forall|x: AlbumId| #[trigger] new.artists[b].albums.contains(x) implies x.0 < new.album_counter by {
                if new_album && x != album_id->0 {
                    assert(new.artists[b].albums == al0.push(album_id->0));
                    let i = choose|i: int| 0 <= i < al0.push(album_id->0).len() && al0.push(album_id->0)[i] == x;
                    assert(al0[i] == x);
                    assert(al0.contains(x));
                } else if !new_album {
                    assert(new.artists[b].albums == al0);
                }
            }
        }
    }
    assert forall|x: u32| #[trigger] new.albums.contains_key(x) implies {
        &&& x < new.album_counter
        &&& new.albums[x].tracks.len() > 0
        &&& forall|t: TrackId| #[trigger] new.albums[x].tracks.contains(t) ==> t.0 < new.track_counter
        &&& new.artists.contains_key(new.albums[x].artist_id.0)
        &&& new.artists[new.albums[x].artist_id.0].albums.contains(AlbumId(x))
    } by {
        if album_id is Some && x == (album_id->0).0 {
            let tr = s2.albums[x].tracks;
            assert forall|t: TrackId| #[trigger] tr.contains(t) implies t.0 < old.track_counter by {
                if !new_album {
                    assert(old.albums[x].tracks.contains(t));
                }
            }
            assert(new.albums[x].tracks == tr.push(tid));
            assert forall|t: TrackId| #[trigger] new.albums[x].tracks.contains(t) implies t.0 < new.track_counter by {
                if t != tid {
                    let i = choose|i: int| 0 <= i < tr.push(tid).len() && tr.push(tid)[i] == t;
                    assert(tr[i] == t);
                    assert(tr.contains(t));
                }
            }
        } else {
            assert(old.albums.contains_key(x));
            assert(new.albums[x] == old.albums[x]);
            let owner = old.albums[x].artist_id.0;
            assert(old.artists[owner].albums.contains(AlbumId(x)));
            if owner == a {
                let al0 = s1.artists[a].albums;
                assert(al0 == old.artists[a].albums);
                let i = choose|i: int| 0 <= i < al0.len() && al0[i] == AlbumId(x);
                if new_album {
                    assert(new.artists[a].albums == al0.push(album_id->0));
                    assert(new.artists[a].albums[i] == AlbumId(x));
                } else {
                    assert(new.artists[a].albums == al0);
                }
            } else {
                assert(new.artists[owner] == old.artists[owner]);
            }
        }
    }
    assert forall|id: u32| #[trigger] new.tracks.contains_key(id) implies (new.tracks[id].album_id is Some ==> {
        &&& (new.tracks[id].album_id->0).0 < new.album_counter
        &&& new.albums.contains_key((new.tracks[id].album_id->0).0) ==> new.albums[(new.tracks[id].album_id->0).0].artist_id
            == new.tracks[id].artist_id
    }) by {
        if id != tid.0 {
            assert(old.tracks.contains_key(id));
            assert(new.tracks[id] == old.tracks[id]);
            if new.tracks[id].album_id is Some {
                let x = (new.tracks[id].album_id->0).0;
                if new.albums.contains_key(x) && !(album_id is Some && x == (album_id->0).0) {
                    assert(old.albums.contains_key(x));
                    assert(new.albums[x] == old.albums[x]);
                } else if album_id is Some && x == (album_id->0).0 && new_album {
                    assert(x == old.album_counter);
                    assert(!old.albums.contains_key(x));
                    assert(old.tracks[id].album_id is Some);
                } else if album_id is Some && x == (album_id->0).0 {
                    assert(old.albums.contains_key(x));
                    assert(new.albums[x].artist_id == old.albums[x].artist_id);
                }
            }
        } else if album_id is Some {
            let x = (album_id->0).0;
            assert(new.albums[x].artist_id == s2.albums[x].artist_id);
            assert(s2.albums[x].artist_id == artist_id);
        }
    }
    assert forall|n: Seq<char>| #[trigger] new.artist_name_to_id.contains_key(n) implies {
        &&& new.artists.contains_key(new.artist_name_to_id[n].0)
        &&& new.artists[new.artist_name_to_id[n].0].name == n
    } by {
        if n != artist_name {
            assert(old.artist_name_to_id.contains_key(n));
            let b = old.artist_name_to_id[n].0;
            assert(old.artists.contains_key(b));
            if b != a {
                assert(new.artists[b] == old.artists[b]);
            }
        }
    }
    assert forall|k: (ArtistId, Seq<char>)| #[trigger] new.album_lookup_to_id.contains_key(k) implies {
        &&& new.albums.contains_key(new.album_lookup_to_id[k].0)
        &&& new.albums[new.album_lookup_to_id[k].0].artist_id == k.0
        &&& new.albums[new.album_lookup_to_id[k].0].title == k.1
    } by {
        if !(new_album && k == (artist_id, album_name->0)) {
            assert(old.album_lookup_to_id.contains_key(k));
            let x = old.album_lookup_to_id[k].0;
            assert(old.albums.contains_key(x));
            if album_id is Some && x == (album_id->0).0 {
                assert(new.albums[x].artist_id == old.albums[x].artist_id);
                assert(new.albums[x].title == old.albums[x].title);
            } else {
                assert(new.albums[x] == old.albums[x]);
            }
        }
    }
}

/// Removing the track stored under a path (given by its normal form `key`, as
/// [`DbView::remove_track`] does for any path) keeps the library's shape
/// ([`DbView::tidy`]).
pub proof fn law_remove_keeps_tidy(v: DbView, key: Seq<char>)
    requires
        v.tidy(),
    ensures
        v.remove_key(key).0.tidy(),
{
    if !v.path_to_track.contains_key(key) {
        return;
    }
    let tid = v.path_to_track[key];
    let s1 = DbView { path_to_track: v.path_to_track.remove(key), ..v };
    if !s1.tracks.contains_key(tid.0) {
        assert(v.remove_key(key).0 == s1);
        return;
    }
    let t = s1.tracks[tid.0];
    let a = t.artist_id.0;
    let s2 = DbView { tracks: s1.tracks.remove(tid.0), ..s1 };
    let s3 = match t.album_id {
        Some(aid) => s2.detach_from_album(aid, tid),
        None => s2.detach_standalone(t.artist_id, tid),
    };
    let fin = s3.drop_artist_if_empty(t.artist_id);
    assert(v.remove_key(key).0 == fin);
    assert(fin.tracks == v.tracks.remove(tid.0));
    assert(fin.track_counter == v.track_counter && fin.album_counter == v.album_counter
        && fin.artist_counter == v.artist_counter);
    // What the detach step does to the albums and to the artist `a`.
    let mut album_gone = false;
    let mut gone_id: u32 = 0;
    if t.album_id is Some && v.albums.contains_key((t.album_id->0).0) {
        let x = (t.album_id->0).0;
        let al = v.albums[x];
        assert(al.artist_id == t.artist_id);
        assert(v.artists.contains_key(a));
        let remaining = without(al.tracks, tid);
        assert forall|u: TrackId| #[trigger] remaining.contains(u) implies u.0 < v.track_counter by {
            lemma_without_contains(al.tracks, tid, u);
        }
        if remaining.len() == 0 {
            album_gone = true;
            gone_id = x;
            assert(s3.albums == v.albums.remove(x));
            assert(s3.album_lookup_to_id == v.album_lookup_to_id.remove((al.artist_id, al.title)));
            assert(s3.artists == v.artists.insert(
                a,
                ArtistView { albums: without(v.artists[a].albums, AlbumId(x)), ..v.artists[a] },
            ));
        } else {
            assert(s3.albums == v.albums.insert(x, AlbumView { tracks: remaining, ..al }));
            assert(s3.artists == v.artists);
            assert(s3.album_lookup_to_id == v.album_lookup_to_id);
        }
    } else if t.album_id is Some {
        assert(s3 == s2);
    } else if v.artists.contains_key(a) {
        assert(s3.albums == v.albums);
        assert(s3.artists == v.artists.insert(
            a,
            ArtistView { standalone_tracks: without(v.artists[a].standalone_tracks, tid), ..v.artists[a] },
        ));
    } else {
        assert(s3 == s2);
    }
    assert(s3.artist_name_to_id == v.artist_name_to_id);
    let dropped = s3.artists.contains_key(a) && s3.artists[a].albums.len() == 0
        && s3.artists[a].standalone_tracks.len() == 0;
    if dropped {
        assert(fin.artists == s3.artists.remove(a));
        assert(fin.artist_name_to_id == s3.artist_name_to_id.remove(s3.artists[a].name));
    } else {
        assert(fin == s3);
    }
    assert(fin.albums == s3.albums && fin.album_lookup_to_id == s3.album_lookup_to_id);

    assert forall|b: u32| #[trigger] fin.artists.contains_key(b) implies {
        &&& b < fin.artist_counter
        &&& (fin.artists[b].albums.len() > 0 || fin.artists[b].standalone_tracks.len() > 0)
        &&& forall|u: TrackId| #[trigger] fin.artists[b].standalone_tracks.contains(u) ==> u.0 < fin.track_counter
        &&& forall|x: AlbumId| #[trigger] fin.artists[b].albums.contains(x) ==> x.0 < fin.album_counter
    } by {
        assert(v.artists.contains_key(b));
        if b == a {
            assert forall|u: TrackId| #[trigger] fin.artists[b].standalone_tracks.contains(u) implies u.0
                < fin.track_counter by {
                lemma_without_contains(v.artists[a].standalone_tracks, tid, u);
            }
            assert forall|x: AlbumId| #[trigger] fin.artists[b].albums.contains(x) implies x.0 < fin.album_counter by {
                lemma_without_contains(v.artists[a].albums, AlbumId(gone_id), x);
            }
        } else {
            assert(fin.artists[b] == v.artists[b]);
        }
    }
    assert forall|x: u32| #[trigger] fin.albums.contains_key(x) implies {
        &&& x < fin.album_counter
        &&& fin.albums[x].tracks.len() > 0
        &&& forall|u: TrackId| #[trigger] fin.albums[x].tracks.contains(u) ==> u.0 < fin.track_counter
        &&& fin.artists.contains_key(fin.albums[x].artist_id.0)
        &&& fin.artists[fin.albums[x].artist_id.0].albums.contains(AlbumId(x))
    } by {
        assert(v.albums.contains_key(x));
        let owner = v.albums[x].artist_id.0;
        assert(fin.albums[x].artist_id.0 == owner);
        assert(v.artists[owner].albums.contains(AlbumId(x)));
        if owner == a {
            if album_gone {
                assert(x != gone_id);
                lemma_without_contains(v.artists[a].albums, AlbumId(gone_id), AlbumId(x));
            }
            assert(s3.artists[a].albums.contains(AlbumId(x)));
            assert(s3.artists[a].albums.len() > 0);
            assert(fin.artists[a] == s3.artists[a]);
        } else {
            assert(fin.artists[owner] == v.artists[owner]);
        }
    }
    assert forall|id: u32| #[trigger] fin.tracks.contains_key(id) implies (fin.tracks[id].album_id is Some ==> {
        &&& (fin.tracks[id].album_id->0).0 < fin.album_counter
        &&& fin.albums.contains_key((fin.tracks[id].album_id->0).0) ==> fin.albums[(fin.tracks[id].album_id->0).0].artist_id
            == fin.tracks[id].artist_id
    }) by {
        assert(v.tracks.contains_key(id));
        if fin.tracks[id].album_id is Some {
            let x = (fin.tracks[id].album_id->0).0;
            if fin.albums.contains_key(x) {
                assert(v.albums.contains_key(x));
                assert(fin.albums[x].artist_id == v.albums[x].artist_id);
            }
        }
    }
    assert forall|n: Seq<char>| #[trigger] fin.artist_name_to_id.contains_key(n) implies {
        &&& fin.artists.contains_key(fin.artist_name_to_id[n].0)
        &&& fin.artists[fin.artist_name_to_id[n].0].name == n
    } by {
        assert(v.artist_name_to_id.contains_key(n));
        let b = v.artist_name_to_id[n].0;
        assert(v.artists[b].name == n);
        if dropped && b == a {
            assert(s3.artists[a].name == v.artists[a].name);
            assert(false);
        }
    }
    assert forall|k: (ArtistId, Seq<char>)| #[trigger] fin.album_lookup_to_id.contains_key(k) implies {
        &&& fin.albums.contains_key(fin.album_lookup_to_id[k].0)
        &&& fin.albums[fin.album_lookup_to_id[k].0].artist_id == k.0
        &&& fin.albums[fin.album_lookup_to_id[k].0].title == k.1
    } by {
        assert(v.album_lookup_to_id.contains_key(k));
        let x = v.album_lookup_to_id[k].0;
        assert(v.albums[x].artist_id == k.0 && v.albums[x].title == k.1);
        if album_gone && x == gone_id {
            assert(false);
        }
        assert(fin.albums[x].artist_id == v.albums[x].artist_id && fin.albums[x].title == v.albums[x].title);
    }
}

/// Retagging a track into another album takes it out of its old album, whatever its
/// artist: afterwards the old album no longer lists the track, and it is deleted when the
/// track was all it listed (a remaining old album still lists something).
pub proof fn law_update_leaves_old_album(
    old: DbView,
    new: DbView,
    r: Option<TrackId>,
    path: Seq<char>,
    mtime: u64,
    file_size: u64,
    title: Seq<char>,
    artist_name: Seq<char>,
    album_artist_name: Option<Seq<char>>,
    album_name: Option<Seq<char>>,
    duration_ms: u32,
    track_number: Option<u16>,
    disc_number: Option<u8>,
    year: Option<u16>,
    sample_rate: Option<u32>,
    bitrate: Option<u32>,
    bit_depth: Option<u8>,
    channels: Option<u8>,
    track_gain_db: Option<u32>,
    track_peak: Option<u32>,
    album_gain_db: Option<u32>,
    album_peak: Option<u32>,
)
    requires
        track_updated(
            old,
            new,
            r,
            path,
            mtime,
            file_size,
            title,
            artist_name,
            album_artist_name,
            album_name,
            duration_ms,
            track_number,
            disc_number,
            year,
            sample_rate,
            bitrate,
            bit_depth,
            channels,
            track_gain_db,
            track_peak,
            album_gain_db,
            album_peak,
        ),
        old.track_at_path(path) is Some,
        old.track_at_path(path)->0.album_id is Some,
        r is Some,
        new.tracks[(r->0).0].album_id != old.track_at_path(path)->0.album_id,
    ensures
        ({
            let tid = r->0;
            let x = (old.track_at_path(path)->0.album_id->0).0;
            &&& new.albums.contains_key(x) ==> !new.albums[x].tracks.contains(tid) && new.albums[x].tracks.len() > 0
            &&& old.albums.contains_key(x) && without(old.albums[x].tracks, tid).len() == 0 ==> !new.albums.contains_key(x)
        }),
{
    let old_t = old.track_at_path(path)->0;
    let tid = old.path_to_track[normal_path(path)];
    let x = (old_t.album_id->0).0;
    let (s2, new_artist, new_album_artist, new_album) = old.resolve_links(
        artist_name,
        album_artist_name,
        album_name,
        year,
    );
    assert(r == Some(tid));
    assert(new_album != old_t.album_id);
    let s6 = s2.relink(tid, old_t.album_id, old_t.artist_id, new_album, new_artist);
    assert(new.albums == s6.albums);
    // resolving the new album touches no album but the new one
    assert(s2.albums.contains_key(x) ==> old.albums.contains_key(x) && s2.albums[x] == old.albums[x]);
    assert(!s2.albums.contains_key(x) ==> !old.albums.contains_key(x));
    let s3 = s2.detach_from_album(AlbumId(x), tid);
    if s2.albums.contains_key(x) {
        let rest = without(s2.albums[x].tracks, tid);
        lemma_without_contains(s2.albums[x].tracks, tid, tid);
        if rest.len() > 0 {
            assert(s3.albums[x].tracks == rest);
        } else {
            assert(!s3.albums.contains_key(x));
        }
    } else {
        assert(s3.albums == s2.albums);
    }
    let s4 = if old_t.artist_id != new_artist && old_t.album_id is None {
        s3.detach_standalone(old_t.artist_id, tid)
    } else {
        s3
    };
    let s5 = if old_t.artist_id != new_artist {
        s4.drop_artist_if_empty(old_t.artist_id)
    } else {
        s4
    };
    assert(s5.albums == s3.albums);
    let s7 = s5.attach_once(new_album, new_artist, tid);
    assert(s6 == s7);
    assert(s7.albums.contains_key(x) == s3.albums.contains_key(x));
    assert(s3.albums.contains_key(x) ==> s7.albums[x] == s3.albums[x]);
}


/// Each album lists only tracks that the library holds and that name that album as theirs.
pub open spec fn albums_list_own_tracks(v: DbView) -> bool {
    forall|x: u32, t: TrackId|
        #![trigger v.albums[x].tracks.contains(t)]
        v.albums.contains_key(x) && v.albums[x].tracks.contains(t) ==> v.tracks.contains_key(t.0)
            && v.tracks[t.0].album_id == Some(AlbumId(x))
}

/// Resolving the names of a track's tags keeps the tracks as they are and adds only albums
/// with no tracks.
proof fn lemma_resolve_keeps_album_listings(
    old: DbView,
    artist_name: Seq<char>,
    album_artist_name: Option<Seq<char>>,
    album_name: Option<Seq<char>>,
    year: Option<u16>,
)
    ensures
        ({
            let s2 = old.resolve_links(artist_name, album_artist_name, album_name, year).0;
            &&& s2.tracks == old.tracks
            &&& forall|x: u32| #[trigger] s2.albums.contains_key(x) ==> (old.albums.contains_key(x)
                && s2.albums[x] == old.albums[x]) || s2.albums[x].tracks.len() == 0
        }),
{
}

/// Retagging a track keeps every album listing only its own tracks, whatever the old and new
/// artist and album: the old album stops listing the track when the album changes, and only
/// the track's new album lists it.
pub proof fn law_update_keeps_albums_listing_own_tracks(
    old: DbView,
    new: DbView,
    r: Option<TrackId>,
    path: Seq<char>,
    mtime: u64,
    file_size: u64,
    title: Seq<char>,
    artist_name: Seq<char>,
    album_artist_name: Option<Seq<char>>,
    album_name: Option<Seq<char>>,
    duration_ms: u32,
    track_number: Option<u16>,
    disc_number: Option<u8>,
    year: Option<u16>,
    sample_rate: Option<u32>,
    bitrate: Option<u32>,
    bit_depth: Option<u8>,
    channels: Option<u8>,
    track_gain_db: Option<u32>,
    track_peak: Option<u32>,
    album_gain_db: Option<u32>,
    album_peak: Option<u32>,
)
    requires
        track_updated(
            old,
            new,
            r,
            path,
            mtime,
            file_size,
            title,
            artist_name,
            album_artist_name,
            album_name,
            duration_ms,
            track_number,
            disc_number,
            year,
            sample_rate,
            bitrate,
            bit_depth,
            channels,
            track_gain_db,
            track_peak,
            album_gain_db,
            album_peak,
        ),
        albums_list_own_tracks(old),
    ensures
        albums_list_own_tracks(new),
        r matches Some(tid) ==> forall|x: u32|
            #![trigger new.albums[x].tracks.contains(tid)]
            new.albums.contains_key(x) && new.albums[x].tracks.contains(tid) ==> new.tracks[tid.0].album_id
                == Some(AlbumId(x)),
{
    if old.track_at_path(path) is Some {
        let old_t = old.track_at_path(path)->0;
        let tid = old.path_to_track[normal_path(path)];
        assert(old.tracks.contains_key(tid.0) && old.tracks[tid.0] == old_t);
        let (s2, new_artist, new_album_artist, new_album) = old.resolve_links(
            artist_name,
            album_artist_name,
            album_name,
            year,
        );
        lemma_resolve_keeps_album_listings(old, artist_name, album_artist_name, album_name, year);
        let s3 = if old_t.album_id != new_album && old_t.album_id is Some {
            s2.detach_from_album(old_t.album_id->0, tid)
        } else {
            s2
        };
        let s4 = if old_t.artist_id != new_artist && old_t.album_id is None {
            s3.detach_standalone(old_t.artist_id, tid)
        } else {
            s3
        };
        let s5 = if old_t.artist_id != new_artist {
            s4.drop_artist_if_empty(old_t.artist_id)
        } else {
            s4
        };
        let s6 = s2.relink(tid, old_t.album_id, old_t.artist_id, new_album, new_artist);
        assert(s6 == (if old_t.album_id != new_album {
            s5.attach_once(new_album, new_artist, tid)
        } else {
            s5
        }));
        assert(s5.albums == s3.albums && s5.tracks == s2.tracks);
        assert(s6.tracks == old.tracks);
        assert(new.tracks == old.tracks.insert(tid.0, new.tracks[tid.0]));
        assert(new.tracks[tid.0].album_id == new_album);
        // what the old album keeps after the track leaves it
        assert forall|x: u32, t: TrackId|
            #![trigger s3.albums[x].tracks.contains(t)]
            s3.albums.contains_key(x) && s3.albums[x].tracks.contains(t) implies s2.albums.contains_key(x) && s2.albums[x].tracks.contains(t) && (old_t.album_id
            != new_album && old_t.album_id == Some(AlbumId(x)) ==> t != tid) by {
            if old_t.album_id != new_album && old_t.album_id is Some {
                let a = (old_t.album_id->0).0;
                if x == a {
                    lemma_without_contains(s2.albums[a].tracks, tid, t);
                }
            }
        }
        assert forall|x: u32, t: TrackId|
            #![trigger new.albums[x].tracks.contains(t)]
            new.albums.contains_key(x) && new.albums[x].tracks.contains(t) implies new.tracks.contains_key(t.0)
                && new.tracks[t.0].album_id == Some(AlbumId(x)) by {
            assert(new.albums == s6.albums);
            let attached = old_t.album_id != new_album && new_album == Some(AlbumId(x)) && s5.albums.contains_key(x)
                && !s5.albums[x].tracks.contains(tid);
            if attached {
                assert(s6.albums[x].tracks == s5.albums[x].tracks.push(tid));
                if t != tid {
                    let i = choose|i: int| 0 <= i < s6.albums[x].tracks.len() && s6.albums[x].tracks[i] == t;
                    assert(s5.albums[x].tracks[i] == t);
                }
            } else {
                assert(s6.albums.contains_key(x) == s5.albums.contains_key(x));
                assert(s6.albums[x] == s5.albums[x]);
            }
            if t != tid || !attached {
                assert(s3.albums.contains_key(x) && s3.albums[x].tracks.contains(t));
                assert(s2.albums.contains_key(x) && s2.albums[x].tracks.contains(t));
                assert(old.albums.contains_key(x) && old.albums[x].tracks.contains(t));
                assert(old.tracks.contains_key(t.0) && old.tracks[t.0].album_id == Some(AlbumId(x)));
                if t == tid {
                    assert(old_t.album_id == Some(AlbumId(x)));
                }
            }
        }
    }
}


/// Inserting a track keeps every album listing only its own tracks: the new track is listed
/// by its album alone.
pub proof fn law_insert_keeps_albums_listing_own_tracks(
    old: DbView,
    new: DbView,
    r: TrackId,
    path: Seq<char>,
    mtime: u64,
    file_size: u64,
    title: Seq<char>,
    artist_name: Seq<char>,
    album_artist_name: Option<Seq<char>>,
    album_name: Option<Seq<char>>,
    duration_ms: u32,
    track_number: Option<u16>,
    disc_number: Option<u8>,
    year: Option<u16>,
    format: AudioFormat,
    sample_rate: Option<u32>,
    bitrate: Option<u32>,
    bit_depth: Option<u8>,
    channels: Option<u8>,
    track_gain_db: Option<u32>,
    track_peak: Option<u32>,
    album_gain_db: Option<u32>,
    album_peak: Option<u32>,
)
    requires
        albums_list_own_tracks(old),
        old.ids_below_counter(),
        track_inserted(
            old,
            new,
            r,
            path,
            mtime,
            file_size,
            title,
            artist_name,
            album_artist_name,
            album_name,
            duration_ms,
            track_number,
            disc_number,
            year,
            format,
            sample_rate,
            bitrate,
            bit_depth,
            channels,
            track_gain_db,
            track_peak,
            album_gain_db,
            album_peak,
        ),
    ensures
        albums_list_own_tracks(new),
{
    if old.path_to_track.contains_key(normal_path(path)) {
        return;
    }
    let (s2, artist_id, album_artist_id, album_id) = old.resolve_links(
        artist_name,
        album_artist_name,
        album_name,
        year,
    );
    lemma_resolve_keeps_album_listings(old, artist_name, album_artist_name, album_name, year);
    assert(s2.track_counter == old.track_counter) by {
        let (s1, a1, aa) = old.resolve_artists(artist_name, album_artist_name);
        assert(s1.track_counter == old.track_counter);
    }
    let tid = TrackId(s2.track_counter);
    let s3 = s2.attach(album_id, artist_id, tid);
    assert(!old.tracks.contains_key(tid.0));
    assert(new.albums == s3.albums);
    assert(new.tracks == old.tracks.insert(tid.0, new.tracks[tid.0]));
    assert(new.tracks[tid.0].album_id == album_id);
    assert forall|x: u32, t: TrackId|
        #![trigger new.albums[x].tracks.contains(t)]
        new.albums.contains_key(x) && new.albums[x].tracks.contains(t) implies new.tracks.contains_key(t.0)
            && new.tracks[t.0].album_id == Some(AlbumId(x)) by {
        let pushed = album_id == Some(AlbumId(x)) && s2.albums.contains_key(x);
        if pushed {
            assert(s3.albums[x].tracks == s2.albums[x].tracks.push(tid));
            if t != tid {
                let i = choose|i: int| 0 <= i < s3.albums[x].tracks.len() && s3.albums[x].tracks[i] == t;
                assert(s2.albums[x].tracks[i] == t);
            }
        } else {
            assert(s3.albums.contains_key(x) == s2.albums.contains_key(x));
            assert(s3.albums[x] == s2.albums[x]);
        }
        if t != tid || !pushed {
            assert(s2.albums.contains_key(x) && s2.albums[x].tracks.contains(t));
            assert(old.albums.contains_key(x) && old.albums[x].tracks.contains(t));
            assert(old.tracks.contains_key(t.0));
            assert(t.0 != tid.0);
        }
    }
}

/// Removing a track keeps every album listing only its own tracks: no album lists the
/// removed track any more.
pub proof fn law_remove_keeps_albums_listing_own_tracks(v: DbView, key: Seq<char>)
    requires
        albums_list_own_tracks(v),
    ensures
        albums_list_own_tracks(v.remove_key(key).0),
{
    if !v.path_to_track.contains_key(key) {
        return;
    }
    let tid = v.path_to_track[key];
    let s1 = DbView { path_to_track: v.path_to_track.remove(key), ..v };
    if !s1.tracks.contains_key(tid.0) {
        assert(v.remove_key(key).0 == s1);
        return;
    }
    let t0 = s1.tracks[tid.0];
    let s2 = DbView { tracks: s1.tracks.remove(tid.0), ..s1 };
    let s3 = match t0.album_id {
        Some(aid) => s2.detach_from_album(aid, tid),
        None => s2.detach_standalone(t0.artist_id, tid),
    };
    let fin = s3.drop_artist_if_empty(t0.artist_id);
    assert(v.remove_key(key).0 == fin);
    assert(fin.albums == s3.albums);
    assert(fin.tracks == v.tracks.remove(tid.0));
    assert forall|x: u32, t: TrackId|
        #![trigger fin.albums[x].tracks.contains(t)]
        fin.albums.contains_key(x) && fin.albums[x].tracks.contains(t) implies fin.tracks.contains_key(t.0)
            && fin.tracks[t.0].album_id == Some(AlbumId(x)) by {
        assert(s3.albums.contains_key(x) && s3.albums[x].tracks.contains(t));
        if t0.album_id == Some(AlbumId(x)) {
            lemma_without_contains(v.albums[x].tracks, tid, t);
        }
        assert(v.albums.contains_key(x) && v.albums[x].tracks.contains(t));
        assert(v.tracks[t.0].album_id == Some(AlbumId(x)));
        if t.0 == tid.0 {
            assert(t == tid);
            assert(t0 == v.tracks[tid.0]);
        }
    }
}


/// Retagging a track into another album lists it there (when that album exists); retagging
/// it out of any album lists it among the new artist's standalone tracks (when that artist
/// exists).
pub proof fn law_update_lists_track_in_new_place(
    old: DbView,
    new: DbView,
    r: Option<TrackId>,
    path: Seq<char>,
    mtime: u64,
    file_size: u64,
    title: Seq<char>,
    artist_name: Seq<char>,
    album_artist_name: Option<Seq<char>>,
    album_name: Option<Seq<char>>,
    duration_ms: u32,
    track_number: Option<u16>,
    disc_number: Option<u8>,
    year: Option<u16>,
    sample_rate: Option<u32>,
    bitrate: Option<u32>,
    bit_depth: Option<u8>,
    channels: Option<u8>,
    track_gain_db: Option<u32>,
    track_peak: Option<u32>,
    album_gain_db: Option<u32>,
    album_peak: Option<u32>,
)
    requires
        track_updated(
            old,
            new,
            r,
            path,
            mtime,
            file_size,
            title,
            artist_name,
            album_artist_name,
            album_name,
            duration_ms,
            track_number,
            disc_number,
            year,
            sample_rate,
            bitrate,
            bit_depth,
            channels,
            track_gain_db,
            track_peak,
            album_gain_db,
            album_peak,
        ),
        old.track_at_path(path) is Some,
    ensures
        ({
            let tid = r->0;
            let old_album = old.track_at_path(path)->0.album_id;
            let new_t = new.tracks[tid.0];
            &&& r is Some
            &&& (new_t.album_id != old_album && new_t.album_id is Some && new.albums.contains_key(
                (new_t.album_id->0).0,
            )) ==> new.albums[(new_t.album_id->0).0].tracks.contains(tid)
            &&& (new_t.album_id != old_album && new_t.album_id is None && new.artists.contains_key(new_t.artist_id.0))
                ==> new.artists[new_t.artist_id.0].standalone_tracks.contains(tid)
        }),
{
    let old_t = old.track_at_path(path)->0;
    let tid = old.path_to_track[normal_path(path)];
    let (s2, new_artist, new_album_artist, new_album) = old.resolve_links(
        artist_name,
        album_artist_name,
        album_name,
        year,
    );
    let s3 = if old_t.album_id != new_album && old_t.album_id is Some {
        s2.detach_from_album(old_t.album_id->0, tid)
    } else {
        s2
    };
    let s4 = if old_t.artist_id != new_artist && old_t.album_id is None {
        s3.detach_standalone(old_t.artist_id, tid)
    } else {
        s3
    };
    let s5 = if old_t.artist_id != new_artist {
        s4.drop_artist_if_empty(old_t.artist_id)
    } else {
        s4
    };
    let s6 = s2.relink(tid, old_t.album_id, old_t.artist_id, new_album, new_artist);
    assert(new.albums == s6.albums && new.artists == s6.artists);
    assert(new.tracks[tid.0].album_id == new_album && new.tracks[tid.0].artist_id == new_artist);
    if old_t.album_id != new_album {
        assert(s6 == s5.attach_once(new_album, new_artist, tid));
        match new_album {
            Some(y) => {
                if s5.albums.contains_key(y.0) && !s5.albums[y.0].tracks.contains(tid) {
                    assert(s6.albums[y.0].tracks == s5.albums[y.0].tracks.push(tid));
                    assert(s6.albums[y.0].tracks[s5.albums[y.0].tracks.len() as int] == tid);
                } else {
                    assert(s6.albums == s5.albums);
                }
            },
            None => {
                if s5.artists.contains_key(new_artist.0) && !s5.artists[new_artist.0].standalone_tracks.contains(tid) {
                    let st = s5.artists[new_artist.0].standalone_tracks;
                    assert(s6.artists[new_artist.0].standalone_tracks == st.push(tid));
                    assert(st.push(tid)[st.len() as int] == tid);
                } else {
                    assert(s6.artists == s5.artists);
                }
            },
        }
    }
}

} // verus!
