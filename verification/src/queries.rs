use vstd::prelude::*;
use crate::types::{Album, AlbumId, AlbumView, Artist, ArtistId, ArtistView, AudioFormat, Track, TrackId};
use crate::database::{DbView, LibraryDatabase};
use crate::text::{ascii_lower_seq, lowercase, lower_text};

verus! {

/// `x` placed into `s` right after the last element whose key is at most `x`'s, looking
/// from the end (so that `x` follows every element of equal key).
pub open spec fn insert_sorted<T>(s: Seq<T>, x: T, key: spec_fn(T) -> int) -> Seq<T>
    decreases s.len(),
{
    if s.len() == 0 {
        seq![x]
    } else if key(s.last()) <= key(x) {
        s.push(x)
    } else {
        insert_sorted(s.drop_last(), x, key).push(s.last())
    }
}

/// The stable sort of `s` by `key`: ordered by key, elements of equal key in the order
/// in which `s` lists them.
pub open spec fn stable_sort<T>(s: Seq<T>, key: spec_fn(T) -> int) -> Seq<T>
    decreases s.len(),
{
    if s.len() == 0 {
        s
    } else {
        insert_sorted(stable_sort(s.drop_last(), key), s.last(), key)
    }
}

/// `s` is ordered by `key`.
pub open spec fn sorted_by<T>(s: Seq<T>, key: spec_fn(T) -> int) -> bool {
    forall|i: int, j: int| 0 <= i < j < s.len() ==> key(#[trigger] s[i]) <= key(#[trigger] s[j])
}

proof fn lemma_insert_sorted_split<T>(a: Seq<T>, b: Seq<T>, x: T, key: spec_fn(T) -> int)
    requires
        forall|i: int| 0 <= i < b.len() ==> key(#[trigger] b[i]) > key(x),
    ensures
        insert_sorted(a + b, x, key) == insert_sorted(a, x, key) + b,
    decreases b.len(),
{
    if b.len() == 0 {
        assert(a + b =~= a);
        assert(insert_sorted(a, x, key) + b =~= insert_sorted(a, x, key));
    } else {
        let b0 = b.drop_last();
        assert((a + b).drop_last() =~= a + b0);
        assert((a + b).last() == b.last());
        lemma_insert_sorted_split(a, b0, x, key);
        assert(insert_sorted(a, x, key) + b =~= (insert_sorted(a, x, key) + b0).push(b.last()));
    }
}

proof fn lemma_insert_sorted_props<T>(s: Seq<T>, x: T, key: spec_fn(T) -> int)
    requires
        sorted_by(s, key),
    ensures
        sorted_by(insert_sorted(s, x, key), key),
        insert_sorted(s, x, key).to_multiset() == s.to_multiset().insert(x),
        insert_sorted(s, x, key).len() == s.len() + 1,
    decreases s.len(),
{
    broadcast use vstd::seq_lib::group_to_multiset_ensures;
    if s.len() == 0 {
        assert(seq![x] =~= Seq::<T>::empty().push(x));
    } else if key(s.last()) <= key(x) {
    } else {
        let s0 = s.drop_last();
        lemma_insert_sorted_props(s0, x, key);
        let r0 = insert_sorted(s0, x, key);
        let r = r0.push(s.last());
        assert(s0.push(s.last()) =~= s);
        assert forall|i: int, j: int| 0 <= i < j < r.len() implies key(#[trigger] r[i]) <= key(#[trigger] r[j]) by {
            if j == r.len() - 1 {
                assert(r0.to_multiset().count(r0[i]) > 0);
                assert(s0.to_multiset().insert(x).count(r0[i]) > 0);
                if r0[i] != x {
                    assert(s0.contains(r0[i]));
                    let k = choose|k: int| 0 <= k < s0.len() && s0[k] == r0[i];
                    assert(s[k] == s0[k]);
                    assert(key(s[k]) <= key(s[s.len() - 1]));
                }
            }
        }
        assert(r.to_multiset() =~= r0.to_multiset().insert(s.last()));
        assert(s.to_multiset() =~= s0.to_multiset().insert(s.last()));
    }
}

/// The stable sort is ordered by the key and holds the same elements.
pub proof fn lemma_stable_sort<T>(s: Seq<T>, key: spec_fn(T) -> int)
    ensures
        sorted_by(stable_sort(s, key), key),
        stable_sort(s, key).to_multiset() == s.to_multiset(),
        stable_sort(s, key).len() == s.len(),
    decreases s.len(),
{
    broadcast use vstd::seq_lib::group_to_multiset_ensures;
    if s.len() > 0 {
        lemma_stable_sort(s.drop_last(), key);
        lemma_insert_sorted_props(stable_sort(s.drop_last(), key), s.last(), key);
        assert(s.drop_last().push(s.last()) =~= s);
    }
}

/// The order in which an album lists its tracks: by disc (a missing disc counts as 1),
/// then by track number (a missing number counts as 0).
pub open spec fn track_order_key(t: Track) -> int {
    (match t.disc_number {
        Some(d) => d as int,
        None => 1,
    }) * 65536 + (match t.track_number {
        Some(n) => n as int,
        None => 0,
    })
}

/// The order in which an artist lists its albums: newest year first (a missing year counts
/// as 0).
pub open spec fn album_order_key(a: AlbumWithTracksView) -> int {
    -(match a.album.year {
        Some(y) => y as int,
        None => 0,
    })
}

/// The tracks of `ids` that the library holds, in order.
pub open spec fn present_tracks(db: DbView, ids: Seq<TrackId>) -> Seq<Track>
    decreases ids.len(),
{
    if ids.len() == 0 {
        Seq::empty()
    } else {
        let p = present_tracks(db, ids.drop_last());
        if db.tracks.contains_key(ids.last().0) {
            p.push(db.tracks[ids.last().0])
        } else {
            p
        }
    }
}

/// A UI-ready description of a track: its record with the names of its artist, album
/// artist and album.
#[derive(Debug, Clone)]
pub struct TrackView {
    pub id: TrackId,
    pub path: String,
    pub title: String,
    pub artist_id: ArtistId,
    pub artist_name: String,
    pub album_artist_id: Option<ArtistId>,
    pub album_artist_name: Option<String>,
    pub album_id: Option<AlbumId>,
    pub album_title: Option<String>,
    pub duration_ms: u32,
    pub track_number: Option<u16>,
    pub disc_number: Option<u8>,
    pub year: Option<u16>,
    pub format: AudioFormat,
    pub bitrate: Option<u32>,
    pub sample_rate: Option<u32>,
    pub bit_depth: Option<u8>,
    pub channels: Option<u8>,
    pub track_gain_db: Option<u32>,
    pub track_peak: Option<u32>,
    pub album_gain_db: Option<u32>,
    pub album_peak: Option<u32>,
}

/// The text of an optional string.
pub open spec fn opt_string_text(o: Option<String>) -> Option<Seq<char>> {
    match o {
        Some(s) => Some(s@),
        None => None,
    }
}

/// A description of track `id` can be made: the track and its artist exist.
pub open spec fn has_track_view(db: DbView, id: TrackId) -> bool {
    db.tracks.contains_key(id.0) && db.artists.contains_key(db.tracks[id.0].artist_id.0)
}

/// `v` describes track `id` of the library: the track's fields, its artist's name, and the
/// names of its album artist and album when those exist.
pub open spec fn describes_track(db: DbView, id: TrackId, v: TrackView) -> bool {
    let t = db.tracks[id.0];
    &&& has_track_view(db, id)
    &&& v.id == t.id
    &&& v.path == t.path
    &&& v.title == t.title
    &&& v.artist_id == t.artist_id
    &&& v.artist_name@ == db.artists[t.artist_id.0].name
    &&& v.album_artist_id == t.album_artist_id
    &&& opt_string_text(v.album_artist_name) == (match t.album_artist_id {
        Some(a) => if db.artists.contains_key(a.0) {
            Some(db.artists[a.0].name)
        } else {
            None
        },
        None => None,
    })
    &&& v.album_id == t.album_id
    &&& opt_string_text(v.album_title) == (match t.album_id {
        Some(a) => if db.albums.contains_key(a.0) {
            Some(db.albums[a.0].title)
        } else {
            None
        },
        None => None,
    })
    &&& v.duration_ms == t.duration_ms
    &&& v.track_number == t.track_number
    &&& v.disc_number == t.disc_number
    &&& v.year == t.year
    &&& v.format == t.format
    &&& v.bitrate == t.bitrate
    &&& v.sample_rate == t.sample_rate
    &&& v.bit_depth == t.bit_depth
    &&& v.channels == t.channels
    &&& v.track_gain_db == t.track_gain_db
    &&& v.track_peak == t.track_peak
    &&& v.album_gain_db == t.album_gain_db
    &&& v.album_peak == t.album_peak
}

/// Describes track `id`: `None` when the track or its artist is missing.
pub fn resolve_track_view(db: &LibraryDatabase, id: TrackId) -> (r: Option<TrackView>)
    ensures
        r is Some <==> has_track_view(db@, id),
        r matches Some(v) ==> describes_track(db@, id, v),
{
    let track = match db.get_track(id) {
        Some(t) => t,
        None => {
            return None;
        },
    };
    let artist = match db.get_artist(track.artist_id) {
        Some(a) => a,
        None => {
            return None;
        },
    };
    let album_title = match track.album_id {
        Some(a_id) => match db.get_album(a_id) {
            Some(a) => Some(a.title),
            None => None,
        },
        None => None,
    };
    let album_artist_name = match track.album_artist_id {
        Some(a_id) => match db.get_artist(a_id) {
            Some(a) => Some(a.name),
            None => None,
        },
        None => None,
    };
    Some(TrackView {
        id: track.id,
        path: track.path,
        title: track.title,
        artist_id: track.artist_id,
        artist_name: artist.name,
        album_artist_id: track.album_artist_id,
        album_artist_name,
        album_id: track.album_id,
        album_title,
        duration_ms: track.duration_ms,
        track_number: track.track_number,
        disc_number: track.disc_number,
        year: track.year,
        format: track.format,
        bitrate: track.bitrate,
        sample_rate: track.sample_rate,
        bit_depth: track.bit_depth,
        channels: track.channels,
        track_gain_db: track.track_gain_db,
        track_peak: track.track_peak,
        album_gain_db: track.album_gain_db,
        album_peak: track.album_peak,
    })
}

/// An album with its tracks in listing order.
#[derive(Debug, Clone)]
pub struct AlbumWithTracks {
    pub album: Album,
    pub tracks: Vec<Track>,
}

/// The mathematical value of an [`AlbumWithTracks`].
#[verifier::ext_equal]
pub struct AlbumWithTracksView {
    pub album: AlbumView,
    pub tracks: Seq<Track>,
}

impl View for AlbumWithTracks {
    type V = AlbumWithTracksView;

    open spec fn view(&self) -> AlbumWithTracksView {
        AlbumWithTracksView { album: self.album@, tracks: self.tracks@ }
    }
}

/// An artist with its albums (newest first) and its standalone tracks.
#[derive(Debug, Clone)]
pub struct ArtistWithAlbums {
    pub artist: Artist,
    pub albums: Vec<AlbumWithTracks>,
    pub standalone_tracks: Vec<Track>,
}

/// Album `id` of the library with its tracks in listing order.
pub open spec fn album_with_tracks(db: DbView, id: AlbumId) -> AlbumWithTracksView {
    AlbumWithTracksView {
        album: db.albums[id.0],
        tracks: stable_sort(present_tracks(db, db.albums[id.0].tracks), |t: Track| track_order_key(t)),
    }
}

/// The albums of `ids` that the library holds, each with its tracks, in order.
pub open spec fn present_albums(db: DbView, ids: Seq<AlbumId>) -> Seq<AlbumWithTracksView>
    decreases ids.len(),
{
    if ids.len() == 0 {
        Seq::empty()
    } else {
        let p = present_albums(db, ids.drop_last());
        if db.albums.contains_key(ids.last().0) {
            p.push(album_with_tracks(db, ids.last()))
        } else {
            p
        }
    }
}

/// Title search: the tracks with identifiers 1 to `n` (in that order) that the library
/// holds and whose lower-cased title contains `q`.
pub open spec fn search_results(db: DbView, n: nat, q: Seq<char>) -> Seq<Track>
    decreases n,
{
    if n == 0 {
        Seq::empty()
    } else {
        let p = search_results(db, (n - 1) as nat, q);
        if n <= u32::MAX && db.tracks.contains_key(n as u32) && crate::text::contains_piece(
            lowercase(db.tracks[n as u32].title@),
            q,
        ) {
            p.push(db.tracks[n as u32])
        } else {
            p
        }
    }
}

/// The listing key of a track.
fn track_key(t: &Track) -> (r: u32)
    ensures
        r == track_order_key(*t),
{
    let d: u32 = match t.disc_number {
        Some(d) => d as u32,
        None => 1,
    };
    let n: u32 = match t.track_number {
        Some(n) => n as u32,
        None => 0,
    };
    d * 65536 + n
}

/// Sorts tracks into listing order (see [`track_order_key`]), keeping the relative order of
/// tracks of equal key.
fn sort_tracks(v: Vec<Track>) -> (r: Vec<Track>)
    ensures
        r@ == stable_sort(v@, |t: Track| track_order_key(t)),
{
    let ghost key = |t: Track| track_order_key(t);
    let mut out: Vec<Track> = Vec::new();
    let ghost v0 = v@;
    let n = v.len();
    let mut i: usize = 0;
    while i < n
        invariant
            n == v@.len(),
            v0 == v@,
            i <= n,
            out@ == stable_sort(v0.subrange(0, i as int), key),
            key == (|t: Track| track_order_key(t)),
        decreases n - i,
    {
        let x = v[i].duplicate();
        let kx = track_key(&x);
        let mut p = out.len();
        while p > 0 && track_key(&out[p - 1]) > kx
            invariant
                p <= out@.len(),
                kx == key(x),
                forall|j: int| p <= j < out@.len() ==> key(#[trigger] out@[j]) > key(x),
                key == (|t: Track| track_order_key(t)),
            decreases p,
        {
            p = p - 1;
        }
        proof {
            let o = out@;
            lemma_insert_sorted_split(o.subrange(0, p as int), o.subrange(p as int, o.len() as int), x, key);
            assert(o.subrange(0, p as int) + o.subrange(p as int, o.len() as int) =~= o);
            if p > 0 {
                assert(o.subrange(0, p as int).last() == o[p - 1]);
                assert(o.subrange(0, p as int).drop_last() =~= o.subrange(0, p - 1));
            }
            assert(insert_sorted(o.subrange(0, p as int), x, key) =~= o.subrange(0, p as int).push(x));
            assert(v0.subrange(0, i + 1).drop_last() =~= v0.subrange(0, i as int));
            assert(v0.subrange(0, i + 1).last() == x);
            assert(o.insert(p as int, x) =~= o.subrange(0, p as int).push(x) + o.subrange(p as int, o.len() as int));
        }
        out.insert(p, x);
        i = i + 1;
    }
    proof {
        assert(v0.subrange(0, n as int) =~= v0);
    }
    out
}


/// The listing key of an album: its year, compared newest first.
fn album_year_key(a: &AlbumWithTracks) -> (r: u16)
    ensures
        album_order_key(a@) == -(r as int),
{
    match a.album.year {
        Some(y) => y,
        None => 0,
    }
}

/// The values of a list of albums with their tracks.
pub open spec fn album_list_views(s: Seq<AlbumWithTracks>) -> Seq<AlbumWithTracksView> {
    s.map_values(|a: AlbumWithTracks| a@)
}

/// Sorts albums newest first (see [`album_order_key`]), keeping the relative order of
/// albums of the same year.
fn sort_albums(v: Vec<AlbumWithTracks>) -> (r: Vec<AlbumWithTracks>)
    ensures
        album_list_views(r@) == stable_sort(album_list_views(v@), |a: AlbumWithTracksView| album_order_key(a)),
{
    let ghost key = |a: AlbumWithTracksView| album_order_key(a);
    let mut out: Vec<AlbumWithTracks> = Vec::new();
    let ghost v0 = album_list_views(v@);
    let mut v = v;
    let n = v.len();
    let mut i: usize = 0;
    while i < n
        invariant
            n == v0.len(),
            i <= n,
            album_list_views(v@) == v0.subrange(i as int, n as int),
            album_list_views(out@) == stable_sort(v0.subrange(0, i as int), key),
            key == (|a: AlbumWithTracksView| album_order_key(a)),
        decreases n - i,
    {
        proof {
            assert(album_list_views(v@).len() == v@.len());
            assert(album_list_views(v@)[0] == v0[i as int]);
        }
        let ghost vb = v@;
        let x = v.remove(0);
        proof {
            assert forall|j: int| 0 <= j < v@.len() implies album_list_views(v@)[j] == album_list_views(vb)[j + 1] by {
                assert(v@[j] == vb[j + 1]);
            }
            assert(album_list_views(v@) =~= v0.subrange(i + 1, n as int));
        }
        let kx = album_year_key(&x);
        let mut p = out.len();
        while p > 0 && album_year_key(&out[p - 1]) < kx
            invariant
                p <= out@.len(),
                album_order_key(x@) == -(kx as int),
                forall|j: int| p <= j < out@.len() ==> key(#[trigger] album_list_views(out@)[j]) > key(x@),
                key == (|a: AlbumWithTracksView| album_order_key(a)),
            decreases p,
        {
            p = p - 1;
        }
        proof {
            let o = album_list_views(out@);
            let xv = x@;
            lemma_insert_sorted_split(o.subrange(0, p as int), o.subrange(p as int, o.len() as int), xv, key);
            assert(o.subrange(0, p as int) + o.subrange(p as int, o.len() as int) =~= o);
            if p > 0 {
                assert(o.subrange(0, p as int).last() == o[p - 1]);
            }
            assert(insert_sorted(o.subrange(0, p as int), xv, key) =~= o.subrange(0, p as int).push(xv));
            assert(v0.subrange(0, i + 1).drop_last() =~= v0.subrange(0, i as int));
            assert(v0.subrange(0, i + 1).last() == xv);
        }
        let ghost o_before = out@;
        out.insert(p, x);
        proof {
            assert(album_list_views(out@) =~= album_list_views(o_before).insert(p as int, v0[i as int]));
            assert(album_list_views(o_before).insert(p as int, v0[i as int]) =~= album_list_views(o_before).subrange(0, p as int).push(v0[i as int]) + album_list_views(o_before).subrange(p as int, o_before.len() as int));
        }
        i = i + 1;
    }
    proof {
        assert(v0.subrange(0, n as int) =~= v0);
    }
    out
}

/// The tracks of `ids` that the library holds, in order.
fn collect_tracks(db: &LibraryDatabase, ids: &Vec<TrackId>) -> (r: Vec<Track>)
    ensures
        r@ == present_tracks(db@, ids@),
{
    let mut r: Vec<Track> = Vec::new();
    let mut i: usize = 0;
    while i < ids.len()
        invariant
            i <= ids@.len(),
            r@ == present_tracks(db@, ids@.subrange(0, i as int)),
        decreases ids@.len() - i,
    {
        proof {
            assert(ids@.subrange(0, i + 1).drop_last() =~= ids@.subrange(0, i as int));
        }
        if let Some(t) = db.get_track(ids[i]) {
            r.push(t);
        }
        i = i + 1;
    }
    proof {
        assert(ids@.subrange(0, i as int) =~= ids@);
    }
    r
}

/// Read-only queries over a library.
pub struct LibraryQueries<'a> {
    db: &'a LibraryDatabase,
}

impl<'a> LibraryQueries<'a> {
    /// The library that the queries read.
    pub closed spec fn database(&self) -> DbView {
        self.db@
    }

    /// Queries over `db`.
    pub fn new(db: &'a LibraryDatabase) -> (r: Self)
        ensures
            r.database() == db@,
    {
        LibraryQueries { db }
    }

    /// Album `album_id` with its tracks in listing order (by disc, then track number):
    /// `None` when the library has no such album.  Listed tracks the library no longer holds
    /// are left out.
    pub fn get_album_with_tracks(&self, album_id: AlbumId) -> (r: Option<AlbumWithTracks>)
        ensures
            r is Some <==> self.database().albums.contains_key(album_id.0),
            r matches Some(a) ==> a@ == album_with_tracks(self.database(), album_id),
    {
        let album = match self.db.get_album(album_id) {
            Some(a) => a,
            None => {
                return None;
            },
        };
        let tracks = collect_tracks(self.db, &album.tracks);
        let tracks = sort_tracks(tracks);
        Some(AlbumWithTracks { album, tracks })
    }

    /// Artist `artist_id` with its albums (newest first, each with its tracks in listing
    /// order) and its standalone tracks: `None` when the library has no such artist.
    pub fn get_artist_with_albums(&self, artist_id: ArtistId) -> (r: Option<ArtistWithAlbums>)
        ensures
            r is Some <==> self.database().artists.contains_key(artist_id.0),
            r matches Some(a) ==> {
                let db = self.database();
                let art = db.artists[artist_id.0];
                &&& a.artist@ == art
                &&& album_list_views(a.albums@) == stable_sort(
                    present_albums(db, art.albums),
                    |x: AlbumWithTracksView| album_order_key(x),
                )
                &&& a.standalone_tracks@ == present_tracks(db, art.standalone_tracks)
            },
    {
        let artist = match self.db.get_artist(artist_id) {
            Some(a) => a,
            None => {
                return None;
            },
        };
        let mut albums: Vec<AlbumWithTracks> = Vec::new();
        let mut i: usize = 0;
        while i < artist.albums.len()
            invariant
                i <= artist.albums@.len(),
                album_list_views(albums@) == present_albums(self.db@, artist.albums@.subrange(0, i as int)),
            decreases artist.albums@.len() - i,
        {
            proof {
                assert(artist.albums@.subrange(0, i + 1).drop_last() =~= artist.albums@.subrange(0, i as int));
            }
            if let Some(album_data) = self.get_album_with_tracks(artist.albums[i]) {
                let ghost before = albums@;
                albums.push(album_data);
                proof {
                    assert(album_list_views(albums@) =~= album_list_views(before).push(album_data@));
                }
            }
            i = i + 1;
        }
        proof {
            assert(artist.albums@.subrange(0, i as int) =~= artist.albums@);
        }
        let albums = sort_albums(albums);
        let standalone_tracks = collect_tracks(self.db, &artist.standalone_tracks);
        Some(ArtistWithAlbums { artist, albums, standalone_tracks })
    }

    /// Title search: the tracks whose lower-cased title contains the lower-cased `query`,
    /// looking at identifiers 1 up to the number of tracks (in that order).
    pub fn search_tracks(&self, query: &str) -> (r: Vec<Track>)
        ensures
            r@ == search_results(
                self.database(),
                (self.database().tracks.dom().len() as u32) as nat,
                lowercase(query@),
            ),
    {
        let query_lower = lower_text(query);
        let n = self.db.track_count() as u32;
        let mut matches: Vec<Track> = Vec::new();
        let mut k: u64 = 1;
        while k <= n as u64
            invariant
                1 <= k,
                k <= n + 1,
                query_lower@ == lowercase(query@),
                n == (self.db@.tracks.dom().len() as u32),
                matches@ == search_results(self.db@, (k - 1) as nat, query_lower@),
            decreases n + 1 - k,
        {
            let id = k as u32;
            if let Some(track) = self.db.get_track(TrackId(id)) {
                let title_lower = lower_text(track.title.as_str());
                if crate::text::contains_str(title_lower.as_str(), query_lower.as_str()) {
                    matches.push(track);
                }
            }
            k = k + 1;
        }
        matches
    }
}

/// The disc a track is listed under: its disc number, or 1 when it has none.
pub open spec fn listed_disc(t: Track) -> int {
    match t.disc_number {
        Some(d) => d as int,
        None => 1,
    }
}

/// The position a track is listed at on its disc: its track number, or 0 when it has none.
pub open spec fn listed_number(t: Track) -> int {
    match t.track_number {
        Some(n) => n as int,
        None => 0,
    }
}

/// An album lists its tracks by disc first and, on one disc, by track number: of any two
/// listed tracks, the earlier one is on a lower disc, or on the same disc with a number no
/// higher.  The listing holds exactly the album's tracks that the library holds.
pub proof fn law_album_listing_by_disc_then_number(db: DbView, id: AlbumId)
    ensures
        ({
            let ts = album_with_tracks(db, id).tracks;
            &&& forall|i: int, j: int|
                0 <= i < j < ts.len() ==> listed_disc(#[trigger] ts[i]) < listed_disc(#[trigger] ts[j]) || (
                listed_disc(ts[i]) == listed_disc(ts[j]) && listed_number(ts[i]) <= listed_number(ts[j]))
            &&& ts.to_multiset() == present_tracks(db, db.albums[id.0].tracks).to_multiset()
        }),
{
    let key = |t: Track| track_order_key(t);
    let src = present_tracks(db, db.albums[id.0].tracks);
    lemma_stable_sort(src, key);
    let ts = album_with_tracks(db, id).tracks;
    assert(ts == stable_sort(src, key));
    assert forall|i: int, j: int| 0 <= i < j < ts.len() implies listed_disc(#[trigger] ts[i]) < listed_disc(
        #[trigger] ts[j],
    ) || (listed_disc(ts[i]) == listed_disc(ts[j]) && listed_number(ts[i]) <= listed_number(ts[j])) by {
        assert(key(ts[i]) <= key(ts[j]));
        assert(0 <= listed_number(ts[i]) < 65536);
        assert(0 <= listed_number(ts[j]) < 65536);
        assert(track_order_key(ts[i]) == listed_disc(ts[i]) * 65536 + listed_number(ts[i]));
        assert(track_order_key(ts[j]) == listed_disc(ts[j]) * 65536 + listed_number(ts[j]));
    }
}

/// A track is among the first `n` search results exactly when some identifier from 1 to
/// `n` holds it and its lower-cased title contains `q`.
proof fn lemma_search_members(db: DbView, n: nat, q: Seq<char>, t: Track)
    ensures
        search_results(db, n, q).contains(t) <==> exists|k: nat|
            1 <= k <= n && k <= u32::MAX && db.tracks.contains_key(k as u32) && #[trigger] db.tracks[k as u32] == t
                && crate::text::contains_piece(lowercase(t.title@), q),
    decreases n,
{
    if n > 0 {
        lemma_search_members(db, (n - 1) as nat, q, t);
        let p = search_results(db, (n - 1) as nat, q);
        let r = search_results(db, n, q);
        if r.contains(t) && !p.contains(t) {
            let i = choose|i: int| 0 <= i < r.len() && r[i] == t;
            if i < p.len() {
                assert(p[i] == t);
            }
            assert(db.tracks[n as u32] == t);
        }
        if p.contains(t) {
            let i = choose|i: int| 0 <= i < p.len() && p[i] == t;
            assert(r[i] == t);
        }
        if exists|k: nat|
            1 <= k <= n && k <= u32::MAX && db.tracks.contains_key(k as u32) && #[trigger] db.tracks[k as u32] == t
                && crate::text::contains_piece(lowercase(t.title@), q) {
            let k = choose|k: nat|
                1 <= k <= n && k <= u32::MAX && db.tracks.contains_key(k as u32) && #[trigger] db.tracks[k as u32] == t
                    && crate::text::contains_piece(lowercase(t.title@), q);
            if k == n {
                assert(r[r.len() - 1] == t);
            } else {
                assert(p.contains(t));
            }
        }
    }
}

/// Title search ignores case: for an all-ASCII query, a track with an all-ASCII title
/// stored under an identifier from 1 to `n` is found exactly when its title, with ASCII
/// letters lower-cased, contains the query lower-cased the same way.
pub proof fn law_search_ignores_ascii_case(db: DbView, n: nat, query: Seq<char>, k: nat)
    requires
        crate::text::is_ascii_text(query),
        1 <= k <= n,
        k <= u32::MAX,
        db.tracks.contains_key(k as u32),
        crate::text::is_ascii_text(db.tracks[k as u32].title@),
    ensures
        search_results(db, n, lowercase(query)).contains(db.tracks[k as u32]) <==> crate::text::contains_piece(
            ascii_lower_seq(db.tracks[k as u32].title@),
            ascii_lower_seq(query),
        ),
{
    lemma_search_members(db, n, lowercase(query), db.tracks[k as u32]);
    assert(db.tracks[k as u32] == db.tracks[k as u32]);
}

} // verus!
