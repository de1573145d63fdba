use vstd::prelude::*;

verus! {

/// Identifier of a track in the library database.
#[derive(Debug, Clone, Copy, PartialEq, Eq, Structural, Hash, PartialOrd, Ord)]
pub struct TrackId(pub u32);

/// Identifier of an album in the library database.
#[derive(Debug, Clone, Copy, PartialEq, Eq, Structural, Hash, PartialOrd, Ord)]
pub struct AlbumId(pub u32);

/// Identifier of an artist in the library database.
#[derive(Debug, Clone, Copy, PartialEq, Eq, Structural, Hash, PartialOrd, Ord)]
pub struct ArtistId(pub u32);

/// Container / codec family of an audio file.
#[derive(Debug, Clone, Copy, PartialEq, Eq, Structural, Hash)]
pub enum AudioFormat {
    Opus,
    Vorbis,
    Flac,
    Mp3,
    Aac,
    Wav,
    Unknown,
}

/// One audio file known to the library.
///
/// `path` is the file's path as text.  The four loudness fields
/// (`track_gain_db`, `track_peak`, `album_gain_db`, `album_peak`) hold the
/// IEEE-754 bit pattern of the `f32` value read from the file's tags: the
/// library only stores and hands them back.
#[derive(Debug, Clone, PartialEq, Eq)]
pub struct Track {
    pub id: TrackId,
    pub path: String,
    pub mtime: u64,
    pub file_size: u64,
    pub title: String,
    pub artist_id: ArtistId,
    pub album_artist_id: Option<ArtistId>,
    pub album_id: Option<AlbumId>,
    pub duration_ms: u32,
    pub track_number: Option<u16>,
    pub disc_number: Option<u8>,
    pub year: Option<u16>,
    pub format: AudioFormat,
    pub sample_rate: Option<u32>,
    pub bitrate: Option<u32>,
    pub bit_depth: Option<u8>,
    pub channels: Option<u8>,
    pub track_gain_db: Option<u32>,
    pub track_peak: Option<u32>,
    pub album_gain_db: Option<u32>,
    pub album_peak: Option<u32>,
}

impl Track {
    /// A field-by-field copy of the track.
    pub fn duplicate(&self) -> (r: Track)
        ensures
            r == *self,
    {
        Track {
            id: self.id,
            path: self.path.clone(),
            mtime: self.mtime,
            file_size: self.file_size,
            title: self.title.clone(),
            artist_id: self.artist_id,
            album_artist_id: self.album_artist_id,
            album_id: self.album_id,
            duration_ms: self.duration_ms,
            track_number: self.track_number,
            disc_number: self.disc_number,
            year: self.year,
            format: self.format,
            sample_rate: self.sample_rate,
            bitrate: self.bitrate,
            bit_depth: self.bit_depth,
            channels: self.channels,
            track_gain_db: self.track_gain_db,
            track_peak: self.track_peak,
            album_gain_db: self.album_gain_db,
            album_peak: self.album_peak,
        }
    }
}

/// An album: a titled group of tracks owned by one artist.
#[derive(Debug, Clone, PartialEq, Eq)]
pub struct Album {
    pub id: AlbumId,
    pub title: String,
    pub artist_id: ArtistId,
    pub year: Option<u16>,
    pub is_compilation: bool,
    pub tracks: Vec<TrackId>,
}

/// The mathematical value of an [`Album`].
#[verifier::ext_equal]
pub struct AlbumView {
    pub id: AlbumId,
    pub title: Seq<char>,
    pub artist_id: ArtistId,
    pub year: Option<u16>,
    pub is_compilation: bool,
    pub tracks: Seq<TrackId>,
}

impl View for Album {
    type V = AlbumView;

    open spec fn view(&self) -> AlbumView {
        AlbumView {
            id: self.id,
            title: self.title@,
            artist_id: self.artist_id,
            year: self.year,
            is_compilation: self.is_compilation,
            tracks: self.tracks@,
        }
    }
}

/// Copies a list of identifiers element by element.
pub fn copy_ids<T: Copy>(v: &Vec<T>) -> (r: Vec<T>)
    ensures
        r@ == v@,
{
    let mut r: Vec<T> = Vec::new();
    let mut i: usize = 0;
    while i < v.len()
        invariant
            i <= v.len(),
            r@ == v@.subrange(0, i as int),
        decreases v.len() - i,
    {
        r.push(v[i]);
        i = i + 1;
    }
    r
}

impl Album {
    /// A field-by-field copy of the album.
    pub fn duplicate(&self) -> (r: Album)
        ensures
            r@ == self@,
    {
        Album {
            id: self.id,
            title: self.title.clone(),
            artist_id: self.artist_id,
            year: self.year,
            is_compilation: self.is_compilation,
            tracks: copy_ids(&self.tracks),
        }
    }
}

/// An artist with the albums it owns and the tracks that belong to no album.
#[derive(Debug, Clone, PartialEq, Eq)]
pub struct Artist {
    pub id: ArtistId,
    pub name: String,
    pub albums: Vec<AlbumId>,
    pub standalone_tracks: Vec<TrackId>,
}

/// The mathematical value of an [`Artist`].
#[verifier::ext_equal]
pub struct ArtistView {
    pub id: ArtistId,
    pub name: Seq<char>,
    pub albums: Seq<AlbumId>,
    pub standalone_tracks: Seq<TrackId>,
}

impl View for Artist {
    type V = ArtistView;

    open spec fn view(&self) -> ArtistView {
        ArtistView {
            id: self.id,
            name: self.name@,
            albums: self.albums@,
            standalone_tracks: self.standalone_tracks@,
        }
    }
}

impl Artist {
    /// A field-by-field copy of the artist.
    pub fn duplicate(&self) -> (r: Artist)
        ensures
            r@ == self@,
    {
        Artist {
            id: self.id,
            name: self.name.clone(),
            albums: copy_ids(&self.albums),
            standalone_tracks: copy_ids(&self.standalone_tracks),
        }
    }
}

} // verus!
