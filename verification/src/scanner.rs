use vstd::prelude::*;
use crate::types::AudioFormat;
use crate::text::{ascii_lower_seq, ascii_lowercase, text_eq, trim_text, trimmed};
use crate::database::{DbView, LibraryDatabase, opt_text, track_inserted};
use crate::types::TrackId;
use crate::paths::{normal_path, file_name, file_name_of, name_extension, name_stem, extension_of_name, stem_of_name, last_dot, lemma_last_dot};

verus! {

/// The extension of a path: the text after the last '.' of its final component, when that
/// component names a file and the '.' is not its first character.
pub open spec fn path_extension(path: Seq<char>) -> Option<Seq<char>> {
    match file_name(path) {
        Some(f) => name_extension(f),
        None => None,
    }
}

/// The extension of a path (see [`path_extension`]).
fn extension_of(path: &str) -> (r: Option<String>)
    ensures
        opt_view(r) == path_extension(path@),
{
    match file_name_of(path) {
        Some(f) => extension_of_name(f.as_str()),
        None => None,
    }
}

/// The stem of a path: the final component without its extension, when that component
/// names a file.
pub open spec fn path_file_stem(path: Seq<char>) -> Option<Seq<char>> {
    match file_name(path) {
        Some(f) => Some(name_stem(f)),
        None => None,
    }
}

/// The stem of a path (see [`path_file_stem`]).
fn file_stem_of(path: &str) -> (r: Option<String>)
    ensures
        opt_view(r) == path_file_stem(path@),
{
    match file_name_of(path) {
        Some(f) => Some(stem_of_name(f.as_str())),
        None => None,
    }
}

/// The text of an optional string.
pub open spec fn opt_view(o: Option<String>) -> Option<Seq<char>> {
    match o {
        Some(s) => Some(s@),
        None => None,
    }
}

/// The format that a (lower-case) file extension names.
pub open spec fn format_for_extension(ext: Seq<char>) -> AudioFormat {
    if ext == "opus"@ {
        AudioFormat::Opus
    } else if ext == "ogg"@ {
        AudioFormat::Vorbis
    } else if ext == "flac"@ {
        AudioFormat::Flac
    } else if ext == "mp3"@ {
        AudioFormat::Mp3
    } else if ext == "m4a"@ || ext == "aac"@ {
        AudioFormat::Aac
    } else if ext == "wav"@ {
        AudioFormat::Wav
    } else {
        AudioFormat::Unknown
    }
}

/// The extensions (lower case) of the files the library scans.
pub open spec fn is_supported_extension_spec(ext: Seq<char>) -> bool {
    ||| ext == "opus"@
    ||| ext == "ogg"@
    ||| ext == "flac"@
    ||| ext == "mp3"@
    ||| ext == "m4a"@
    ||| ext == "aac"@
    ||| ext == "wav"@
}

/// The format an extension (see [`path_extension`]) names, in any ASCII case;
/// `Unknown` without an extension.
pub fn format_of_extension(ext: Option<&str>) -> (r: AudioFormat)
    ensures
        r == match opt_text(ext) {
            Some(e) => format_for_extension(ascii_lower_seq(e)),
            None => AudioFormat::Unknown,
        },
{
    match ext {
        Some(e) => {
            let lower = ascii_lowercase(e);
            let l = lower.as_str();
            if text_eq(l, "opus") {
                AudioFormat::Opus
            } else if text_eq(l, "ogg") {
                AudioFormat::Vorbis
            } else if text_eq(l, "flac") {
                AudioFormat::Flac
            } else if text_eq(l, "mp3") {
                AudioFormat::Mp3
            } else if text_eq(l, "m4a") || text_eq(l, "aac") {
                AudioFormat::Aac
            } else if text_eq(l, "wav") {
                AudioFormat::Wav
            } else {
                AudioFormat::Unknown
            }
        },
        None => AudioFormat::Unknown,
    }
}

/// The format of an audio file, from its extension in any ASCII case.
pub fn detect_audio_format(path: &str) -> (r: AudioFormat)
    ensures
        r == match path_extension(path@) {
            Some(ext) => format_for_extension(ascii_lower_seq(ext)),
            None => AudioFormat::Unknown,
        },
{
    let ext = extension_of(path);
    format_of_extension(opt_str(&ext))
}

/// Whether a lower-case extension is one of the scanned kinds
/// (opus, ogg, flac, mp3, m4a, aac, wav).
pub fn is_supported_extension(ext: &str) -> (r: bool)
    ensures
        r == is_supported_extension_spec(ext@),
{
    text_eq(ext, "opus") || text_eq(ext, "ogg") || text_eq(ext, "flac") || text_eq(ext, "mp3")
        || text_eq(ext, "m4a") || text_eq(ext, "aac") || text_eq(ext, "wav")
}

/// Whether an extension (see [`path_extension`]) is, in any ASCII case, one of the
/// scanned kinds.
pub fn is_scanned_extension(ext: Option<&str>) -> (r: bool)
    ensures
        r == match opt_text(ext) {
            Some(e) => is_supported_extension_spec(ascii_lower_seq(e)),
            None => false,
        },
{
    match ext {
        Some(e) => {
            let lower = ascii_lowercase(e);
            is_supported_extension(lower.as_str())
        },
        None => false,
    }
}

/// Whether a file is one the library scans: its extension, in any ASCII case, is supported.
pub fn has_supported_extension(path: &str) -> (r: bool)
    ensures
        r == match path_extension(path@) {
            Some(ext) => is_supported_extension_spec(ascii_lower_seq(ext)),
            None => false,
        },
{
    let ext = extension_of(path);
    is_scanned_extension(opt_str(&ext))
}

/// Tags and properties read from one audio file.
#[derive(Debug, Clone)]
pub struct ExtractedMetadata {
    pub path: String,
    pub mtime: u64,
    pub file_size: u64,
    pub title: String,
    pub artist: String,
    pub album_artist: Option<String>,
    pub album: Option<String>,
    pub duration_ms: u32,
    pub track_number: Option<u16>,
    pub disc_number: Option<u8>,
    pub year: Option<u16>,
    pub format: AudioFormat,
    pub sample_rate: Option<u32>,
    pub bitrate: Option<u32>,
    pub bit_depth: Option<u8>,
    pub channels: Option<u8>,
    pub track_gain_db: Option<u32>,
    pub track_peak: Option<u32>,
    pub album_gain_db: Option<u32>,
    pub album_peak: Option<u32>,
}

/// A tag value trimmed of white space, kept only when something remains.
pub open spec fn tag_text(tag: Option<Seq<char>>) -> Option<Seq<char>> {
    match tag {
        Some(t) => if trimmed(t).len() > 0 {
            Some(trimmed(t))
        } else {
            None
        },
        None => None,
    }
}

/// A trimmed tag value, kept only when something remains.
pub fn kept_tag(trimmed_value: String) -> (r: Option<String>)
    ensures
        opt_view(r) == (if trimmed_value@.len() > 0 {
            Some(trimmed_value@)
        } else {
            None::<Seq<char>>
        }),
{
    if trimmed_value.as_str().unicode_len() > 0 {
        Some(trimmed_value)
    } else {
        None
    }
}

/// A tag value trimmed of white space, kept only when something remains.
fn clean_tag(tag: Option<String>) -> (r: Option<String>)
    ensures
        opt_view(r) == tag_text(opt_view(tag)),
{
    match tag {
        Some(t) => kept_tag(trim_text(t.as_str())),
        None => None,
    }
}

/// The title of a track from its cleaned title tag and the file name without extension:
/// the tag, or else the file name, or else "Unknown Title".
pub fn choose_title(tag: Option<String>, stem: Option<String>) -> (r: String)
    ensures
        r@ == match opt_view(tag) {
            Some(t) => t,
            None => match opt_view(stem) {
                Some(st) => st,
                None => "Unknown Title"@,
            },
        },
{
    match tag {
        Some(t) => t,
        None => match stem {
            Some(st) => st,
            None => "Unknown Title".to_owned(),
        },
    }
}

/// The title of a track: its title tag, or else the file name without extension, or else
/// "Unknown Title".
pub open spec fn title_for(tag_title: Option<Seq<char>>, path: Seq<char>) -> Seq<char> {
    match tag_text(tag_title) {
        Some(t) => t,
        None => match path_file_stem(path) {
            Some(stem) => stem,
            None => "Unknown Title"@,
        },
    }
}

/// The artist of a track: its artist tag, or else "Unknown Artist".
pub open spec fn artist_for(tag_artist: Option<Seq<char>>) -> Seq<char> {
    match tag_text(tag_artist) {
        Some(a) => a,
        None => "Unknown Artist"@,
    }
}

/// Gathers what was read from the file at `path` into one record: the title falls back to
/// the file name and then to "Unknown Title", the artist to "Unknown Artist", empty tags
/// count as missing, numbers read as 32-bit values are cut to the record's widths, and the
/// format comes from the extension.
pub fn extract_metadata(
    path: String,
    mtime: u64,
    file_size: u64,
    tag_title: Option<String>,
    tag_artist: Option<String>,
    tag_album_artist: Option<String>,
    tag_album: Option<String>,
    duration_ms: u128,
    track: Option<u32>,
    disk: Option<u32>,
    year: Option<u32>,
    sample_rate: Option<u32>,
    bitrate: Option<u32>,
    bit_depth: Option<u8>,
    channels: Option<u8>,
    track_gain_db: Option<u32>,
    track_peak: Option<u32>,
    album_gain_db: Option<u32>,
    album_peak: Option<u32>,
) -> (r: ExtractedMetadata)
    ensures
        r.path == path,
        r.mtime == mtime,
        r.file_size == file_size,
        r.title@ == title_for(opt_view(tag_title), path@),
        r.artist@ == artist_for(opt_view(tag_artist)),
        opt_view(r.album_artist) == tag_text(opt_view(tag_album_artist)),
        opt_view(r.album) == tag_text(opt_view(tag_album)),
        r.duration_ms == duration_ms as u32,
        r.track_number == (match track {
            Some(n) => Some(n as u16),
            None => None,
        }),
        r.disc_number == (match disk {
            Some(n) => Some(n as u8),
            None => None,
        }),
        r.year == (match year {
            Some(n) => Some(n as u16),
            None => None,
        }),
        r.format == match path_extension(path@) {
            Some(ext) => format_for_extension(ascii_lower_seq(ext)),
            None => AudioFormat::Unknown,
        },
        r.sample_rate == sample_rate,
        r.bitrate == bitrate,
        r.bit_depth == bit_depth,
        r.channels == channels,
        r.track_gain_db == track_gain_db,
        r.track_peak == track_peak,
        r.album_gain_db == album_gain_db,
        r.album_peak == album_peak,
{
    let title = choose_title(clean_tag(tag_title), file_stem_of(path.as_str()));
    let artist = match clean_tag(tag_artist) {
        Some(a) => a,
        None => "Unknown Artist".to_owned(),
    };
    let album_artist = clean_tag(tag_album_artist);
    let album = clean_tag(tag_album);
    let format = detect_audio_format(path.as_str());
    ExtractedMetadata {
        path,
        mtime,
        file_size,
        title,
        artist,
        album_artist,
        album,
        duration_ms: duration_ms as u32,
        track_number: match track {
            Some(n) => Some(n as u16),
            None => None,
        },
        disc_number: match disk {
            Some(n) => Some(n as u8),
            None => None,
        },
        year: match year {
            Some(n) => Some(n as u16),
            None => None,
        },
        format,
        sample_rate,
        bitrate,
        bit_depth,
        channels,
        track_gain_db,
        track_peak,
        album_gain_db,
        album_peak,
    }
}

/// The optional text of an optional string, borrowed.
pub(crate) fn opt_str(o: &Option<String>) -> (r: Option<&str>)
    ensures
        opt_text(r) == opt_view(*o),
{
    match o {
        Some(s) => Some(s.as_str()),
        None => None,
    }
}

/// Record `m` inserted into `old` (see [`LibraryDatabase::insert_track`]), giving `new`
/// with track identifier `r`.
pub open spec fn meta_inserted(old: DbView, new: DbView, r: TrackId, m: ExtractedMetadata) -> bool {
    track_inserted(
        old,
        new,
        r,
        m.path@,
        m.mtime,
        m.file_size,
        m.title@,
        m.artist@,
        opt_view(m.album_artist),
        opt_view(m.album),
        m.duration_ms,
        m.track_number,
        m.disc_number,
        m.year,
        m.format,
        m.sample_rate,
        m.bitrate,
        m.bit_depth,
        m.channels,
        m.track_gain_db,
        m.track_peak,
        m.album_gain_db,
        m.album_peak,
    )
}

/// `new` is `old` with the records of `ms` inserted one after the other, in order.
pub open spec fn all_inserted(old: DbView, new: DbView, ms: Seq<ExtractedMetadata>) -> bool
    decreases ms.len(),
{
    if ms.len() == 0 {
        new == old
    } else {
        exists|mid: DbView, r: TrackId|
            all_inserted(old, mid, ms.drop_last()) && #[trigger] meta_inserted(mid, new, r, ms.last())
    }
}

/// Inserts each extracted record into the library, in order (see
/// [`LibraryDatabase::insert_track`]), and returns how many records there were.  Afterwards
/// the library holds every extracted path, and every path it held before.
pub fn ingest_metadata(db: &mut LibraryDatabase, extracted: Vec<ExtractedMetadata>) -> (r: usize)
    requires
        old(db).wf(),
    ensures
        final(db).wf(),
        r == extracted@.len(),
        all_inserted(old(db)@, final(db)@, extracted@),
        forall|i: int| 0 <= i < extracted@.len() ==> final(db)@.path_to_track.contains_key(#[trigger] normal_path(extracted@[i].path@)),
        forall|p: Seq<char>| old(db)@.path_to_track.contains_key(p) ==> #[trigger] final(db)@.path_to_track.contains_key(p),
{
    let total = extracted.len();
    let mut i: usize = 0;
    while i < total
        invariant
            db.wf(),
            total == extracted@.len(),
            i <= total,
            forall|j: int| 0 <= j < i ==> db@.path_to_track.contains_key(#[trigger] normal_path(extracted@[j].path@)),
            forall|p: Seq<char>| old(db)@.path_to_track.contains_key(p) ==> #[trigger] db@.path_to_track.contains_key(p),
            all_inserted(old(db)@, db@, extracted@.subrange(0, i as int)),
        decreases total - i,
    {
        let meta = &extracted[i];
        let ghost mid = db@;
        let id = db.insert_track(
            meta.path.clone(),
            meta.mtime,
            meta.file_size,
            meta.title.as_str(),
            meta.artist.as_str(),
            opt_str(&meta.album_artist),
            opt_str(&meta.album),
            meta.duration_ms,
            meta.track_number,
            meta.disc_number,
            meta.year,
            meta.format,
            meta.sample_rate,
            meta.bitrate,
            meta.bit_depth,
            meta.channels,
            meta.track_gain_db,
            meta.track_peak,
            meta.album_gain_db,
            meta.album_peak,
        );
        proof {
            let done = extracted@.subrange(0, i + 1);
            assert(done.drop_last() =~= extracted@.subrange(0, i as int));
            assert(done.last() == extracted@[i as int]);
            assert(meta_inserted(mid, db@, id, done.last()));
        }
        i = i + 1;
    }
    proof {
        assert(extracted@.subrange(0, total as int) =~= extracted@);
    }
    total
}

/// The files the library scans are exactly those whose format it recognises: a path has a
/// supported extension if and only if its detected format is not `Unknown`.
pub proof fn law_scanned_files_have_a_known_format(path: Seq<char>)
    ensures
        (match path_extension(path) {
            Some(ext) => is_supported_extension_spec(ascii_lower_seq(ext)),
            None => false,
        }) <==> (match path_extension(path) {
            Some(ext) => format_for_extension(ascii_lower_seq(ext)),
            None => AudioFormat::Unknown,
        }) != AudioFormat::Unknown,
{
}


/// The extension of a path is the text after the last '.' of its file name: it holds no
/// '.', the file name ends with '.' and the extension, and something comes before that '.';
/// the stem is what comes before it.  A file name with no '.' after its first character has
/// no extension, and its stem is the whole name.
pub proof fn law_extension_is_after_last_dot(p: Seq<char>)
    ensures
        match path_extension(p) {
            Some(e) => match file_name(p) {
                Some(f) => {
                    &&& f.len() >= e.len() + 2
                    &&& f[f.len() - e.len() - 1] == '.'
                    &&& f.subrange(f.len() - e.len(), f.len() as int) == e
                    &&& forall|i: int| 0 <= i < e.len() ==> e[i] != '.'
                    &&& path_file_stem(p) == Some(f.subrange(0, f.len() - e.len() - 1))
                },
                None => false,
            },
            None => match file_name(p) {
                Some(f) => {
                    &&& forall|i: int| 1 <= i < f.len() ==> f[i] != '.'
                    &&& path_file_stem(p) == Some(f)
                },
                None => path_file_stem(p) is None,
            },
        },
{
    match file_name(p) {
        Some(f) => {
            lemma_last_dot(f);
            let d = last_dot(f);
            if d > 0 {
                let e = f.subrange(d + 1, f.len() as int);
                assert(f.len() - e.len() - 1 == d);
                assert(f.subrange(f.len() - e.len(), f.len() as int) =~= e);
                assert forall|i: int| 0 <= i < e.len() implies e[i] != '.' by {
                    assert(e[i] == f[d + 1 + i]);
                }
            }
        },
        None => {},
    }
}

} // verus!
