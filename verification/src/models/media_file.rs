//! Library index records: media files, library roots, scan results.
use vstd::prelude::*;

use crate::text::str_eq;

verus! {

#[derive(Debug, Clone, Copy, PartialEq, Eq, Structural)]
pub enum MediaType {
    Audio,
    Video,
    Comic,
    Book,
    Image,
    Cue,
    Nfo,
    Unknown,
}

/// The name a media type is stored under.
pub open spec fn media_type_name(t: MediaType) -> Seq<char> {
    match t {
        MediaType::Audio => "audio"@,
        MediaType::Video => "video"@,
        MediaType::Comic => "comic"@,
        MediaType::Book => "book"@,
        MediaType::Image => "image"@,
        MediaType::Cue => "cue"@,
        MediaType::Nfo => "nfo"@,
        MediaType::Unknown => "unknown"@,
    }
}

/// The media type a stored name denotes; unrecognised names are `Unknown`.
pub open spec fn media_type_from_name(s: Seq<char>) -> MediaType {
    if s == "audio"@ {
        MediaType::Audio
    } else if s == "video"@ {
        MediaType::Video
    } else if s == "comic"@ {
        MediaType::Comic
    } else if s == "book"@ {
        MediaType::Book
    } else if s == "image"@ {
        MediaType::Image
    } else if s == "cue"@ {
        MediaType::Cue
    } else if s == "nfo"@ {
        MediaType::Nfo
    } else {
        MediaType::Unknown
    }
}

impl MediaType {
    pub fn as_str(&self) -> (r: &'static str)
        ensures
            r@ == media_type_name(*self),
    {
        match self {
            MediaType::Audio => "audio",
            MediaType::Video => "video",
            MediaType::Comic => "comic",
            MediaType::Book => "book",
            MediaType::Image => "image",
            MediaType::Cue => "cue",
            MediaType::Nfo => "nfo",
            MediaType::Unknown => "unknown",
        }
    }

    pub fn from_str(s: &str) -> (r: Self)
        ensures
            r == media_type_from_name(s@),
    {
        if str_eq(s, "audio") {
            MediaType::Audio
        } else if str_eq(s, "video") {
            MediaType::Video
        } else if str_eq(s, "comic") {
            MediaType::Comic
        } else if str_eq(s, "book") {
            MediaType::Book
        } else if str_eq(s, "image") {
            MediaType::Image
        } else if str_eq(s, "cue") {
            MediaType::Cue
        } else if str_eq(s, "nfo") {
            MediaType::Nfo
        } else {
            MediaType::Unknown
        }
    }
}

/// Reading back a media type's stored name gives the same media type.
pub proof fn law_media_type_name_round_trips(t: MediaType)
    ensures
        media_type_from_name(media_type_name(t)) == t,
{
    reveal_strlit("audio");
    reveal_strlit("video");
    reveal_strlit("comic");
    reveal_strlit("book");
    reveal_strlit("image");
    reveal_strlit("cue");
    reveal_strlit("nfo");
    reveal_strlit("unknown");
    assert("audio"@[0] == 'a' && "audio"@.len() == 5);
    assert("audio"@[1] == 'u' && "audio"@.len() == 5);
    assert("audio"@[2] == 'd' && "audio"@.len() == 5);
    assert("audio"@[3] == 'i' && "audio"@.len() == 5);
    assert("video"@[0] == 'v' && "video"@.len() == 5);
    assert("video"@[1] == 'i' && "video"@.len() == 5);
    assert("video"@[2] == 'd' && "video"@.len() == 5);
    assert("video"@[3] == 'e' && "video"@.len() == 5);
    assert("comic"@[0] == 'c' && "comic"@.len() == 5);
    assert("comic"@[1] == 'o' && "comic"@.len() == 5);
    assert("comic"@[2] == 'm' && "comic"@.len() == 5);
    assert("comic"@[3] == 'i' && "comic"@.len() == 5);
    assert("book"@[0] == 'b' && "book"@.len() == 4);
    assert("book"@[1] == 'o' && "book"@.len() == 4);
    assert("book"@[2] == 'o' && "book"@.len() == 4);
    assert("book"@[3] == 'k' && "book"@.len() == 4);
    assert("image"@[0] == 'i' && "image"@.len() == 5);
    assert("image"@[1] == 'm' && "image"@.len() == 5);
    assert("image"@[2] == 'a' && "image"@.len() == 5);
    assert("image"@[3] == 'g' && "image"@.len() == 5);
    assert("cue"@[0] == 'c' && "cue"@.len() == 3);
    assert("cue"@[1] == 'u' && "cue"@.len() == 3);
    assert("cue"@[2] == 'e' && "cue"@.len() == 3);
    assert("nfo"@[0] == 'n' && "nfo"@.len() == 3);
    assert("nfo"@[1] == 'f' && "nfo"@.len() == 3);
    assert("nfo"@[2] == 'o' && "nfo"@.len() == 3);
    assert("unknown"@[0] == 'u' && "unknown"@.len() == 7);
    assert("unknown"@[1] == 'n' && "unknown"@.len() == 7);
    assert("unknown"@[2] == 'k' && "unknown"@.len() == 7);
    assert("unknown"@[3] == 'n' && "unknown"@.len() == 7);
}

#[derive(Debug, Clone)]
pub enum AudioFormat {
    Mp3,
    Flac,
    Ogg,
    Opus,
    Aac,
    Mp4a,
    Wma,
    Ape,
    Wav,
    Aiff,
    Dsf,
    WavPack,
    Unknown(String),
}

/// The name an audio format is stored under.
pub open spec fn audio_format_name(f: AudioFormat) -> Seq<char> {
    match f {
        AudioFormat::Mp3 => "mp3"@,
        AudioFormat::Flac => "flac"@,
        AudioFormat::Ogg => "ogg"@,
        AudioFormat::Opus => "opus"@,
        AudioFormat::Aac => "aac"@,
        AudioFormat::Mp4a => "mp4a"@,
        AudioFormat::Wma => "wma"@,
        AudioFormat::Ape => "ape"@,
        AudioFormat::Wav => "wav"@,
        AudioFormat::Aiff => "aiff"@,
        AudioFormat::Dsf => "dsf"@,
        AudioFormat::WavPack => "wavpack"@,
        AudioFormat::Unknown(s) => s@,
    }
}

/// The named format a stored name denotes, if it is one of the known names.
pub open spec fn known_audio_format(s: Seq<char>) -> Option<AudioFormat> {
    if s == "mp3"@ {
        Some(AudioFormat::Mp3)
    } else if s == "flac"@ {
        Some(AudioFormat::Flac)
    } else if s == "ogg"@ {
        Some(AudioFormat::Ogg)
    } else if s == "opus"@ {
        Some(AudioFormat::Opus)
    } else if s == "aac"@ {
        Some(AudioFormat::Aac)
    } else if s == "mp4a"@ {
        Some(AudioFormat::Mp4a)
    } else if s == "wma"@ {
        Some(AudioFormat::Wma)
    } else if s == "ape"@ {
        Some(AudioFormat::Ape)
    } else if s == "wav"@ {
        Some(AudioFormat::Wav)
    } else if s == "aiff"@ {
        Some(AudioFormat::Aiff)
    } else if s == "dsf"@ {
        Some(AudioFormat::Dsf)
    } else if s == "wavpack"@ {
        Some(AudioFormat::WavPack)
    } else {
        None
    }
}

impl AudioFormat {
    pub fn as_str(&self) -> (r: &str)
        ensures
            r@ == audio_format_name(*self),
    {
        match self {
            AudioFormat::Mp3 => "mp3",
            AudioFormat::Flac => "flac",
            AudioFormat::Ogg => "ogg",
            AudioFormat::Opus => "opus",
            AudioFormat::Aac => "aac",
            AudioFormat::Mp4a => "mp4a",
            AudioFormat::Wma => "wma",
            AudioFormat::Ape => "ape",
            AudioFormat::Wav => "wav",
            AudioFormat::Aiff => "aiff",
            AudioFormat::Dsf => "dsf",
            AudioFormat::WavPack => "wavpack",
            AudioFormat::Unknown(s) => s.as_str(),
        }
    }

    pub fn from_str(s: &str) -> (r: Self)
        ensures
            match known_audio_format(s@) {
                Some(f) => r == f,
                None => r matches AudioFormat::Unknown(x) && x@ == s@,
            },
    {
        if str_eq(s, "mp3") {
            AudioFormat::Mp3
        } else if str_eq(s, "flac") {
            AudioFormat::Flac
        } else if str_eq(s, "ogg") {
            AudioFormat::Ogg
        } else if str_eq(s, "opus") {
            AudioFormat::Opus
        } else if str_eq(s, "aac") {
            AudioFormat::Aac
        } else if str_eq(s, "mp4a") {
            AudioFormat::Mp4a
        } else if str_eq(s, "wma") {
            AudioFormat::Wma
        } else if str_eq(s, "ape") {
            AudioFormat::Ape
        } else if str_eq(s, "wav") {
            AudioFormat::Wav
        } else if str_eq(s, "aiff") {
            AudioFormat::Aiff
        } else if str_eq(s, "dsf") {
            AudioFormat::Dsf
        } else if str_eq(s, "wavpack") {
            AudioFormat::WavPack
        } else {
            AudioFormat::Unknown(s.to_owned())
        }
    }
}

/// Every named format reads back from its stored name as itself.
pub proof fn law_named_audio_formats_round_trip(f: AudioFormat)
    requires
        !(f is Unknown),
    ensures
        known_audio_format(audio_format_name(f)) == Some(f),
{
    reveal_strlit("mp3");
    reveal_strlit("flac");
    reveal_strlit("ogg");
    reveal_strlit("opus");
    reveal_strlit("aac");
    reveal_strlit("mp4a");
    reveal_strlit("wma");
    reveal_strlit("ape");
    reveal_strlit("wav");
    reveal_strlit("aiff");
    reveal_strlit("dsf");
    reveal_strlit("wavpack");
    assert("mp3"@[0] == 'm' && "mp3"@.len() == 3);
    assert("mp3"@[1] == 'p' && "mp3"@.len() == 3);
    assert("mp3"@[2] == '3' && "mp3"@.len() == 3);
    assert("flac"@[0] == 'f' && "flac"@.len() == 4);
    assert("flac"@[1] == 'l' && "flac"@.len() == 4);
    assert("flac"@[2] == 'a' && "flac"@.len() == 4);
    assert("flac"@[3] == 'c' && "flac"@.len() == 4);
    assert("ogg"@[0] == 'o' && "ogg"@.len() == 3);
    assert("ogg"@[1] == 'g' && "ogg"@.len() == 3);
    assert("ogg"@[2] == 'g' && "ogg"@.len() == 3);
    assert("opus"@[0] == 'o' && "opus"@.len() == 4);
    assert("opus"@[1] == 'p' && "opus"@.len() == 4);
    assert("opus"@[2] == 'u' && "opus"@.len() == 4);
    assert("opus"@[3] == 's' && "opus"@.len() == 4);
    assert("aac"@[0] == 'a' && "aac"@.len() == 3);
    assert("aac"@[1] == 'a' && "aac"@.len() == 3);
    assert("aac"@[2] == 'c' && "aac"@.len() == 3);
    assert("mp4a"@[0] == 'm' && "mp4a"@.len() == 4);
    assert("mp4a"@[1] == 'p' && "mp4a"@.len() == 4);
    assert("mp4a"@[2] == '4' && "mp4a"@.len() == 4);
    assert("mp4a"@[3] == 'a' && "mp4a"@.len() == 4);
    assert("wma"@[0] == 'w' && "wma"@.len() == 3);
    assert("wma"@[1] == 'm' && "wma"@.len() == 3);
    assert("wma"@[2] == 'a' && "wma"@.len() == 3);
    assert("ape"@[0] == 'a' && "ape"@.len() == 3);
    assert("ape"@[1] == 'p' && "ape"@.len() == 3);
    assert("ape"@[2] == 'e' && "ape"@.len() == 3);
    assert("wav"@[0] == 'w' && "wav"@.len() == 3);
    assert("wav"@[1] == 'a' && "wav"@.len() == 3);
    assert("wav"@[2] == 'v' && "wav"@.len() == 3);
    assert("aiff"@[0] == 'a' && "aiff"@.len() == 4);
    assert("aiff"@[1] == 'i' && "aiff"@.len() == 4);
    assert("aiff"@[2] == 'f' && "aiff"@.len() == 4);
    assert("aiff"@[3] == 'f' && "aiff"@.len() == 4);
    assert("dsf"@[0] == 'd' && "dsf"@.len() == 3);
    assert("dsf"@[1] == 's' && "dsf"@.len() == 3);
    assert("dsf"@[2] == 'f' && "dsf"@.len() == 3);
    assert("wavpack"@[0] == 'w' && "wavpack"@.len() == 7);
    assert("wavpack"@[1] == 'a' && "wavpack"@.len() == 7);
    assert("wavpack"@[2] == 'v' && "wavpack"@.len() == 7);
    assert("wavpack"@[3] == 'p' && "wavpack"@.len() == 7);
}

#[derive(Debug, Clone)]
pub struct MediaFile {
    pub id: String,
    pub path: String,
    pub file_name: String,
    pub parent_dir: String,
    pub media_type: MediaType,
    pub audio_format: Option<AudioFormat>,
    pub file_size: u64,
    pub modified_at: i64,
    pub scanned_at: i64,
    pub has_cover_art: bool,
    pub duration_ms: Option<u64>,
    pub bitrate_kbps: Option<u32>,
    pub sample_rate_hz: Option<u32>,
    pub channels: Option<u8>,
    /// When this path was first indexed. Survives re-scans.
    pub first_seen_at: i64,
    /// Last time Notata itself wrote tags to this file.
    pub last_modified_by_app: Option<i64>,
    /// First seen during the most recent scan.
    pub is_new: bool,
}

#[derive(Debug)]
pub struct DirectoryNode {
    pub path: String,
    pub name: String,
    pub children: Vec<DirectoryNode>,
    pub file_count: usize,
}

#[derive(Debug, Clone)]
pub struct ScanResult {
    pub total_files: usize,
    pub audio_files: usize,
    pub skipped: usize,
    pub duration_ms: u64,
}

#[derive(Debug, Clone)]
pub struct ScanProgress {
    pub scanned: usize,
    pub current_file: String,
}

/// What kind of media a library root holds. Drives which metadata workflow
/// the UI presents for files under it.
#[derive(Debug, Clone, Copy, PartialEq, Eq, Structural)]
pub enum MediaKind {
    Music,
    Movies,
    Series,
    Books,
}

pub open spec fn media_kind_name(k: MediaKind) -> Seq<char> {
    match k {
        MediaKind::Music => "music"@,
        MediaKind::Movies => "movies"@,
        MediaKind::Series => "series"@,
        MediaKind::Books => "books"@,
    }
}

/// The kind a stored name denotes; anything unrecognised is `Music`.
pub open spec fn media_kind_from_name(s: Seq<char>) -> MediaKind {
    if s == "movies"@ {
        MediaKind::Movies
    } else if s == "series"@ {
        MediaKind::Series
    } else if s == "books"@ {
        MediaKind::Books
    } else {
        MediaKind::Music
    }
}

impl MediaKind {
    pub fn as_str(&self) -> (r: &'static str)
        ensures
            r@ == media_kind_name(*self),
    {
        match self {
            MediaKind::Music => "music",
            MediaKind::Movies => "movies",
            MediaKind::Series => "series",
            MediaKind::Books => "books",
        }
    }

    pub fn from_str(s: &str) -> (r: Self)
        ensures
            r == media_kind_from_name(s@),
    {
        if str_eq(s, "movies") {
            MediaKind::Movies
        } else if str_eq(s, "series") {
            MediaKind::Series
        } else if str_eq(s, "books") {
            MediaKind::Books
        } else {
            MediaKind::Music
        }
    }

    pub fn is_video(&self) -> (r: bool)
        ensures
            r == (*self == MediaKind::Movies || *self == MediaKind::Series),
    {
        match self {
            MediaKind::Movies | MediaKind::Series => true,
            _ => false,
        }
    }
}

/// Reading back a media kind's stored name gives the same kind.
pub proof fn law_media_kind_name_round_trips(k: MediaKind)
    ensures
        media_kind_from_name(media_kind_name(k)) == k,
{
    reveal_strlit("music");
    reveal_strlit("movies");
    reveal_strlit("series");
    reveal_strlit("books");
    assert("music"@[0] == 'm' && "music"@.len() == 5);
    assert("music"@[1] == 'u' && "music"@.len() == 5);
    assert("music"@[2] == 's' && "music"@.len() == 5);
    assert("music"@[3] == 'i' && "music"@.len() == 5);
    assert("movies"@[0] == 'm' && "movies"@.len() == 6);
    assert("movies"@[1] == 'o' && "movies"@.len() == 6);
    assert("movies"@[2] == 'v' && "movies"@.len() == 6);
    assert("movies"@[3] == 'i' && "movies"@.len() == 6);
    assert("series"@[0] == 's' && "series"@.len() == 6);
    assert("series"@[1] == 'e' && "series"@.len() == 6);
    assert("series"@[2] == 'r' && "series"@.len() == 6);
    assert("series"@[3] == 'i' && "series"@.len() == 6);
    assert("books"@[0] == 'b' && "books"@.len() == 5);
    assert("books"@[1] == 'o' && "books"@.len() == 5);
    assert("books"@[2] == 'o' && "books"@.len() == 5);
    assert("books"@[3] == 'k' && "books"@.len() == 5);
}

#[derive(Debug, Clone)]
pub struct LibraryRoot {
    pub id: String,
    pub path: String,
    pub label: Option<String>,
    pub added_at: i64,
    pub last_scan: Option<i64>,
    pub previous_scan: Option<i64>,
    pub media_kind: MediaKind,
}

/// The kind a library root has when none was recorded.
pub fn default_media_kind() -> (r: MediaKind)
    ensures
        r == MediaKind::Music,
{
    MediaKind::Music
}

#[derive(Debug, Clone)]
pub struct LibraryStats {
    pub total_files: usize,
    pub total_size: u64,
    pub roots: Vec<LibraryRoot>,
}

} // verus!
