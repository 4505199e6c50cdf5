//! Built-in templates matching the layouts Plex, Jellyfin, and Navidrome
//! document for their scanners.
use vstd::prelude::*;

use crate::text::{chars_of, string_from};

verus! {

#[derive(Debug, Clone, Copy, PartialEq, Eq, Structural)]
pub enum PresetKind {
    Music,
    Movie,
    Series,
    Book,
}

#[derive(Debug, Clone)]
pub struct RenamePreset {
    pub id: String,
    pub label: String,
    /// Which media server convention this follows.
    pub server: String,
    pub kind: PresetKind,
    pub template: String,
    pub description: String,
}

/// The content of a preset.
pub ghost struct PresetView {
    pub id: Seq<char>,
    pub label: Seq<char>,
    pub server: Seq<char>,
    pub kind: PresetKind,
    pub template: Seq<char>,
    pub description: Seq<char>,
}

pub open spec fn preset_view(p: RenamePreset) -> PresetView {
    PresetView {
        id: p.id@,
        label: p.label@,
        server: p.server@,
        kind: p.kind,
        template: p.template@,
        description: p.description@,
    }
}

/// The built-in presets, in the order they are offered.
pub open spec fn builtin_table() -> Seq<PresetView> {
    seq![
        PresetView {
            id: "plex-music"@,
            label: "Plex — Music"@,
            server: "Plex"@,
            kind: PresetKind::Music,
            template: "{albumartist}/{album}[ ({year})]/[{disc}-]{track:02} - {title}"@,
            description: "Artist/Album (Year)/01 - Title"@,
        },
        PresetView {
            id: "jellyfin-music"@,
            label: "Jellyfin — Music"@,
            server: "Jellyfin"@,
            kind: PresetKind::Music,
            template: "{albumartist}/{album}[ ({year})]/{track:02} - {title}"@,
            description: "Artist/Album (Year)/01 - Title"@,
        },
        PresetView {
            id: "navidrome-music"@,
            label: "Navidrome — Music"@,
            server: "Navidrome"@,
            kind: PresetKind::Music,
            template: "{albumartist}/{album}/{track:02} - {title}"@,
            description: "Artist/Album/01 - Title"@,
        },
        PresetView {
            id: "flat-music"@,
            label: "Flat — Artist - Title"@,
            server: "Generic"@,
            kind: PresetKind::Music,
            template: "{artist} - {title}"@,
            description: "Artist - Title (no folders)"@,
        },
        PresetView {
            id: "plex-movie"@,
            label: "Plex — Movies"@,
            server: "Plex"@,
            kind: PresetKind::Movie,
            template: "{title}[ ({year})]/{title}[ ({year})][ - {edition}]"@,
            description: "Movie (Year)/Movie (Year).ext"@,
        },
        PresetView {
            id: "jellyfin-movie"@,
            label: "Jellyfin — Movies"@,
            server: "Jellyfin"@,
            kind: PresetKind::Movie,
            template: "{title}[ ({year})]/{title}[ ({year})][ [imdbid-{imdbid}]]"@,
            description: "Movie (Year)/Movie (Year) [imdbid-tt123].ext"@,
        },
        PresetView {
            id: "plex-series"@,
            label: "Plex — TV Shows"@,
            server: "Plex"@,
            kind: PresetKind::Series,
            template: "{seriestitle}[ ({year})]/Season {season:02}/{seriestitle} - s{season:02}e{episode:02}[ - {episodetitle}]"@,
            description: "Show (Year)/Season 01/Show - s01e01 - Title.ext"@,
        },
        PresetView {
            id: "jellyfin-series"@,
            label: "Jellyfin — TV Shows"@,
            server: "Jellyfin"@,
            kind: PresetKind::Series,
            template: "{seriestitle}[ ({year})]/Season {season:02}/{seriestitle} S{season:02}E{episode:02}[ {episodetitle}]"@,
            description: "Show (Year)/Season 01/Show S01E01 Title.ext"@,
        },
        PresetView {
            id: "comic-series"@,
            label: "Comics — Series/Issue"@,
            server: "Komga / Kavita"@,
            kind: PresetKind::Book,
            template: "{series}/{series} #{number}[ ({year})]"@,
            description: "Series/Series #012 (2011).cbz"@,
        },
        PresetView {
            id: "ebook-author"@,
            label: "Books — Author/Title"@,
            server: "Calibre"@,
            kind: PresetKind::Book,
            template: "{author}/[{series}/]{title}[ ({year})]"@,
            description: "Author/Series/Title (Year).epub"@,
        },
    ]
}

fn own(s: &str) -> (r: String)
    ensures
        r@ == s@,
{
    string_from(chars_of(s).as_slice())
}

fn preset(
    id: &str,
    label: &str,
    server: &str,
    kind: PresetKind,
    template: &str,
    description: &str,
) -> (r: RenamePreset)
    ensures
        preset_view(r) == (PresetView {
            id: id@,
            label: label@,
            server: server@,
            kind,
            template: template@,
            description: description@,
        }),
{
    RenamePreset {
        id: own(id),
        label: own(label),
        server: own(server),
        kind,
        template: own(template),
        description: own(description),
    }
}

/// Built-in templates matching the layouts Plex, Jellyfin, and Navidrome
/// document for their scanners.
pub fn builtin_presets() -> (r: Vec<RenamePreset>)
    ensures
        r@.len() == builtin_table().len(),
        forall|i: int| 0 <= i < r@.len() ==> preset_view(#[trigger] r@[i]) == builtin_table()[i],
{
    let mut v: Vec<RenamePreset> = Vec::new();
    v.push(preset(
        "plex-music",
        "Plex — Music",
        "Plex",
        PresetKind::Music,
        "{albumartist}/{album}[ ({year})]/[{disc}-]{track:02} - {title}",
        "Artist/Album (Year)/01 - Title",
    ));
    assert(preset_view(v@[0]) == builtin_table()[0]);
    v.push(preset(
        "jellyfin-music",
        "Jellyfin — Music",
        "Jellyfin",
        PresetKind::Music,
        "{albumartist}/{album}[ ({year})]/{track:02} - {title}",
        "Artist/Album (Year)/01 - Title",
    ));
    assert(preset_view(v@[1]) == builtin_table()[1]);
    v.push(preset(
        "navidrome-music",
        "Navidrome — Music",
        "Navidrome",
        PresetKind::Music,
        "{albumartist}/{album}/{track:02} - {title}",
        "Artist/Album/01 - Title",
    ));
    assert(preset_view(v@[2]) == builtin_table()[2]);
    v.push(preset(
        "flat-music",
        "Flat — Artist - Title",
        "Generic",
        PresetKind::Music,
        "{artist} - {title}",
        "Artist - Title (no folders)",
    ));
    assert(preset_view(v@[3]) == builtin_table()[3]);
    v.push(preset(
        "plex-movie",
        "Plex — Movies",
        "Plex",
        PresetKind::Movie,
        "{title}[ ({year})]/{title}[ ({year})][ - {edition}]",
        "Movie (Year)/Movie (Year).ext",
    ));
    assert(preset_view(v@[4]) == builtin_table()[4]);
    v.push(preset(
        "jellyfin-movie",
        "Jellyfin — Movies",
        "Jellyfin",
        PresetKind::Movie,
        "{title}[ ({year})]/{title}[ ({year})][ [imdbid-{imdbid}]]",
        "Movie (Year)/Movie (Year) [imdbid-tt123].ext",
    ));
    assert(preset_view(v@[5]) == builtin_table()[5]);
    v.push(preset(
        "plex-series",
        "Plex — TV Shows",
        "Plex",
        PresetKind::Series,
        "{seriestitle}[ ({year})]/Season {season:02}/{seriestitle} - s{season:02}e{episode:02}[ - {episodetitle}]",
        "Show (Year)/Season 01/Show - s01e01 - Title.ext",
    ));
    assert(preset_view(v@[6]) == builtin_table()[6]);
    v.push(preset(
        "jellyfin-series",
        "Jellyfin — TV Shows",
        "Jellyfin",
        PresetKind::Series,
        "{seriestitle}[ ({year})]/Season {season:02}/{seriestitle} S{season:02}E{episode:02}[ {episodetitle}]",
        "Show (Year)/Season 01/Show S01E01 Title.ext",
    ));
    assert(preset_view(v@[7]) == builtin_table()[7]);
    v.push(preset(
        "comic-series",
        "Comics — Series/Issue",
        "Komga / Kavita",
        PresetKind::Book,
        "{series}/{series} #{number}[ ({year})]",
        "Series/Series #012 (2011).cbz",
    ));
    assert(preset_view(v@[8]) == builtin_table()[8]);
    v.push(preset(
        "ebook-author",
        "Books — Author/Title",
        "Calibre",
        PresetKind::Book,
        "{author}/[{series}/]{title}[ ({year})]",
        "Author/Series/Title (Year).epub",
    ));
    assert(preset_view(v@[9]) == builtin_table()[9]);
    v
}

} // verus!
