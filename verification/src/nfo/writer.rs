//! Writing Kodi-style NFO documents.
use vstd::prelude::*;

use crate::book::xml::{escape, escape_spec};
use crate::models::book::{opt_str, strs};
use crate::models::video::{ActorCredit, VideoKind, VideoMetadata};
use crate::text::{chars_of, decimal, format_i64, format_u64, push_all, signed_decimal, string_from};

verus! {

/// One element on a line of its own, its value escaped.
pub open spec fn nfo_line(tag: Seq<char>, v: Seq<char>) -> Seq<char> {
    "  <"@ + tag + ">"@ + escape_spec(v) + "</"@ + tag + ">\n"@
}

pub open spec fn nfo_opt(tag: Seq<char>, v: Option<Seq<char>>) -> Seq<char> {
    match v {
        Some(x) => nfo_line(tag, x),
        None => Seq::empty(),
    }
}

pub open spec fn nfo_num(tag: Seq<char>, v: Option<u32>) -> Seq<char> {
    match v {
        Some(x) => nfo_line(tag, decimal(x as nat)),
        None => Seq::empty(),
    }
}

pub open spec fn nfo_each(tag: Seq<char>, vs: Seq<Seq<char>>) -> Seq<char>
    decreases vs.len(),
{
    if vs.len() == 0 { Seq::empty() } else { nfo_each(tag, vs.drop_last()) + nfo_line(tag, vs.last()) }
}

/// An id in its own element and in a `<uniqueid>` of its kind.
pub open spec fn nfo_id(tag: Seq<char>, unique_open: Seq<char>, v: Option<Seq<char>>) -> Seq<char> {
    match v {
        Some(x) => nfo_line(tag, x) + unique_open + escape_spec(x) + "</uniqueid>\n"@,
        None => Seq::empty(),
    }
}

pub open spec fn actor_block(a: ActorCredit) -> Seq<char> {
    "  <actor>\n"@ + "    <name>"@ + escape_spec(a.name@) + "</name>\n"@ + match a.role {
        Some(r) => "    <role>"@ + escape_spec(r@) + "</role>\n"@,
        None => Seq::empty(),
    } + match a.thumb {
        Some(t) => "    <thumb>"@ + escape_spec(t@) + "</thumb>\n"@,
        None => Seq::empty(),
    } + "  </actor>\n"@
}

pub open spec fn actor_blocks(actors: Seq<ActorCredit>) -> Seq<char>
    decreases actors.len(),
{
    if actors.len() == 0 { Seq::empty() } else { actor_blocks(actors.drop_last()) + actor_block(actors.last()) }
}

pub open spec fn root_tag(kind: VideoKind) -> Seq<char> {
    match kind {
        VideoKind::Movie => "movie"@,
        VideoKind::Episode => "episodedetails"@,
    }
}

/// The titles, and for an episode its show, season, episode and air date.
pub open spec fn nfo_names(m: VideoMetadata<String>) -> Seq<char> {
    nfo_opt("title"@, opt_str(m.title)) + nfo_opt("originaltitle"@, opt_str(m.original_title)) + nfo_opt(
        "sorttitle"@,
        opt_str(m.sort_title),
    ) + if m.kind == VideoKind::Episode {
        nfo_opt("showtitle"@, opt_str(m.show_title)) + nfo_num("season"@, m.season) + nfo_num("episode"@, m.episode)
            + nfo_opt("aired"@, opt_str(m.aired))
    } else {
        Seq::empty()
    }
}

/// Year, dates, texts, runtime, rating, votes and certification.
pub open spec fn nfo_details(m: VideoMetadata<String>) -> Seq<char> {
    (match m.year {
        Some(y) => nfo_line("year"@, signed_decimal(y as int)),
        None => Seq::empty(),
    }) + nfo_opt("premiered"@, opt_str(m.release_date)) + nfo_opt("tagline"@, opt_str(m.tagline)) + nfo_opt(
        "plot"@,
        opt_str(m.plot),
    ) + nfo_opt("outline"@, opt_str(m.outline)) + nfo_num("runtime"@, m.runtime_minutes) + nfo_opt(
        "rating"@,
        opt_str(m.rating),
    ) + nfo_num("votes"@, m.votes) + nfo_opt("mpaa"@, opt_str(m.certification))
}

/// The list fields, one element per value, then the trailer.
pub open spec fn nfo_lists(m: VideoMetadata<String>) -> Seq<char> {
    nfo_each("genre"@, strs(m.genres@)) + nfo_each("studio"@, strs(m.studios@)) + nfo_each(
        "country"@,
        strs(m.countries@),
    ) + nfo_each("director"@, strs(m.directors@)) + nfo_each("credits"@, strs(m.writers@)) + nfo_each(
        "tag"@,
        strs(m.tags@),
    ) + nfo_opt("trailer"@, opt_str(m.trailer))
}

/// The IMDb, TMDB and TVDB ids.
pub open spec fn nfo_ids(m: VideoMetadata<String>) -> Seq<char> {
    nfo_id("id"@, "  <uniqueid type=\"imdb\" default=\"true\">"@, opt_str(m.imdb_id)) + nfo_id(
        "tmdbid"@,
        "  <uniqueid type=\"tmdb\">"@,
        opt_str(m.tmdb_id),
    ) + nfo_id("tvdbid"@, "  <uniqueid type=\"tvdb\">"@, opt_str(m.tvdb_id))
}

/// A Kodi-style NFO document for the metadata, in the element order Kodi
/// and Jellyfin write; episode fields only for episodes. The rating is
/// written as the text it holds.
pub open spec fn nfo_xml(m: VideoMetadata<String>) -> Seq<char> {
    let root = root_tag(m.kind);
    "<?xml version=\"1.0\" encoding=\"UTF-8\" standalone=\"yes\"?>\n"@ + "<"@ + root + ">\n"@ + nfo_names(m)
        + nfo_details(m) + nfo_lists(m) + nfo_ids(m) + actor_blocks(m.actors@) + "</"@ + root + ">\n"@
}

fn push_str(out: &mut Vec<char>, s: &str)
    ensures
        final(out)@ == old(out)@ + s@,
{
    let c = chars_of(s);
    push_all(out, c.as_slice());
}

fn push_line(out: &mut Vec<char>, tag: &str, v: &str)
    ensures
        final(out)@ == old(out)@ + nfo_line(tag@, v@),
{
    push_str(out, "  <");
    push_str(out, tag);
    push_str(out, ">");
    let e = escape(v);
    push_str(out, e.as_str());
    push_str(out, "</");
    push_str(out, tag);
    push_str(out, ">\n");
}

fn push_opt(out: &mut Vec<char>, tag: &str, v: &Option<String>)
    ensures
        final(out)@ == old(out)@ + nfo_opt(tag@, opt_str(*v)),
{
    match v {
        Some(x) => push_line(out, tag, x.as_str()),
        None => {
            assert(old(out)@ + Seq::<char>::empty() =~= old(out)@);
        },
    }
}

fn push_num(out: &mut Vec<char>, tag: &str, v: Option<u32>)
    ensures
        final(out)@ == old(out)@ + nfo_num(tag@, v),
{
    match v {
        Some(x) => {
            let s = string_from(format_u64(x as u64).as_slice());
            push_line(out, tag, s.as_str());
        },
        None => {
            assert(old(out)@ + Seq::<char>::empty() =~= old(out)@);
        },
    }
}

fn push_each(out: &mut Vec<char>, tag: &str, vs: &Vec<String>)
    ensures
        final(out)@ == old(out)@ + nfo_each(tag@, strs(vs@)),
{
    let ghost start = out@;
    let ghost sv = strs(vs@);
    let mut k: usize = 0;
    while k < vs.len()
        invariant
            0 <= k <= vs@.len(),
            sv == strs(vs@),
            out@ == start + nfo_each(tag@, sv.subrange(0, k as int)),
        decreases vs@.len() - k,
    {
        push_line(out, tag, vs[k].as_str());
        assert(sv.subrange(0, k + 1).drop_last() =~= sv.subrange(0, k as int));
        assert(out@ =~= start + nfo_each(tag@, sv.subrange(0, k + 1)));
        k = k + 1;
    }
    assert(sv.subrange(0, k as int) =~= sv);
}

fn push_id(out: &mut Vec<char>, tag: &str, unique_open: &str, v: &Option<String>)
    ensures
        final(out)@ == old(out)@ + nfo_id(tag@, unique_open@, opt_str(*v)),
{
    match v {
        Some(x) => {
            push_line(out, tag, x.as_str());
            push_str(out, unique_open);
            let e = escape(x.as_str());
            push_str(out, e.as_str());
            push_str(out, "</uniqueid>\n");
        },
        None => {
            assert(old(out)@ + Seq::<char>::empty() =~= old(out)@);
        },
    }
}

fn push_actor(out: &mut Vec<char>, a: &ActorCredit)
    ensures
        final(out)@ == old(out)@ + actor_block(*a),
{
    push_str(out, "  <actor>\n");
    push_str(out, "    <name>");
    push_str(out, escape(a.name.as_str()).as_str());
    push_str(out, "</name>\n");
    let ghost mid = out@;
    match &a.role {
        Some(r) => {
            push_str(out, "    <role>");
            push_str(out, escape(r.as_str()).as_str());
            push_str(out, "</role>\n");
        },
        None => {},
    }
    let ghost mid2 = out@;
    match &a.thumb {
        Some(t) => {
            push_str(out, "    <thumb>");
            push_str(out, escape(t.as_str()).as_str());
            push_str(out, "</thumb>\n");
        },
        None => {},
    }
    push_str(out, "  </actor>\n");
    assert(out@ =~= old(out)@ + actor_block(*a));
}

#[verifier::spinoff_prover]
fn push_names(out: &mut Vec<char>, meta: &VideoMetadata<String>)
    ensures
        final(out)@ == old(out)@ + nfo_names(*meta),
{
    let ghost start = out@;
    push_opt(out, "title", &meta.title);
    push_opt(out, "originaltitle", &meta.original_title);
    push_opt(out, "sorttitle", &meta.sort_title);
    let ghost head = nfo_opt("title"@, opt_str(meta.title)) + nfo_opt("originaltitle"@, opt_str(meta.original_title))
        + nfo_opt("sorttitle"@, opt_str(meta.sort_title));
    assert(out@ =~= start + head);
    if meta.kind == VideoKind::Episode {
        let ghost mid = out@;
        push_opt(out, "showtitle", &meta.show_title);
        push_num(out, "season", meta.season);
        push_num(out, "episode", meta.episode);
        push_opt(out, "aired", &meta.aired);
        assert(out@ =~= mid + (nfo_opt("showtitle"@, opt_str(meta.show_title)) + nfo_num("season"@, meta.season)
            + nfo_num("episode"@, meta.episode) + nfo_opt("aired"@, opt_str(meta.aired))));
    }
    assert(out@ =~= start + nfo_names(*meta));
}

fn push_details(out: &mut Vec<char>, meta: &VideoMetadata<String>)
    ensures
        final(out)@ == old(out)@ + nfo_details(*meta),
{
    match meta.year {
        Some(y) => {
            let s = string_from(format_i64(y as i64).as_slice());
            push_line(out, "year", s.as_str());
        },
        None => {},
    }
    push_opt(out, "premiered", &meta.release_date);
    push_opt(out, "tagline", &meta.tagline);
    push_opt(out, "plot", &meta.plot);
    push_opt(out, "outline", &meta.outline);
    push_num(out, "runtime", meta.runtime_minutes);
    push_opt(out, "rating", &meta.rating);
    push_num(out, "votes", meta.votes);
    push_opt(out, "mpaa", &meta.certification);
    assert(out@ =~= old(out)@ + nfo_details(*meta));
}

fn push_lists(out: &mut Vec<char>, meta: &VideoMetadata<String>)
    ensures
        final(out)@ == old(out)@ + nfo_lists(*meta),
{
    push_each(out, "genre", &meta.genres);
    push_each(out, "studio", &meta.studios);
    push_each(out, "country", &meta.countries);
    push_each(out, "director", &meta.directors);
    push_each(out, "credits", &meta.writers);
    push_each(out, "tag", &meta.tags);
    push_opt(out, "trailer", &meta.trailer);
    assert(out@ =~= old(out)@ + nfo_lists(*meta));
}

fn push_ids(out: &mut Vec<char>, meta: &VideoMetadata<String>)
    ensures
        final(out)@ == old(out)@ + nfo_ids(*meta),
{
    push_id(out, "id", "  <uniqueid type=\"imdb\" default=\"true\">", &meta.imdb_id);
    push_id(out, "tmdbid", "  <uniqueid type=\"tmdb\">", &meta.tmdb_id);
    push_id(out, "tvdbid", "  <uniqueid type=\"tvdb\">", &meta.tvdb_id);
    assert(out@ =~= old(out)@ + nfo_ids(*meta));
}

fn push_actors(out: &mut Vec<char>, actors: &Vec<ActorCredit>)
    ensures
        final(out)@ == old(out)@ + actor_blocks(actors@),
{
    let ghost start = out@;
    let mut k: usize = 0;
    while k < actors.len()
        invariant
            0 <= k <= actors@.len(),
            out@ == start + actor_blocks(actors@.subrange(0, k as int)),
        decreases actors@.len() - k,
    {
        push_actor(out, &actors[k]);
        assert(actors@.subrange(0, k + 1).drop_last() =~= actors@.subrange(0, k as int));
        assert(out@ =~= start + actor_blocks(actors@.subrange(0, k + 1)));
        k = k + 1;
    }
    assert(actors@.subrange(0, k as int) =~= actors@);
}

/// Serialize metadata as a Kodi-style NFO document.
///
/// Written by hand rather than via a serializer so the element order matches
/// what Kodi and Jellyfin emit.
pub fn to_nfo_xml(meta: &VideoMetadata<String>) -> (r: String)
    ensures
        r@ == nfo_xml(*meta),
{
    let root = match meta.kind {
        VideoKind::Movie => "movie",
        VideoKind::Episode => "episodedetails",
    };
    let mut out = chars_of("<?xml version=\"1.0\" encoding=\"UTF-8\" standalone=\"yes\"?>\n");
    push_str(&mut out, "<");
    push_str(&mut out, root);
    push_str(&mut out, ">\n");
    push_names(&mut out, meta);
    push_details(&mut out, meta);
    push_lists(&mut out, meta);
    push_ids(&mut out, meta);
    push_actors(&mut out, &meta.actors);
    push_str(&mut out, "</");
    push_str(&mut out, root);
    push_str(&mut out, ">\n");
    assert(out@ =~= nfo_xml(*meta));
    string_from(out.as_slice())
}

} // verus!
