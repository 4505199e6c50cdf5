//! Reading Kodi-style NFO documents.
//!
//! The document is read as quick-xml reports it, event by event; what the
//! events describe is stated over `NfoView`, the metadata with strings as
//! character sequences. Ratings are kept as the text the document holds.
use vstd::prelude::*;

use crate::book::xml::{
    collect_events, event_view, events_of, events_view, reader_events, resolve_entity, resolve_entity_spec, XmlEvent,
};
use crate::error::NotataError;
use crate::models::book::{opt_str, strs};
use crate::models::video::{ActorCredit, VideoKind, VideoMetadata, VideoMetadataSource};
use crate::text::{
    chars_eq, chars_of, decimal, format_u64, lowercase, occurs_at_exec, parse_i32, parse_signed,
    parse_u32, parse_unsigned, push_all, starts_with, str_eq, string_from, to_lowercase, trim, trimmed,
};

verus! {

/// An actor credit with its strings as character sequences.
#[verifier::ext_equal]
pub ghost struct ActorView {
    pub name: Seq<char>,
    pub role: Option<Seq<char>>,
    pub thumb: Option<Seq<char>>,
}

pub open spec fn actor_view(a: ActorCredit) -> ActorView {
    ActorView { name: a.name@, role: opt_str(a.role), thumb: opt_str(a.thumb) }
}

pub open spec fn actors_view(v: Seq<ActorCredit>) -> Seq<ActorView> {
    Seq::new(v.len(), |i: int| actor_view(v[i]))
}

pub open spec fn blank_actor() -> ActorView {
    ActorView { name: Seq::empty(), role: None, thumb: None }
}

/// Video metadata as the contracts speak of it.
#[verifier::ext_equal]
pub ghost struct NfoView {
    pub kind: VideoKind,
    pub title: Option<Seq<char>>,
    pub original_title: Option<Seq<char>>,
    pub sort_title: Option<Seq<char>>,
    pub year: Option<i32>,
    pub release_date: Option<Seq<char>>,
    pub tagline: Option<Seq<char>>,
    pub plot: Option<Seq<char>>,
    pub outline: Option<Seq<char>>,
    pub runtime_minutes: Option<u32>,
    pub rating: Option<Seq<char>>,
    pub votes: Option<u32>,
    pub certification: Option<Seq<char>>,
    pub genres: Seq<Seq<char>>,
    pub studios: Seq<Seq<char>>,
    pub countries: Seq<Seq<char>>,
    pub directors: Seq<Seq<char>>,
    pub writers: Seq<Seq<char>>,
    pub actors: Seq<ActorView>,
    pub tags: Seq<Seq<char>>,
    pub show_title: Option<Seq<char>>,
    pub season: Option<u32>,
    pub episode: Option<u32>,
    pub aired: Option<Seq<char>>,
    pub imdb_id: Option<Seq<char>>,
    pub tmdb_id: Option<Seq<char>>,
    pub tvdb_id: Option<Seq<char>>,
    pub trailer: Option<Seq<char>>,
    pub source: VideoMetadataSource,
    pub nfo_path: Option<Seq<char>>,
}

pub open spec fn video_view(m: VideoMetadata<String>) -> NfoView {
    NfoView {
        kind: m.kind,
        title: opt_str(m.title),
        original_title: opt_str(m.original_title),
        sort_title: opt_str(m.sort_title),
        year: m.year,
        release_date: opt_str(m.release_date),
        tagline: opt_str(m.tagline),
        plot: opt_str(m.plot),
        outline: opt_str(m.outline),
        runtime_minutes: m.runtime_minutes,
        rating: opt_str(m.rating),
        votes: m.votes,
        certification: opt_str(m.certification),
        genres: strs(m.genres@),
        studios: strs(m.studios@),
        countries: strs(m.countries@),
        directors: strs(m.directors@),
        writers: strs(m.writers@),
        actors: actors_view(m.actors@),
        tags: strs(m.tags@),
        show_title: opt_str(m.show_title),
        season: m.season,
        episode: m.episode,
        aired: opt_str(m.aired),
        imdb_id: opt_str(m.imdb_id),
        tmdb_id: opt_str(m.tmdb_id),
        tvdb_id: opt_str(m.tvdb_id),
        trailer: opt_str(m.trailer),
        source: m.source,
        nfo_path: opt_str(m.nfo_path),
    }
}

/// What a parse starts from: nothing set, the source marked as an NFO.
pub open spec fn initial_nfo() -> NfoView {
    NfoView {
        kind: VideoKind::Movie,
        title: None,
        original_title: None,
        sort_title: None,
        year: None,
        release_date: None,
        tagline: None,
        plot: None,
        outline: None,
        runtime_minutes: None,
        rating: None,
        votes: None,
        certification: None,
        genres: Seq::empty(),
        studios: Seq::empty(),
        countries: Seq::empty(),
        directors: Seq::empty(),
        writers: Seq::empty(),
        actors: Seq::empty(),
        tags: Seq::empty(),
        show_title: None,
        season: None,
        episode: None,
        aired: None,
        imdb_id: None,
        tmdb_id: None,
        tvdb_id: None,
        trailer: None,
        source: VideoMetadataSource::Nfo,
        nfo_path: None,
    }
}

/// The separator that joins several values in one list element.
pub open spec fn slash_sep() -> Seq<char> {
    seq![' ', '/', ' ']
}

/// The pieces of `s` between the occurrences of `" / "`, read left to
/// right as `str::split` does; `cur` is the piece read so far.
pub open spec fn split_slash(s: Seq<char>, cur: Seq<char>) -> Seq<Seq<char>>
    decreases s.len(),
{
    if s.len() == 0 {
        seq![cur]
    } else if s.len() >= 3 && s.subrange(0, 3) == slash_sep() {
        seq![cur] + split_slash(s.subrange(3, s.len() as int), Seq::empty())
    } else {
        split_slash(s.drop_first(), cur.push(s[0]))
    }
}

/// Each piece, trimmed, added when it is not empty and not already there.
pub open spec fn add_unique(list: Seq<Seq<char>>, parts: Seq<Seq<char>>) -> Seq<Seq<char>>
    decreases parts.len(),
{
    if parts.len() == 0 {
        list
    } else {
        let l = add_unique(list, parts.drop_last());
        let p = trim(parts.last());
        if p.len() > 0 && !l.contains(p) {
            l.push(p)
        } else {
            l
        }
    }
}

/// A list value added to a list: NFOs repeat values across elements and
/// join several in one with `" / "`.
pub open spec fn push_unique_spec(list: Seq<Seq<char>>, value: Seq<char>) -> Seq<Seq<char>> {
    let t = trim(value);
    if t.len() == 0 {
        list
    } else {
        add_unique(list, split_slash(t, Seq::empty()))
    }
}

pub open spec fn vecs_view(v: Seq<Vec<char>>) -> Seq<Seq<char>> {
    Seq::new(v.len(), |i: int| v[i]@)
}

fn split_on_slash(s: &[char]) -> (r: Vec<Vec<char>>)
    ensures
        vecs_view(r@) == split_slash(s@, Seq::empty()),
{
    let sep = vec![' ', '/', ' '];
    assert(sep@ =~= slash_sep());
    let mut out: Vec<Vec<char>> = Vec::new();
    let mut cur: Vec<char> = Vec::new();
    let mut i: usize = 0;
    assert(s@.subrange(0, s@.len() as int) =~= s@);
    while i < s.len()
        invariant
            0 <= i <= s@.len(),
            sep@ == slash_sep(),
            vecs_view(out@) + split_slash(s@.subrange(i as int, s@.len() as int), cur@) == split_slash(
                s@,
                Seq::empty(),
            ),
        decreases s@.len() - i,
    {
        let ghost rest = s@.subrange(i as int, s@.len() as int);
        if occurs_at_exec(s, sep.as_slice(), i) {
            assert(rest.subrange(0, 3) =~= s@.subrange(i as int, i + 3));
            assert(rest.subrange(3, rest.len() as int) =~= s@.subrange(i + 3, s@.len() as int));
            let ghost before = vecs_view(out@);
            let done = cur;
            out.push(done);
            cur = Vec::new();
            assert(vecs_view(out@) =~= before.push(done@));
            assert(before + (seq![done@] + split_slash(s@.subrange(i + 3, s@.len() as int), cur@)) =~= vecs_view(
                out@,
            ) + split_slash(s@.subrange(i + 3, s@.len() as int), cur@));
            i = i + 3;
        } else {
            proof {
                if rest.len() >= 3 && rest.subrange(0, 3) == slash_sep() {
                    assert(s@.subrange(i as int, i + 3) =~= rest.subrange(0, 3));
                }
                assert(rest.drop_first() =~= s@.subrange(i + 1, s@.len() as int));
            }
            cur.push(s[i]);
            i = i + 1;
        }
    }
    let ghost before = vecs_view(out@);
    out.push(cur);
    assert(vecs_view(out@) =~= before + seq![cur@]);
    out
}

fn list_contains(list: &Vec<String>, p: &[char]) -> (r: bool)
    ensures
        r == strs(list@).contains(p@),
{
    let mut k: usize = 0;
    while k < list.len()
        invariant
            0 <= k <= list@.len(),
            forall|j: int| 0 <= j < k ==> strs(list@)[j] != p@,
        decreases list@.len() - k,
    {
        let c = chars_of(list[k].as_str());
        if chars_eq(c.as_slice(), p) {
            assert(strs(list@)[k as int] == p@);
            return true;
        }
        k = k + 1;
    }
    false
}

fn push_unique(list: &mut Vec<String>, value: &str)
    ensures
        strs(final(list)@) == push_unique_spec(strs(old(list)@), value@),
{
    let vc = chars_of(value);
    let t = trimmed(vc.as_slice());
    if t.len() == 0 {
        return;
    }
    let parts = split_on_slash(t.as_slice());
    let ghost base = strs(list@);
    let mut k: usize = 0;
    while k < parts.len()
        invariant
            0 <= k <= parts@.len(),
            strs(list@) == add_unique(base, vecs_view(parts@).subrange(0, k as int)),
        decreases parts@.len() - k,
    {
        let ghost before = strs(list@);
        assert(vecs_view(parts@).subrange(0, k + 1).drop_last() =~= vecs_view(parts@).subrange(0, k as int));
        assert(vecs_view(parts@).subrange(0, k + 1).last() == parts@[k as int]@);
        let p = trimmed(parts[k].as_slice());
        if p.len() > 0 && !list_contains(list, p.as_slice()) {
            list.push(string_from(p.as_slice()));
            assert(strs(list@) =~= before.push(p@));
        }
        k = k + 1;
    }
    assert(vecs_view(parts@).subrange(0, k as int) =~= vecs_view(parts@));
}

pub open spec fn parsed_i32(s: Seq<char>) -> Option<i32> {
    match parse_signed(s) {
        Some(v) => if i32::MIN <= v <= i32::MAX { Some(v as i32) } else { None },
        None => None,
    }
}

pub open spec fn parsed_u32(s: Seq<char>) -> Option<u32> {
    match parse_unsigned(s) {
        Some(v) => if v <= u32::MAX { Some(v as u32) } else { None },
        None => None,
    }
}

/// A vote count with its thousands separators (`,` or `.`) taken out.
pub open spec fn without_separators(s: Seq<char>) -> Seq<char>
    decreases s.len(),
{
    if s.len() == 0 {
        s
    } else if s.last() == ',' || s.last() == '.' {
        without_separators(s.drop_last())
    } else {
        without_separators(s.drop_last()).push(s.last())
    }
}

/// Whether the element's parent is a `<rating>`: the nested form
/// `<rating><value>` of the rating.
pub open spec fn parent_is_rating(stack: Seq<Seq<char>>) -> bool {
    stack.len() >= 2 && stack[stack.len() - 2] == "rating"@
}

/// A field of an actor credit set from an element inside `<actor>`.
pub open spec fn apply_actor_spec(a: ActorView, tag: Seq<char>, text: Seq<char>) -> ActorView {
    if tag == "name"@ {
        ActorView { name: text, ..a }
    } else if tag == "role"@ {
        ActorView { role: Some(text), ..a }
    } else if tag == "thumb"@ {
        ActorView { thumb: Some(text), ..a }
    } else {
        a
    }
}

/// A field set from an element of the document, by its (lowercased) name
/// and its trimmed, non-empty text. Unknown elements change nothing.
pub open spec fn apply_spec(m: NfoView, tag: Seq<char>, text: Seq<char>, parent_rating: bool) -> NfoView {
    if tag == "title"@ {
        NfoView { title: Some(text), ..m }
    } else if tag == "originaltitle"@ {
        NfoView { original_title: Some(text), ..m }
    } else if tag == "sorttitle"@ {
        NfoView { sort_title: Some(text), ..m }
    } else if tag == "year"@ {
        NfoView { year: parsed_i32(text), ..m }
    } else if tag == "premiered"@ || tag == "releasedate"@ {
        NfoView { release_date: Some(text), ..m }
    } else if tag == "tagline"@ {
        NfoView { tagline: Some(text), ..m }
    } else if tag == "plot"@ {
        NfoView { plot: Some(text), ..m }
    } else if tag == "outline"@ {
        NfoView { outline: Some(text), ..m }
    } else if tag == "runtime"@ {
        NfoView { runtime_minutes: parsed_u32(text), ..m }
    } else if tag == "mpaa"@ || tag == "certification"@ {
        NfoView { certification: Some(text), ..m }
    } else {
        apply_list_spec(m, tag, text, parent_rating)
    }
}

pub open spec fn apply_list_spec(m: NfoView, tag: Seq<char>, text: Seq<char>, parent_rating: bool) -> NfoView {
    if tag == "genre"@ {
        NfoView { genres: push_unique_spec(m.genres, text), ..m }
    } else if tag == "studio"@ {
        NfoView { studios: push_unique_spec(m.studios, text), ..m }
    } else if tag == "country"@ {
        NfoView { countries: push_unique_spec(m.countries, text), ..m }
    } else if tag == "director"@ {
        NfoView { directors: push_unique_spec(m.directors, text), ..m }
    } else if tag == "credits"@ || tag == "writer"@ {
        NfoView { writers: push_unique_spec(m.writers, text), ..m }
    } else if tag == "tag"@ {
        NfoView { tags: push_unique_spec(m.tags, text), ..m }
    } else {
        apply_episode_spec(m, tag, text, parent_rating)
    }
}

pub open spec fn apply_episode_spec(m: NfoView, tag: Seq<char>, text: Seq<char>, parent_rating: bool) -> NfoView {
    if tag == "showtitle"@ {
        NfoView { show_title: Some(text), ..m }
    } else if tag == "season"@ {
        NfoView { season: parsed_u32(text), ..m }
    } else if tag == "episode"@ {
        NfoView { episode: parsed_u32(text), ..m }
    } else if tag == "aired"@ {
        NfoView { aired: Some(text), ..m }
    } else if tag == "trailer"@ {
        NfoView { trailer: Some(text), ..m }
    } else if tag == "votes"@ {
        NfoView { votes: parsed_u32(without_separators(text)), ..m }
    } else if tag == "rating"@ {
        NfoView { rating: Some(text), ..m }
    } else if tag == "value"@ && parent_rating {
        NfoView { rating: Some(text), ..m }
    } else {
        apply_id_spec(m, tag, text)
    }
}

/// Kodi writes the IMDb id in a bare `<id>` for movies; any other bare
/// `<id>` is taken as the TMDB id when none is set.
pub open spec fn apply_id_spec(m: NfoView, tag: Seq<char>, text: Seq<char>) -> NfoView {
    if tag == "id"@ || tag == "imdbid"@ {
        if starts_with(text, "tt"@) {
            NfoView { imdb_id: Some(text), ..m }
        } else if m.tmdb_id is None && tag == "id"@ {
            NfoView { tmdb_id: Some(text), ..m }
        } else {
            m
        }
    } else if tag == "tmdbid"@ {
        NfoView { tmdb_id: Some(text), ..m }
    } else if tag == "tvdbid"@ {
        NfoView { tvdb_id: Some(text), ..m }
    } else if tag == "uniqueid"@ {
        if starts_with(text, "tt"@) && m.imdb_id is None {
            NfoView { imdb_id: Some(text), ..m }
        } else {
            m
        }
    } else {
        m
    }
}

fn strip_separators(s: &[char]) -> (r: Vec<char>)
    ensures
        r@ == without_separators(s@),
{
    let mut out: Vec<char> = Vec::new();
    let mut k: usize = 0;
    while k < s.len()
        invariant
            0 <= k <= s@.len(),
            out@ == without_separators(s@.subrange(0, k as int)),
        decreases s@.len() - k,
    {
        assert(s@.subrange(0, k + 1).drop_last() =~= s@.subrange(0, k as int));
        if s[k] != ',' && s[k] != '.' {
            out.push(s[k]);
        }
        k = k + 1;
    }
    assert(s@.subrange(0, k as int) =~= s@);
    out
}

fn apply_actor(actor: &mut ActorCredit, tag: &str, text: &String)
    ensures
        actor_view(*final(actor)) == apply_actor_spec(actor_view(*old(actor)), tag@, text@),
{
    if str_eq(tag, "name") {
        actor.name = text.clone();
    } else if str_eq(tag, "role") {
        actor.role = Some(text.clone());
    } else if str_eq(tag, "thumb") {
        actor.thumb = Some(text.clone());
    }
}

fn apply_id(meta: &mut VideoMetadata<String>, tag: &str, text: &String)
    ensures
        video_view(*final(meta)) == apply_id_spec(video_view(*old(meta)), tag@, text@),
{
    let tc = chars_of(text.as_str());
    let tt = chars_of("tt");
    let is_imdb = occurs_at_exec(tc.as_slice(), tt.as_slice(), 0);
    if str_eq(tag, "id") || str_eq(tag, "imdbid") {
        if is_imdb {
            meta.imdb_id = Some(text.clone());
        } else if meta.tmdb_id.is_none() && str_eq(tag, "id") {
            meta.tmdb_id = Some(text.clone());
        }
    } else if str_eq(tag, "tmdbid") {
        meta.tmdb_id = Some(text.clone());
    } else if str_eq(tag, "tvdbid") {
        meta.tvdb_id = Some(text.clone());
    } else if str_eq(tag, "uniqueid") {
        if is_imdb && meta.imdb_id.is_none() {
            meta.imdb_id = Some(text.clone());
        }
    }
}

fn apply_episode(meta: &mut VideoMetadata<String>, tag: &str, text: &String, parent_rating: bool)
    ensures
        video_view(*final(meta)) == apply_episode_spec(video_view(*old(meta)), tag@, text@, parent_rating),
{
    let tc = chars_of(text.as_str());
    if str_eq(tag, "showtitle") {
        meta.show_title = Some(text.clone());
    } else if str_eq(tag, "season") {
        meta.season = parse_u32(tc.as_slice());
    } else if str_eq(tag, "episode") {
        meta.episode = parse_u32(tc.as_slice());
    } else if str_eq(tag, "aired") {
        meta.aired = Some(text.clone());
    } else if str_eq(tag, "trailer") {
        meta.trailer = Some(text.clone());
    } else if str_eq(tag, "votes") {
        let digits = strip_separators(tc.as_slice());
        meta.votes = parse_u32(digits.as_slice());
    } else if str_eq(tag, "rating") {
        meta.rating = Some(text.clone());
    } else if str_eq(tag, "value") && parent_rating {
        meta.rating = Some(text.clone());
    } else {
        apply_id(meta, tag, text);
    }
}

fn apply_list(meta: &mut VideoMetadata<String>, tag: &str, text: &String, parent_rating: bool)
    ensures
        video_view(*final(meta)) == apply_list_spec(video_view(*old(meta)), tag@, text@, parent_rating),
{
    if str_eq(tag, "genre") {
        push_unique(&mut meta.genres, text.as_str());
    } else if str_eq(tag, "studio") {
        push_unique(&mut meta.studios, text.as_str());
    } else if str_eq(tag, "country") {
        push_unique(&mut meta.countries, text.as_str());
    } else if str_eq(tag, "director") {
        push_unique(&mut meta.directors, text.as_str());
    } else if str_eq(tag, "credits") || str_eq(tag, "writer") {
        push_unique(&mut meta.writers, text.as_str());
    } else if str_eq(tag, "tag") {
        push_unique(&mut meta.tags, text.as_str());
    } else {
        apply_episode(meta, tag, text, parent_rating);
    }
}

fn apply_field(meta: &mut VideoMetadata<String>, tag: &str, text: &String, parent_rating: bool)
    ensures
        video_view(*final(meta)) == apply_spec(video_view(*old(meta)), tag@, text@, parent_rating),
{
    let tc = chars_of(text.as_str());
    if str_eq(tag, "title") {
        meta.title = Some(text.clone());
    } else if str_eq(tag, "originaltitle") {
        meta.original_title = Some(text.clone());
    } else if str_eq(tag, "sorttitle") {
        meta.sort_title = Some(text.clone());
    } else if str_eq(tag, "year") {
        meta.year = parse_i32(tc.as_slice());
    } else if str_eq(tag, "premiered") || str_eq(tag, "releasedate") {
        meta.release_date = Some(text.clone());
    } else if str_eq(tag, "tagline") {
        meta.tagline = Some(text.clone());
    } else if str_eq(tag, "plot") {
        meta.plot = Some(text.clone());
    } else if str_eq(tag, "outline") {
        meta.outline = Some(text.clone());
    } else if str_eq(tag, "runtime") {
        meta.runtime_minutes = parse_u32(tc.as_slice());
    } else if str_eq(tag, "mpaa") || str_eq(tag, "certification") {
        meta.certification = Some(text.clone());
    } else {
        apply_list(meta, tag, text, parent_rating);
    }
}

/// Where a parse stands: the metadata so far, the open elements (names
/// lowercased), the actor credit being read, whether the root element was
/// seen, and the text gathered since the last tag.
#[verifier::ext_equal]
pub ghost struct NfoState {
    pub meta: NfoView,
    pub stack: Seq<Seq<char>>,
    pub actor: ActorView,
    pub in_actor: bool,
    pub saw_root: bool,
    pub text: Seq<char>,
}

pub open spec fn initial_state() -> NfoState {
    NfoState {
        meta: initial_nfo(),
        stack: Seq::empty(),
        actor: blank_actor(),
        in_actor: false,
        saw_root: false,
        text: Seq::empty(),
    }
}

/// The kind a root element names: `<movie>` and `<tvshow>` describe a
/// movie-shaped record, `<episodedetails>` an episode.
pub open spec fn root_kind(name: Seq<char>) -> Option<VideoKind> {
    if name == "movie"@ {
        Some(VideoKind::Movie)
    } else if name == "episodedetails"@ {
        Some(VideoKind::Episode)
    } else if name == "tvshow"@ {
        Some(VideoKind::Movie)
    } else {
        None
    }
}

pub open spec fn open_element(st: NfoState, name: Seq<char>) -> NfoState {
    let (kind, saw) = if st.saw_root {
        (st.meta.kind, true)
    } else {
        match root_kind(name) {
            Some(k) => (k, true),
            None => (st.meta.kind, false),
        }
    };
    let is_actor = name == "actor"@;
    NfoState {
        meta: NfoView { kind, ..st.meta },
        stack: st.stack.push(name),
        actor: if is_actor { blank_actor() } else { st.actor },
        in_actor: if is_actor { true } else { st.in_actor },
        saw_root: saw,
        text: Seq::empty(),
    }
}

/// An element closes: its trimmed text, when there is any, sets a field of
/// the actor being read or of the metadata; a closing `<actor>` adds the
/// credit when it has a name.
pub open spec fn close_element(st: NfoState, name: Seq<char>) -> NfoState {
    let t = trim(st.text);
    let m1 = if t.len() > 0 && !st.in_actor {
        apply_spec(st.meta, name, t, parent_is_rating(st.stack))
    } else {
        st.meta
    };
    let a1 = if t.len() > 0 && st.in_actor {
        apply_actor_spec(st.actor, name, t)
    } else {
        st.actor
    };
    let keep = name == "actor"@ && trim(a1.name).len() > 0;
    NfoState {
        meta: if keep { NfoView { actors: m1.actors.push(a1), ..m1 } } else { m1 },
        stack: if st.stack.len() > 0 { st.stack.drop_last() } else { st.stack },
        actor: if keep { blank_actor() } else { a1 },
        in_actor: if name == "actor"@ { false } else { st.in_actor },
        saw_root: st.saw_root,
        text: Seq::empty(),
    }
}

pub open spec fn nfo_step(st: NfoState, ev: XmlEvent) -> NfoState {
    match ev {
        XmlEvent::Start(n, _) => open_element(st, lowercase(n@)),
        XmlEvent::End(n) => close_element(st, lowercase(n@)),
        XmlEvent::Text(t) => NfoState { text: st.text + t@, ..st },
        XmlEvent::GeneralRef(g) => match resolve_entity_spec(g@) {
            Some(c) => NfoState { text: st.text.push(c as char), ..st },
            None => st,
        },
        _ => st,
    }
}

pub open spec fn nfo_malformed(pos: nat, msg: Seq<char>) -> Seq<char> {
    "Malformed NFO at position "@ + decimal(pos) + ": "@ + msg
}

pub open spec fn not_an_nfo() -> Seq<char> {
    "Not a recognised NFO \u{2014} expected <movie>, <episodedetails>, or <tvshow>"@
}

pub open spec fn nfo_finish(st: NfoState) -> Result<NfoView, Seq<char>> {
    if st.saw_root {
        Ok(st.meta)
    } else {
        Err(not_an_nfo())
    }
}

/// What a run of reader events describes, from event `i` on: the end of
/// the document or of the events finishes the parse, a reader error ends
/// it with the error.
pub open spec fn nfo_run(evs: Seq<XmlEvent>, i: int, st: NfoState) -> Result<NfoView, Seq<char>>
    decreases evs.len() - i,
{
    if i < 0 || i >= evs.len() {
        nfo_finish(st)
    } else {
        match evs[i] {
            XmlEvent::Eof => nfo_finish(st),
            XmlEvent::Failed(p, m) => Err(nfo_malformed(p as nat, m@)),
            _ => nfo_run(evs, i + 1, nfo_step(st, evs[i])),
        }
    }
}

pub open spec fn nfo_spec(evs: Seq<XmlEvent>) -> Result<NfoView, Seq<char>> {
    nfo_run(evs, 0, initial_state())
}

/// Whether a parse result agrees with what the events describe.
pub open spec fn nfo_matches(r: Result<VideoMetadata<String>, NotataError>, e: Result<NfoView, Seq<char>>) -> bool {
    match r {
        Ok(m) => e == Ok::<NfoView, Seq<char>>(video_view(m)),
        Err(err) => err matches NotataError::Custom(t) && e == Err::<NfoView, Seq<char>>(t@),
    }
}

fn new_actor() -> (r: ActorCredit)
    ensures
        actor_view(r) == blank_actor(),
{
    ActorCredit { name: String::new(), role: None, thumb: None }
}

fn is_named(name: &String, lit: &str) -> (r: bool)
    ensures
        r == (name@ == lit@),
{
    str_eq(name.as_str(), lit)
}

fn malformed_nfo(pos: u64, msg: &String) -> (r: NotataError)
    ensures
        r matches NotataError::Custom(m) && m@ == nfo_malformed(pos as nat, msg@),
{
    let mut v = chars_of("Malformed NFO at position ");
    let d = format_u64(pos);
    push_all(&mut v, d.as_slice());
    let mid = chars_of(": ");
    push_all(&mut v, mid.as_slice());
    let m = chars_of(msg.as_str());
    push_all(&mut v, m.as_slice());
    NotataError::Custom(string_from(v.as_slice()))
}

fn finish(meta: VideoMetadata<String>, saw_root: bool) -> (r: Result<VideoMetadata<String>, NotataError>)
    ensures
        r matches Ok(m) ==> saw_root && video_view(m) == video_view(meta),
        r matches Err(e) ==> !saw_root && (e matches NotataError::Custom(t) && t@ == not_an_nfo()),
{
    if saw_root {
        Ok(meta)
    } else {
        let msg = "Not a recognised NFO \u{2014} expected <movie>, <episodedetails>, or <tvshow>";
        Err(NotataError::Custom(msg.to_string()))
    }
}

/// What a run of reader events describes as NFO metadata.
pub fn nfo_from_events(events: &[XmlEvent]) -> (r: Result<VideoMetadata<String>, NotataError>)
    ensures
        nfo_matches(r, nfo_spec(events@)),
{
    let mut meta: VideoMetadata<String> = VideoMetadata::blank();
    meta.source = VideoMetadataSource::Nfo;
    let mut stack: Vec<String> = Vec::new();
    let mut actor = new_actor();
    let mut in_actor = false;
    let mut saw_root = false;
    let mut text: Vec<char> = Vec::new();
    let mut i: usize = 0;
    assert(video_view(meta) =~= initial_nfo());
    assert(strs(stack@) =~= Seq::<Seq<char>>::empty());
    while i < events.len()
        invariant
            0 <= i <= events@.len(),
            nfo_run(
                events@,
                i as int,
                NfoState {
                    meta: video_view(meta),
                    stack: strs(stack@),
                    actor: actor_view(actor),
                    in_actor,
                    saw_root,
                    text: text@,
                },
            ) == nfo_spec(events@),
        decreases events@.len() - i,
    {
        let ghost st = NfoState {
            meta: video_view(meta),
            stack: strs(stack@),
            actor: actor_view(actor),
            in_actor,
            saw_root,
            text: text@,
        };
        match &events[i] {
            XmlEvent::Eof => {
                return finish(meta, saw_root);
            },
            XmlEvent::Failed(p, m) => {
                return Err(malformed_nfo(*p, m));
            },
            XmlEvent::Start(n, _) => {
                let name = to_lowercase(n.as_str());
                if !saw_root {
                    if is_named(&name, "movie") {
                        meta.kind = VideoKind::Movie;
                        saw_root = true;
                    } else if is_named(&name, "episodedetails") {
                        meta.kind = VideoKind::Episode;
                        saw_root = true;
                    } else if is_named(&name, "tvshow") {
                        meta.kind = VideoKind::Movie;
                        saw_root = true;
                    }
                }
                if is_named(&name, "actor") {
                    in_actor = true;
                    actor = new_actor();
                }
                let ghost nm = name@;
                stack.push(name);
                text = Vec::new();
                assert(strs(stack@) =~= st.stack.push(nm));
                assert(NfoState {
                    meta: video_view(meta),
                    stack: strs(stack@),
                    actor: actor_view(actor),
                    in_actor,
                    saw_root,
                    text: text@,
                } =~= open_element(st, nm));
            },
            XmlEvent::End(n) => {
                let name = to_lowercase(n.as_str());
                let t = trimmed(text.as_slice());
                if t.len() > 0 {
                    let ts = string_from(t.as_slice());
                    if in_actor {
                        apply_actor(&mut actor, name.as_str(), &ts);
                    } else {
                        let parent_rating = stack.len() >= 2 && is_named(&stack[stack.len() - 2], "rating");
                        assert(parent_rating == parent_is_rating(st.stack));
                        apply_field(&mut meta, name.as_str(), &ts, parent_rating);
                    }
                }
                if is_named(&name, "actor") {
                    let an = chars_of(actor.name.as_str());
                    let at = trimmed(an.as_slice());
                    if at.len() > 0 {
                        let ghost before = actors_view(meta.actors@);
                        let done = actor;
                        actor = new_actor();
                        meta.actors.push(done);
                        assert(actors_view(meta.actors@) =~= before.push(actor_view(done)));
                    }
                    in_actor = false;
                }
                let ghost sb = stack@;
                stack.pop();
                proof {
                    if sb.len() > 0 {
                        assert(strs(stack@) =~= st.stack.drop_last());
                    }
                }
                text = Vec::new();
                assert(NfoState {
                    meta: video_view(meta),
                    stack: strs(stack@),
                    actor: actor_view(actor),
                    in_actor,
                    saw_root,
                    text: text@,
                } =~= close_element(st, name@));
            },
            XmlEvent::Text(t) => {
                let tc = chars_of(t.as_str());
                push_all(&mut text, tc.as_slice());
            },
            XmlEvent::GeneralRef(g) => {
                match resolve_entity(g.as_str()) {
                    Some(c) => {
                        text.push(c);
                        proof {
                            vstd::utf8::char_u32_cast(c, c as u32);
                        }
                    },
                    None => {},
                }
            },
            XmlEvent::Empty(_, _) => {},
            XmlEvent::Other => {},
        }
        assert(NfoState {
            meta: video_view(meta),
            stack: strs(stack@),
            actor: actor_view(actor),
            in_actor,
            saw_root,
            text: text@,
        } =~= nfo_step(st, events@[i as int]));
        i = i + 1;
    }
    finish(meta, saw_root)
}

/// Parse a Kodi-style NFO document.
///
/// Handles the three root elements the media servers write (`<movie>`,
/// `<episodedetails>`, and `<tvshow>`) and ignores unknown elements, so a
/// richer NFO from another tool still round-trips its known fields. The
/// events are what quick-xml reads from `xml`; the result is what those
/// events describe.
pub fn parse_nfo(xml: &str) -> (r: Result<VideoMetadata<String>, NotataError>)
    ensures
        nfo_matches(r, nfo_document(xml@)),
{
    let events = collect_events(xml);
    proof {
        let w = events_of(xml@);
        assert(events_view(events@) == reader_events(xml@));
        assert(events_view(w) == reader_events(xml@));
        lemma_nfo_by_view(events@, w);
    }
    nfo_from_events(events.as_slice())
}

/// What a document says as an NFO, as quick-xml reads it.
pub open spec fn nfo_document(xml: Seq<char>) -> Result<NfoView, Seq<char>> {
    nfo_spec(events_of(xml))
}

proof fn lemma_nfo_step_by_view(st: NfoState, x: XmlEvent, y: XmlEvent)
    requires
        event_view(x) == event_view(y),
    ensures
        nfo_step(st, x) == nfo_step(st, y),
{
}

proof fn lemma_nfo_run_by_view(a: Seq<XmlEvent>, b: Seq<XmlEvent>, i: int, st: NfoState)
    requires
        events_view(a) == events_view(b),
    ensures
        nfo_run(a, i, st) == nfo_run(b, i, st),
    decreases a.len() - i,
{
    assert(a.len() == events_view(a).len() && b.len() == events_view(b).len());
    if 0 <= i < a.len() {
        assert(events_view(a)[i] == event_view(a[i]));
        assert(events_view(b)[i] == event_view(b[i]));
        lemma_nfo_step_by_view(st, a[i], b[i]);
        lemma_nfo_run_by_view(a, b, i + 1, nfo_step(st, a[i]));
    }
}

/// A parse goes by what the events say, not by how they are held: two
/// event lists that say the same parse the same.
pub proof fn lemma_nfo_by_view(a: Seq<XmlEvent>, b: Seq<XmlEvent>)
    requires
        events_view(a) == events_view(b),
    ensures
        nfo_spec(a) == nfo_spec(b),
{
    lemma_nfo_run_by_view(a, b, 0, initial_state());
}

/// Each element that carries one text field sets that field to its text
/// and leaves every other field as it was: `<plot>` fills the plot (not the
/// outline), `<outline>` the outline, `<premiered>` and `<releasedate>` the
/// release date, `<mpaa>` and `<certification>` the certification, and so
/// on, whatever the metadata read so far.
pub proof fn law_text_elements_fill_their_own_field(m: NfoView, t: Seq<char>, in_rating: bool)
    ensures
        apply_spec(m, "title"@, t, in_rating) == (NfoView { title: Some(t), ..m }),
        apply_spec(m, "originaltitle"@, t, in_rating) == (NfoView { original_title: Some(t), ..m }),
        apply_spec(m, "sorttitle"@, t, in_rating) == (NfoView { sort_title: Some(t), ..m }),
        apply_spec(m, "premiered"@, t, in_rating) == (NfoView { release_date: Some(t), ..m }),
        apply_spec(m, "releasedate"@, t, in_rating) == (NfoView { release_date: Some(t), ..m }),
        apply_spec(m, "tagline"@, t, in_rating) == (NfoView { tagline: Some(t), ..m }),
        apply_spec(m, "plot"@, t, in_rating) == (NfoView { plot: Some(t), ..m }),
        apply_spec(m, "outline"@, t, in_rating) == (NfoView { outline: Some(t), ..m }),
        apply_spec(m, "mpaa"@, t, in_rating) == (NfoView { certification: Some(t), ..m }),
        apply_spec(m, "certification"@, t, in_rating) == (NfoView { certification: Some(t), ..m }),
        apply_spec(m, "showtitle"@, t, in_rating) == (NfoView { show_title: Some(t), ..m }),
        apply_spec(m, "aired"@, t, in_rating) == (NfoView { aired: Some(t), ..m }),
        apply_spec(m, "trailer"@, t, in_rating) == (NfoView { trailer: Some(t), ..m }),
        apply_spec(m, "rating"@, t, in_rating) == (NfoView { rating: Some(t), ..m }),
        apply_spec(m, "tmdbid"@, t, in_rating) == (NfoView { tmdb_id: Some(t), ..m }),
        apply_spec(m, "tvdbid"@, t, in_rating) == (NfoView { tvdb_id: Some(t), ..m }),
{
    reveal_strlit("title");
    reveal_strlit("originaltitle");
    reveal_strlit("sorttitle");
    reveal_strlit("year");
    reveal_strlit("premiered");
    reveal_strlit("releasedate");
    reveal_strlit("tagline");
    reveal_strlit("plot");
    reveal_strlit("outline");
    reveal_strlit("runtime");
    reveal_strlit("mpaa");
    reveal_strlit("certification");
    reveal_strlit("genre");
    reveal_strlit("studio");
    reveal_strlit("country");
    reveal_strlit("director");
    reveal_strlit("credits");
    reveal_strlit("writer");
    reveal_strlit("tag");
    reveal_strlit("showtitle");
    reveal_strlit("season");
    reveal_strlit("episode");
    reveal_strlit("aired");
    reveal_strlit("trailer");
    reveal_strlit("votes");
    reveal_strlit("rating");
    reveal_strlit("value");
    reveal_strlit("id");
    reveal_strlit("imdbid");
    reveal_strlit("tmdbid");
    reveal_strlit("tvdbid");
    reveal_strlit("uniqueid");
    assert("originaltitle"@.len() != "title"@.len());
    assert("sorttitle"@.len() != "title"@.len());
    assert("sorttitle"@.len() != "originaltitle"@.len());
    assert("premiered"@.len() != "title"@.len());
    assert("premiered"@.len() != "originaltitle"@.len());
    assert("premiered"@[0] != "sorttitle"@[0]);
    assert("premiered"@.len() != "year"@.len());
    assert("releasedate"@.len() != "title"@.len());
    assert("releasedate"@.len() != "originaltitle"@.len());
    assert("releasedate"@.len() != "sorttitle"@.len());
    assert("releasedate"@.len() != "year"@.len());
    assert("releasedate"@.len() != "premiered"@.len());
    assert("tagline"@.len() != "title"@.len());
    assert("tagline"@.len() != "originaltitle"@.len());
    assert("tagline"@.len() != "sorttitle"@.len());
    assert("tagline"@.len() != "year"@.len());
    assert("tagline"@.len() != "premiered"@.len());
    assert("tagline"@.len() != "releasedate"@.len());
    assert("plot"@.len() != "title"@.len());
    assert("plot"@.len() != "originaltitle"@.len());
    assert("plot"@.len() != "sorttitle"@.len());
    assert("plot"@[0] != "year"@[0]);
    assert("plot"@.len() != "premiered"@.len());
    assert("plot"@.len() != "releasedate"@.len());
    assert("plot"@.len() != "tagline"@.len());
    assert("outline"@.len() != "title"@.len());
    assert("outline"@.len() != "originaltitle"@.len());
    assert("outline"@.len() != "sorttitle"@.len());
    assert("outline"@.len() != "year"@.len());
    assert("outline"@.len() != "premiered"@.len());
    assert("outline"@.len() != "releasedate"@.len());
    assert("outline"@[0] != "tagline"@[0]);
    assert("outline"@.len() != "plot"@.len());
    assert("mpaa"@.len() != "title"@.len());
    assert("mpaa"@.len() != "originaltitle"@.len());
    assert("mpaa"@.len() != "sorttitle"@.len());
    assert("mpaa"@[0] != "year"@[0]);
    assert("mpaa"@.len() != "premiered"@.len());
    assert("mpaa"@.len() != "releasedate"@.len());
    assert("mpaa"@.len() != "tagline"@.len());
    assert("mpaa"@[0] != "plot"@[0]);
    assert("mpaa"@.len() != "outline"@.len());
    assert("mpaa"@.len() != "runtime"@.len());
    assert("certification"@.len() != "title"@.len());
    assert("certification"@[0] != "originaltitle"@[0]);
    assert("certification"@.len() != "sorttitle"@.len());
    assert("certification"@.len() != "year"@.len());
    assert("certification"@.len() != "premiered"@.len());
    assert("certification"@.len() != "releasedate"@.len());
    assert("certification"@.len() != "tagline"@.len());
    assert("certification"@.len() != "plot"@.len());
    assert("certification"@.len() != "outline"@.len());
    assert("certification"@.len() != "runtime"@.len());
    assert("certification"@.len() != "mpaa"@.len());
    assert("showtitle"@.len() != "title"@.len());
    assert("showtitle"@.len() != "originaltitle"@.len());
    assert("showtitle"@[1] != "sorttitle"@[1]);
    assert("showtitle"@.len() != "year"@.len());
    assert("showtitle"@[0] != "premiered"@[0]);
    assert("showtitle"@.len() != "releasedate"@.len());
    assert("showtitle"@.len() != "tagline"@.len());
    assert("showtitle"@.len() != "plot"@.len());
    assert("showtitle"@.len() != "outline"@.len());
    assert("showtitle"@.len() != "runtime"@.len());
    assert("showtitle"@.len() != "mpaa"@.len());
    assert("showtitle"@.len() != "certification"@.len());
    assert("showtitle"@.len() != "genre"@.len());
    assert("showtitle"@.len() != "studio"@.len());
    assert("showtitle"@.len() != "country"@.len());
    assert("showtitle"@.len() != "director"@.len());
    assert("showtitle"@.len() != "credits"@.len());
    assert("showtitle"@.len() != "writer"@.len());
    assert("showtitle"@.len() != "tag"@.len());
    assert("aired"@[0] != "title"@[0]);
    assert("aired"@.len() != "originaltitle"@.len());
    assert("aired"@.len() != "sorttitle"@.len());
    assert("aired"@.len() != "year"@.len());
    assert("aired"@.len() != "premiered"@.len());
    assert("aired"@.len() != "releasedate"@.len());
    assert("aired"@.len() != "tagline"@.len());
    assert("aired"@.len() != "plot"@.len());
    assert("aired"@.len() != "outline"@.len());
    assert("aired"@.len() != "runtime"@.len());
    assert("aired"@.len() != "mpaa"@.len());
    assert("aired"@.len() != "certification"@.len());
    assert("aired"@[0] != "genre"@[0]);
    assert("aired"@.len() != "studio"@.len());
    assert("aired"@.len() != "country"@.len());
    assert("aired"@.len() != "director"@.len());
    assert("aired"@.len() != "credits"@.len());
    assert("aired"@.len() != "writer"@.len());
    assert("aired"@.len() != "tag"@.len());
    assert("aired"@.len() != "showtitle"@.len());
    assert("aired"@.len() != "season"@.len());
    assert("aired"@.len() != "episode"@.len());
    assert("trailer"@.len() != "title"@.len());
    assert("trailer"@.len() != "originaltitle"@.len());
    assert("trailer"@.len() != "sorttitle"@.len());
    assert("trailer"@.len() != "year"@.len());
    assert("trailer"@.len() != "premiered"@.len());
    assert("trailer"@.len() != "releasedate"@.len());
    assert("trailer"@[1] != "tagline"@[1]);
    assert("trailer"@.len() != "plot"@.len());
    assert("trailer"@[0] != "outline"@[0]);
    assert("trailer"@[0] != "runtime"@[0]);
    assert("trailer"@.len() != "mpaa"@.len());
    assert("trailer"@.len() != "certification"@.len());
    assert("trailer"@.len() != "genre"@.len());
    assert("trailer"@.len() != "studio"@.len());
    assert("trailer"@[0] != "country"@[0]);
    assert("trailer"@.len() != "director"@.len());
    assert("trailer"@[0] != "credits"@[0]);
    assert("trailer"@.len() != "writer"@.len());
    assert("trailer"@.len() != "tag"@.len());
    assert("trailer"@.len() != "showtitle"@.len());
    assert("trailer"@.len() != "season"@.len());
    assert("trailer"@[0] != "episode"@[0]);
    assert("trailer"@.len() != "aired"@.len());
    assert("rating"@.len() != "title"@.len());
    assert("rating"@.len() != "originaltitle"@.len());
    assert("rating"@.len() != "sorttitle"@.len());
    assert("rating"@.len() != "year"@.len());
    assert("rating"@.len() != "premiered"@.len());
    assert("rating"@.len() != "releasedate"@.len());
    assert("rating"@.len() != "tagline"@.len());
    assert("rating"@.len() != "plot"@.len());
    assert("rating"@.len() != "outline"@.len());
    assert("rating"@.len() != "runtime"@.len());
    assert("rating"@.len() != "mpaa"@.len());
    assert("rating"@.len() != "certification"@.len());
    assert("rating"@.len() != "genre"@.len());
    assert("rating"@[0] != "studio"@[0]);
    assert("rating"@.len() != "country"@.len());
    assert("rating"@.len() != "director"@.len());
    assert("rating"@.len() != "credits"@.len());
    assert("rating"@[0] != "writer"@[0]);
    assert("rating"@.len() != "tag"@.len());
    assert("rating"@.len() != "showtitle"@.len());
    assert("rating"@[0] != "season"@[0]);
    assert("rating"@.len() != "episode"@.len());
    assert("rating"@.len() != "aired"@.len());
    assert("rating"@.len() != "trailer"@.len());
    assert("rating"@.len() != "votes"@.len());
    assert("tmdbid"@.len() != "title"@.len());
    assert("tmdbid"@.len() != "originaltitle"@.len());
    assert("tmdbid"@.len() != "sorttitle"@.len());
    assert("tmdbid"@.len() != "year"@.len());
    assert("tmdbid"@.len() != "premiered"@.len());
    assert("tmdbid"@.len() != "releasedate"@.len());
    assert("tmdbid"@.len() != "tagline"@.len());
    assert("tmdbid"@.len() != "plot"@.len());
    assert("tmdbid"@.len() != "outline"@.len());
    assert("tmdbid"@.len() != "runtime"@.len());
    assert("tmdbid"@.len() != "mpaa"@.len());
    assert("tmdbid"@.len() != "certification"@.len());
    assert("tmdbid"@.len() != "genre"@.len());
    assert("tmdbid"@[0] != "studio"@[0]);
    assert("tmdbid"@.len() != "country"@.len());
    assert("tmdbid"@.len() != "director"@.len());
    assert("tmdbid"@.len() != "credits"@.len());
    assert("tmdbid"@[0] != "writer"@[0]);
    assert("tmdbid"@.len() != "tag"@.len());
    assert("tmdbid"@.len() != "showtitle"@.len());
    assert("tmdbid"@[0] != "season"@[0]);
    assert("tmdbid"@.len() != "episode"@.len());
    assert("tmdbid"@.len() != "aired"@.len());
    assert("tmdbid"@.len() != "trailer"@.len());
    assert("tmdbid"@.len() != "votes"@.len());
    assert("tmdbid"@[0] != "rating"@[0]);
    assert("tmdbid"@.len() != "value"@.len());
    assert("tmdbid"@.len() != "id"@.len());
    assert("tmdbid"@[0] != "imdbid"@[0]);
    assert("tvdbid"@.len() != "title"@.len());
    assert("tvdbid"@.len() != "originaltitle"@.len());
    assert("tvdbid"@.len() != "sorttitle"@.len());
    assert("tvdbid"@.len() != "year"@.len());
    assert("tvdbid"@.len() != "premiered"@.len());
    assert("tvdbid"@.len() != "releasedate"@.len());
    assert("tvdbid"@.len() != "tagline"@.len());
    assert("tvdbid"@.len() != "plot"@.len());
    assert("tvdbid"@.len() != "outline"@.len());
    assert("tvdbid"@.len() != "runtime"@.len());
    assert("tvdbid"@.len() != "mpaa"@.len());
    assert("tvdbid"@.len() != "certification"@.len());
    assert("tvdbid"@.len() != "genre"@.len());
    assert("tvdbid"@[0] != "studio"@[0]);
    assert("tvdbid"@.len() != "country"@.len());
    assert("tvdbid"@.len() != "director"@.len());
    assert("tvdbid"@.len() != "credits"@.len());
    assert("tvdbid"@[0] != "writer"@[0]);
    assert("tvdbid"@.len() != "tag"@.len());
    assert("tvdbid"@.len() != "showtitle"@.len());
    assert("tvdbid"@[0] != "season"@[0]);
    assert("tvdbid"@.len() != "episode"@.len());
    assert("tvdbid"@.len() != "aired"@.len());
    assert("tvdbid"@.len() != "trailer"@.len());
    assert("tvdbid"@.len() != "votes"@.len());
    assert("tvdbid"@[0] != "rating"@[0]);
    assert("tvdbid"@.len() != "value"@.len());
    assert("tvdbid"@.len() != "id"@.len());
    assert("tvdbid"@[0] != "imdbid"@[0]);
    assert("tvdbid"@[1] != "tmdbid"@[1]);
}

/// Each list or number element changes its own field and nothing else:
/// `<genre>` only the genres, `<credits>` and `<writer>` only the writers,
/// `<runtime>` only the runtime, `<season>` only the season, and so on.
pub proof fn law_other_elements_touch_only_their_field(m: NfoView, t: Seq<char>, in_rating: bool)
    ensures
        apply_spec(m, "year"@, t, in_rating) == (NfoView { year: apply_spec(m, "year"@, t, in_rating).year, ..m }),
        apply_spec(m, "runtime"@, t, in_rating) == (NfoView { runtime_minutes: apply_spec(m, "runtime"@, t, in_rating).runtime_minutes, ..m }),
        apply_spec(m, "genre"@, t, in_rating) == (NfoView { genres: apply_spec(m, "genre"@, t, in_rating).genres, ..m }),
        apply_spec(m, "studio"@, t, in_rating) == (NfoView { studios: apply_spec(m, "studio"@, t, in_rating).studios, ..m }),
        apply_spec(m, "country"@, t, in_rating) == (NfoView { countries: apply_spec(m, "country"@, t, in_rating).countries, ..m }),
        apply_spec(m, "director"@, t, in_rating) == (NfoView { directors: apply_spec(m, "director"@, t, in_rating).directors, ..m }),
        apply_spec(m, "credits"@, t, in_rating) == (NfoView { writers: apply_spec(m, "credits"@, t, in_rating).writers, ..m }),
        apply_spec(m, "writer"@, t, in_rating) == (NfoView { writers: apply_spec(m, "writer"@, t, in_rating).writers, ..m }),
        apply_spec(m, "tag"@, t, in_rating) == (NfoView { tags: apply_spec(m, "tag"@, t, in_rating).tags, ..m }),
        apply_spec(m, "season"@, t, in_rating) == (NfoView { season: apply_spec(m, "season"@, t, in_rating).season, ..m }),
        apply_spec(m, "episode"@, t, in_rating) == (NfoView { episode: apply_spec(m, "episode"@, t, in_rating).episode, ..m }),
        apply_spec(m, "votes"@, t, in_rating) == (NfoView { votes: apply_spec(m, "votes"@, t, in_rating).votes, ..m }),
{
    reveal_strlit("title");
    reveal_strlit("originaltitle");
    reveal_strlit("sorttitle");
    reveal_strlit("year");
    reveal_strlit("premiered");
    reveal_strlit("releasedate");
    reveal_strlit("tagline");
    reveal_strlit("plot");
    reveal_strlit("outline");
    reveal_strlit("runtime");
    reveal_strlit("mpaa");
    reveal_strlit("certification");
    reveal_strlit("genre");
    reveal_strlit("studio");
    reveal_strlit("country");
    reveal_strlit("director");
    reveal_strlit("credits");
    reveal_strlit("writer");
    reveal_strlit("tag");
    reveal_strlit("showtitle");
    reveal_strlit("season");
    reveal_strlit("episode");
    reveal_strlit("aired");
    reveal_strlit("trailer");
    reveal_strlit("votes");
    reveal_strlit("rating");
    reveal_strlit("value");
    reveal_strlit("id");
    reveal_strlit("imdbid");
    reveal_strlit("tmdbid");
    reveal_strlit("tvdbid");
    reveal_strlit("uniqueid");
    assert("year"@.len() != "title"@.len());
    assert("year"@.len() != "originaltitle"@.len());
    assert("year"@.len() != "sorttitle"@.len());
    assert("runtime"@.len() != "title"@.len());
    assert("runtime"@.len() != "originaltitle"@.len());
    assert("runtime"@.len() != "sorttitle"@.len());
    assert("runtime"@.len() != "year"@.len());
    assert("runtime"@.len() != "premiered"@.len());
    assert("runtime"@.len() != "releasedate"@.len());
    assert("runtime"@[0] != "tagline"@[0]);
    assert("runtime"@.len() != "plot"@.len());
    assert("runtime"@[0] != "outline"@[0]);
    assert("genre"@[0] != "title"@[0]);
    assert("genre"@.len() != "originaltitle"@.len());
    assert("genre"@.len() != "sorttitle"@.len());
    assert("genre"@.len() != "year"@.len());
    assert("genre"@.len() != "premiered"@.len());
    assert("genre"@.len() != "releasedate"@.len());
    assert("genre"@.len() != "tagline"@.len());
    assert("genre"@.len() != "plot"@.len());
    assert("genre"@.len() != "outline"@.len());
    assert("genre"@.len() != "runtime"@.len());
    assert("genre"@.len() != "mpaa"@.len());
    assert("genre"@.len() != "certification"@.len());
    assert("studio"@.len() != "title"@.len());
    assert("studio"@.len() != "originaltitle"@.len());
    assert("studio"@.len() != "sorttitle"@.len());
    assert("studio"@.len() != "year"@.len());
    assert("studio"@.len() != "premiered"@.len());
    assert("studio"@.len() != "releasedate"@.len());
    assert("studio"@.len() != "tagline"@.len());
    assert("studio"@.len() != "plot"@.len());
    assert("studio"@.len() != "outline"@.len());
    assert("studio"@.len() != "runtime"@.len());
    assert("studio"@.len() != "mpaa"@.len());
    assert("studio"@.len() != "certification"@.len());
    assert("studio"@.len() != "genre"@.len());
    assert("country"@.len() != "title"@.len());
    assert("country"@.len() != "originaltitle"@.len());
    assert("country"@.len() != "sorttitle"@.len());
    assert("country"@.len() != "year"@.len());
    assert("country"@.len() != "premiered"@.len());
    assert("country"@.len() != "releasedate"@.len());
    assert("country"@[0] != "tagline"@[0]);
    assert("country"@.len() != "plot"@.len());
    assert("country"@[0] != "outline"@[0]);
    assert("country"@[0] != "runtime"@[0]);
    assert("country"@.len() != "mpaa"@.len());
    assert("country"@.len() != "certification"@.len());
    assert("country"@.len() != "genre"@.len());
    assert("country"@.len() != "studio"@.len());
    assert("director"@.len() != "title"@.len());
    assert("director"@.len() != "originaltitle"@.len());
    assert("director"@.len() != "sorttitle"@.len());
    assert("director"@.len() != "year"@.len());
    assert("director"@.len() != "premiered"@.len());
    assert("director"@.len() != "releasedate"@.len());
    assert("director"@.len() != "tagline"@.len());
    assert("director"@.len() != "plot"@.len());
    assert("director"@.len() != "outline"@.len());
    assert("director"@.len() != "runtime"@.len());
    assert("director"@.len() != "mpaa"@.len());
    assert("director"@.len() != "certification"@.len());
    assert("director"@.len() != "genre"@.len());
    assert("director"@.len() != "studio"@.len());
    assert("director"@.len() != "country"@.len());
    assert("credits"@.len() != "title"@.len());
    assert("credits"@.len() != "originaltitle"@.len());
    assert("credits"@.len() != "sorttitle"@.len());
    assert("credits"@.len() != "year"@.len());
    assert("credits"@.len() != "premiered"@.len());
    assert("credits"@.len() != "releasedate"@.len());
    assert("credits"@[0] != "tagline"@[0]);
    assert("credits"@.len() != "plot"@.len());
    assert("credits"@[0] != "outline"@[0]);
    assert("credits"@[0] != "runtime"@[0]);
    assert("credits"@.len() != "mpaa"@.len());
    assert("credits"@.len() != "certification"@.len());
    assert("credits"@.len() != "genre"@.len());
    assert("credits"@.len() != "studio"@.len());
    assert("credits"@[1] != "country"@[1]);
    assert("credits"@.len() != "director"@.len());
    assert("writer"@.len() != "title"@.len());
    assert("writer"@.len() != "originaltitle"@.len());
    assert("writer"@.len() != "sorttitle"@.len());
    assert("writer"@.len() != "year"@.len());
    assert("writer"@.len() != "premiered"@.len());
    assert("writer"@.len() != "releasedate"@.len());
    assert("writer"@.len() != "tagline"@.len());
    assert("writer"@.len() != "plot"@.len());
    assert("writer"@.len() != "outline"@.len());
    assert("writer"@.len() != "runtime"@.len());
    assert("writer"@.len() != "mpaa"@.len());
    assert("writer"@.len() != "certification"@.len());
    assert("writer"@.len() != "genre"@.len());
    assert("writer"@[0] != "studio"@[0]);
    assert("writer"@.len() != "country"@.len());
    assert("writer"@.len() != "director"@.len());
    assert("writer"@.len() != "credits"@.len());
    assert("tag"@.len() != "title"@.len());
    assert("tag"@.len() != "originaltitle"@.len());
    assert("tag"@.len() != "sorttitle"@.len());
    assert("tag"@.len() != "year"@.len());
    assert("tag"@.len() != "premiered"@.len());
    assert("tag"@.len() != "releasedate"@.len());
    assert("tag"@.len() != "tagline"@.len());
    assert("tag"@.len() != "plot"@.len());
    assert("tag"@.len() != "outline"@.len());
    assert("tag"@.len() != "runtime"@.len());
    assert("tag"@.len() != "mpaa"@.len());
    assert("tag"@.len() != "certification"@.len());
    assert("tag"@.len() != "genre"@.len());
    assert("tag"@.len() != "studio"@.len());
    assert("tag"@.len() != "country"@.len());
    assert("tag"@.len() != "director"@.len());
    assert("tag"@.len() != "credits"@.len());
    assert("tag"@.len() != "writer"@.len());
    assert("season"@.len() != "title"@.len());
    assert("season"@.len() != "originaltitle"@.len());
    assert("season"@.len() != "sorttitle"@.len());
    assert("season"@.len() != "year"@.len());
    assert("season"@.len() != "premiered"@.len());
    assert("season"@.len() != "releasedate"@.len());
    assert("season"@.len() != "tagline"@.len());
    assert("season"@.len() != "plot"@.len());
    assert("season"@.len() != "outline"@.len());
    assert("season"@.len() != "runtime"@.len());
    assert("season"@.len() != "mpaa"@.len());
    assert("season"@.len() != "certification"@.len());
    assert("season"@.len() != "genre"@.len());
    assert("season"@[1] != "studio"@[1]);
    assert("season"@.len() != "country"@.len());
    assert("season"@.len() != "director"@.len());
    assert("season"@.len() != "credits"@.len());
    assert("season"@[0] != "writer"@[0]);
    assert("season"@.len() != "tag"@.len());
    assert("season"@.len() != "showtitle"@.len());
    assert("episode"@.len() != "title"@.len());
    assert("episode"@.len() != "originaltitle"@.len());
    assert("episode"@.len() != "sorttitle"@.len());
    assert("episode"@.len() != "year"@.len());
    assert("episode"@.len() != "premiered"@.len());
    assert("episode"@.len() != "releasedate"@.len());
    assert("episode"@[0] != "tagline"@[0]);
    assert("episode"@.len() != "plot"@.len());
    assert("episode"@[0] != "outline"@[0]);
    assert("episode"@[0] != "runtime"@[0]);
    assert("episode"@.len() != "mpaa"@.len());
    assert("episode"@.len() != "certification"@.len());
    assert("episode"@.len() != "genre"@.len());
    assert("episode"@.len() != "studio"@.len());
    assert("episode"@[0] != "country"@[0]);
    assert("episode"@.len() != "director"@.len());
    assert("episode"@[0] != "credits"@[0]);
    assert("episode"@.len() != "writer"@.len());
    assert("episode"@.len() != "tag"@.len());
    assert("episode"@.len() != "showtitle"@.len());
    assert("episode"@.len() != "season"@.len());
    assert("votes"@[0] != "title"@[0]);
    assert("votes"@.len() != "originaltitle"@.len());
    assert("votes"@.len() != "sorttitle"@.len());
    assert("votes"@.len() != "year"@.len());
    assert("votes"@.len() != "premiered"@.len());
    assert("votes"@.len() != "releasedate"@.len());
    assert("votes"@.len() != "tagline"@.len());
    assert("votes"@.len() != "plot"@.len());
    assert("votes"@.len() != "outline"@.len());
    assert("votes"@.len() != "runtime"@.len());
    assert("votes"@.len() != "mpaa"@.len());
    assert("votes"@.len() != "certification"@.len());
    assert("votes"@[0] != "genre"@[0]);
    assert("votes"@.len() != "studio"@.len());
    assert("votes"@.len() != "country"@.len());
    assert("votes"@.len() != "director"@.len());
    assert("votes"@.len() != "credits"@.len());
    assert("votes"@.len() != "writer"@.len());
    assert("votes"@.len() != "tag"@.len());
    assert("votes"@.len() != "showtitle"@.len());
    assert("votes"@.len() != "season"@.len());
    assert("votes"@.len() != "episode"@.len());
    assert("votes"@[0] != "aired"@[0]);
    assert("votes"@.len() != "trailer"@.len());
}

} // verus!
