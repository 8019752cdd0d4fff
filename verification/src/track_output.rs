//! What the output files of a rip are: the path of each track in each
//! format, the tracks whose paths coincide, and the Vorbis comments of a
//! FLAC file.
use vstd::prelude::*;

use crate::audio::PcmTrackData;
use crate::cue::{ascii_upper, push_upper};
use crate::naming::{
    build_track_relative_path, path_collisions, detect_track_path_collisions, scheme_path,
    collisions_view, track_paths_view, NamingContext,
};
use crate::runtime_cue::{format_descriptor, output_format_descriptor};
use crate::tags::TagMap;
use crate::text::{chars_of, dec, dec_int, push_dec, push_dec_i64, str_eq};
use crate::{OutputFormat, Settings};

verus! {

/// A ripped track to write out.
#[derive(Debug)]
pub struct TrackOutputInput {
    pub track_number: u32,
    pub track_meta: TagMap,
    pub pcm: PcmTrackData,
}

// ---------------------------------------------------------------------------
// Vorbis comments
// ---------------------------------------------------------------------------

/// The Vorbis comment name of a tag key: the usual names of track, disc and
/// artist keys, any other key in upper case.
pub open spec fn canonical_vorbis_key(k: Seq<char>) -> Seq<char> {
    if k == "track"@ || k == "tracknumber"@ {
        "TRACKNUMBER"@
    } else if k == "disc"@ || k == "discnumber"@ {
        "DISCNUMBER"@
    } else if k == "totaldiscs"@ || k == "disctotal"@ {
        "DISCTOTAL"@
    } else if k == "album_artist"@ {
        "ALBUMARTIST"@
    } else if k == "musicbrainz_albumid"@ {
        "MUSICBRAINZ_ALBUMID"@
    } else if k == "musicbrainz_discid"@ {
        "MUSICBRAINZ_DISCID"@
    } else {
        ascii_upper(k)
    }
}

pub fn canonical_flac_vorbis_key(input: &str) -> (r: String)
    ensures
        r@ == canonical_vorbis_key(input@),
{
    if str_eq(input, "track") || str_eq(input, "tracknumber") {
        String::from_str("TRACKNUMBER")
    } else if str_eq(input, "disc") || str_eq(input, "discnumber") {
        String::from_str("DISCNUMBER")
    } else if str_eq(input, "totaldiscs") || str_eq(input, "disctotal") {
        String::from_str("DISCTOTAL")
    } else if str_eq(input, "album_artist") {
        String::from_str("ALBUMARTIST")
    } else if str_eq(input, "musicbrainz_albumid") {
        String::from_str("MUSICBRAINZ_ALBUMID")
    } else if str_eq(input, "musicbrainz_discid") {
        String::from_str("MUSICBRAINZ_DISCID")
    } else {
        let cs = chars_of(input);
        let mut out = String::new();
        push_upper(&mut out, cs.as_slice());
        assert(out@ == Seq::<char>::empty() + ascii_upper(input@));
        out
    }
}

/// The value of the last entry of `ps` with a non-empty value whose key
/// names the comment `key`.
pub open spec fn last_comment(ps: Seq<(Seq<char>, Seq<char>)>, key: Seq<char>) -> Option<Seq<char>>
    decreases ps.len(),
{
    if ps.len() == 0 {
        None
    } else if ps.last().1.len() > 0 && canonical_vorbis_key(ps.last().0) == key {
        Some(ps.last().1)
    } else {
        last_comment(ps.drop_last(), key)
    }
}

/// The Vorbis comment `key` of a track's FLAC file: the track's tags over the
/// album's, then the track number and the disc number and total (when set)
/// where no tag gives them.
pub open spec fn flac_comment(
    discnumber: i32,
    totaldiscs: i32,
    album: Seq<(Seq<char>, Seq<char>)>,
    track_number: u32,
    track: Seq<(Seq<char>, Seq<char>)>,
    key: Seq<char>,
) -> Option<Seq<char>> {
    match last_comment(track, key) {
        Some(v) => Some(v),
        None => match last_comment(album, key) {
            Some(v) => Some(v),
            None => if key == "TRACKNUMBER"@ {
                Some(dec(track_number as nat))
            } else if key == "DISCNUMBER"@ && discnumber > 0 {
                Some(dec_int(discnumber as int))
            } else if key == "DISCTOTAL"@ && totaldiscs > 0 {
                Some(dec_int(totaldiscs as int))
            } else {
                None
            },
        },
    }
}

/// Adds the comments of `tags` (non-empty values, in key order) to `m`.
fn add_comments(m: &mut TagMap, tags: &TagMap)
    ensures
        forall|k: Seq<char>| #[trigger] final(m).get_spec(k) == match last_comment(tags.pairs(), k) {
            Some(v) => Some(v),
            None => old(m).get_spec(k),
        },
{
    let ghost start = *m;
    let mut i: usize = 0;
    assert(tags.pairs().take(0) == Seq::<(Seq<char>, Seq<char>)>::empty());
    while i < tags.len()
        invariant
            i <= tags.pairs().len(),
            forall|k: Seq<char>| #[trigger] m.get_spec(k) == match last_comment(
                tags.pairs().take(i as int),
                k,
            ) {
                Some(v) => Some(v),
                None => start.get_spec(k),
            },
        decreases tags.pairs().len() - i,
    {
        let ghost before = *m;
        assert(tags.pairs().take(i + 1).drop_last() == tags.pairs().take(i as int));
        assert(tags.pairs().take(i + 1).last() == tags.pairs()[i as int]);
        let value = tags.value_at(i);
        let vc = chars_of(value.as_str());
        if vc.len() > 0 {
            let key = canonical_flac_vorbis_key(tags.key_at(i).as_str());
            m.insert(key, crate::text::copy_str(value.as_str()));
        }
        i += 1;
    }
    assert(tags.pairs().take(tags.pairs().len() as int) == tags.pairs());
}

/// The Vorbis comments of a track's FLAC file.
pub fn build_flac_comment_map(settings: &Settings, album_meta: &TagMap, track: &TrackOutputInput) -> (r:
    TagMap)
    ensures
        forall|k: Seq<char>| #[trigger] r.get_spec(k) == flac_comment(
            settings.discnumber,
            settings.totaldiscs,
            album_meta.pairs(),
            track.track_number,
            track.track_meta.pairs(),
            k,
        ),
{
    let mut merged = TagMap::new();
    proof {
        assert forall|k: Seq<char>| #[trigger] merged.get_spec(k) == None::<Seq<char>> by {}
    }
    add_comments(&mut merged, album_meta);
    add_comments(&mut merged, &track.track_meta);
    proof {
        reveal_strlit("TRACKNUMBER");
        reveal_strlit("DISCNUMBER");
        reveal_strlit("DISCTOTAL");
    }
    if merged.get("TRACKNUMBER").is_none() {
        let mut v = String::new();
        push_dec(&mut v, track.track_number as u64);
        merged.insert(String::from_str("TRACKNUMBER"), v);
    }
    if settings.discnumber > 0 && merged.get("DISCNUMBER").is_none() {
        let mut v = String::new();
        push_dec_i64(&mut v, settings.discnumber as i64);
        merged.insert(String::from_str("DISCNUMBER"), v);
    }
    if settings.totaldiscs > 0 && merged.get("DISCTOTAL").is_none() {
        let mut v = String::new();
        push_dec_i64(&mut v, settings.totaldiscs as i64);
        merged.insert(String::from_str("DISCTOTAL"), v);
    }
    merged
}

// ---------------------------------------------------------------------------
// Output paths
// ---------------------------------------------------------------------------

/// Why the outputs of a format cannot be planned.
#[derive(Debug, Clone, PartialEq, Eq)]
pub enum TrackOutputPlanError {
    UnsupportedOutputFormat(OutputFormat),
    Naming(String),
}

/// An error as the format it concerns (when unsupported) and its naming message.
pub open spec fn plan_error_view(e: TrackOutputPlanError) -> (Option<OutputFormat>, Seq<char>) {
    match e {
        TrackOutputPlanError::UnsupportedOutputFormat(f) => (Some(f), Seq::empty()),
        TrackOutputPlanError::Naming(m) => (None, m@),
    }
}

/// The paths of tracks with tag maps `metas`, or the first track's naming error.
pub open spec fn track_paths_in(
    ctx: NamingContext,
    album: TagMap,
    metas: Seq<TagMap>,
    folder: Seq<char>,
    track_scheme: Seq<char>,
    suffix: Seq<char>,
    ext: Seq<char>,
) -> Result<Seq<Seq<char>>, Seq<char>>
    decreases metas.len(),
{
    if metas.len() == 0 {
        Ok(Seq::empty())
    } else {
        match track_paths_in(ctx, album, metas.drop_last(), folder, track_scheme, suffix, ext) {
            Err(e) => Err(e),
            Ok(ps) => match scheme_path(ctx, album, metas.last(), folder, track_scheme, suffix, ext) {
                Err(e) => Err(e),
                Ok(p) => Ok(ps.push(p)),
            },
        }
    }
}

/// The paths of the tracks in one format, or why there are none.
pub open spec fn format_paths(
    ctx: NamingContext,
    album: TagMap,
    metas: Seq<TagMap>,
    folder: Seq<char>,
    track_scheme: Seq<char>,
    fmt: OutputFormat,
) -> Result<Seq<Seq<char>>, (Option<OutputFormat>, Seq<char>)> {
    match format_descriptor(fmt) {
        None => Err((Some(fmt), Seq::empty())),
        Some((suffix, ext)) => match track_paths_in(ctx, album, metas, folder, track_scheme, suffix, ext) {
            Err(m) => Err((None, m)),
            Ok(ps) => Ok(ps),
        },
    }
}

proof fn lemma_track_paths_error_stays(
    ctx: NamingContext,
    album: TagMap,
    metas: Seq<TagMap>,
    folder: Seq<char>,
    track_scheme: Seq<char>,
    suffix: Seq<char>,
    ext: Seq<char>,
    j: int,
)
    requires
        0 <= j <= metas.len(),
        track_paths_in(ctx, album, metas.take(j), folder, track_scheme, suffix, ext) is Err,
    ensures
        track_paths_in(ctx, album, metas, folder, track_scheme, suffix, ext) == track_paths_in(
            ctx,
            album,
            metas.take(j),
            folder,
            track_scheme,
            suffix,
            ext,
        ),
    decreases metas.len(),
{
    if j == metas.len() {
        assert(metas.take(j) == metas);
    } else {
        assert(metas.drop_last().take(j) == metas.take(j));
        lemma_track_paths_error_stays(ctx, album, metas.drop_last(), folder, track_scheme, suffix, ext, j);
    }
}

/// The paths of one format's files, with the format's folder suffix and extension.
#[derive(Debug)]
pub struct FormatOutputPlan {
    pub format_suffix: &'static str,
    pub extension: &'static str,
    pub relative_paths: Vec<String>,
}

fn paths_for_format(
    ctx: &NamingContext,
    album_meta: &TagMap,
    metas: &Vec<&TagMap>,
    folder_scheme: &str,
    track_scheme: &str,
    fmt_kind: OutputFormat,
) -> (r: Result<FormatOutputPlan, TrackOutputPlanError>)
    ensures
        match r {
            Ok(plan) => format_paths(
                *ctx,
                *album_meta,
                metas@.map_values(|m: &TagMap| *m),
                folder_scheme@,
                track_scheme@,
                fmt_kind,
            ) == Ok::<Seq<Seq<char>>, (Option<OutputFormat>, Seq<char>)>(
                crate::text::strings_view(plan.relative_paths@),
            ) && format_descriptor(fmt_kind) == Some((plan.format_suffix@, plan.extension@)),
            Err(e) => format_paths(
                *ctx,
                *album_meta,
                metas@.map_values(|m: &TagMap| *m),
                folder_scheme@,
                track_scheme@,
                fmt_kind,
            ) == Err::<Seq<Seq<char>>, (Option<OutputFormat>, Seq<char>)>(plan_error_view(e)),
        },
{
    let ghost ms = metas@.map_values(|m: &TagMap| *m);
    let (format_suffix, extension) = match output_format_descriptor(fmt_kind) {
        Some(d) => d,
        None => {
            return Err(TrackOutputPlanError::UnsupportedOutputFormat(fmt_kind));
        },
    };
    assert(format_descriptor(fmt_kind) == Some((format_suffix@, extension@)));
    let mut paths: Vec<String> = Vec::new();
    let mut i: usize = 0;
    assert(ms.take(0) == Seq::<TagMap>::empty());
    assert(crate::text::strings_view(paths@) == Seq::<Seq<char>>::empty());
    while i < metas.len()
        invariant
            i <= metas@.len(),
            ms == metas@.map_values(|m: &TagMap| *m),
            format_descriptor(fmt_kind) == Some((format_suffix@, extension@)),
            track_paths_in(*ctx, *album_meta, ms.take(i as int), folder_scheme@, track_scheme@,
                format_suffix@, extension@) == Ok::<Seq<Seq<char>>, Seq<char>>(
                crate::text::strings_view(paths@),
            ),
        decreases metas.len() - i,
    {
        assert(ms.take(i + 1).drop_last() == ms.take(i as int));
        assert(ms.take(i + 1).last() == *metas@[i as int]);
        match build_track_relative_path(
            ctx,
            album_meta,
            metas[i],
            folder_scheme,
            track_scheme,
            format_suffix,
            extension,
        ) {
            Ok(p) => {
                let ghost before = paths@;
                paths.push(p);
                assert(crate::text::strings_view(paths@) == crate::text::strings_view(before).push(p@));
            },
            Err(m) => {
                proof {
                    assert(track_paths_in(*ctx, *album_meta, ms.take(i + 1), folder_scheme@,
                        track_scheme@, format_suffix@, extension@) == Err::<Seq<Seq<char>>, Seq<char>>(m@));
                    lemma_track_paths_error_stays(*ctx, *album_meta, ms, folder_scheme@,
                        track_scheme@, format_suffix@, extension@, i + 1);
                    assert(format_descriptor(fmt_kind) == Some((format_suffix@, extension@)));
                    assert(format_paths(*ctx, *album_meta, ms, folder_scheme@, track_scheme@, fmt_kind)
                        == Err::<Seq<Seq<char>>, (Option<OutputFormat>, Seq<char>)>((None, m@)));
                }
                return Err(TrackOutputPlanError::Naming(m));
            },
        }
        i += 1;
    }
    assert(ms.take(metas@.len() as int) == ms);
    Ok(FormatOutputPlan { format_suffix, extension, relative_paths: paths })
}

/// The naming context of a rip: its sanitation and how many tracks it names.
pub open spec fn naming_context_of(settings: Settings, naming_track_count: usize) -> NamingContext {
    NamingContext { sanitize_method: settings.sanitize_method, nb_tracks: naming_track_count }
}

/// The relative paths of the tracks' files in one output format.
pub fn plan_track_outputs_for_format(
    settings: &Settings,
    naming_track_count: usize,
    album_meta: &TagMap,
    tracks: &[TrackOutputInput],
    fmt_kind: OutputFormat,
) -> (r: Result<FormatOutputPlan, TrackOutputPlanError>)
    ensures
        match r {
            Ok(plan) => format_paths(
                naming_context_of(*settings, naming_track_count),
                *album_meta,
                tracks@.map_values(|t: TrackOutputInput| t.track_meta),
                settings.folder_name_scheme@,
                settings.track_name_scheme@,
                fmt_kind,
            ) == Ok::<Seq<Seq<char>>, (Option<OutputFormat>, Seq<char>)>(
                crate::text::strings_view(plan.relative_paths@),
            ) && format_descriptor(fmt_kind) == Some((plan.format_suffix@, plan.extension@)),
            Err(e) => format_paths(
                naming_context_of(*settings, naming_track_count),
                *album_meta,
                tracks@.map_values(|t: TrackOutputInput| t.track_meta),
                settings.folder_name_scheme@,
                settings.track_name_scheme@,
                fmt_kind,
            ) == Err::<Seq<Seq<char>>, (Option<OutputFormat>, Seq<char>)>(plan_error_view(e)),
        },
{
    let ctx = NamingContext { sanitize_method: settings.sanitize_method, nb_tracks: naming_track_count };
    let mut metas: Vec<&TagMap> = Vec::new();
    let mut i: usize = 0;
    while i < tracks.len()
        invariant
            i <= tracks@.len(),
            metas@.map_values(|m: &TagMap| *m) == tracks@.take(i as int).map_values(
                |t: TrackOutputInput| t.track_meta,
            ),
        decreases tracks.len() - i,
    {
        let ghost before = metas@;
        metas.push(&tracks[i].track_meta);
        assert(metas@.map_values(|m: &TagMap| *m) =~= before.map_values(|m: &TagMap| *m).push(
            tracks@[i as int].track_meta,
        ));
        assert(tracks@.take(i + 1).map_values(|t: TrackOutputInput| t.track_meta) =~= tracks@.take(
            i as int,
        ).map_values(|t: TrackOutputInput| t.track_meta).push(tracks@[i as int].track_meta));
        i += 1;
    }
    assert(tracks@.take(tracks@.len() as int) == tracks@);
    paths_for_format(
        &ctx,
        album_meta,
        &metas,
        settings.folder_name_scheme.as_str(),
        settings.track_name_scheme.as_str(),
        fmt_kind,
    )
}

proof fn lemma_track_paths_len(
    ctx: NamingContext,
    album: TagMap,
    metas: Seq<TagMap>,
    folder: Seq<char>,
    track_scheme: Seq<char>,
    suffix: Seq<char>,
    ext: Seq<char>,
)
    ensures
        track_paths_in(ctx, album, metas, folder, track_scheme, suffix, ext) matches Ok(ps) ==> ps.len()
            == metas.len(),
    decreases metas.len(),
{
    if metas.len() > 0 {
        lemma_track_paths_len(ctx, album, metas.drop_last(), folder, track_scheme, suffix, ext);
    }
}

/// Each path with the number of its track.
pub open spec fn numbered_paths(tracks: Seq<(u32, TagMap)>, ps: Seq<Seq<char>>) -> Seq<(u32, Seq<char>)> {
    Seq::new(ps.len(), |i: int| (tracks[i].0, ps[i]))
}

/// The tracks whose files coincide, format after format, or the first format
/// whose paths cannot be made.
pub open spec fn collisions_for_formats(
    ctx: NamingContext,
    album: TagMap,
    tracks: Seq<(u32, TagMap)>,
    folder: Seq<char>,
    track_scheme: Seq<char>,
    fmts: Seq<OutputFormat>,
) -> Result<Seq<(u32, u32, Seq<char>)>, (Option<OutputFormat>, Seq<char>)>
    decreases fmts.len(),
{
    if fmts.len() == 0 {
        Ok(Seq::empty())
    } else {
        match collisions_for_formats(ctx, album, tracks, folder, track_scheme, fmts.drop_last()) {
            Err(e) => Err(e),
            Ok(c) => match format_paths(
                ctx,
                album,
                tracks.map_values(|t: (u32, TagMap)| t.1),
                folder,
                track_scheme,
                fmts.last(),
            ) {
                Err(e) => Err(e),
                Ok(ps) => Ok(c + path_collisions(numbered_paths(tracks, ps))),
            },
        }
    }
}

proof fn lemma_collisions_error_stays(
    ctx: NamingContext,
    album: TagMap,
    tracks: Seq<(u32, TagMap)>,
    folder: Seq<char>,
    track_scheme: Seq<char>,
    fmts: Seq<OutputFormat>,
    j: int,
)
    requires
        0 <= j <= fmts.len(),
        collisions_for_formats(ctx, album, tracks, folder, track_scheme, fmts.take(j)) is Err,
    ensures
        collisions_for_formats(ctx, album, tracks, folder, track_scheme, fmts)
            == collisions_for_formats(ctx, album, tracks, folder, track_scheme, fmts.take(j)),
    decreases fmts.len(),
{
    if j == fmts.len() {
        assert(fmts.take(j) == fmts);
    } else {
        assert(fmts.drop_last().take(j) == fmts.take(j));
        lemma_collisions_error_stays(ctx, album, tracks, folder, track_scheme, fmts.drop_last(), j);
    }
}

/// The tracks whose output files would coincide (the first track with the
/// path, a later one, and the path), format after format; the paths of a
/// format that cannot be made are the error.
pub fn warn_track_path_collisions_for_formats(
    settings: &Settings,
    album_meta: &TagMap,
    tracks: &[(u32, TagMap)],
    naming_track_count: usize,
) -> (r: Result<Vec<(u32, u32, String)>, TrackOutputPlanError>)
    ensures
        match r {
            Ok(c) => collisions_for_formats(
                naming_context_of(*settings, naming_track_count),
                *album_meta,
                tracks@,
                settings.folder_name_scheme@,
                settings.track_name_scheme@,
                settings.outputs@,
            ) == Ok::<Seq<(u32, u32, Seq<char>)>, (Option<OutputFormat>, Seq<char>)>(collisions_view(c@)),
            Err(e) => collisions_for_formats(
                naming_context_of(*settings, naming_track_count),
                *album_meta,
                tracks@,
                settings.folder_name_scheme@,
                settings.track_name_scheme@,
                settings.outputs@,
            ) == Err::<Seq<(u32, u32, Seq<char>)>, (Option<OutputFormat>, Seq<char>)>(plan_error_view(e)),
        },
{
    let ctx = NamingContext { sanitize_method: settings.sanitize_method, nb_tracks: naming_track_count };
    let ghost gctx = naming_context_of(*settings, naming_track_count);
    let ghost fmts = settings.outputs@;
    let ghost metas_view = tracks@.map_values(|t: (u32, TagMap)| t.1);
    let mut metas: Vec<&TagMap> = Vec::new();
    let mut i: usize = 0;
    while i < tracks.len()
        invariant
            i <= tracks@.len(),
            metas@.map_values(|m: &TagMap| *m) == tracks@.take(i as int).map_values(
                |t: (u32, TagMap)| t.1,
            ),
        decreases tracks.len() - i,
    {
        let ghost before = metas@;
        metas.push(&tracks[i].1);
        assert(metas@.map_values(|m: &TagMap| *m) =~= before.map_values(|m: &TagMap| *m).push(
            tracks@[i as int].1,
        ));
        assert(tracks@.take(i + 1).map_values(|t: (u32, TagMap)| t.1) =~= tracks@.take(
            i as int,
        ).map_values(|t: (u32, TagMap)| t.1).push(tracks@[i as int].1));
        i += 1;
    }
    assert(tracks@.take(tracks@.len() as int) == tracks@);
    let mut out: Vec<(u32, u32, String)> = Vec::new();
    let mut f: usize = 0;
    assert(fmts.take(0) == Seq::<OutputFormat>::empty());
    assert(collisions_view(out@) == Seq::<(u32, u32, Seq<char>)>::empty());
    while f < settings.outputs.len()
        invariant
            f <= fmts.len(),
            fmts == settings.outputs@,
            gctx == ctx,
            gctx == naming_context_of(*settings, naming_track_count),
            metas@.map_values(|m: &TagMap| *m) == metas_view,
            metas_view == tracks@.map_values(|t: (u32, TagMap)| t.1),
            collisions_for_formats(gctx, *album_meta, tracks@, settings.folder_name_scheme@,
                settings.track_name_scheme@, fmts.take(f as int)) == Ok::<
                Seq<(u32, u32, Seq<char>)>,
                (Option<OutputFormat>, Seq<char>),
            >(collisions_view(out@)),
        decreases fmts.len() - f,
    {
        assert(fmts.take(f + 1).drop_last() == fmts.take(f as int));
        assert(fmts.take(f + 1).last() == fmts[f as int]);
        let plan = match paths_for_format(
            &ctx,
            album_meta,
            &metas,
            settings.folder_name_scheme.as_str(),
            settings.track_name_scheme.as_str(),
            settings.outputs[f],
        ) {
            Ok(p) => p,
            Err(e) => {
                proof {
                    assert(collisions_for_formats(gctx, *album_meta, tracks@,
                        settings.folder_name_scheme@, settings.track_name_scheme@, fmts.take(f + 1))
                        == Err::<Seq<(u32, u32, Seq<char>)>, (Option<OutputFormat>, Seq<char>)>(
                        plan_error_view(e)));
                    lemma_collisions_error_stays(gctx, *album_meta, tracks@,
                        settings.folder_name_scheme@, settings.track_name_scheme@, fmts, f + 1);
                }
                return Err(e);
            },
        };
        proof {
            let (suffix, ext) = format_descriptor(fmts[f as int])->0;
            lemma_track_paths_len(gctx, *album_meta, metas_view, settings.folder_name_scheme@,
                settings.track_name_scheme@, suffix, ext);
        }
        let ghost ps = crate::text::strings_view(plan.relative_paths@);
        assert(ps.len() == tracks@.len());
        let mut entries: Vec<(u32, String)> = Vec::new();
        let mut k: usize = 0;
        while k < plan.relative_paths.len()
            invariant
                k <= plan.relative_paths@.len(),
                ps == crate::text::strings_view(plan.relative_paths@),
                ps.len() == tracks@.len(),
                track_paths_view(entries@) == numbered_paths(tracks@, ps).take(k as int),
            decreases plan.relative_paths.len() - k,
        {
            let ghost before = entries@;
            let p = crate::text::copy_str(plan.relative_paths[k].as_str());
            entries.push((tracks[k].0, p));
            assert(track_paths_view(entries@) =~= track_paths_view(before).push((tracks@[k as int].0, p@)));
            assert(numbered_paths(tracks@, ps).take(k + 1) =~= numbered_paths(tracks@, ps).take(
                k as int,
            ).push((tracks@[k as int].0, ps[k as int])));
            k += 1;
        }
        assert(numbered_paths(tracks@, ps).take(ps.len() as int) == numbered_paths(tracks@, ps));
        let mut cols = detect_track_path_collisions(entries.as_slice());
        let ghost before_out = out@;
        let ghost cols_view = collisions_view(cols@);
        out.append(&mut cols);
        assert(collisions_view(out@) =~= collisions_view(before_out) + cols_view);
        f += 1;
    }
    assert(fmts.take(fmts.len() as int) == fmts);
    Ok(out)
}

// ---------------------------------------------------------------------------
// The files a rip writes
// ---------------------------------------------------------------------------

/// A file the output flow writes: its track and format, its path relative to
/// the output root, and that path below the root.
#[derive(Debug, Clone, PartialEq, Eq)]
pub struct TrackOutputFile {
    pub track_number: u32,
    pub output_format: OutputFormat,
    pub relative_path: String,
    pub absolute_path: String,
}

/// The files an output flow wrote, in the order it wrote them.
#[derive(Debug, Clone, PartialEq, Eq)]
pub struct TrackOutputFlowResult {
    pub written_files: Vec<TrackOutputFile>,
}

/// Why writing a rip's files stopped: a format without an encoder, a path
/// that cannot be named, or a file that could not be written, encoded,
/// processed or tagged.
#[derive(Debug, Clone, PartialEq, Eq)]
pub enum TrackOutputFlowError {
    UnsupportedOutputFormat(OutputFormat),
    Naming(String),
    Io(String),
    Tagging { output_format: OutputFormat, path: String, message: String },
    Encode { output_format: OutputFormat, path: String, message: String },
    Processing { output_format: OutputFormat, path: String, message: String },
}

/// The files of `tracks`, format after format and in each format track after
/// track, as track number, format and relative path; or the first format
/// whose paths cannot be made.
pub open spec fn planned_files(
    ctx: NamingContext,
    album: TagMap,
    tracks: Seq<TrackOutputInput>,
    folder: Seq<char>,
    track_scheme: Seq<char>,
    fmts: Seq<OutputFormat>,
) -> Result<Seq<(u32, OutputFormat, Seq<char>)>, (Option<OutputFormat>, Seq<char>)>
    decreases fmts.len(),
{
    if fmts.len() == 0 {
        Ok(Seq::empty())
    } else {
        match planned_files(ctx, album, tracks, folder, track_scheme, fmts.drop_last()) {
            Err(e) => Err(e),
            Ok(fs) => match format_paths(
                ctx,
                album,
                tracks.map_values(|t: TrackOutputInput| t.track_meta),
                folder,
                track_scheme,
                fmts.last(),
            ) {
                Err(e) => Err(e),
                Ok(ps) => Ok(
                    fs + Seq::new(ps.len(), |i: int| (tracks[i].track_number, fmts.last(), ps[i])),
                ),
            },
        }
    }
}

proof fn lemma_planned_error_stays(
    ctx: NamingContext,
    album: TagMap,
    tracks: Seq<TrackOutputInput>,
    folder: Seq<char>,
    track_scheme: Seq<char>,
    fmts: Seq<OutputFormat>,
    j: int,
)
    requires
        0 <= j <= fmts.len(),
        planned_files(ctx, album, tracks, folder, track_scheme, fmts.take(j)) is Err,
    ensures
        planned_files(ctx, album, tracks, folder, track_scheme, fmts) == planned_files(
            ctx,
            album,
            tracks,
            folder,
            track_scheme,
            fmts.take(j),
        ),
    decreases fmts.len(),
{
    if j == fmts.len() {
        assert(fmts.take(j) == fmts);
    } else {
        assert(fmts.drop_last().take(j) == fmts.take(j));
        lemma_planned_error_stays(ctx, album, tracks, folder, track_scheme, fmts.drop_last(), j);
    }
}

/// The layout of the files an output flow writes: when every format's paths
/// can be made, there is one file per format and track, formats in turn and
/// tracks in order within each, so the file at `k * n + i` (`n` tracks) is
/// track `i` in format `k`, at the path the schemes give it in that format.
pub proof fn law_written_files_layout(
    ctx: NamingContext,
    album: TagMap,
    tracks: Seq<TrackOutputInput>,
    folder: Seq<char>,
    track_scheme: Seq<char>,
    fmts: Seq<OutputFormat>,
    k: int,
    i: int,
)
    requires
        planned_files(ctx, album, tracks, folder, track_scheme, fmts) is Ok,
        0 <= k < fmts.len(),
        0 <= i < tracks.len(),
    ensures
        ({
            let fs = planned_files(ctx, album, tracks, folder, track_scheme, fmts)->Ok_0;
            let metas = tracks.map_values(|t: TrackOutputInput| t.track_meta);
            &&& fs.len() == fmts.len() * tracks.len()
            &&& format_paths(ctx, album, metas, folder, track_scheme, fmts[k]) matches Ok(ps) && fs[k
                * tracks.len() + i] == (tracks[i].track_number, fmts[k], ps[i])
        }),
    decreases fmts.len(),
{
    let n = tracks.len();
    let m = fmts.len();
    let metas = tracks.map_values(|t: TrackOutputInput| t.track_meta);
    let prev = planned_files(ctx, album, tracks, folder, track_scheme, fmts.drop_last());
    assert(prev is Ok);
    let fs0 = prev->Ok_0;
    let ps = format_paths(ctx, album, metas, folder, track_scheme, fmts.last())->Ok_0;
    let (suffix, ext) = format_descriptor(fmts.last())->0;
    lemma_track_paths_len(ctx, album, metas, folder, track_scheme, suffix, ext);
    assert(ps.len() == n);
    if m == 1 {
        assert(fs0.len() == 0);
    } else {
        law_written_files_layout(ctx, album, tracks, folder, track_scheme, fmts.drop_last(), 0, i);
        assert(fs0.len() == (m - 1) * n);
    }
    assert((m - 1) * n + n == m * n) by (nonlinear_arith);
    if k < m - 1 {
        law_written_files_layout(ctx, album, tracks, folder, track_scheme, fmts.drop_last(), k, i);
        assert(fmts.drop_last()[k] == fmts[k]);
        assert(k * n + i < (m - 1) * n) by (nonlinear_arith)
            requires
                0 <= k < m - 1,
                0 <= i < n,
        ;
    } else {
        assert(k * n + i == (m - 1) * n + i);
    }
}

/// Written files as track number, format and relative path.
pub open spec fn files_view(v: Seq<TrackOutputFile>) -> Seq<(u32, OutputFormat, Seq<char>)> {
    v.map_values(|f: TrackOutputFile| (f.track_number, f.output_format, f.relative_path@))
}

/// A relative path that names a place below a directory on every platform:
/// it starts with no separator and names no drive.
pub open spec fn plain_relative(rel: Seq<char>) -> bool {
    (rel.len() == 0 || (rel[0] != '/' && rel[0] != '\\')) && !rel.contains(':')
}

/// `p` is `root`, then at most one separator, then `rel`.
pub open spec fn joined_below(root: Seq<char>, rel: Seq<char>, p: Seq<char>) -> bool {
    &&& root.len() + rel.len() <= p.len() <= root.len() + rel.len() + 1
    &&& p.take(root.len() as int) == root
    &&& p.skip(p.len() - rel.len()) == rel
}

/// What joining `rel` to `root` gives where the platform's rules agree: a
/// plain relative path below a root that is not a Windows device or
/// verbatim path.
pub open spec fn path_joined(root: Seq<char>, rel: Seq<char>, p: Seq<char>) -> bool {
    plain_relative(rel) && (root.len() == 0 || root[0] != '\\') ==> joined_below(root, rel, p)
}

/// `std::path::Path::join`, as text. std documents that a relative path is
/// adjoined to the directory, with a separator where the directory does not
/// end in one; that is stated for paths whose reading no platform changes.
/// How an absolute path, a drive or a verbatim root is joined depends on the
/// platform and is left unsaid.
#[verifier::external_body]
fn join_path(root: &str, rel: &str) -> (r: String)
    ensures
        path_joined(root@, rel@, r@),
{
    std::path::Path::new(root).join(rel).to_string_lossy().into_owned()
}

/// The files the output flow writes when every write succeeds: format after
/// format, each track's file by its path relative to the output root and that
/// path joined to `output_root`; or the error of the first format whose paths
/// cannot be made.
pub fn plan_written_files(
    settings: &Settings,
    naming_track_count: usize,
    album_meta: &TagMap,
    tracks: &[TrackOutputInput],
    output_root: &str,
) -> (r: Result<TrackOutputFlowResult, TrackOutputFlowError>)
    ensures
        match r {
            Ok(res) => planned_files(
                naming_context_of(*settings, naming_track_count),
                *album_meta,
                tracks@,
                settings.folder_name_scheme@,
                settings.track_name_scheme@,
                settings.outputs@,
            ) == Ok::<Seq<(u32, OutputFormat, Seq<char>)>, (Option<OutputFormat>, Seq<char>)>(
                files_view(res.written_files@),
            ) && forall|i: int|
                0 <= i < res.written_files@.len() ==> path_joined(
                    output_root@,
                    (#[trigger] res.written_files@[i]).relative_path@,
                    res.written_files@[i].absolute_path@,
                ),
            Err(TrackOutputFlowError::UnsupportedOutputFormat(f)) => planned_files(
                naming_context_of(*settings, naming_track_count),
                *album_meta,
                tracks@,
                settings.folder_name_scheme@,
                settings.track_name_scheme@,
                settings.outputs@,
            ) == Err::<Seq<(u32, OutputFormat, Seq<char>)>, (Option<OutputFormat>, Seq<char>)>(
                (Some(f), Seq::empty()),
            ),
            Err(TrackOutputFlowError::Naming(m)) => planned_files(
                naming_context_of(*settings, naming_track_count),
                *album_meta,
                tracks@,
                settings.folder_name_scheme@,
                settings.track_name_scheme@,
                settings.outputs@,
            ) == Err::<Seq<(u32, OutputFormat, Seq<char>)>, (Option<OutputFormat>, Seq<char>)>(
                (None, m@),
            ),
            Err(_) => false,
        },
{
    let ghost gctx = naming_context_of(*settings, naming_track_count);
    let ghost fmts = settings.outputs@;
    let ghost metas = tracks@.map_values(|t: TrackOutputInput| t.track_meta);
    let mut out: Vec<TrackOutputFile> = Vec::new();
    let mut f: usize = 0;
    assert(fmts.take(0) == Seq::<OutputFormat>::empty());
    assert(files_view(out@) =~= Seq::<(u32, OutputFormat, Seq<char>)>::empty());
    while f < settings.outputs.len()
        invariant
            f <= fmts.len(),
            fmts == settings.outputs@,
            gctx == naming_context_of(*settings, naming_track_count),
            metas == tracks@.map_values(|t: TrackOutputInput| t.track_meta),
            planned_files(gctx, *album_meta, tracks@, settings.folder_name_scheme@,
                settings.track_name_scheme@, fmts.take(f as int)) == Ok::<
                Seq<(u32, OutputFormat, Seq<char>)>,
                (Option<OutputFormat>, Seq<char>),
            >(files_view(out@)),
            forall|i: int|
                0 <= i < out@.len() ==> path_joined(
                    output_root@,
                    (#[trigger] out@[i]).relative_path@,
                    out@[i].absolute_path@,
                ),
        decreases fmts.len() - f,
    {
        assert(fmts.take(f + 1).drop_last() == fmts.take(f as int));
        assert(fmts.take(f + 1).last() == fmts[f as int]);
        let fmt = settings.outputs[f];
        let plan = match plan_track_outputs_for_format(settings, naming_track_count, album_meta, tracks, fmt) {
            Ok(p) => p,
            Err(e) => {
                proof {
                    lemma_planned_error_stays(gctx, *album_meta, tracks@, settings.folder_name_scheme@,
                        settings.track_name_scheme@, fmts, f + 1);
                }
                return match e {
                    TrackOutputPlanError::UnsupportedOutputFormat(g) => Err(
                        TrackOutputFlowError::UnsupportedOutputFormat(g),
                    ),
                    TrackOutputPlanError::Naming(m) => Err(TrackOutputFlowError::Naming(m)),
                };
            },
        };
        proof {
            let (suffix, ext) = format_descriptor(fmt)->0;
            lemma_track_paths_len(gctx, *album_meta, metas, settings.folder_name_scheme@,
                settings.track_name_scheme@, suffix, ext);
        }
        let ghost ps = crate::text::strings_view(plan.relative_paths@);
        let ghost base = files_view(out@);
        let ghost added = Seq::new(ps.len(), |i: int| (tracks@[i].track_number, fmt, ps[i]));
        assert(ps.len() == tracks@.len());
        let mut k: usize = 0;
        while k < plan.relative_paths.len()
            invariant
                k <= plan.relative_paths@.len(),
                ps == crate::text::strings_view(plan.relative_paths@),
                ps.len() == tracks@.len(),
                added == Seq::new(ps.len(), |i: int| (tracks@[i].track_number, fmt, ps[i])),
                files_view(out@) == base + added.take(k as int),
                forall|i: int|
                    0 <= i < out@.len() ==> path_joined(
                        output_root@,
                        (#[trigger] out@[i]).relative_path@,
                        out@[i].absolute_path@,
                    ),
            decreases plan.relative_paths.len() - k,
        {
            let rel = crate::text::copy_str(plan.relative_paths[k].as_str());
            let abs = join_path(output_root, plan.relative_paths[k].as_str());
            let ghost before = out@;
            out.push(
                TrackOutputFile {
                    track_number: tracks[k].track_number,
                    output_format: fmt,
                    relative_path: rel,
                    absolute_path: abs,
                },
            );
            assert(files_view(out@) =~= files_view(before).push(
                (tracks@[k as int].track_number, fmt, ps[k as int]),
            ));
            assert(added.take(k + 1) =~= added.take(k as int).push(added[k as int]));
            k += 1;
        }
        assert(added.take(ps.len() as int) == added);
        f += 1;
    }
    assert(fmts.take(fmts.len() as int) == fmts);
    Ok(TrackOutputFlowResult { written_files: out })
}

} // verus!
