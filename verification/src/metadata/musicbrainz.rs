//! MusicBrainz: choosing the release and medium that match a disc and
//! turning them into album and track tags.
use vstd::prelude::*;

use crate::naming::trim;
use crate::text::{chars_of, copy_str, str_eq, trim_end_char, trim_end_matches_char};
use crate::{is_whitespace_char, ReleaseSelection};

verus! {

#[derive(Debug, Clone, PartialEq, Eq)]
pub struct MusicBrainzTrackMeta {
    pub mbid: Option<String>,
    pub title: String,
    pub artist: Option<String>,
}

#[derive(Debug, Clone, PartialEq, Eq)]
pub struct MusicBrainzReleaseMeta {
    pub musicbrainz_albumid: String,
    pub releasecomment: Option<String>,
    pub date: Option<String>,
    pub album: String,
    pub barcode: Option<String>,
    pub packaging: Option<String>,
    pub country: Option<String>,
    pub releasestatus: Option<String>,
    pub catalognumber: Option<String>,
    pub label: Option<String>,
    pub album_artist: Option<String>,
    pub discname: Option<String>,
    pub format: Option<String>,
    pub discnumber: Option<i32>,
    pub totaldiscs: i32,
    pub tracks: Vec<MusicBrainzTrackMeta>,
}

#[derive(Debug, Clone, PartialEq, Eq)]
pub struct ReleaseSummary {
    pub id: String,
    pub album: String,
    pub disambiguation: Option<String>,
    pub country: Option<String>,
    pub date: Option<String>,
    pub num_cds: i32,
}

#[derive(Debug, Clone, PartialEq, Eq)]
pub enum MusicBrainzError {
    MissingDiscid,
    Http(String),
    Parse(String),
    NotFound,
    MultipleReleases(Vec<ReleaseSummary>),
    InvalidReleaseIndex { requested: i32, available: i32 },
    ReleaseIdNotFound(String),
    InvalidDiscNumber { requested: i32, available: i32 },
}

// ---------------------------------------------------------------------------
// What the web service says about a disc
// ---------------------------------------------------------------------------

/// A credited artist: the credited name (may be empty), the artist's own
/// name, and the text joining it to the next credit.
#[derive(Debug, Clone, PartialEq, Eq)]
pub struct MbArtistCredit {
    pub name: String,
    pub artist_name: String,
    pub joinphrase: Option<String>,
}

#[derive(Debug, Clone, PartialEq, Eq)]
pub struct MbRecording {
    pub id: String,
    pub title: String,
    pub artist_credit: Option<Vec<MbArtistCredit>>,
}

#[derive(Debug, Clone, PartialEq, Eq)]
pub struct MbTrack {
    pub title: String,
    pub recording: Option<MbRecording>,
    pub artist_credit: Option<Vec<MbArtistCredit>>,
}

#[derive(Debug, Clone, PartialEq, Eq)]
pub struct MbMedium {
    pub title: Option<String>,
    pub format: Option<String>,
    pub position: Option<u32>,
    pub disc_ids: Option<Vec<String>>,
    pub tracks: Option<Vec<MbTrack>>,
}

#[derive(Debug, Clone, PartialEq, Eq)]
pub struct MbLabelInfo {
    pub label_name: Option<String>,
    pub catalog_number: Option<String>,
}

/// A release, with its packaging and status already given by name.
#[derive(Debug, Clone, PartialEq, Eq)]
pub struct MbRelease {
    pub id: String,
    pub title: String,
    pub disambiguation: Option<String>,
    pub date: Option<String>,
    pub barcode: Option<String>,
    pub packaging: Option<String>,
    pub country: Option<String>,
    pub status: Option<String>,
    pub artist_credit: Option<Vec<MbArtistCredit>>,
    pub label_info: Option<Vec<MbLabelInfo>>,
    pub media: Option<Vec<MbMedium>>,
}

pub open spec fn opt_chars(o: Option<String>) -> Option<Seq<char>> {
    match o {
        Some(s) => Some(s@),
        None => None,
    }
}

fn copy_opt(o: &Option<String>) -> (r: Option<String>)
    ensures
        opt_chars(r) == opt_chars(*o),
{
    match o {
        Some(s) => Some(copy_str(s.as_str())),
        None => None,
    }
}

// ---------------------------------------------------------------------------
// Requests
// ---------------------------------------------------------------------------

/// The web-service query for a disc identifier, asking for recordings,
/// artist credits and labels as JSON.
pub open spec fn discid_lookup_url(base_url: Seq<char>, discid: Seq<char>) -> Seq<char> {
    base_url + "/ws/2/discid/"@ + discid + "?inc=recordings%20artist-credits%20labels&fmt=json"@
}

/// Whether a disc identifier is missing (empty or only white space).
pub fn discid_is_blank(discid: &str) -> (r: bool)
    ensures
        r == (trim(discid@).len() == 0),
{
    let v = chars_of(discid);
    let mut i: usize = 0;
    assert(v@.skip(0) == v@);
    while i < v.len()
        invariant
            i <= v@.len(),
            v@ == discid@,
            crate::naming::trim_start(v@) == crate::naming::trim_start(v@.skip(i as int)),
            forall|j: int| 0 <= j < i ==> crate::text::is_space(#[trigger] v@[j]),
        decreases v.len() - i,
    {
        if !is_whitespace_char(v[i]) {
            assert(crate::naming::trim_start(v@.skip(i as int)) == v@.skip(i as int));
            proof {
                lemma_trim_end_keeps_non_space(v@.skip(i as int));
            }
            return false;
        }
        assert(v@.skip(i as int).drop_first() == v@.skip(i + 1));
        i += 1;
    }
    assert(v@.skip(i as int) =~= Seq::<char>::empty());
    true
}

proof fn lemma_trim_end_keeps_non_space(s: Seq<char>)
    requires
        s.len() > 0,
        !crate::text::is_space(s[0]),
    ensures
        crate::naming::trim_end(s).len() > 0,
    decreases s.len(),
{
    if s.len() > 1 && crate::text::is_space(s.last()) {
        lemma_trim_end_keeps_non_space(s.drop_last());
    }
}

// ---------------------------------------------------------------------------
// Choosing a release and a medium
// ---------------------------------------------------------------------------

pub open spec fn summary_of(r: MbRelease, s: ReleaseSummary) -> bool {
    &&& s.id@ == r.id@
    &&& s.album@ == r.title@
    &&& opt_chars(s.disambiguation) == opt_chars(r.disambiguation)
    &&& opt_chars(s.country) == opt_chars(r.country)
    &&& opt_chars(s.date) == opt_chars(r.date)
    &&& s.num_cds as int == match r.media {
        Some(m) => m@.len() as i32 as int,
        None => 0,
    }
}

fn release_summary(release: &MbRelease) -> (r: ReleaseSummary)
    ensures
        summary_of(*release, r),
{
    ReleaseSummary {
        id: copy_str(release.id.as_str()),
        album: copy_str(release.title.as_str()),
        disambiguation: copy_opt(&release.disambiguation),
        country: copy_opt(&release.country),
        date: copy_opt(&release.date),
        num_cds: match &release.media {
            Some(m) => m.len() as i32,
            None => 0,
        },
    }
}

/// Index of the first release with this identifier.
pub open spec fn release_with_id(rs: Seq<MbRelease>, id: Seq<char>, from: int) -> Option<int>
    decreases rs.len() - from,
{
    if from < 0 || from >= rs.len() {
        None
    } else if rs[from].id@ == id {
        Some(from)
    } else {
        release_with_id(rs, id, from + 1)
    }
}

/// The release a selection picks: the first without one, the 1-based
/// `Index`, or the first with the given `Id`.
/// `Err(Some((requested, available)))` for an index out of range,
/// `Err(None)` for an unknown identifier.
pub open spec fn picked_release(rs: Seq<MbRelease>, sel: Option<ReleaseSelection>) -> Result<
    int,
    Option<(i32, i32)>,
> {
    match sel {
        None => Ok(0),
        Some(ReleaseSelection::Index(i)) => if i < 1 || i > rs.len() as i32 {
            Err(Some((i, rs.len() as i32)))
        } else {
            Ok(i - 1)
        },
        Some(ReleaseSelection::Id(id)) => match release_with_id(rs, id@, 0) {
            Some(k) => Ok(k),
            None => Err(None),
        },
    }
}

/// Picks a release among the non-empty `releases`.
pub fn pick_release(releases: &[MbRelease], release_selection: Option<&ReleaseSelection>) -> (r:
    Result<usize, MusicBrainzError>)
    requires
        releases@.len() > 0,
    ensures
        match picked_release(
            releases@,
            match release_selection {
                Some(s) => Some(*s),
                None => None,
            },
        ) {
            Ok(k) => r == Ok::<usize, MusicBrainzError>(k as usize),
            Err(Some((req, avail))) => r == Err::<usize, MusicBrainzError>(
                MusicBrainzError::InvalidReleaseIndex { requested: req, available: avail },
            ),
            Err(None) => r matches Err(MusicBrainzError::ReleaseIdNotFound(m)) && (
            release_selection matches Some(ReleaseSelection::Id(id)) && m@ == id@),
        },
{
    match release_selection {
        None => Ok(0),
        Some(ReleaseSelection::Index(i)) => {
            let n = releases.len() as i32;
            if *i < 1 || *i > n {
                Err(MusicBrainzError::InvalidReleaseIndex { requested: *i, available: n })
            } else {
                proof {
                    lemma_index_in_range(*i, releases@.len());
                }
                Ok((*i - 1) as usize)
            }
        },
        Some(ReleaseSelection::Id(id)) => {
            let mut k: usize = 0;
            while k < releases.len()
                invariant
                    k <= releases@.len(),
                    release_selection == Some(&ReleaseSelection::Id(*id)),
                    release_with_id(releases@, id@, 0) == release_with_id(releases@, id@, k as int),
                decreases releases.len() - k,
            {
                if str_eq(releases[k].id.as_str(), id.as_str()) {
                    assert(release_with_id(releases@, id@, k as int) == Some(k as int));
                    return Ok(k);
                }
                k += 1;
            }
            Err(MusicBrainzError::ReleaseIdNotFound(copy_str(id.as_str())))
        },
    }
}

/// A 1-based number no larger than a length, read as `i32`, is in range.
proof fn lemma_index_in_range(i: i32, len: nat)
    requires
        1 <= i,
        i <= len as i32,
    ensures
        i <= len,
{
    if len <= 0x7fff_ffff {
        assert(len as i32 == len);
    }
}

/// Whether one of the medium's discs has this identifier.
pub open spec fn medium_lists_discid(m: MbMedium, discid: Seq<char>) -> bool {
    match m.disc_ids {
        Some(ids) => exists|i: int| 0 <= i < ids@.len() && (#[trigger] ids@[i])@ == discid,
        None => false,
    }
}

pub fn medium_has_discid(medium: &MbMedium, discid: &str) -> (r: bool)
    ensures
        r == medium_lists_discid(*medium, discid@),
{
    match &medium.disc_ids {
        None => false,
        Some(ids) => {
            let mut i: usize = 0;
            while i < ids.len()
                invariant
                    i <= ids@.len(),
                    medium.disc_ids == Some(*ids),
                    forall|j: int| 0 <= j < i ==> (#[trigger] ids@[j])@ != discid@,
                decreases ids.len() - i,
            {
                if str_eq(ids[i].as_str(), discid) {
                    assert(ids@[i as int]@ == discid@);
                    assert(exists|j: int| 0 <= j < ids@.len() && (#[trigger] ids@[j])@ == discid@);
                    assert(medium.disc_ids matches Some(v) && v@ == ids@);
                    return true;
                }
                i += 1;
            }
            false
        },
    }
}

/// Index of the first medium listing the disc identifier.
pub open spec fn medium_with_discid(media: Seq<MbMedium>, discid: Seq<char>, from: int) -> Option<int>
    decreases media.len() - from,
{
    if from < 0 || from >= media.len() {
        None
    } else if medium_lists_discid(media[from], discid) {
        Some(from)
    } else {
        medium_with_discid(media, discid, from + 1)
    }
}

/// The medium of a release that holds the disc, with its disc number when
/// known: an explicit disc number wins, then the medium listing the disc
/// identifier, then the only medium; several media without a match give the
/// first medium and no number.
pub open spec fn picked_medium(media: Seq<MbMedium>, discid: Seq<char>, discnumber: i32) -> Result<
    (Option<int>, Option<i32>),
    (i32, i32),
> {
    if media.len() == 0 {
        Ok((None, None))
    } else if discnumber != 0 {
        if discnumber < 1 || discnumber > media.len() as i32 {
            Err((discnumber, media.len() as i32))
        } else {
            Ok((Some(discnumber - 1), Some(discnumber)))
        }
    } else {
        match medium_with_discid(media, discid, 0) {
            Some(k) => Ok((Some(k), Some((k + 1) as i32))),
            None => if media.len() == 1 {
                Ok((Some(0), Some(1i32)))
            } else {
                Ok((Some(0), None))
            },
        }
    }
}

proof fn lemma_medium_with_discid_bounds(media: Seq<MbMedium>, discid: Seq<char>, from: int)
    ensures
        medium_with_discid(media, discid, from) matches Some(k) ==> from <= k < media.len(),
    decreases media.len() - from,
{
    if 0 <= from < media.len() && !medium_lists_discid(media[from], discid) {
        lemma_medium_with_discid_bounds(media, discid, from + 1);
    }
}

proof fn lemma_picked_medium_bounds(media: Seq<MbMedium>, discid: Seq<char>, discnumber: i32)
    ensures
        picked_medium(media, discid, discnumber) matches Ok((Some(k), _)) ==> 0 <= k < media.len(),
{
    lemma_medium_with_discid_bounds(media, discid, 0);
    if media.len() > 0 && discnumber != 0 && 1 <= discnumber && discnumber <= media.len() as i32 {
        lemma_index_in_range(discnumber, media.len());
    }
}

/// Without a disc number, a release with a medium that lists the disc gets
/// the first such medium, numbered by its position from 1.
pub proof fn law_pick_medium_finds_listed_disc(media: Seq<MbMedium>, discid: Seq<char>, k: int)
    requires
        0 <= k < media.len(),
        media.len() < i32::MAX,
        medium_lists_discid(media[k], discid),
    ensures
        picked_medium(media, discid, 0) matches Ok((Some(j), Some(n))) && 0 <= j <= k
            && medium_lists_discid(media[j], discid) && (forall|i: int|
            0 <= i < j ==> !medium_lists_discid(#[trigger] media[i], discid)) && n == j + 1,
{
    lemma_first_listing(media, discid, 0, k);
}

proof fn lemma_first_listing(media: Seq<MbMedium>, discid: Seq<char>, from: int, k: int)
    requires
        0 <= from <= k < media.len(),
        medium_lists_discid(media[k], discid),
        forall|i: int| 0 <= i < from ==> !medium_lists_discid(#[trigger] media[i], discid),
    ensures
        medium_with_discid(media, discid, from) matches Some(j) && from <= j <= k
            && medium_lists_discid(media[j], discid) && forall|i: int|
            0 <= i < j ==> !medium_lists_discid(#[trigger] media[i], discid),
    decreases k - from,
{
    if !medium_lists_discid(media[from], discid) {
        lemma_first_listing(media, discid, from + 1, k);
    }
}

pub open spec fn pick_medium_result(r: Result<(Option<usize>, Option<i32>), MusicBrainzError>) -> Result<
    (Option<int>, Option<i32>),
    (i32, i32),
> {
    match r {
        Ok((m, n)) => Ok(
            (
                match m {
                    Some(k) => Some(k as int),
                    None => None,
                },
                n,
            ),
        ),
        Err(MusicBrainzError::InvalidDiscNumber { requested, available }) => Err(
            (requested, available),
        ),
        Err(_) => Err((0, 0)),
    }
}

pub fn pick_medium(media: &[MbMedium], discid: &str, discnumber: i32) -> (r: Result<
    (Option<usize>, Option<i32>),
    MusicBrainzError,
>)
    ensures
        pick_medium_result(r) == picked_medium(media@, discid@, discnumber),
        r matches Err(e) ==> e is InvalidDiscNumber,
{
    let n = media.len();
    if n == 0 {
        return Ok((None, None));
    }
    if discnumber != 0 {
        let avail = n as i32;
        if discnumber < 1 || discnumber > avail {
            return Err(MusicBrainzError::InvalidDiscNumber { requested: discnumber, available: avail });
        }
        proof {
            lemma_index_in_range(discnumber, n as nat);
        }
        return Ok((Some((discnumber - 1) as usize), Some(discnumber)));
    }
    let mut k: usize = 0;
    while k < n
        invariant
            n == media@.len(),
            n > 0,
            discnumber == 0,
            k <= n,
            medium_with_discid(media@, discid@, 0) == medium_with_discid(media@, discid@, k as int),
        decreases n - k,
    {
        if medium_has_discid(&media[k], discid) {
            return Ok((Some(k), Some((k as u64 + 1) as i32)));
        }
        k += 1;
    }
    if n == 1 {
        Ok((Some(0), Some(1)))
    } else {
        Ok((Some(0), None))
    }
}

// ---------------------------------------------------------------------------
// Mapping to tags
// ---------------------------------------------------------------------------

/// The credits written out: each credited name (the artist's own name when
/// the credit has none) followed by its join phrase.
pub open spec fn credit_text(cs: Seq<MbArtistCredit>) -> Seq<char>
    decreases cs.len(),
{
    if cs.len() == 0 {
        Seq::empty()
    } else {
        let c = cs.last();
        credit_text(cs.drop_last()) + (if c.name@.len() > 0 {
            c.name@
        } else {
            c.artist_name@
        }) + match c.joinphrase {
            Some(j) => j@,
            None => Seq::empty(),
        }
    }
}

pub fn join_artist_credit(credits: &[MbArtistCredit]) -> (r: String)
    ensures
        r@ == credit_text(credits@),
{
    let mut out = String::new();
    let mut i: usize = 0;
    while i < credits.len()
        invariant
            i <= credits@.len(),
            out@ == credit_text(credits@.take(i as int)),
        decreases credits.len() - i,
    {
        let c = &credits[i];
        assert(credits@.take(i + 1).drop_last() == credits@.take(i as int));
        if c.name.as_str().unicode_len() > 0 {
            out.append(c.name.as_str());
        } else {
            out.append(c.artist_name.as_str());
        }
        if let Some(j) = &c.joinphrase {
            out.append(j.as_str());
        }
        assert(out@ =~= credit_text(credits@.take(i + 1)));
        i += 1;
    }
    assert(credits@.take(credits@.len() as int) == credits@);
    out
}

/// Credits as an artist tag: absent when there are none or they read as
/// empty text.
pub open spec fn artist_tag(cs: Option<Vec<MbArtistCredit>>) -> Option<Seq<char>> {
    match cs {
        Some(v) => if credit_text(v@).len() > 0 {
            Some(credit_text(v@))
        } else {
            None
        },
        None => None,
    }
}

fn artist_from_credits(cs: &Option<Vec<MbArtistCredit>>) -> (r: Option<String>)
    ensures
        opt_chars(r) == artist_tag(*cs),
{
    match cs {
        Some(v) => {
            let s = join_artist_credit(v.as_slice());
            if s.as_str().unicode_len() > 0 {
                Some(s)
            } else {
                None
            }
        },
        None => None,
    }
}

/// A track's tags: the recording's identifier; the track title unless it is
/// blank, then the recording's title (or nothing); the track's artist credit,
/// or else the recording's.
pub open spec fn track_meta_of(t: MbTrack, m: MusicBrainzTrackMeta) -> bool {
    &&& opt_chars(m.mbid) == match t.recording {
        Some(rec) => Some(rec.id@),
        None => None,
    }
    &&& m.title@ == if trim(t.title@).len() > 0 {
        t.title@
    } else {
        match t.recording {
            Some(rec) => rec.title@,
            None => Seq::empty(),
        }
    }
    &&& opt_chars(m.artist) == if t.artist_credit is Some {
        artist_tag(t.artist_credit)
    } else {
        match t.recording {
            Some(rec) => artist_tag(rec.artist_credit),
            None => None,
        }
    }
}

pub fn map_track(track: &MbTrack) -> (r: MusicBrainzTrackMeta)
    ensures
        track_meta_of(*track, r),
{
    let mbid = match &track.recording {
        Some(rec) => Some(copy_str(rec.id.as_str())),
        None => None,
    };
    let title = if !discid_is_blank(track.title.as_str()) {
        copy_str(track.title.as_str())
    } else {
        match &track.recording {
            Some(rec) => copy_str(rec.title.as_str()),
            None => String::new(),
        }
    };
    let artist = if track.artist_credit.is_some() {
        artist_from_credits(&track.artist_credit)
    } else {
        match &track.recording {
            Some(rec) => artist_from_credits(&rec.artist_credit),
            None => None,
        }
    };
    MusicBrainzTrackMeta { mbid, title, artist }
}

/// The first `nb_cd_tracks` tracks of a medium, mapped to tags.
pub open spec fn track_metas_of(m: MbMedium, nb_cd_tracks: usize, out: Seq<MusicBrainzTrackMeta>) -> bool {
    let ts = match m.tracks {
        Some(v) => v@,
        None => Seq::empty(),
    };
    let n = if ts.len() < nb_cd_tracks { ts.len() as int } else { nb_cd_tracks as int };
    &&& out.len() == n
    &&& forall|i: int| 0 <= i < n ==> #[trigger] track_meta_of(ts[i], out[i])
}

pub fn map_tracks(medium: &MbMedium, nb_cd_tracks: usize) -> (r: Vec<MusicBrainzTrackMeta>)
    ensures
        track_metas_of(*medium, nb_cd_tracks, r@),
{
    let mut out: Vec<MusicBrainzTrackMeta> = Vec::new();
    match &medium.tracks {
        None => {},
        Some(ts) => {
            let mut i: usize = 0;
            while i < ts.len() && i < nb_cd_tracks
                invariant
                    i <= ts@.len(),
                    i <= nb_cd_tracks,
                    medium.tracks == Some(*ts),
                    out@.len() == i,
                    forall|j: int| 0 <= j < i ==> #[trigger] track_meta_of(ts@[j], out@[j]),
                decreases ts.len() - i,
            {
                out.push(map_track(&ts[i]));
                i += 1;
            }
        },
    }
    out
}

/// The first label entry's label name and catalog number.
pub open spec fn label_info_of(li: Option<Vec<MbLabelInfo>>) -> (Option<Seq<char>>, Option<Seq<char>>) {
    match li {
        Some(v) => if v@.len() > 0 {
            (opt_chars(v@[0].label_name), opt_chars(v@[0].catalog_number))
        } else {
            (None, None)
        },
        None => (None, None),
    }
}

pub fn first_label_info(release: &MbRelease) -> (r: (Option<String>, Option<String>))
    ensures
        (opt_chars(r.0), opt_chars(r.1)) == label_info_of(release.label_info),
{
    match &release.label_info {
        Some(v) => {
            if v.len() > 0 {
                (copy_opt(&v[0].label_name), copy_opt(&v[0].catalog_number))
            } else {
                (None, None)
            }
        },
        None => (None, None),
    }
}

/// The tags of a release for the disc: release fields, the chosen medium's
/// title, format and tracks, and the disc number (the chosen one, else the
/// medium's position).
pub open spec fn release_meta_of(
    rel: MbRelease,
    discid: Seq<char>,
    discnumber: i32,
    nb_cd_tracks: usize,
    m: MusicBrainzReleaseMeta,
) -> bool {
    let media = match rel.media {
        Some(v) => v@,
        None => Seq::empty(),
    };
    match picked_medium(media, discid, discnumber) {
        Err(_) => false,
        Ok((sel, num)) => {
            &&& m.musicbrainz_albumid@ == rel.id@
            &&& opt_chars(m.releasecomment) == opt_chars(rel.disambiguation)
            &&& opt_chars(m.date) == opt_chars(rel.date)
            &&& m.album@ == rel.title@
            &&& opt_chars(m.barcode) == opt_chars(rel.barcode)
            &&& opt_chars(m.packaging) == opt_chars(rel.packaging)
            &&& opt_chars(m.country) == opt_chars(rel.country)
            &&& opt_chars(m.releasestatus) == opt_chars(rel.status)
            &&& (opt_chars(m.label), opt_chars(m.catalognumber)) == label_info_of(rel.label_info)
            &&& opt_chars(m.album_artist) == artist_tag(rel.artist_credit)
            &&& m.totaldiscs as int == media.len() as i32 as int
            &&& match sel {
                Some(k) => {
                    &&& opt_chars(m.discname) == opt_chars(media[k].title)
                    &&& opt_chars(m.format) == opt_chars(media[k].format)
                    &&& track_metas_of(media[k], nb_cd_tracks, m.tracks@)
                    &&& m.discnumber == match num {
                        Some(n) => Some(n),
                        None => match media[k].position {
                            Some(p) => Some(p as i32),
                            None => None,
                        },
                    }
                },
                None => {
                    &&& m.discname is None
                    &&& m.format is None
                    &&& m.tracks@.len() == 0
                    &&& m.discnumber == num
                },
            }
        },
    }
}

pub fn map_release(release: &MbRelease, discid: &str, discnumber: i32, nb_cd_tracks: usize) -> (r:
    Result<MusicBrainzReleaseMeta, MusicBrainzError>)
    ensures
        ({
            let media = match release.media {
                Some(v) => v@,
                None => Seq::empty(),
            };
            match picked_medium(media, discid@, discnumber) {
                Err((req, avail)) => r == Err::<MusicBrainzReleaseMeta, MusicBrainzError>(
                    MusicBrainzError::InvalidDiscNumber { requested: req, available: avail },
                ),
                Ok(_) => r matches Ok(m) && release_meta_of(
                    *release,
                    discid@,
                    discnumber,
                    nb_cd_tracks,
                    m,
                ),
            }
        }),
{
    let empty: Vec<MbMedium> = Vec::new();
    let media: &Vec<MbMedium> = match &release.media {
        Some(v) => v,
        None => &empty,
    };
    let totaldiscs = media.len() as i32;
    let (sel, num) = match pick_medium(media.as_slice(), discid, discnumber) {
        Ok(x) => x,
        Err(e) => {
            return Err(e);
        },
    };
    proof {
        lemma_picked_medium_bounds(media@, discid@, discnumber);
    }
    let (discname, format, tracks, inferred) = match sel {
        Some(k) => {
            let m = &media[k];
            (
                copy_opt(&m.title),
                copy_opt(&m.format),
                map_tracks(m, nb_cd_tracks),
                match m.position {
                    Some(p) => Some(p as i32),
                    None => None,
                },
            )
        },
        None => (None, None, Vec::new(), None),
    };
    let (label, catalognumber) = first_label_info(release);
    let discnumber_out = match num {
        Some(n) => Some(n),
        None => inferred,
    };
    Ok(
        MusicBrainzReleaseMeta {
            musicbrainz_albumid: copy_str(release.id.as_str()),
            releasecomment: copy_opt(&release.disambiguation),
            date: copy_opt(&release.date),
            album: copy_str(release.title.as_str()),
            barcode: copy_opt(&release.barcode),
            packaging: copy_opt(&release.packaging),
            country: copy_opt(&release.country),
            releasestatus: copy_opt(&release.status),
            catalognumber,
            label,
            album_artist: artist_from_credits(&release.artist_credit),
            discname,
            format,
            discnumber: discnumber_out,
            totaldiscs,
            tracks,
        },
    )
}

/// What a lookup answers once the releases for a disc are known: none is
/// `NotFound`; several with no selection ask the user to choose (with a
/// summary of each); otherwise the selected release is mapped to tags.
pub fn select_release(
    releases: &[MbRelease],
    discid: &str,
    release_selection: Option<&ReleaseSelection>,
    discnumber: i32,
    nb_cd_tracks: usize,
) -> (r: Result<MusicBrainzReleaseMeta, MusicBrainzError>)
    ensures
        releases@.len() == 0 ==> r == Err::<MusicBrainzReleaseMeta, MusicBrainzError>(
            MusicBrainzError::NotFound,
        ),
        releases@.len() > 1 && release_selection is None ==> (r matches Err(
            MusicBrainzError::MultipleReleases(s),
        ) && s@.len() == releases@.len() && forall|i: int|
            0 <= i < releases@.len() ==> #[trigger] summary_of(releases@[i], s@[i])),
        releases@.len() > 0 && !(releases@.len() > 1 && release_selection is None) ==> match picked_release(
            releases@,
            match release_selection {
                Some(s) => Some(*s),
                None => None,
            },
        ) {
            Err(None) => r matches Err(MusicBrainzError::ReleaseIdNotFound(m)) && (
            release_selection matches Some(ReleaseSelection::Id(id)) && m@ == id@),
            Err(Some((req, avail))) => r == Err::<MusicBrainzReleaseMeta, MusicBrainzError>(
                MusicBrainzError::InvalidReleaseIndex { requested: req, available: avail },
            ),
            Ok(k) => {
                let rel = releases@[k];
                let media = match rel.media {
                    Some(v) => v@,
                    None => Seq::empty(),
                };
                match picked_medium(media, discid@, discnumber) {
                    Err((req, avail)) => r == Err::<MusicBrainzReleaseMeta, MusicBrainzError>(
                        MusicBrainzError::InvalidDiscNumber { requested: req, available: avail },
                    ),
                    Ok(_) => r matches Ok(m) && release_meta_of(
                        rel,
                        discid@,
                        discnumber,
                        nb_cd_tracks,
                        m,
                    ),
                }
            },
        },
{
    if releases.len() == 0 {
        return Err(MusicBrainzError::NotFound);
    }
    if releases.len() > 1 && release_selection.is_none() {
        let mut summaries: Vec<ReleaseSummary> = Vec::new();
        let mut i: usize = 0;
        while i < releases.len()
            invariant
                i <= releases@.len(),
                summaries@.len() == i,
                forall|j: int| 0 <= j < i ==> #[trigger] summary_of(releases@[j], summaries@[j]),
            decreases releases.len() - i,
        {
            summaries.push(release_summary(&releases[i]));
            i += 1;
        }
        return Err(MusicBrainzError::MultipleReleases(summaries));
    }
    let k = match pick_release(releases, release_selection) {
        Ok(k) => k,
        Err(e) => {
            return Err(e);
        },
    };
    proof {
        lemma_release_with_id_bounds(releases@, match release_selection {
            Some(ReleaseSelection::Id(id)) => id@,
            _ => Seq::empty(),
        }, 0);
    }
    map_release(&releases[k], discid, discnumber, nb_cd_tracks)
}

proof fn lemma_release_with_id_bounds(rs: Seq<MbRelease>, id: Seq<char>, from: int)
    ensures
        release_with_id(rs, id, from) matches Some(k) ==> from <= k < rs.len(),
    decreases rs.len() - from,
{
    if 0 <= from < rs.len() && rs[from].id@ != id {
        lemma_release_with_id_bounds(rs, id, from + 1);
    }
}

/// A MusicBrainz client: transport, base address without trailing `/`, and
/// user agent.
#[derive(Debug, Clone)]
pub struct MusicBrainzService<H> {
    http: H,
    base_url: String,
    user_agent: String,
}

impl<H> MusicBrainzService<H> {
    pub closed spec fn base_url_spec(&self) -> Seq<char> {
        self.base_url@
    }

    pub closed spec fn user_agent_spec(&self) -> Seq<char> {
        self.user_agent@
    }

    pub fn new(http: H, base_url: &str, user_agent: &str) -> (r: Self)
        ensures
            r.base_url_spec() == trim_end_char(base_url@, '/'),
            r.user_agent_spec() == user_agent@,
    {
        MusicBrainzService {
            http,
            base_url: trim_end_matches_char(base_url, '/'),
            user_agent: copy_str(user_agent),
        }
    }

    pub fn http(&self) -> &H {
        &self.http
    }

    pub fn user_agent(&self) -> (r: &str)
        ensures
            r@ == self.user_agent_spec(),
    {
        self.user_agent.as_str()
    }

    /// The query for a disc identifier; a blank identifier is refused.
    pub fn discid_request_url(&self, discid: &str) -> (r: Result<String, MusicBrainzError>)
        ensures
            trim(discid@).len() == 0 ==> r == Err::<String, MusicBrainzError>(
                MusicBrainzError::MissingDiscid,
            ),
            trim(discid@).len() > 0 ==> (r matches Ok(u) && u@ == discid_lookup_url(
                self.base_url_spec(),
                discid@,
            )),
    {
        if discid_is_blank(discid) {
            return Err(MusicBrainzError::MissingDiscid);
        }
        let mut url = copy_str(self.base_url.as_str());
        url.append("/ws/2/discid/");
        url.append(discid);
        url.append("?inc=recordings%20artist-credits%20labels&fmt=json");
        Ok(url)
    }
}

} // verus!
