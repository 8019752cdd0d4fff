//! Cover art: which images to ask the Cover Art Archive for, how an answer
//! updates an image, and which sources are URLs to download.
use vstd::prelude::*;

use crate::text::{chars_of, dec, push_dec, starts_with, str_eq, str_starts_with, trim_end_char,
    trim_end_matches_char};
use crate::CoverArtLookupSize;

verus! {

/// Where release cover images are looked up by default.
pub const COVERART_DB_URL_BASE: &'static str = "http://coverartarchive.org/release";

#[derive(Debug, Clone, PartialEq, Eq)]
pub struct CoverArtImage {
    pub title: String,
    pub source: Option<String>,
    pub source_url: String,
    pub extension: Option<String>,
    pub data: Option<Vec<u8>>,
    pub content_type: Option<String>,
}

#[derive(Debug, Clone, PartialEq, Eq)]
pub enum CoverArtError {
    Http(String),
}

#[derive(Debug, Clone, PartialEq, Eq, Structural)]
pub enum CoverArtFetchStatus {
    Downloaded,
    NotFound,
}

#[derive(Debug, Clone, PartialEq, Eq)]
pub struct CoverArtResponse {
    pub status_code: u16,
    pub content_type: Option<String>,
    pub final_url: String,
    pub body: Vec<u8>,
}

pub open spec fn opt_chars(o: Option<String>) -> Option<Seq<char>> {
    match o {
        Some(s) => Some(s@),
        None => None,
    }
}

/// Whether `s` names a resource by one of the URL schemes a downloader
/// understands.
pub open spec fn is_url(s: Seq<char>) -> bool {
    ||| starts_with(s, "http://"@)
    ||| starts_with(s, "https://"@)
    ||| starts_with(s, "ftp://"@)
    ||| starts_with(s, "ftps://"@)
    ||| starts_with(s, "sftp://"@)
    ||| starts_with(s, "tftp://"@)
    ||| starts_with(s, "gopher://"@)
    ||| starts_with(s, "telnet://"@)
}

pub fn string_is_url(src: &str) -> (r: bool)
    ensures
        r == is_url(src@),
{
    str_starts_with(src, "http://") || str_starts_with(src, "https://") || str_starts_with(
        src,
        "ftp://",
    ) || str_starts_with(src, "ftps://") || str_starts_with(src, "sftp://") || str_starts_with(
        src,
        "tftp://",
    ) || str_starts_with(src, "gopher://") || str_starts_with(src, "telnet://")
}

/// The archive's name for an image kind at a lookup size: the kind itself
/// for the original image, `kind-250`, `kind-500` or `kind-1200` otherwise.
pub open spec fn cover_id_text(base: Seq<char>, size: CoverArtLookupSize) -> Seq<char> {
    match size {
        CoverArtLookupSize::Original => base,
        CoverArtLookupSize::Px250 => base + "-250"@,
        CoverArtLookupSize::Px500 => base + "-500"@,
        CoverArtLookupSize::Px1200 => base + "-1200"@,
    }
}

pub fn cover_id(base: &str, lookup_size: CoverArtLookupSize) -> (r: String)
    ensures
        r@ == cover_id_text(base@, lookup_size),
{
    let mut out = crate::text::copy_str(base);
    match lookup_size {
        CoverArtLookupSize::Original => {},
        CoverArtLookupSize::Px250 => out.append("-250"),
        CoverArtLookupSize::Px500 => out.append("-500"),
        CoverArtLookupSize::Px1200 => out.append("-1200"),
    }
    out
}

/// The file extension for an image content type, if it is one of the known
/// image types.
pub open spec fn extension_for(content_type: Option<Seq<char>>) -> Option<Seq<char>> {
    match content_type {
        Some(v) => if starts_with(v, "image/jpeg"@) {
            Some("jpg"@)
        } else if starts_with(v, "image/png"@) {
            Some("png"@)
        } else if starts_with(v, "image/bmp"@) {
            Some("bmp"@)
        } else if starts_with(v, "image/tiff"@) {
            Some("tiff"@)
        } else if starts_with(v, "image/avif"@) {
            Some("avif"@)
        } else if starts_with(v, "image/heif"@) {
            Some("heif"@)
        } else if starts_with(v, "image/webp"@) {
            Some("webp"@)
        } else {
            None
        },
        None => None,
    }
}

pub open spec fn opt_str_chars(o: Option<&str>) -> Option<Seq<char>> {
    match o {
        Some(s) => Some(s@),
        None => None,
    }
}

pub fn infer_extension(content_type: Option<&str>) -> (r: Option<String>)
    ensures
        opt_chars(r) == extension_for(opt_str_chars(content_type)),
{
    match content_type {
        Some(v) => {
            if str_starts_with(v, "image/jpeg") {
                Some(String::from_str("jpg"))
            } else if str_starts_with(v, "image/png") {
                Some(String::from_str("png"))
            } else if str_starts_with(v, "image/bmp") {
                Some(String::from_str("bmp"))
            } else if str_starts_with(v, "image/tiff") {
                Some(String::from_str("tiff"))
            } else if str_starts_with(v, "image/avif") {
                Some(String::from_str("avif"))
            } else if str_starts_with(v, "image/heif") {
                Some(String::from_str("heif"))
            } else if str_starts_with(v, "image/webp") {
                Some(String::from_str("webp"))
            } else {
                None
            }
        },
        None => None,
    }
}

/// Whether an image with this title is already present.
pub open spec fn has_title(arts: Seq<CoverArtImage>, title: Seq<char>) -> bool {
    exists|i: int| 0 <= i < arts.len() && (#[trigger] arts[i]).title@ == title
}

pub fn has_cover_titled(cover_arts: &[CoverArtImage], title: &str) -> (r: bool)
    ensures
        r == has_title(cover_arts@, title@),
{
    let mut i: usize = 0;
    while i < cover_arts.len()
        invariant
            i <= cover_arts@.len(),
            forall|j: int| 0 <= j < i ==> (#[trigger] cover_arts@[j]).title@ != title@,
        decreases cover_arts.len() - i,
    {
        if str_eq(cover_arts[i].title.as_str(), title) {
            return true;
        }
        i += 1;
    }
    false
}

/// Which archive lookups a release needs: the front image when none is
/// present, and then the back image when none is present either. The back
/// lookup only runs after a front lookup that found an image, so a release
/// that already has a front image gets no back lookup.
#[derive(Debug, Clone, Copy, PartialEq, Eq, Structural)]
pub struct CoverArtDbPlan {
    pub fetch_front: bool,
    pub fetch_back_after_front: bool,
}

pub fn coverart_db_plan(
    cover_arts: &[CoverArtImage],
    has_release_id: bool,
    disable_coverart_db: bool,
) -> (r: CoverArtDbPlan)
    ensures
        ({
            let front = has_title(cover_arts@, "Front"@);
            let back = has_title(cover_arts@, "Back"@);
            let ask = (!front || !back) && !disable_coverart_db && has_release_id;
            r == (CoverArtDbPlan {
                fetch_front: ask && !front,
                fetch_back_after_front: ask && !front && !back,
            })
        }),
{
    let front = has_cover_titled(cover_arts, "Front");
    let back = has_cover_titled(cover_arts, "Back");
    let ask = (!front || !back) && !disable_coverart_db && has_release_id;
    CoverArtDbPlan { fetch_front: ask && !front, fetch_back_after_front: ask && !front && !back }
}

/// An image that still has to be downloaded from its URL.
pub open spec fn needs_download(art: CoverArtImage, info_only: bool) -> bool {
    is_url(art.source_url@) && art.data is None && !info_only
}

pub fn needs_url_fetch(art: &CoverArtImage, info_only: bool) -> (r: bool)
    ensures
        r == needs_download(*art, info_only),
{
    string_is_url(art.source_url.as_str()) && art.data.is_none() && !info_only
}

/// A new archive image entry for `title` fetched from `url`.
pub fn new_coverart_db_art(title: &str, url: &str) -> (r: CoverArtImage)
    ensures
        r.title@ == title@,
        opt_chars(r.source) == Some("Cover Art DB"@),
        r.source_url@ == url@,
        opt_chars(r.extension) == Some("jpg"@),
        r.data is None,
        r.content_type is None,
{
    CoverArtImage {
        title: crate::text::copy_str(title),
        source: Some(String::from_str("Cover Art DB")),
        source_url: crate::text::copy_str(url),
        extension: Some(String::from_str("jpg")),
        data: None,
        content_type: None,
    }
}

fn copy_opt_string(o: &Option<String>) -> (r: Option<String>)
    ensures
        opt_chars(r) == opt_chars(*o),
{
    match o {
        Some(s) => Some(crate::text::copy_str(s.as_str())),
        None => None,
    }
}

/// How an image changes with a download answer: 404 leaves it alone and
/// reports `NotFound`; a status outside 200..300 is an error; otherwise the
/// image takes the answer's content type and final URL, an extension derived
/// from the content type (keeping its own when none can be), and the body
/// unless only information is gathered.
pub fn apply_fetch_response(art: &mut CoverArtImage, resp: CoverArtResponse, info_only: bool) -> (r:
    Result<CoverArtFetchStatus, CoverArtError>)
    ensures
        resp.status_code == 404 ==> r == Ok::<CoverArtFetchStatus, CoverArtError>(
            CoverArtFetchStatus::NotFound,
        ) && *final(art) == *old(art),
        resp.status_code != 404 && !(200 <= resp.status_code < 300) ==> (r matches Err(
            CoverArtError::Http(m),
        ) && m@ == "unexpected status "@ + dec(resp.status_code as nat)) && *final(art) == *old(art),
        200 <= resp.status_code < 300 ==> {
            &&& r == Ok::<CoverArtFetchStatus, CoverArtError>(CoverArtFetchStatus::Downloaded)
            &&& final(art).title == old(art).title
            &&& final(art).source == old(art).source
            &&& opt_chars(final(art).content_type) == opt_chars(resp.content_type)
            &&& final(art).source_url@ == resp.final_url@
            &&& opt_chars(final(art).extension) == match extension_for(
                opt_chars(resp.content_type),
            ) {
                Some(e) => Some(e),
                None => opt_chars(old(art).extension),
            }
            &&& final(art).data == if info_only {
                None
            } else {
                Some(resp.body)
            }
        },
{
    if resp.status_code == 404 {
        return Ok(CoverArtFetchStatus::NotFound);
    }
    if !(200 <= resp.status_code && resp.status_code < 300) {
        let mut msg = String::from_str("unexpected status ");
        push_dec(&mut msg, resp.status_code as u64);
        return Err(CoverArtError::Http(msg));
    }
    let ct: Option<&str> = match &resp.content_type {
        Some(s) => Some(s.as_str()),
        None => None,
    };
    let ext = match infer_extension(ct) {
        Some(e) => Some(e),
        None => copy_opt_string(&art.extension),
    };
    art.content_type = copy_opt_string(&resp.content_type);
    art.source_url = resp.final_url;
    art.extension = ext;
    art.data = if info_only {
        None
    } else {
        Some(resp.body)
    };
    Ok(CoverArtFetchStatus::Downloaded)
}

/// A Cover Art Archive client: transport, base address without trailing
/// `/`, and user agent.
#[derive(Debug, Clone)]
pub struct CoverArtService<H> {
    http: H,
    base_url: String,
    user_agent: String,
}

impl<H> CoverArtService<H> {
    pub closed spec fn base_url_spec(&self) -> Seq<char> {
        self.base_url@
    }

    pub closed spec fn user_agent_spec(&self) -> Seq<char> {
        self.user_agent@
    }

    pub fn new(http: H, base_url: &str, user_agent: &str) -> (r: Self)
        ensures
            r.base_url_spec() == trim_end_char(base_url@, '/'),
            r.user_agent_spec() == user_agent@,
    {
        CoverArtService {
            http,
            base_url: trim_end_matches_char(base_url, '/'),
            user_agent: crate::text::copy_str(user_agent),
        }
    }

    pub fn http(&self) -> &H {
        &self.http
    }

    pub fn user_agent(&self) -> (r: &str)
        ensures
            r@ == self.user_agent_spec(),
    {
        self.user_agent.as_str()
    }

    /// `base/release/kind`: where the archive serves an image of a release.
    pub fn coverart_db_url(&self, release_id: &str, type_id: &str) -> (r: String)
        ensures
            r@ == self.base_url_spec() + "/"@ + release_id@ + "/"@ + type_id@,
    {
        let mut url = crate::text::copy_str(self.base_url.as_str());
        url.append("/");
        url.append(release_id);
        url.append("/");
        url.append(type_id);
        url
    }
}

} // verus!
