//! Which cover image goes into the FLAC files, and how its type is named:
//! the file extension of a source path or URL, and the MIME type of an image.
use vstd::prelude::*;

use crate::metadata::coverart::CoverArtImage;
use crate::naming::{trim, trim_bounds_pub};
use crate::text::{chars_of, find_char, rfind_char, rfind_char_before, string_of};
use crate::workflow::{ascii_lower, lower_ascii};

verus! {

// ---------------------------------------------------------------------------
// File extension of a source
// ---------------------------------------------------------------------------

/// `s` up to its first `?`: a URL without its query.
pub open spec fn before_query(s: Seq<char>) -> Seq<char> {
    match find_char(s, '?') {
        Some(i) => s.take(i),
        None => s,
    }
}

/// `p` without trailing separators and trailing `.` components.
pub open spec fn path_tail_trimmed(p: Seq<char>) -> Seq<char>
    decreases p.len(),
{
    if p.len() > 0 && p.last() == '/' {
        path_tail_trimmed(p.drop_last())
    } else if p.len() >= 2 && p.last() == '.' && p[p.len() - 2] == '/' {
        path_tail_trimmed(p.drop_last())
    } else {
        p
    }
}

/// The last component of a path when it names a file (`Path::file_name`).
pub open spec fn path_file_name(p: Seq<char>) -> Option<Seq<char>> {
    let q = path_tail_trimmed(p);
    let name = match rfind_char(q, '/') {
        Some(i) => q.skip(i + 1),
        None => q,
    };
    if name.len() == 0 || name == "."@ || name == ".."@ {
        None
    } else {
        Some(name)
    }
}

/// The text after the last dot of a file name, unless that dot starts the
/// name (`Path::extension`).
pub open spec fn name_extension(n: Seq<char>) -> Option<Seq<char>> {
    match rfind_char(n, '.') {
        Some(i) => if i == 0 {
            None
        } else {
            Some(n.skip(i + 1))
        },
        None => None,
    }
}

/// The extension of a cover source, trimmed and in lower case, if not empty.
pub open spec fn cover_extension_of(source: Seq<char>) -> Option<Seq<char>> {
    match path_file_name(before_query(source)) {
        Some(n) => match name_extension(n) {
            Some(e) => {
                let t = ascii_lower(trim(e));
                if t.len() > 0 {
                    Some(t)
                } else {
                    None
                }
            },
            None => None,
        },
        None => None,
    }
}

proof fn lemma_rfind_before_bounds(s: Seq<char>, c: char, end: int)
    ensures
        rfind_char_before(s, c, end) matches Some(i) ==> 0 <= i < end,
    decreases end,
{
    if 0 < end <= s.len() && s[end - 1] != c {
        lemma_rfind_before_bounds(s, c, end - 1);
    }
}

/// The last index in `s[lo..hi]` that holds `c`.
fn rfind_in_range(s: &[char], c: char, lo: usize, hi: usize) -> (r: Option<usize>)
    requires
        lo <= hi <= s@.len(),
    ensures
        r matches Some(i) ==> lo <= i < hi && s@[i as int] == c,
        r == match rfind_char_before(s@.subrange(lo as int, hi as int), c, hi - lo) {
            Some(i) => Some((i + lo) as usize),
            None => None::<usize>,
        },
{
    let mut e = hi;
    while e > lo
        invariant
            lo <= e <= hi <= s@.len(),
            rfind_char_before(s@.subrange(lo as int, hi as int), c, hi - lo)
                == rfind_char_before(s@.subrange(lo as int, hi as int), c, e - lo),
        decreases e,
    {
        assert(s@.subrange(lo as int, hi as int)[e - 1 - lo] == s@[e - 1]);
        if s[e - 1] == c {
            return Some(e - 1);
        }
        e -= 1;
    }
    None
}

/// The file extension of a cover source (a path or a URL), trimmed and in
/// lower case; `None` when it has none or it is blank.
pub fn infer_cover_extension_from_source(source: &str) -> (r: Option<String>)
    ensures
        match r {
            Some(e) => cover_extension_of(source@) == Some(e@),
            None => cover_extension_of(source@) is None,
        },
{
    let s = chars_of(source);
    let n = s.len();
    proof {
        crate::lemma_find_char_from_bounds(s@, '?', 0);
    }
    let end = match crate::text::find_char_in(s.as_slice(), '?', 0) {
        Some(i) => i,
        None => n,
    };
    let ghost p = before_query(source@);
    assert(p == s@.take(end as int));
    let mut e = end;
    while e > 0 && (s[e - 1] == '/' || (e >= 2 && s[e - 1] == '.' && s[e - 2] == '/'))
        invariant
            e <= end <= n == s@.len(),
            p == s@.take(end as int),
            path_tail_trimmed(p) == path_tail_trimmed(s@.take(e as int)),
        decreases e,
    {
        assert(s@.take(e as int).drop_last() == s@.take(e - 1));
        e -= 1;
    }
    let ghost q = s@.take(e as int);
    assert(path_tail_trimmed(q) == q);
    assert(s@.subrange(0, e as int) == q);
    let found = rfind_in_range(s.as_slice(), '/', 0, e);
    let start = match found {
        Some(i) => i + 1,
        None => 0,
    };
    let ghost name = s@.subrange(start as int, e as int);
    proof {
        assert(q.len() == e);
        assert(rfind_char(q, '/') == rfind_char_before(s@.subrange(0, e as int), '/', e - 0));
        lemma_rfind_before_bounds(q, '/', e as int);
        match rfind_char(q, '/') {
            Some(i) => {
                assert(found == Some(i as usize));
                assert(start == i + 1);
                assert(q.skip(i + 1) =~= name);
            },
            None => {
                assert(q =~= name);
            },
        }
    }
    if start == e || (e - start == 1 && s[start] == '.') || (e - start == 2 && s[start] == '.'
        && s[start + 1] == '.') {
        proof {
            reveal_strlit(".");
            reveal_strlit("..");
            if e - start == 1 && s[start as int] == '.' {
                assert(name =~= "."@);
            }
            if e - start == 2 && s[start as int] == '.' && s[start + 1] == '.' {
                assert(name =~= ".."@);
            }
        }
        return None;
    }
    proof {
        reveal_strlit(".");
        reveal_strlit("..");
        if e - start == 2 {
            assert(name[0] == s@[start as int]);
            assert(name[1] == s@[start + 1]);
        }
        if e - start == 1 {
            assert(name[0] == s@[start as int]);
        }
        assert(name != "."@);
        assert(name != ".."@);
    }
    let dot_found = rfind_in_range(s.as_slice(), '.', start, e);
    assert(rfind_char(name, '.') == rfind_char_before(name, '.', e - start));
    proof {
        lemma_rfind_before_bounds(name, '.', e - start);
    }
    let dot = match dot_found {
        Some(i) => i,
        None => {
            return None;
        },
    };
    assert(rfind_char(name, '.') == Some(dot - start));
    if dot == start {
        return None;
    }
    assert(name.skip(dot - start + 1) == s@.subrange(dot + 1, e as int));
    let (a, b) = trim_bounds_pub(s.as_slice(), dot + 1, e);
    if a == b {
        return None;
    }
    let trimmed = string_of(s.as_slice(), a, b);
    let lower = lower_ascii(trimmed.as_str());
    let ln = lower.len();
    let out = string_of(lower.as_slice(), 0, ln);
    assert(lower@.subrange(0, ln as int) == lower@);
    Some(out)
}

// ---------------------------------------------------------------------------
// MIME type of an image
// ---------------------------------------------------------------------------

/// The MIME type a content type names: its part before any `;`, trimmed and
/// in lower case.
pub open spec fn mime_of_content_type(ct: Seq<char>) -> Seq<char> {
    let first = match find_char(ct, ';') {
        Some(i) => ct.take(i),
        None => ct,
    };
    ascii_lower(trim(first))
}

/// The MIME type of the known image extensions.
pub open spec fn mime_for_extension(e: Option<Seq<char>>) -> Seq<char> {
    if e == Some("jpg"@) || e == Some("jpeg"@) {
        "image/jpeg"@
    } else if e == Some("png"@) {
        "image/png"@
    } else if e == Some("gif"@) {
        "image/gif"@
    } else if e == Some("webp"@) {
        "image/webp"@
    } else if e == Some("bmp"@) {
        "image/bmp"@
    } else if e == Some("tif"@) || e == Some("tiff"@) {
        "image/tiff"@
    } else {
        "application/octet-stream"@
    }
}

/// An image's MIME type: from its content type when that names one, else
/// from its extension (or its source's).
pub open spec fn cover_mime_type(art: CoverArtImage) -> Seq<char> {
    let from_type = match art.content_type {
        Some(ct) => mime_of_content_type(ct@),
        None => Seq::empty(),
    };
    if from_type.len() > 0 {
        from_type
    } else {
        mime_for_extension(
            match art.extension {
                Some(e) => Some(e@),
                None => cover_extension_of(art.source_url@),
            },
        )
    }
}

fn mime_from_content_type(ct: &str) -> (r: String)
    ensures
        r@ == mime_of_content_type(ct@),
{
    let s = chars_of(ct);
    let n = s.len();
    proof {
        crate::lemma_find_char_from_bounds(s@, ';', 0);
    }
    let end = match crate::text::find_char_in(s.as_slice(), ';', 0) {
        Some(i) => i,
        None => n,
    };
    assert(s@.subrange(0, end as int) == match find_char(ct@, ';') {
        Some(i) => ct@.take(i),
        None => ct@,
    });
    let (a, b) = trim_bounds_pub(s.as_slice(), 0, end);
    let trimmed = string_of(s.as_slice(), a, b);
    let lower = lower_ascii(trimmed.as_str());
    let ln = lower.len();
    assert(lower@.subrange(0, ln as int) == lower@);
    string_of(lower.as_slice(), 0, ln)
}

fn mime_from_extension(e: Option<&str>) -> (r: String)
    ensures
        r@ == mime_for_extension(
            match e {
                Some(x) => Some(x@),
                None => None,
            },
        ),
{
    proof {
        reveal_strlit("jpg");
        reveal_strlit("jpeg");
        reveal_strlit("png");
        reveal_strlit("gif");
        reveal_strlit("webp");
        reveal_strlit("bmp");
        reveal_strlit("tif");
        reveal_strlit("tiff");
    }
    match e {
        Some(x) => {
            if crate::text::str_eq(x, "jpg") || crate::text::str_eq(x, "jpeg") {
                String::from_str("image/jpeg")
            } else if crate::text::str_eq(x, "png") {
                String::from_str("image/png")
            } else if crate::text::str_eq(x, "gif") {
                String::from_str("image/gif")
            } else if crate::text::str_eq(x, "webp") {
                String::from_str("image/webp")
            } else if crate::text::str_eq(x, "bmp") {
                String::from_str("image/bmp")
            } else if crate::text::str_eq(x, "tif") || crate::text::str_eq(x, "tiff") {
                String::from_str("image/tiff")
            } else {
                String::from_str("application/octet-stream")
            }
        },
        None => String::from_str("application/octet-stream"),
    }
}

/// The MIME type to record for an embedded image.
pub fn infer_cover_mime_type(art: &CoverArtImage) -> (r: String)
    ensures
        r@ == cover_mime_type(*art),
{
    match &art.content_type {
        Some(ct) => {
            let mime = mime_from_content_type(ct.as_str());
            if mime.as_str().unicode_len() > 0 {
                return mime;
            }
        },
        None => {},
    }
    match &art.extension {
        Some(e) => mime_from_extension(Some(e.as_str())),
        None => {
            let inferred = infer_cover_extension_from_source(art.source_url.as_str());
            match &inferred {
                Some(e) => mime_from_extension(Some(e.as_str())),
                None => mime_from_extension(None),
            }
        },
    }
}

// ---------------------------------------------------------------------------
// The image to embed
// ---------------------------------------------------------------------------

/// An image with bytes to embed.
pub open spec fn embeddable(art: CoverArtImage) -> bool {
    art.data matches Some(d) && d@.len() > 0
}

/// An image titled `front`, in any case.
pub open spec fn titled(art: CoverArtImage, title: Seq<char>) -> bool {
    ascii_lower(art.title@) == title
}

/// The first embeddable image from `i` on; with `front`, the first titled
/// `front`.
pub open spec fn first_embeddable_from(arts: Seq<CoverArtImage>, i: int, front: bool) -> Option<int>
    decreases arts.len() - i,
{
    if i < 0 || i >= arts.len() {
        None
    } else if embeddable(arts[i]) && (!front || titled(arts[i], "front"@)) {
        Some(i)
    } else {
        first_embeddable_from(arts, i + 1, front)
    }
}

/// The image to embed: the first embeddable one titled `front`, else the
/// first embeddable one.
pub open spec fn embedding_choice(arts: Seq<CoverArtImage>) -> Option<int> {
    match first_embeddable_from(arts, 0, true) {
        Some(i) => Some(i),
        None => first_embeddable_from(arts, 0, false),
    }
}

proof fn lemma_first_embeddable_bounds(arts: Seq<CoverArtImage>, i: int, front: bool)
    ensures
        first_embeddable_from(arts, i, front) matches Some(k) ==> i <= k < arts.len() && 0 <= k
            && embeddable(arts[k]),
    decreases arts.len() - i,
{
    if 0 <= i < arts.len() && !(embeddable(arts[i]) && (!front || titled(arts[i], "front"@))) {
        lemma_first_embeddable_bounds(arts, i + 1, front);
    }
}

fn is_title(art: &CoverArtImage, lower_title: &str) -> (r: bool)
    ensures
        r == titled(*art, lower_title@),
{
    let t = lower_ascii(art.title.as_str());
    let w = chars_of(lower_title);
    crate::text::chars_eq(t.as_slice(), w.as_slice())
}

fn has_bytes(art: &CoverArtImage) -> (r: bool)
    ensures
        r == embeddable(*art),
{
    match &art.data {
        Some(d) => d.len() > 0,
        None => false,
    }
}

fn find_embeddable(cover_arts: &[CoverArtImage], front: bool) -> (r: Option<usize>)
    ensures
        r == match first_embeddable_from(cover_arts@, 0, front) {
            Some(k) => Some(k as usize),
            None => None::<usize>,
        },
        r matches Some(k) ==> k < cover_arts@.len(),
{
    proof {
        lemma_first_embeddable_bounds(cover_arts@, 0, front);
    }
    let mut i: usize = 0;
    while i < cover_arts.len()
        invariant
            i <= cover_arts@.len(),
            first_embeddable_from(cover_arts@, 0, front) == first_embeddable_from(
                cover_arts@,
                i as int,
                front,
            ),
        decreases cover_arts.len() - i,
    {
        if has_bytes(&cover_arts[i]) && (!front || is_title(&cover_arts[i], "front")) {
            return Some(i);
        }
        i += 1;
    }
    None
}

/// The cover image to embed in the FLAC files, if any has bytes.
pub fn pick_cover_art_for_embedding(cover_arts: &[CoverArtImage]) -> (r: Option<&CoverArtImage>)
    ensures
        match embedding_choice(cover_arts@) {
            Some(k) => r == Some(&cover_arts@[k]),
            None => r is None,
        },
{
    proof {
        lemma_first_embeddable_bounds(cover_arts@, 0, true);
        lemma_first_embeddable_bounds(cover_arts@, 0, false);
    }
    match find_embeddable(cover_arts, true) {
        Some(k) => Some(&cover_arts[k]),
        None => match find_embeddable(cover_arts, false) {
            Some(k) => Some(&cover_arts[k]),
            None => None,
        },
    }
}

/// The picture types a FLAC file records for an embedded cover.
#[derive(Debug, Clone, Copy, PartialEq, Eq, Structural)]
pub enum CoverPictureType {
    CoverFront,
    CoverBack,
}

/// A cover image as a FLAC picture block holds it.
#[derive(Debug, Clone, PartialEq, Eq)]
pub struct FlacEmbeddedPicture {
    pub mime_type: String,
    pub picture_type: CoverPictureType,
    pub data: Vec<u8>,
}

/// The picture to embed: the chosen image's bytes and MIME type, as the back
/// cover when it is titled `back`, else as the front cover.
pub fn flac_embedded_picture_from_cover_arts(cover_arts: &[CoverArtImage]) -> (r: Option<
    FlacEmbeddedPicture,
>)
    ensures
        match embedding_choice(cover_arts@) {
            Some(k) => r matches Some(p) && {
                let art = cover_arts@[k];
                &&& p.mime_type@ == cover_mime_type(art)
                &&& art.data matches Some(d) && p.data@ == d@
                &&& p.picture_type == if titled(art, "back"@) {
                    CoverPictureType::CoverBack
                } else {
                    CoverPictureType::CoverFront
                }
            },
            None => r is None,
        },
{
    proof {
        lemma_first_embeddable_bounds(cover_arts@, 0, true);
        lemma_first_embeddable_bounds(cover_arts@, 0, false);
    }
    let art = match pick_cover_art_for_embedding(cover_arts) {
        Some(a) => a,
        None => {
            return None;
        },
    };
    let data = match &art.data {
        Some(d) => crate::cdda::reader::copy_bytes(d),
        None => {
            return None;
        },
    };
    let picture_type = if is_title(art, "back") {
        CoverPictureType::CoverBack
    } else {
        CoverPictureType::CoverFront
    };
    Some(FlacEmbeddedPicture { mime_type: infer_cover_mime_type(art), picture_type, data })
}

} // verus!
