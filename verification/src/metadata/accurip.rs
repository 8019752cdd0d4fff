//! AccurateRip: disc identifiers, database request paths, the binary
//! database format and checksum confidence lookups.
use vstd::prelude::*;

use crate::text::{
    chars_of, dec_pad, hex_fixed, push_char, push_dec_pad, push_hex, starts_with, string_of,
    trim_end_char, trim_end_matches_char,
};

verus! {

/// The AccurateRip database that requests go to by default.
pub const ACCURIP_DB_BASE_URL: &'static str = "http://www.accuraterip.com/accuraterip";

#[derive(Debug, Clone, Copy, PartialEq, Eq, Structural)]
pub enum AccuDbStatus {
    Disabled,
    NotFound,
    Found,
    Mismatch,
    Error,
}

#[derive(Debug, Clone, Copy, PartialEq, Eq, Structural)]
pub struct AccuRipTrackInput {
    pub number: u32,
    pub start_lsn: u32,
    pub end_lsn: u32,
    pub track_is_data: bool,
}

#[derive(Debug, Clone, Copy, PartialEq, Eq, Structural)]
pub struct AccuRipDiscIds {
    pub audio_tracks: usize,
    pub id_type_1: u32,
    pub id_type_2: u32,
}

#[derive(Debug, Clone, Copy, PartialEq, Eq, Structural)]
pub struct AccuRipDbEntry {
    pub confidence: u8,
    pub checksum: u32,
    pub checksum_450: u32,
}

#[derive(Debug, Clone, PartialEq, Eq)]
pub struct AccuRipTrackMatches {
    pub entries: Vec<AccuRipDbEntry>,
    pub max_confidence: i32,
}

#[derive(Debug, Clone, PartialEq, Eq)]
pub struct AccuRipLookupResult {
    pub status: AccuDbStatus,
    pub request_url: String,
    pub disc_ids: AccuRipDiscIds,
    pub track_matches: Vec<AccuRipTrackMatches>,
}

#[derive(Debug, Clone, PartialEq, Eq)]
pub enum AccuRipError {
    NoAudioTracks,
    ParseError(String),
    Http(String),
}

#[derive(Debug, Clone, PartialEq, Eq)]
pub struct AccuRipHttpResponse {
    pub status_code: u16,
    pub content_type: Option<String>,
    pub body: Vec<u8>,
}

// ---------------------------------------------------------------------------
// Disc identifiers
// ---------------------------------------------------------------------------

pub open spec fn two_pow_32() -> int {
    0x1_0000_0000
}

/// The audio tracks of a disc, in order.
pub open spec fn audio_tracks_of(s: Seq<AccuRipTrackInput>) -> Seq<AccuRipTrackInput>
    decreases s.len(),
{
    if s.len() == 0 {
        Seq::empty()
    } else {
        audio_tracks_of(s.drop_last()) + if s.last().track_is_data {
            Seq::<AccuRipTrackInput>::empty()
        } else {
            seq![s.last()]
        }
    }
}

/// Sum of the start sectors.
pub open spec fn start_sum(a: Seq<AccuRipTrackInput>) -> int
    decreases a.len(),
{
    if a.len() == 0 {
        0
    } else {
        start_sum(a.drop_last()) + a.last().start_lsn as int
    }
}

/// A start sector, with sector 0 counted as 1.
pub open spec fn start_or_one(t: AccuRipTrackInput) -> int {
    if t.start_lsn == 0 {
        1
    } else {
        t.start_lsn as int
    }
}

/// Sum of the start sectors (0 counted as 1) weighted by track number.
pub open spec fn weighted_start_sum(a: Seq<AccuRipTrackInput>) -> int
    decreases a.len(),
{
    if a.len() == 0 {
        0
    } else {
        weighted_start_sum(a.drop_last()) + start_or_one(a.last()) * a.last().number as int
    }
}

/// The two AccurateRip disc identifiers: with `L` the sector after the last
/// audio track (modulo 2^32) and `n` the number of audio tracks, the first
/// is the sum of the audio start sectors plus `L`, the second the sum of the
/// start sectors (0 counted as 1) times the track numbers plus `L * (n + 1)`,
/// both modulo 2^32.
pub open spec fn accurip_ids(tracks: Seq<AccuRipTrackInput>) -> Option<AccuRipDiscIds> {
    let a = audio_tracks_of(tracks);
    if a.len() == 0 {
        None
    } else {
        let last = (a.last().end_lsn as int + 1) % two_pow_32();
        Some(
            AccuRipDiscIds {
                audio_tracks: a.len() as usize,
                id_type_1: ((start_sum(a) + last) % two_pow_32()) as u32,
                id_type_2: ((weighted_start_sum(a) + last * (a.len() + 1)) % two_pow_32()) as u32,
            },
        )
    }
}

/// A disc has no more audio tracks than tracks.
proof fn lemma_audio_tracks_len(s: Seq<AccuRipTrackInput>)
    ensures
        audio_tracks_of(s).len() <= s.len(),
    decreases s.len(),
{
    if s.len() > 0 {
        lemma_audio_tracks_len(s.drop_last());
    }
}

proof fn lemma_add_mod(x: int, y: int)
    ensures
        (x % two_pow_32() + y) % two_pow_32() == (x + y) % two_pow_32(),
{
    vstd::arithmetic::div_mod::lemma_add_mod_noop(x, y, two_pow_32());
    vstd::arithmetic::div_mod::lemma_mod_twice(x, two_pow_32());
    vstd::arithmetic::div_mod::lemma_add_mod_noop(x % two_pow_32(), y, two_pow_32());
    vstd::arithmetic::div_mod::lemma_mod_twice(y, two_pow_32());
}

pub fn compute_accurip_ids(tracks: &[AccuRipTrackInput]) -> (r: Result<AccuRipDiscIds, AccuRipError>)
    requires
        tracks@.len() < u64::MAX,
    ensures
        match accurip_ids(tracks@) {
            Some(ids) => r == Ok::<AccuRipDiscIds, AccuRipError>(ids),
            None => r == Err::<AccuRipDiscIds, AccuRipError>(AccuRipError::NoAudioTracks),
        },
{
    let m: u64 = 0x1_0000_0000;
    let mut idt1: u64 = 0;
    let mut idt2: u64 = 0;
    let mut count: usize = 0;
    let mut last_end: u32 = 0;
    let mut i: usize = 0;
    while i < tracks.len()
        invariant
            i <= tracks@.len(),
            m == two_pow_32(),
            count == audio_tracks_of(tracks@.take(i as int)).len(),
            count <= i,
            count > 0 ==> last_end == audio_tracks_of(tracks@.take(i as int)).last().end_lsn,
            idt1 == start_sum(audio_tracks_of(tracks@.take(i as int))) % two_pow_32(),
            idt2 == weighted_start_sum(audio_tracks_of(tracks@.take(i as int))) % two_pow_32(),
        decreases tracks.len() - i,
    {
        let t = tracks[i];
        let ghost pre = audio_tracks_of(tracks@.take(i as int));
        assert(tracks@.take(i + 1).drop_last() == tracks@.take(i as int));
        assert(tracks@.take(i + 1).last() == t);
        if !t.track_is_data {
            let ghost a = pre.push(t);
            assert(audio_tracks_of(tracks@.take(i + 1)) == a);
            assert(a.drop_last() == pre);
            let so: u64 = if t.start_lsn == 0 { 1 } else { t.start_lsn as u64 };
            assert(so * (t.number as u64) <= 0xFFFF_FFFFu64 * 0xFFFF_FFFFu64) by (nonlinear_arith)
                requires
                    so <= 0xFFFF_FFFFu64,
                    t.number <= 0xFFFF_FFFFu32,
            ;
            let prod: u64 = so * (t.number as u64);
            proof {
                lemma_add_mod(start_sum(pre), t.start_lsn as int);
                lemma_add_mod(weighted_start_sum(pre), prod as int);
                vstd::arithmetic::div_mod::lemma_add_mod_noop(
                    weighted_start_sum(pre),
                    prod as int,
                    two_pow_32(),
                );
            }
            idt1 = (idt1 + t.start_lsn as u64) % m;
            idt2 = (idt2 + prod % m) % m;
            proof {
                vstd::arithmetic::div_mod::lemma_add_mod_noop(idt2 as int, prod as int, two_pow_32());
                vstd::arithmetic::div_mod::lemma_mod_twice(prod as int, two_pow_32());
            }
            count += 1;
            last_end = t.end_lsn;
        } else {
            assert(audio_tracks_of(tracks@.take(i + 1)) == pre);
        }
        i += 1;
    }
    assert(tracks@.take(tracks@.len() as int) == tracks@);
    if count == 0 {
        return Err(AccuRipError::NoAudioTracks);
    }
    let ghost a = audio_tracks_of(tracks@);
    let last: u64 = ((last_end as u64) + 1) % m;
    let k: u64 = (count as u64) + 1;
    proof {
        lemma_add_mod(start_sum(a), last as int);
        vstd::arithmetic::div_mod::lemma_add_mod_noop(start_sum(a), last as int, two_pow_32());
    }
    let id1: u64 = (idt1 + last) % m;
    assert(last * (k % m) <= 0xFFFF_FFFFu64 * 0xFFFF_FFFFu64) by (nonlinear_arith)
        requires
            last < 0x1_0000_0000u64,
            k % m < 0x1_0000_0000u64,
    ;
    let lk: u64 = (last * (k % m)) % m;
    proof {
        vstd::arithmetic::div_mod::lemma_mul_mod_noop_right(last as int, k as int, two_pow_32());
        vstd::arithmetic::div_mod::lemma_add_mod_noop(
            weighted_start_sum(a),
            last * k,
            two_pow_32(),
        );
        vstd::arithmetic::div_mod::lemma_mod_twice(weighted_start_sum(a), two_pow_32());
        vstd::arithmetic::div_mod::lemma_add_mod_noop(idt2 as int, lk as int, two_pow_32());
        vstd::arithmetic::div_mod::lemma_mod_twice((last * k) as int, two_pow_32());
        vstd::arithmetic::div_mod::lemma_mod_twice(start_sum(a), two_pow_32());
        vstd::arithmetic::div_mod::lemma_add_mod_noop(idt1 as int, last as int, two_pow_32());
        vstd::arithmetic::div_mod::lemma_mod_twice(last as int, two_pow_32());
    }
    let id2: u64 = (idt2 + lk) % m;
    Ok(AccuRipDiscIds { audio_tracks: count, id_type_1: id1 as u32, id_type_2: id2 as u32 })
}

// ---------------------------------------------------------------------------
// Request paths
// ---------------------------------------------------------------------------

/// `base/c/b/a/dBAR-NNN-id1-id2-cddb.bin`, where `a`, `b`, `c` are the
/// third-, second- and last hexadecimal digit of the first disc identifier
/// and the identifiers are written as eight lower-case hexadecimal digits.
pub open spec fn accurip_request_url(base_url: Seq<char>, ids: AccuRipDiscIds, cddb_id: u32) -> Seq<
    char,
> {
    base_url + "/"@ + hex_fixed(ids.id_type_1 as nat, 1, false) + "/"@ + hex_fixed(
        (ids.id_type_1 / 16) as nat,
        1,
        false,
    ) + "/"@ + hex_fixed((ids.id_type_1 / 256) as nat, 1, false) + "/dBAR-"@ + dec_pad(
        ids.audio_tracks as nat,
        3,
    ) + "-"@ + hex_fixed(ids.id_type_1 as nat, 8, false) + "-"@ + hex_fixed(
        ids.id_type_2 as nat,
        8,
        false,
    ) + "-"@ + hex_fixed(cddb_id as nat, 8, false) + ".bin"@
}

pub fn build_accurip_request_url(base_url: &str, ids: &AccuRipDiscIds, cddb_id: u32) -> (r: String)
    ensures
        r@ == accurip_request_url(base_url@, *ids, cddb_id),
{
    let mut out = crate::text::copy_str(base_url);
    out.append("/");
    push_hex(&mut out, ids.id_type_1 as u64, 1, false);
    out.append("/");
    push_hex(&mut out, (ids.id_type_1 / 16) as u64, 1, false);
    out.append("/");
    push_hex(&mut out, (ids.id_type_1 / 256) as u64, 1, false);
    out.append("/dBAR-");
    push_dec_pad(&mut out, ids.audio_tracks as u64, 3);
    out.append("-");
    push_hex(&mut out, ids.id_type_1 as u64, 8, false);
    out.append("-");
    push_hex(&mut out, ids.id_type_2 as u64, 8, false);
    out.append("-");
    push_hex(&mut out, cddb_id as u64, 8, false);
    out.append(".bin");
    out
}

// ---------------------------------------------------------------------------
// The binary database format
// ---------------------------------------------------------------------------

/// A little-endian 32-bit value at `at`.
pub open spec fn le_u32(d: Seq<u8>, at: int) -> int {
    d[at] as int + d[at + 1] as int * 256 + d[at + 2] as int * 65536 + d[at + 3] as int * 16777216
}

/// Bytes per database record: count, three identifiers, then per track a
/// confidence and two checksums.
pub open spec fn record_size(ids: AccuRipDiscIds) -> nat {
    (13 + 9 * ids.audio_tracks) as nat
}

/// Whether the record at `at` is for this disc.
pub open spec fn record_matches(d: Seq<u8>, at: int, ids: AccuRipDiscIds, cddb_id: u32) -> bool {
    &&& d[at] as int == ids.audio_tracks as int
    &&& le_u32(d, at + 1) == ids.id_type_1 as int
    &&& le_u32(d, at + 5) == ids.id_type_2 as int
    &&& le_u32(d, at + 9) == cddb_id as int
}

/// The entry for track `k` of the record at `at`.
pub open spec fn record_entry(d: Seq<u8>, at: int, k: int) -> AccuRipDbEntry {
    let o = at + 13 + 9 * k;
    AccuRipDbEntry {
        confidence: d[o],
        checksum: le_u32(d, o + 1) as u32,
        checksum_450: le_u32(d, o + 5) as u32,
    }
}

/// The entries for track `k` among the first `nrec` records, in file order;
/// records for another disc are skipped.
pub open spec fn track_entries(d: Seq<u8>, ids: AccuRipDiscIds, cddb_id: u32, k: int, nrec: nat) -> Seq<
    AccuRipDbEntry,
>
    decreases nrec,
{
    if nrec == 0 {
        Seq::empty()
    } else {
        let at = (nrec - 1) * record_size(ids);
        track_entries(d, ids, cddb_id, k, (nrec - 1) as nat) + if record_matches(d, at, ids, cddb_id) {
            seq![record_entry(d, at, k)]
        } else {
            Seq::<AccuRipDbEntry>::empty()
        }
    }
}

/// `s` (ordered by confidence) with `e` placed after every entry whose
/// confidence is at most its own.
pub open spec fn insert_by_confidence(s: Seq<AccuRipDbEntry>, e: AccuRipDbEntry) -> Seq<AccuRipDbEntry>
    decreases s.len(),
{
    if s.len() == 0 {
        seq![e]
    } else if s.last().confidence <= e.confidence {
        s.push(e)
    } else {
        insert_by_confidence(s.drop_last(), e).push(s.last())
    }
}

/// `s` stably sorted by confidence.
pub open spec fn sorted_by_confidence(s: Seq<AccuRipDbEntry>) -> Seq<AccuRipDbEntry>
    decreases s.len(),
{
    if s.len() == 0 {
        Seq::empty()
    } else {
        insert_by_confidence(sorted_by_confidence(s.drop_last()), s.last())
    }
}

/// The highest confidence in `s`, or 0.
pub open spec fn max_confidence(s: Seq<AccuRipDbEntry>) -> int
    decreases s.len(),
{
    if s.len() == 0 {
        0
    } else {
        let m = max_confidence(s.drop_last());
        if s.last().confidence as int > m {
            s.last().confidence as int
        } else {
            m
        }
    }
}

/// What the database says of track `k`.
pub open spec fn track_matches_for(
    d: Seq<u8>,
    ids: AccuRipDiscIds,
    cddb_id: u32,
    k: int,
    m: AccuRipTrackMatches,
) -> bool {
    let found = track_entries(d, ids, cddb_id, k, (d.len() / record_size(ids)) as nat);
    &&& m.entries@ == sorted_by_confidence(found)
    &&& m.max_confidence as int == max_confidence(found)
}

/// A successfully parsed database answer for `ids`: one match list per audio
/// track, and `Mismatch` when no record was for this disc.
pub open spec fn parsed_db(d: Seq<u8>, ids: AccuRipDiscIds, cddb_id: u32, r: AccuRipLookupResult) -> bool {
    let nrec = (d.len() / record_size(ids)) as nat;
    &&& r.disc_ids == ids
    &&& r.track_matches@.len() == ids.audio_tracks
    &&& forall|k: int|
        0 <= k < ids.audio_tracks ==> #[trigger] track_matches_for(
            d,
            ids,
            cddb_id,
            k,
            r.track_matches@[k],
        )
    &&& r.status == if (forall|k: int|
        0 <= k < ids.audio_tracks ==> #[trigger] track_entries(d, ids, cddb_id, k, nrec).len()
            == 0) {
        AccuDbStatus::Mismatch
    } else {
        AccuDbStatus::Found
    }
}

pub open spec fn is_parse_error(e: AccuRipError, msg: Seq<char>) -> bool {
    e matches AccuRipError::ParseError(m) && m@ == msg
}

fn read_u8(data: &[u8], off: &mut usize) -> (r: Result<u8, AccuRipError>)
    ensures
        *old(off) < data@.len() ==> r == Ok::<u8, AccuRipError>(data@[*old(off) as int])
            && *final(off) == *old(off) + 1,
        *old(off) >= data@.len() ==> (r matches Err(e) && is_parse_error(
            e,
            "unexpected end of data"@,
        ) && *final(off) == *old(off)),
{
    if *off >= data.len() {
        return Err(AccuRipError::ParseError(String::from_str("unexpected end of data")));
    }
    let v = data[*off];
    *off = *off + 1;
    Ok(v)
}

fn read_le_u32(data: &[u8], off: &mut usize) -> (r: Result<u32, AccuRipError>)
    ensures
        *old(off) + 4 <= data@.len() ==> (r matches Ok(v) && v as int == le_u32(
            data@,
            *old(off) as int,
        ) && *final(off) == *old(off) + 4),
        *old(off) + 4 > data@.len() ==> (r matches Err(e) && is_parse_error(
            e,
            "unexpected end of data"@,
        ) && *final(off) == *old(off)),
{
    let n = data.len();
    if *off > n || n - *off < 4 {
        return Err(AccuRipError::ParseError(String::from_str("unexpected end of data")));
    }
    let o = *off;
    let v: u32 = data[o] as u32 + data[o + 1] as u32 * 256 + data[o + 2] as u32 * 65536
        + data[o + 3] as u32 * 16777216;
    *off = o + 4;
    Ok(v)
}

fn insert_entry(v: &Vec<AccuRipDbEntry>, e: AccuRipDbEntry) -> (r: Vec<AccuRipDbEntry>)
    ensures
        r@ == insert_by_confidence(v@, e),
{
    let mut p = v.len();
    assert(v@.take(p as int) == v@);
    assert(v@.skip(p as int) =~= Seq::<AccuRipDbEntry>::empty());
    assert(insert_by_confidence(v@, e) == insert_by_confidence(v@.take(p as int), e) + v@.skip(
        p as int,
    ));
    while p > 0 && v[p - 1].confidence > e.confidence
        invariant
            p <= v@.len(),
            insert_by_confidence(v@, e) == insert_by_confidence(v@.take(p as int), e) + v@.skip(
                p as int,
            ),
        decreases p,
    {
        let ghost t = v@.take(p as int);
        assert(t.drop_last() == v@.take(p - 1));
        assert(t.last() == v@[p - 1]);
        assert(insert_by_confidence(t, e) == insert_by_confidence(v@.take(p - 1), e).push(v@[p - 1]));
        assert(v@.skip(p - 1) == seq![v@[p - 1]] + v@.skip(p as int));
        assert(insert_by_confidence(v@.take(p - 1), e).push(v@[p - 1]) + v@.skip(p as int)
            =~= insert_by_confidence(v@.take(p - 1), e) + v@.skip(p - 1));
        p -= 1;
    }
    let mut out: Vec<AccuRipDbEntry> = Vec::new();
    let mut i: usize = 0;
    while i < p
        invariant
            i <= p <= v@.len(),
            out@ == v@.take(i as int),
        decreases p - i,
    {
        out.push(v[i]);
        assert(v@.take(i + 1) == v@.take(i as int).push(v@[i as int]));
        i += 1;
    }
    assert(insert_by_confidence(v@.take(p as int), e) == v@.take(p as int).push(e));
    out.push(e);
    let mut j = p;
    while j < v.len()
        invariant
            p <= j <= v@.len(),
            out@ == v@.take(p as int).push(e) + v@.subrange(p as int, j as int),
        decreases v.len() - j,
    {
        out.push(v[j]);
        assert(v@.subrange(p as int, j + 1) == v@.subrange(p as int, j as int).push(v@[j as int]));
        j += 1;
    }
    assert(v@.subrange(p as int, v@.len() as int) == v@.skip(p as int));
    out
}

proof fn lemma_record_bounds(r: int, nrec: int, size: int)
    requires
        0 <= r < nrec,
        size >= 13,
    ensures
        r * size + size <= nrec * size,
        (r + 1) * size == r * size + size,
        r * size >= 0,
{
    assert((r + 1) * size == r * size + size) by (nonlinear_arith);
    assert((r + 1) * size <= nrec * size) by (nonlinear_arith)
        requires
            r + 1 <= nrec,
            size >= 13,
    ;
    assert(r * size >= 0) by (nonlinear_arith)
        requires
            r >= 0,
            size >= 13,
    ;
}

/// Parses a database answer for the disc `disc_ids`: a sequence of records
/// of `13 + 9 * tracks` bytes; records for another disc are skipped, and each
/// track's entries end up ordered by confidence (stable).
pub fn parse_accurip_db_blob(data: &[u8], disc_ids: AccuRipDiscIds, cddb_id: u32) -> (r: Result<
    AccuRipLookupResult,
    AccuRipError,
>)
    requires
        record_size(disc_ids) <= usize::MAX,
    ensures
        data@.len() % record_size(disc_ids) != 0 <==> r is Err,
        r matches Err(e) ==> is_parse_error(e, "unexpected number of bytes"@),
        r matches Ok(x) ==> parsed_db(data@, disc_ids, cddb_id, x) && x.request_url@ == Seq::<
            char,
        >::empty(),
{
    let n = disc_ids.audio_tracks;
    let dlen = data.len();
    let size: usize = 13 + 9 * n;
    if data.len() % size != 0 {
        return Err(AccuRipError::ParseError(String::from_str("unexpected number of bytes")));
    }
    let nrec = data.len() / size;
    proof {
        vstd::arithmetic::div_mod::lemma_fundamental_div_mod(data@.len() as int, size as int);
        vstd::arithmetic::mul::lemma_mul_is_commutative(size as int, nrec as int);
        assert(data@.len() == nrec * size);
    }
    let mut track_matches: Vec<AccuRipTrackMatches> = Vec::new();
    let mut any = false;
    let mut k: usize = 0;
    while k < n
        invariant
            k <= n,
            n == disc_ids.audio_tracks,
            size as int == record_size(disc_ids),
            nrec == data@.len() / record_size(disc_ids),
            data@.len() == nrec * size,
            data@.len() <= usize::MAX,
            track_matches@.len() == k,
            forall|j: int|
                0 <= j < k ==> #[trigger] track_matches_for(
                    data@,
                    disc_ids,
                    cddb_id,
                    j,
                    track_matches@[j],
                ),
            any == exists|j: int|
                0 <= j < k && #[trigger] track_entries(data@, disc_ids, cddb_id, j, nrec as nat).len()
                    > 0,
        decreases n - k,
    {
        let mut sorted: Vec<AccuRipDbEntry> = Vec::new();
        let mut maxc: i32 = 0;
        let mut rec: usize = 0;
        let mut at: usize = 0;
        while rec < nrec
            invariant
                k < n,
                n == disc_ids.audio_tracks,
                size as int == record_size(disc_ids),
                data@.len() == nrec * size,
                data@.len() <= usize::MAX,
                rec <= nrec,
                at == rec * size,
                sorted@ == sorted_by_confidence(
                    track_entries(data@, disc_ids, cddb_id, k as int, rec as nat),
                ),
                maxc as int == max_confidence(
                    track_entries(data@, disc_ids, cddb_id, k as int, rec as nat),
                ),
                0 <= maxc <= 255,
            decreases nrec - rec,
        {
            proof {
                lemma_record_bounds(rec as int, nrec as int, size as int);
            }
            let ghost prev = track_entries(data@, disc_ids, cddb_id, k as int, rec as nat);
            assert(((rec + 1) as nat - 1) * record_size(disc_ids) == at);
            let mut off = at;
            let cnt = read_u8(data, &mut off);
            let id1 = read_le_u32(data, &mut off);
            let id2 = read_le_u32(data, &mut off);
            let cd = read_le_u32(data, &mut off);
            let matches = match (cnt, id1, id2, cd) {
                (Ok(c), Ok(a), Ok(b), Ok(x)) => c as usize == n && a == disc_ids.id_type_1 && b
                    == disc_ids.id_type_2 && x == cddb_id,
                _ => false,
            };
            assert(matches == record_matches(data@, at as int, disc_ids, cddb_id));
            if matches {
                assert(9 * k + 9 <= 9 * n);
                let mut eo = at + 13 + 9 * k;
                let conf = read_u8(data, &mut eo);
                let ck = read_le_u32(data, &mut eo);
                let ck450 = read_le_u32(data, &mut eo);
                match (conf, ck, ck450) {
                    (Ok(c), Ok(a), Ok(b)) => {
                        let e = AccuRipDbEntry { confidence: c, checksum: a, checksum_450: b };
                        assert(e == record_entry(data@, at as int, k as int));
                        let ghost now = prev.push(e);
                        assert(track_entries(data@, disc_ids, cddb_id, k as int, (rec + 1) as nat)
                            == now);
                        assert(now.drop_last() == prev);
                        sorted = insert_entry(&sorted, e);
                        if (c as i32) > maxc {
                            maxc = c as i32;
                        }
                    },
                    _ => {},
                }
            } else {
                assert(track_entries(data@, disc_ids, cddb_id, k as int, (rec + 1) as nat)
                    =~= prev);
            }
            rec += 1;
            at += size;
        }
        if sorted.len() > 0 {
            any = true;
        }
        proof {
            if sorted@.len() == 0 {
                lemma_sorted_len(track_entries(data@, disc_ids, cddb_id, k as int, nrec as nat));
            } else {
                lemma_sorted_len(track_entries(data@, disc_ids, cddb_id, k as int, nrec as nat));
            }
        }
        let tm = AccuRipTrackMatches { entries: sorted, max_confidence: maxc };
        track_matches.push(tm);
        assert(track_matches_for(data@, disc_ids, cddb_id, k as int, track_matches@[k as int]));
        k += 1;
    }
    let status = if any {
        AccuDbStatus::Found
    } else {
        AccuDbStatus::Mismatch
    };
    Ok(
        AccuRipLookupResult {
            status,
            request_url: String::new(),
            disc_ids,
            track_matches,
        },
    )
}

proof fn lemma_insert_len(s: Seq<AccuRipDbEntry>, e: AccuRipDbEntry)
    ensures
        insert_by_confidence(s, e).len() == s.len() + 1,
    decreases s.len(),
{
    if s.len() > 0 && s.last().confidence > e.confidence {
        lemma_insert_len(s.drop_last(), e);
    }
}

proof fn lemma_sorted_len(s: Seq<AccuRipDbEntry>)
    ensures
        sorted_by_confidence(s).len() == s.len(),
    decreases s.len(),
{
    if s.len() > 0 {
        lemma_sorted_len(s.drop_last());
        lemma_insert_len(sorted_by_confidence(s.drop_last()), s.last());
    }
}

// ---------------------------------------------------------------------------
// Confidence lookups
// ---------------------------------------------------------------------------

/// The highest confidence among the entries whose checksum (the 450-frame
/// one when `is_450`) is `checksum`, or -1.
pub open spec fn best_confidence(entries: Seq<AccuRipDbEntry>, checksum: u32, is_450: bool) -> int
    decreases entries.len(),
{
    if entries.len() == 0 {
        -1
    } else {
        let b = best_confidence(entries.drop_last(), checksum, is_450);
        let e = entries.last();
        let hit = if is_450 {
            e.checksum_450 == checksum
        } else {
            e.checksum == checksum
        };
        if hit && e.confidence as int > b {
            e.confidence as int
        } else {
            b
        }
    }
}

/// The confidence the database gives a checksum: 0 unless the lookup found
/// the disc, -1 when no entry has the checksum.
pub fn find_accurip_confidence(
    status: AccuDbStatus,
    entries: &[AccuRipDbEntry],
    checksum: u32,
    is_450: bool,
) -> (r: i32)
    ensures
        r as int == if status != AccuDbStatus::Found {
            0
        } else {
            best_confidence(entries@, checksum, is_450)
        },
{
    if status != AccuDbStatus::Found {
        return 0;
    }
    let mut best: i32 = -1;
    let mut i: usize = 0;
    while i < entries.len()
        invariant
            i <= entries@.len(),
            best as int == best_confidence(entries@.take(i as int), checksum, is_450),
            -1 <= best <= 255,
        decreases entries.len() - i,
    {
        let e = entries[i];
        assert(entries@.take(i + 1).drop_last() == entries@.take(i as int));
        assert(entries@.take(i + 1).last() == e);
        let hit = if is_450 {
            e.checksum_450 == checksum
        } else {
            e.checksum == checksum
        };
        if hit && (e.confidence as i32) > best {
            best = e.confidence as i32;
        }
        i += 1;
    }
    assert(entries@.take(entries@.len() as int) == entries@);
    best
}

// ---------------------------------------------------------------------------
// Interpreting a response
// ---------------------------------------------------------------------------

pub open spec fn html_bytes() -> Seq<u8> {
    seq![104u8, 116u8, 109u8, 108u8]
}

pub open spec fn opt_str_chars(o: Option<&str>) -> Option<Seq<char>> {
    match o {
        Some(s) => Some(s@),
        None => None,
    }
}

/// An answer that is not declared as binary and whose first 64 bytes contain
/// `html` is an error page rather than database records.
pub open spec fn looks_like_html(content_type: Option<Seq<char>>, body: Seq<u8>) -> bool {
    let binary = content_type matches Some(ct) && starts_with(ct, "application/octet-stream"@);
    let limit = if body.len() < 64 { body.len() as int } else { 64 };
    !binary && exists|i: int| 0 <= i && i + 4 <= limit && #[trigger] body.subrange(i, i + 4) == html_bytes()
}

fn is_probable_html_miss(content_type: Option<&str>, body: &[u8]) -> (r: bool)
    ensures
        r == looks_like_html(opt_str_chars(content_type), body@),
{
    let binary = match content_type {
        Some(ct) => crate::text::str_starts_with(ct, "application/octet-stream"),
        None => false,
    };
    if binary {
        return false;
    }
    let limit: usize = if body.len() < 64 { body.len() } else { 64 };
    let mut i: usize = 0;
    while i + 4 <= limit
        invariant
            i <= limit,
            !binary,
            binary == (opt_str_chars(content_type) matches Some(ct) && starts_with(
                ct,
                "application/octet-stream"@,
            )),
            limit == if body@.len() < 64 { body@.len() as int } else { 64 },
            limit <= body@.len(),
            limit <= 64,
            forall|j: int| 0 <= j < i ==> #[trigger] body@.subrange(j, j + 4) != html_bytes(),
        decreases limit - i,
    {
        if body[i] == 104u8 && body[i + 1] == 116u8 && body[i + 2] == 109u8 && body[i + 3] == 108u8 {
            assert(body@.subrange(i as int, i + 4) =~= html_bytes());
            return true;
        }
        assert(body@.subrange(i as int, i + 4)[0] == body@[i as int]);
        assert(body@.subrange(i as int, i + 4)[1] == body@[i + 1]);
        assert(body@.subrange(i as int, i + 4)[2] == body@[i + 2]);
        assert(body@.subrange(i as int, i + 4)[3] == body@[i + 3]);
        i += 1;
    }
    false
}

/// One empty match list per audio track.
pub open spec fn no_matches(m: Seq<AccuRipTrackMatches>, n: usize) -> bool {
    &&& m.len() == n
    &&& forall|k: int|
        0 <= k < n ==> (#[trigger] m[k]).entries@.len() == 0 && m[k].max_confidence == 0
}

fn empty_matches(n: usize) -> (r: Vec<AccuRipTrackMatches>)
    ensures
        no_matches(r@, n),
{
    let mut out: Vec<AccuRipTrackMatches> = Vec::new();
    let mut i: usize = 0;
    while i < n
        invariant
            i <= n,
            no_matches(out@, i),
        decreases n - i,
    {
        out.push(AccuRipTrackMatches { entries: Vec::new(), max_confidence: 0 });
        i += 1;
    }
    out
}

/// What a lookup reports for the database's answer: `NotFound` for a 404 or
/// an HTML error page, `Error` for another status outside 200..300, and the
/// parsed records otherwise.
pub fn lookup_result_from_response(
    disc_ids: AccuRipDiscIds,
    request_url: String,
    resp: &AccuRipHttpResponse,
    cddb_id: u32,
) -> (r: Result<AccuRipLookupResult, AccuRipError>)
    requires
        record_size(disc_ids) <= usize::MAX,
    ensures
        r matches Ok(x) ==> x.request_url@ == request_url@ && x.disc_ids == disc_ids,
        resp.status_code == 404 ==> (r matches Ok(x) && x.status == AccuDbStatus::NotFound
            && no_matches(x.track_matches@, disc_ids.audio_tracks)),
        resp.status_code != 404 && !(200 <= resp.status_code < 300) ==> (r matches Ok(x) && x.status
            == AccuDbStatus::Error && no_matches(x.track_matches@, disc_ids.audio_tracks)),
        200 <= resp.status_code < 300 && looks_like_html(
            opt_string_chars(resp.content_type),
            resp.body@,
        ) ==> (r matches Ok(x) && x.status == AccuDbStatus::NotFound && no_matches(
            x.track_matches@,
            disc_ids.audio_tracks,
        )),
        200 <= resp.status_code < 300 && !looks_like_html(
            opt_string_chars(resp.content_type),
            resp.body@,
        ) ==> (resp.body@.len() % record_size(disc_ids) != 0 <==> r is Err) && (r matches Err(e)
            ==> is_parse_error(e, "unexpected number of bytes"@)) && (r matches Ok(x) ==> parsed_db(
            resp.body@,
            disc_ids,
            cddb_id,
            x,
        )),
{
    if resp.status_code == 404 {
        return Ok(
            AccuRipLookupResult {
                status: AccuDbStatus::NotFound,
                request_url,
                disc_ids,
                track_matches: empty_matches(disc_ids.audio_tracks),
            },
        );
    }
    if !(200 <= resp.status_code && resp.status_code < 300) {
        return Ok(
            AccuRipLookupResult {
                status: AccuDbStatus::Error,
                request_url,
                disc_ids,
                track_matches: empty_matches(disc_ids.audio_tracks),
            },
        );
    }
    let ct: Option<&str> = match &resp.content_type {
        Some(s) => Some(s.as_str()),
        None => None,
    };
    if is_probable_html_miss(ct, resp.body.as_slice()) {
        return Ok(
            AccuRipLookupResult {
                status: AccuDbStatus::NotFound,
                request_url,
                disc_ids,
                track_matches: empty_matches(disc_ids.audio_tracks),
            },
        );
    }
    match parse_accurip_db_blob(resp.body.as_slice(), disc_ids, cddb_id) {
        Err(e) => Err(e),
        Ok(parsed) => Ok(
            AccuRipLookupResult {
                status: parsed.status,
                request_url,
                disc_ids: parsed.disc_ids,
                track_matches: parsed.track_matches,
            },
        ),
    }
}

pub open spec fn opt_string_chars(o: Option<String>) -> Option<Seq<char>> {
    match o {
        Some(s) => Some(s@),
        None => None,
    }
}

/// The report on the database's answer `resp` to the request `url` for
/// `ids`: `NotFound` for a 404 or an HTML error page, `Error` for another
/// status outside 200..300, each with an empty match list per audio track,
/// and otherwise the parsed records, or a parse error when the body is not
/// whole records.
pub open spec fn answer_read(
    r: Result<AccuRipLookupResult, AccuRipError>,
    ids: AccuRipDiscIds,
    url: Seq<char>,
    resp: &AccuRipHttpResponse,
    cddb_id: u32,
) -> bool {
    let html = looks_like_html(opt_string_chars(resp.content_type), resp.body@);
    &&& r matches Ok(x) ==> x.request_url@ == url && x.disc_ids == ids
    &&& resp.status_code == 404 ==> (r matches Ok(x) && x.status == AccuDbStatus::NotFound
        && no_matches(x.track_matches@, ids.audio_tracks))
    &&& resp.status_code != 404 && !(200 <= resp.status_code < 300) ==> (r matches Ok(x) && x.status
        == AccuDbStatus::Error && no_matches(x.track_matches@, ids.audio_tracks))
    &&& 200 <= resp.status_code < 300 && html ==> (r matches Ok(x) && x.status
        == AccuDbStatus::NotFound && no_matches(x.track_matches@, ids.audio_tracks))
    &&& 200 <= resp.status_code < 300 && !html ==> (resp.body@.len() % record_size(ids) != 0
        <==> r is Err) && (r matches Err(e) ==> is_parse_error(e, "unexpected number of bytes"@)) && (
    r matches Ok(x) ==> parsed_db(resp.body@, ids, cddb_id, x))
}

// ---------------------------------------------------------------------------
// The service
// ---------------------------------------------------------------------------

/// An AccurateRip client: the transport that fetches a path, the database's
/// base address (without trailing `/`) and the user agent it announces.
#[derive(Debug, Clone)]
pub struct AccuRipService<H> {
    http: H,
    base_url: String,
    user_agent: String,
}

impl<H> AccuRipService<H> {
    pub closed spec fn base_url_spec(&self) -> Seq<char> {
        self.base_url@
    }

    pub closed spec fn user_agent_spec(&self) -> Seq<char> {
        self.user_agent@
    }

    pub fn new(http: H, base_url: &str, user_agent: &str) -> (r: Self)
        ensures
            r.base_url_spec() == trim_end_char(base_url@, '/'),
            r.user_agent_spec() == user_agent@,
    {
        AccuRipService {
            http,
            base_url: trim_end_matches_char(base_url, '/'),
            user_agent: crate::text::copy_str(user_agent),
        }
    }

    pub fn http(&self) -> &H {
        &self.http
    }

    pub fn user_agent(&self) -> (r: &str)
        ensures
            r@ == self.user_agent_spec(),
    {
        self.user_agent.as_str()
    }

    /// The disc identifiers of `tracks` and the database path to ask for them.
    pub fn request_for(&self, tracks: &[AccuRipTrackInput], cddb_id: u32) -> (r: Result<
        (AccuRipDiscIds, String),
        AccuRipError,
    >)
        requires
            tracks@.len() < u64::MAX,
        ensures
            match accurip_ids(tracks@) {
                Some(ids) => r matches Ok((i, u)) && i == ids && u@ == accurip_request_url(
                    self.base_url_spec(),
                    ids,
                    cddb_id,
                ),
                None => r matches Err(e) && e == AccuRipError::NoAudioTracks,
            },
    {
        match compute_accurip_ids(tracks) {
            Err(e) => Err(e),
            Ok(ids) => {
                let url = build_accurip_request_url(self.base_url.as_str(), &ids, cddb_id);
                Ok((ids, url))
            },
        }
    }

    /// A lookup once the database has answered `resp` to this service's
    /// request for `tracks`: no audio track is an error before any request;
    /// otherwise the report is for the disc's identifiers and the request
    /// path, and reads the answer as `lookup_result_from_response` does (a
    /// 404 is `NotFound` with an empty match list per audio track).
    pub fn lookup_with_answer(
        &self,
        tracks: &[AccuRipTrackInput],
        cddb_id: u32,
        resp: &AccuRipHttpResponse,
    ) -> (r: Result<AccuRipLookupResult, AccuRipError>)
        requires
            13 + 9 * tracks@.len() <= usize::MAX,
        ensures
            match accurip_ids(tracks@) {
                None => r == Err::<AccuRipLookupResult, AccuRipError>(AccuRipError::NoAudioTracks),
                Some(ids) => answer_read(
                    r,
                    ids,
                    accurip_request_url(self.base_url_spec(), ids, cddb_id),
                    resp,
                    cddb_id,
                ),
            },
    {
        proof {
            lemma_audio_tracks_len(tracks@);
        }
        match self.request_for(tracks, cddb_id) {
            Err(e) => Err(e),
            Ok((ids, url)) => lookup_result_from_response(ids, url, resp, cddb_id),
        }
    }
}

} // verus!
