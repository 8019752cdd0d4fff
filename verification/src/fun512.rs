//! Rip checksums (EAC CRC-32, AccurateRip v1/v2) and the FUN512 signature
//! that seals a rip log.
use vstd::prelude::*;

use crate::hashing::{
    base64_of, base64_standard, crc32_fed, crc32_finalize, crc32_ieee, crc32_new, crc32_update,
    sha512_digest, sha512_of,
};
use crate::text::{chars_of, push_char, string_of, trim_end_char};
use vstd::wrapping::{u32_specs, u64_specs, u8_specs};

verus! {

/// The line of a log that carries its signature starts with this text.
pub const LOG_FUN512_MARKER: &'static str = "Log FUN512: ";

/// Signatures are accepted for variant indices below this.
pub const FUN512_MAX_IDX: u8 = 16;

/// Samples (of four bytes) per CD frame.
pub const SAMPLES_PER_FRAME: u32 = 588;

// ---------------------------------------------------------------------------
// CRC-32
// ---------------------------------------------------------------------------

/// The EAC CRC-32 of `data`.
pub fn eac_crc32_from_bytes(data: &[u8]) -> (r: u32)
    ensures
        r == crc32_ieee(data@),
{
    let mut hasher = crc32_new();
    crc32_update(&mut hasher, data);
    assert(Seq::<u8>::empty() + data@ == data@);
    crc32_finalize(hasher)
}

#[derive(Debug, Clone, Copy, PartialEq, Eq, Structural)]
pub enum LogVerify {
    Valid,
    Mismatch,
    NoChecksum,
    TrailingData,
    IoError,
}

#[derive(Debug, Clone, Copy, PartialEq, Eq, Structural)]
pub struct ChecksumResult {
    pub eac_crc: u32,
    pub accurip_checksum_v1: u32,
    pub accurip_checksum_v1_450: u32,
    pub accurip_checksum_v2: u32,
}

// ---------------------------------------------------------------------------
// AccurateRip sums
// ---------------------------------------------------------------------------

/// The little-endian sample `j` of `d`.
pub open spec fn sample_at(d: Seq<u8>, j: int) -> u32 {
    (d[4 * j] as int + d[4 * j + 1] as int * 256 + d[4 * j + 2] as int * 65536 + d[4 * j + 3] as int
        * 16777216) as u32
}

/// The whole samples of `d` (a trailing partial sample is left out).
pub open spec fn samples_of(d: Seq<u8>) -> Seq<u32> {
    Seq::new(d.len() / 4, |j: int| sample_at(d, j))
}

/// First multiplier of the frame-450 window.
pub open spec fn window_450_start() -> u32 {
    264600u32
}

/// The running AccurateRip state `(multiplier, v1 sum, frame-450 sum, v2
/// sum)` after one more sample `val`. Samples whose multiplier lies in
/// `[start, end]` add `multiplier * val` to the v1 sum and the high and low
/// halves of the 64-bit product to the v2 sum; samples of frame 450 add
/// `val` times their position in that frame (from 1) to the frame-450 sum.
/// All arithmetic wraps at 32 bits.
pub open spec fn acu_step(start: u32, end: u32, st: (u32, u32, u32, u32), val: u32) -> (
    u32,
    u32,
    u32,
    u32,
) {
    let (mult, s1, s450, s2) = st;
    let tmp = u64_specs::wrapping_mul(val as u64, mult as u64);
    let lo = (tmp & 0xFFFF_FFFFu64) as u32;
    let hi = (tmp >> 32u64) as u32;
    let in_window = mult >= start && mult <= end;
    let s1b = if in_window {
        u32_specs::wrapping_add(s1, u32_specs::wrapping_mul(mult, val))
    } else {
        s1
    };
    let s2b = if in_window {
        u32_specs::wrapping_add(u32_specs::wrapping_add(s2, hi), lo)
    } else {
        s2
    };
    let prev = u32_specs::wrapping_sub(mult, 1);
    let s450b = if prev >= window_450_start() && prev < 265188u32 {
        u32_specs::wrapping_add(
            s450,
            u32_specs::wrapping_mul(val, u32_specs::wrapping_sub(mult, window_450_start())),
        )
    } else {
        s450
    };
    (u32_specs::wrapping_add(mult, 1), s1b, s450b, s2b)
}

/// The state after the samples `vals`, in order.
pub open spec fn acu_run(start: u32, end: u32, st: (u32, u32, u32, u32), vals: Seq<u32>) -> (
    u32,
    u32,
    u32,
    u32,
)
    decreases vals.len(),
{
    if vals.len() == 0 {
        st
    } else {
        acu_step(start, end, acu_run(start, end, st, vals.drop_last()), vals.last())
    }
}

/// Checksum state for one track: a CRC-32 over all bytes and the AccurateRip
/// sums over the samples inside `[acu_start, acu_end]` (by 1-based sample
/// number).
#[derive(Debug)]
pub struct ChecksumCtx {
    crc32: crc32fast::Hasher,
    acu_start: u32,
    acu_end: u32,
    acu_mult: u32,
    acu_sum_1: u32,
    acu_sum_1_450: u32,
    acu_sum_2: u32,
}

impl ChecksumCtx {
    /// The bytes checksummed so far.
    pub closed spec fn fed(&self) -> Seq<u8> {
        crc32_fed(self.crc32)
    }

    /// The window of sample numbers that count for AccurateRip.
    pub closed spec fn window(&self) -> (u32, u32) {
        (self.acu_start, self.acu_end)
    }

    /// The running AccurateRip state.
    pub closed spec fn acu_state(&self) -> (u32, u32, u32, u32) {
        (self.acu_mult, self.acu_sum_1, self.acu_sum_1_450, self.acu_sum_2)
    }

    /// A context for a track of `nb_samples` samples; the first track skips
    /// its first five frames and the last track its last five.
    pub fn new(nb_samples: u32, accurip_track_is_first: bool, accurip_track_is_last: bool) -> (r:
        Self)
        ensures
            r.fed() == Seq::<u8>::empty(),
            r.window() == (
                if accurip_track_is_first {
                    2940u32
                } else {
                    0u32
                },
                if accurip_track_is_last {
                    u32_specs::wrapping_sub(nb_samples, 2940u32)
                } else {
                    nb_samples
                },
            ),
            r.acu_state() == (1u32, 0u32, 0u32, 0u32),
    {
        let mut acu_start: u32 = 0;
        let mut acu_end = nb_samples;
        if accurip_track_is_first {
            acu_start = acu_start.wrapping_add(SAMPLES_PER_FRAME * 5);
        }
        if accurip_track_is_last {
            acu_end = acu_end.wrapping_sub(SAMPLES_PER_FRAME * 5);
        }
        ChecksumCtx {
            crc32: crc32_new(),
            acu_start,
            acu_end,
            acu_mult: 1,
            acu_sum_1: 0,
            acu_sum_1_450: 0,
            acu_sum_2: 0,
        }
    }

    /// Feeds a chunk: all its bytes to the CRC, its whole samples to the
    /// AccurateRip sums.
    pub fn process_bytes(&mut self, data: &[u8])
        ensures
            final(self).fed() == old(self).fed() + data@,
            final(self).window() == old(self).window(),
            final(self).acu_state() == acu_run(
                old(self).window().0,
                old(self).window().1,
                old(self).acu_state(),
                samples_of(data@),
            ),
    {
        if data.len() == 0 {
            assert(old(self).fed() + data@ =~= old(self).fed());
            assert(samples_of(data@) =~= Seq::<u32>::empty());
            return;
        }
        crc32_update(&mut self.crc32, data);
        let sample_count = data.len() / 4;
        let ghost sv = samples_of(data@);
        let mut j: usize = 0;
        assert(sv.take(0) =~= Seq::<u32>::empty());
        let dl = data.len();
        while j < sample_count
            invariant
                sample_count == data@.len() / 4,
                dl == data@.len(),
                sv == samples_of(data@),
                j <= sample_count,
                self.fed() == old(self).fed() + data@,
                self.window() == old(self).window(),
                self.acu_state() == acu_run(
                    old(self).window().0,
                    old(self).window().1,
                    old(self).acu_state(),
                    sv.take(j as int),
                ),
            decreases sample_count - j,
        {
            assert(j * 4 + 4 <= dl) by (nonlinear_arith)
                requires
                    j < sample_count,
                    sample_count == dl / 4,
            ;
            let off = j * 4;
            let val: u32 = data[off] as u32 + data[off + 1] as u32 * 256 + data[off + 2] as u32
                * 65536 + data[off + 3] as u32 * 16777216;
            assert(val == sv[j as int]);
            let ghost before = self.acu_state();
            if self.acu_mult >= self.acu_start && self.acu_mult <= self.acu_end {
                let tmp = (val as u64).wrapping_mul(self.acu_mult as u64);
                let lo = (tmp & 0xFFFF_FFFFu64) as u32;
                let hi = (tmp >> 32u64) as u32;
                self.acu_sum_1 = self.acu_sum_1.wrapping_add(self.acu_mult.wrapping_mul(val));
                self.acu_sum_2 = self.acu_sum_2.wrapping_add(hi);
                self.acu_sum_2 = self.acu_sum_2.wrapping_add(lo);
            }
            let prev = self.acu_mult.wrapping_sub(1);
            let start: u32 = 450 * SAMPLES_PER_FRAME;
            let end: u32 = 451 * SAMPLES_PER_FRAME;
            if prev >= start && prev < end {
                let mult = self.acu_mult.wrapping_sub(start);
                self.acu_sum_1_450 = self.acu_sum_1_450.wrapping_add(val.wrapping_mul(mult));
            }
            self.acu_mult = self.acu_mult.wrapping_add(1);
            assert(sv.take(j + 1).drop_last() == sv.take(j as int));
            assert(sv.take(j + 1).last() == val);
            assert(self.acu_state() == acu_step(
                old(self).window().0,
                old(self).window().1,
                before,
                val,
            ));
            j += 1;
        }
        assert(sv.take(sample_count as int) == sv);
    }

    /// The checksums of everything fed.
    pub fn finalize(self) -> (r: ChecksumResult)
        ensures
            r.eac_crc == crc32_ieee(self.fed()),
            r.accurip_checksum_v1 == self.acu_state().1,
            r.accurip_checksum_v1_450 == self.acu_state().2,
            r.accurip_checksum_v2 == self.acu_state().3,
    {
        let s1 = self.acu_sum_1;
        let s450 = self.acu_sum_1_450;
        let s2 = self.acu_sum_2;
        ChecksumResult {
            eac_crc: crc32_finalize(self.crc32),
            accurip_checksum_v1: s1,
            accurip_checksum_v1_450: s450,
            accurip_checksum_v2: s2,
        }
    }
}

// ---------------------------------------------------------------------------
// FUN512
// ---------------------------------------------------------------------------

/// Every byte XOR-ed with `0x81 + idx` (wrapping).
pub open spec fn whitened(d: Seq<u8>, idx: u8) -> Seq<u8> {
    d.map_values(|b: u8| b ^ u8_specs::wrapping_add(0x81u8, idx))
}

/// Byte `j` XOR-ed with bytes `0..k` other than itself, in order.
pub open spec fn xor_others(d: Seq<u8>, j: int, k: nat) -> u8
    decreases k,
{
    if k == 0 {
        d[j]
    } else {
        let a = xor_others(d, j, (k - 1) as nat);
        if k - 1 != j {
            a ^ d[k - 1]
        } else {
            a
        }
    }
}

/// Rows `0..j` mixed in turn: each byte becomes the XOR of itself with all
/// other bytes as they stand when its turn comes.
pub open spec fn mixed_rows(d: Seq<u8>, j: nat) -> Seq<u8>
    decreases j,
{
    if j == 0 {
        d
    } else {
        let p = mixed_rows(d, (j - 1) as nat);
        p.update(j - 1, xor_others(p, j - 1, p.len()))
    }
}

/// The 64 bytes a FUN512 signature encodes for variant `idx`.
pub open spec fn fun512_bytes(digest: Seq<u8>, idx: u8) -> Seq<u8> {
    let w = whitened(digest, idx);
    mixed_rows(w, w.len())
}

/// Base64 text as a signature: padding dropped, `/` to `_`, `+` to `.`.
pub open spec fn signature_text(encoded: Seq<char>) -> Seq<char> {
    trim_end_char(encoded, '=').map_values(
        |c: char|
            if c == '/' {
                '_'
            } else if c == '+' {
                '.'
            } else {
                c
            },
    )
}

/// The signature form of a Base64 text.
pub fn signature_from_base64(encoded: &str) -> (r: String)
    ensures
        r@ == signature_text(encoded@),
{
    let trimmed = crate::text::trim_end_matches_char(encoded, '=');
    let v = chars_of(trimmed.as_str());
    let mut out = String::new();
    let mut i: usize = 0;
    while i < v.len()
        invariant
            i <= v@.len(),
            v@ == trim_end_char(encoded@, '='),
            out@ == v@.take(i as int).map_values(
                |c: char|
                    if c == '/' {
                        '_'
                    } else if c == '+' {
                        '.'
                    } else {
                        c
                    },
            ),
        decreases v.len() - i,
    {
        let c = v[i];
        let d = if c == '/' {
            '_'
        } else if c == '+' {
            '.'
        } else {
            c
        };
        push_char(&mut out, d);
        assert(v@.take(i + 1) == v@.take(i as int).push(c));
        i += 1;
    }
    assert(v@.take(v@.len() as int) == v@);
    out
}

/// The FUN512 signature of a SHA-512 digest for variant `idx`.
pub fn fun512_from_sha512_digest(sha512_digest: [u8; 64], idx: u8) -> (r: String)
    ensures
        r@ == signature_text(base64_standard(fun512_bytes(sha512_digest@, idx))),
{
    let x: u8 = 0x81u8.wrapping_add(idx);
    let mut d: Vec<u8> = Vec::new();
    let mut i: usize = 0;
    while i < 64
        invariant
            i <= 64,
            sha512_digest@.len() == 64,
            x == u8_specs::wrapping_add(0x81u8, idx),
            d@ == whitened(sha512_digest@, idx).take(i as int),
        decreases 64 - i,
    {
        d.push(sha512_digest[i] ^ x);
        assert(whitened(sha512_digest@, idx).take(i + 1) == whitened(sha512_digest@, idx).take(
            i as int,
        ).push(sha512_digest@[i as int] ^ x));
        i += 1;
    }
    let ghost w = whitened(sha512_digest@, idx);
    assert(w.take(64) == w);
    let mut j: usize = 0;
    while j < 64
        invariant
            j <= 64,
            w.len() == 64,
            d@ == mixed_rows(w, j as nat),
        decreases 64 - j,
    {
        let ghost p = d@;
        proof {
            lemma_mixed_len(w, j as nat);
        }
        let mut acc = d[j];
        let mut k: usize = 0;
        while k < 64
            invariant
                k <= 64,
                j < 64,
                d@ == p,
                p.len() == 64,
                acc == xor_others(p, j as int, k as nat),
            decreases 64 - k,
        {
            if k != j {
                acc = acc ^ d[k];
            }
            k += 1;
        }
        d.set(j, acc);
        j += 1;
    }
    let encoded = base64_of(d.as_slice());
    signature_from_base64(encoded.as_str())
}

proof fn lemma_mixed_len(d: Seq<u8>, j: nat)
    requires
        j <= d.len(),
    ensures
        mixed_rows(d, j).len() == d.len(),
    decreases j,
{
    if j > 0 {
        lemma_mixed_len(d, (j - 1) as nat);
    }
}

fn digest_array(v: &Vec<u8>) -> (r: [u8; 64])
    requires
        v@.len() == 64,
    ensures
        r@ == v@,
{
    let mut a: [u8; 64] = [0u8; 64];
    let mut i: usize = 0;
    while i < 64
        invariant
            i <= 64,
            v@.len() == 64,
            a@.len() == 64,
            forall|j: int| 0 <= j < i ==> a@[j] == v@[j],
        decreases 64 - i,
    {
        a[i] = v[i];
        i += 1;
    }
    assert(a@ =~= v@);
    a
}

/// The FUN512 signature of `data` for variant `idx`.
pub fn fun512_from_bytes(data: &[u8], idx: u8) -> (r: String)
    ensures
        r@ == signature_text(base64_standard(fun512_bytes(sha512_digest(data@), idx))),
{
    let hash = sha512_of(data);
    let digest = digest_array(&hash);
    fun512_from_sha512_digest(digest, idx)
}

// ---------------------------------------------------------------------------
// Verifying a log
// ---------------------------------------------------------------------------

/// The bytes of `LOG_FUN512_MARKER`.
pub open spec fn marker_bytes() -> Seq<u8> {
    seq![76u8, 111u8, 103u8, 32u8, 70u8, 85u8, 78u8, 53u8, 49u8, 50u8, 58u8, 32u8]
}

/// Where the last marker starts, scanning from `i` and skipping past each
/// marker found.
pub open spec fn marker_scan(d: Seq<u8>, i: int, pos: Option<int>) -> Option<int>
    decreases d.len() - i,
{
    if i < 0 || i + 12 > d.len() {
        pos
    } else if d.subrange(i, i + 12) == marker_bytes() {
        marker_scan(d, i + 12, Some(i))
    } else {
        marker_scan(d, i + 1, pos)
    }
}

pub open spec fn is_newline(b: u8) -> bool {
    b == 13 || b == 10
}

/// The end of the line starting at `from`.
pub open spec fn line_end(d: Seq<u8>, from: int) -> int
    decreases d.len() - from,
{
    if from < 0 || from >= d.len() || is_newline(d[from]) {
        from
    } else {
        line_end(d, from + 1)
    }
}

/// The end of the run of line breaks starting at `from`.
pub open spec fn newline_run_end(d: Seq<u8>, from: int) -> int
    decreases d.len() - from,
{
    if from < 0 || from >= d.len() || !is_newline(d[from]) {
        from
    } else {
        newline_run_end(d, from + 1)
    }
}

/// The FUN512 signature of a digest, as bytes.
pub open spec fn signature_bytes(digest: Seq<u8>, idx: u8) -> Seq<u8> {
    vstd::utf8::encode_utf8(signature_text(base64_standard(fun512_bytes(digest, idx))))
}

/// How a log checks out: its last marker line must be followed by nothing
/// but line breaks, and hold the signature of everything before the marker
/// for one of the variants.
pub open spec fn log_verdict(d: Seq<u8>) -> LogVerify {
    if d.len() == 0 {
        LogVerify::IoError
    } else {
        match marker_scan(d, 0, None) {
            None => LogVerify::NoChecksum,
            Some(p) => {
                let ts = p + 12;
                let te = line_end(d, ts);
                if newline_run_end(d, te) != d.len() {
                    LogVerify::TrailingData
                } else if exists|idx: u8|
                    idx < FUN512_MAX_IDX && #[trigger] signature_bytes(sha512_digest(d.take(p)), idx)
                        == d.subrange(ts, te) {
                    LogVerify::Valid
                } else {
                    LogVerify::Mismatch
                }
            },
        }
    }
}

fn bytes_eq_range(a: &[u8], b: &[u8], lo: usize, hi: usize) -> (r: bool)
    requires
        lo <= hi <= b@.len(),
    ensures
        r == (a@ == b@.subrange(lo as int, hi as int)),
{
    if a.len() != hi - lo {
        return false;
    }
    let mut i: usize = 0;
    while i < a.len()
        invariant
            a@.len() == hi - lo,
            lo <= hi <= b@.len(),
            i <= a@.len(),
            forall|j: int| 0 <= j < i ==> a@[j] == b@[lo + j],
        decreases a.len() - i,
    {
        if a[i] != b[lo + i] {
            assert(b@.subrange(lo as int, hi as int)[i as int] != a@[i as int]);
            return false;
        }
        i += 1;
    }
    assert(a@ =~= b@.subrange(lo as int, hi as int));
    true
}

fn prefix_bytes(data: &[u8], k: usize) -> (r: Vec<u8>)
    requires
        k <= data@.len(),
    ensures
        r@ == data@.take(k as int),
{
    let mut out: Vec<u8> = Vec::new();
    let mut i: usize = 0;
    while i < k
        invariant
            i <= k <= data@.len(),
            out@ == data@.take(i as int),
        decreases k - i,
    {
        out.push(data[i]);
        assert(data@.take(i + 1) == data@.take(i as int).push(data@[i as int]));
        i += 1;
    }
    out
}

/// The marker starts at `j`.
pub open spec fn marker_at(d: Seq<u8>, j: int) -> bool {
    0 <= j && j + 12 <= d.len() && d.subrange(j, j + 12) == marker_bytes()
}

/// The log's last marker starts at `p`: no marker starts after it ends.
pub open spec fn last_marker_at(d: Seq<u8>, p: int) -> bool {
    marker_at(d, p) && forall|j: int| p + 12 <= j ==> !#[trigger] marker_at(d, j)
}

/// The line starting at `ts` ends at `te`: no line break in between, and a
/// line break or the end of the log at `te`.
pub open spec fn line_ends_at(d: Seq<u8>, ts: int, te: int) -> bool {
    &&& 0 <= ts <= te <= d.len()
    &&& forall|j: int| ts <= j < te ==> !is_newline(#[trigger] d[j])
    &&& te == d.len() || is_newline(d[te])
}

proof fn lemma_scan_closed(d: Seq<u8>, i: int, pos: Option<int>)
    requires
        0 <= i,
        match pos {
            None => forall|j: int| 0 <= j < i ==> !#[trigger] marker_at(d, j),
            Some(p) => marker_at(d, p) && forall|j: int| p + 12 <= j < i ==> !#[trigger] marker_at(d, j),
        },
    ensures
        match marker_scan(d, i, pos) {
            None => forall|j: int| !#[trigger] marker_at(d, j),
            Some(q) => last_marker_at(d, q),
        },
    decreases d.len() - i,
{
    if i + 12 > d.len() {
    } else if d.subrange(i, i + 12) == marker_bytes() {
        lemma_scan_closed(d, i + 12, Some(i));
    } else {
        assert(!marker_at(d, i));
        lemma_scan_closed(d, i + 1, pos);
    }
}

/// Two markers never overlap.
proof fn lemma_markers_apart(d: Seq<u8>, p: int, q: int)
    requires
        marker_at(d, p),
        marker_at(d, q),
        p < q,
    ensures
        p + 12 <= q,
{
    if q < p + 12 {
        let k = q - p;
        assert(d.subrange(q, q + 12)[0] == d[q]);
        assert(d.subrange(p, p + 12)[k] == d[q]);
        assert(marker_bytes()[0] == 76u8);
        assert(marker_bytes()[1] == 111u8);
        assert(marker_bytes()[2] == 103u8);
        assert(marker_bytes()[3] == 32u8);
        assert(marker_bytes()[4] == 70u8);
        assert(marker_bytes()[5] == 85u8);
        assert(marker_bytes()[6] == 78u8);
        assert(marker_bytes()[7] == 53u8);
        assert(marker_bytes()[8] == 49u8);
        assert(marker_bytes()[9] == 50u8);
        assert(marker_bytes()[10] == 58u8);
        assert(marker_bytes()[11] == 32u8);
        assert(k == 1 || k == 2 || k == 3 || k == 4 || k == 5 || k == 6 || k == 7 || k == 8 || k == 9
            || k == 10 || k == 11);
    }
}

proof fn lemma_line_end_closed(d: Seq<u8>, ts: int, te: int)
    requires
        line_ends_at(d, ts, te),
    ensures
        line_end(d, ts) == te,
    decreases te - ts,
{
    if ts < te {
        assert(!is_newline(d[ts]));
        lemma_line_end_closed(d, ts + 1, te);
    }
}

proof fn lemma_newline_run_closed(d: Seq<u8>, from: int)
    requires
        0 <= from <= d.len(),
    ensures
        (newline_run_end(d, from) == d.len()) <==> (forall|j: int|
            from <= j < d.len() ==> is_newline(#[trigger] d[j])),
    decreases d.len() - from,
{
    if from < d.len() {
        lemma_newline_run_closed(d, from + 1);
        if is_newline(d[from]) {
            assert forall|j: int| from <= j < d.len() && (forall|j2: int|
                from + 1 <= j2 < d.len() ==> is_newline(#[trigger] d[j2])) implies is_newline(
                d[j],
            ) by {
                if j > from {
                    assert(is_newline(d[j]));
                }
            }
        }
    }
}

/// The marker scan of a log finds its last marker: it finds one exactly
/// when the log holds one, and then finds the one after whose end no marker
/// starts (markers never overlap, so that one is the last).
pub proof fn law_marker_scan_finds_last(d: Seq<u8>, p: int)
    ensures
        marker_scan(d, 0, None) is None <==> (forall|j: int| !#[trigger] marker_at(d, j)),
        marker_scan(d, 0, None) == Some(p) <==> last_marker_at(d, p),
{
    lemma_scan_closed(d, 0, None);
    match marker_scan(d, 0, None) {
        None => {},
        Some(q) => {
            assert(marker_at(d, q));
            if last_marker_at(d, p) && p != q {
                if p < q {
                    lemma_markers_apart(d, p, q);
                    assert(!marker_at(d, q));
                } else {
                    lemma_markers_apart(d, q, p);
                    assert(!marker_at(d, p));
                }
            }
        },
    }
}

/// The verdict on a log in closed form. An empty log is an I/O error, and a
/// log without the marker has no checksum. Otherwise, with the last marker at
/// `p` and its line ending at `te`: a byte after `te` other than a line break
/// is trailing data; else the log is valid exactly when, for one of the
/// variants, the signature of everything before the marker is that line,
/// and a mismatch when for none.
pub proof fn law_log_verdict_closed_form(d: Seq<u8>, p: int, te: int)
    ensures
        d.len() == 0 ==> log_verdict(d) == LogVerify::IoError,
        d.len() > 0 && (forall|j: int| !#[trigger] marker_at(d, j)) ==> log_verdict(d)
            == LogVerify::NoChecksum,
        d.len() > 0 && last_marker_at(d, p) && line_ends_at(d, p + 12, te) ==> {
            let trailing = exists|j: int| te <= j < d.len() && !is_newline(#[trigger] d[j]);
            let signed = exists|idx: u8|
                idx < FUN512_MAX_IDX && #[trigger] signature_bytes(sha512_digest(d.take(p)), idx)
                    == d.subrange(p + 12, te);
            &&& trailing ==> log_verdict(d) == LogVerify::TrailingData
            &&& !trailing && signed ==> log_verdict(d) == LogVerify::Valid
            &&& !trailing && !signed ==> log_verdict(d) == LogVerify::Mismatch
        },
{
    lemma_scan_closed(d, 0, None);
    if d.len() > 0 && last_marker_at(d, p) && line_ends_at(d, p + 12, te) {
        match marker_scan(d, 0, None) {
            None => {
                assert(marker_at(d, p));
            },
            Some(q) => {
                if p < q {
                    lemma_markers_apart(d, p, q);
                    assert(!marker_at(d, q));
                } else if q < p {
                    lemma_markers_apart(d, q, p);
                    assert(!marker_at(d, p));
                }
                assert(p == q);
                lemma_line_end_closed(d, p + 12, te);
                lemma_newline_run_closed(d, te);
            },
        }
    }
}

proof fn lemma_marker_scan_bounds(d: Seq<u8>, i: int, pos: Option<int>)
    requires
        pos matches Some(p) ==> 0 <= p && p + 12 <= d.len(),
    ensures
        marker_scan(d, i, pos) matches Some(p) ==> 0 <= p && p + 12 <= d.len(),
    decreases d.len() - i,
{
    if !(i < 0 || i + 12 > d.len()) {
        if d.subrange(i, i + 12) == marker_bytes() {
            lemma_marker_scan_bounds(d, i + 12, Some(i));
        } else {
            lemma_marker_scan_bounds(d, i + 1, pos);
        }
    }
}

/// Checks a log's FUN512 signature.
pub fn verify_log_bytes(data: &[u8]) -> (r: LogVerify)
    ensures
        r == log_verdict(data@),
{
    let n = data.len();
    if n == 0 {
        return LogVerify::IoError;
    }
    let marker: [u8; 12] = [76u8, 111u8, 103u8, 32u8, 70u8, 85u8, 78u8, 53u8, 49u8, 50u8, 58u8, 32u8];
    assert(marker@ == marker_bytes());
    let mut pos: Option<usize> = None;
    let mut i: usize = 0;
    while n >= 12 && i <= n - 12
        invariant
            n == data@.len(),
            i <= n,
            marker@ == marker_bytes(),
            pos matches Some(p) ==> p + 12 <= n,
            marker_scan(data@, 0, None) == marker_scan(
                data@,
                i as int,
                match pos {
                    Some(p) => Some(p as int),
                    None => None,
                },
            ),
        decreases n - i,
    {
        if bytes_eq_range(marker.as_slice(), data, i, i + 12) {
            pos = Some(i);
            i += 12;
        } else {
            i += 1;
        }
    }
    let pos = match pos {
        None => {
            return LogVerify::NoChecksum;
        },
        Some(p) => p,
    };
    let ts = pos + 12;
    let mut te = ts;
    while te < n && data[te] != 13u8 && data[te] != 10u8
        invariant
            n == data@.len(),
            ts <= te <= n,
            line_end(data@, ts as int) == line_end(data@, te as int),
        decreases n - te,
    {
        te += 1;
    }
    let mut tail = te;
    while tail < n && (data[tail] == 13u8 || data[tail] == 10u8)
        invariant
            n == data@.len(),
            te <= tail <= n,
            newline_run_end(data@, te as int) == newline_run_end(data@, tail as int),
        decreases n - tail,
    {
        tail += 1;
    }
    if tail != n {
        return LogVerify::TrailingData;
    }
    let hash = sha512_of(prefix_bytes(data, pos).as_slice());
    let digest = digest_array(&hash);
    let mut idx: u8 = 0;
    while idx < FUN512_MAX_IDX
        invariant
            digest@ == sha512_digest(data@.take(pos as int)),
            ts <= te <= n,
            n == data@.len(),
            n > 0,
            ts == pos + 12,
            marker_scan(data@, 0, None) == Some(pos as int),
            line_end(data@, ts as int) == te,
            newline_run_end(data@, te as int) == n,
            forall|k: u8| k < idx ==> #[trigger] signature_bytes(digest@, k) != data@.subrange(
                ts as int,
                te as int,
            ),
        decreases FUN512_MAX_IDX - idx,
    {
        let sig = fun512_from_sha512_digest(digest, idx);
        if bytes_eq_range(sig.as_str().as_bytes(), data, ts, te) {
            assert(signature_bytes(sha512_digest(data@.take(pos as int)), idx) == data@.subrange(
                ts as int,
                te as int,
            ));
            return LogVerify::Valid;
        }
        idx += 1;
    }
    LogVerify::Mismatch
}

} // verus!
