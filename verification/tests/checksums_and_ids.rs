use crc32fast::Hasher as Crc32Hasher;
use cyanrip_rs::fun512::{
    eac_crc32_from_bytes, fun512_from_bytes, fun512_from_sha512_digest, verify_log_bytes,
    ChecksumCtx, ChecksumResult, LogVerify, LOG_FUN512_MARKER, SAMPLES_PER_FRAME,
};
use cyanrip_rs::metadata::discid::{compute_discid, url_safe_discid, DiscTrack, DiscidError};

fn samples_to_le_bytes(samples: &[u32]) -> Vec<u8> {
    let mut out = Vec::with_capacity(samples.len() * 4);
    for &s in samples {
        out.extend_from_slice(&s.to_le_bytes());
    }
    out
}

fn reference_checksums(samples: &[u32], nb_samples: u32, first: bool, last: bool) -> ChecksumResult {
    let bytes = samples_to_le_bytes(samples);
    let mut crc = Crc32Hasher::new();
    crc.update(&bytes);

    let mut acu_start = 0u32;
    let mut acu_end = nb_samples;
    let mut acu_mult = 1u32;
    let mut acu_sum_1 = 0u32;
    let mut acu_sum_1_450 = 0u32;
    let mut acu_sum_2 = 0u32;

    if first {
        acu_start = acu_start.wrapping_add(5 * SAMPLES_PER_FRAME);
    }
    if last {
        acu_end = acu_end.wrapping_sub(5 * SAMPLES_PER_FRAME);
    }

    let start_450 = 450 * SAMPLES_PER_FRAME;
    let end_450 = 451 * SAMPLES_PER_FRAME;

    for &val in samples {
        if acu_mult >= acu_start && acu_mult <= acu_end {
            let tmp = (val as u64).wrapping_mul(acu_mult as u64);
            let lo = (tmp & 0xFFFF_FFFF) as u32;
            let hi = (tmp >> 32) as u32;
            acu_sum_1 = acu_sum_1.wrapping_add(acu_mult.wrapping_mul(val));
            acu_sum_2 = acu_sum_2.wrapping_add(hi);
            acu_sum_2 = acu_sum_2.wrapping_add(lo);
        }

        let prev = acu_mult.wrapping_sub(1);
        if prev >= start_450 && prev < end_450 {
            let mult = acu_mult.wrapping_sub(start_450);
            acu_sum_1_450 = acu_sum_1_450.wrapping_add(val.wrapping_mul(mult));
        }

        acu_mult = acu_mult.wrapping_add(1);
    }

    ChecksumResult {
        eac_crc: crc.finalize(),
        accurip_checksum_v1: acu_sum_1,
        accurip_checksum_v1_450: acu_sum_1_450,
        accurip_checksum_v2: acu_sum_2,
    }
}

#[test]
fn vector_zero_digest_matches_fixture_values() {
    let d = [0u8; 64];
    assert_eq!(
        fun512_from_sha512_digest(d, 0),
        "AIGBgYGBgYGBgYGBgYGBgYGBgYGBgYGBgYGBgYGBgYGBgYGBgYGBgYGBgYGBgYGBgYGBgYGBgYGBgYGBgYGBgQ"
    );
    assert_eq!(
        fun512_from_sha512_digest(d, 15),
        "AJCQkJCQkJCQkJCQkJCQkJCQkJCQkJCQkJCQkJCQkJCQkJCQkJCQkJCQkJCQkJCQkJCQkJCQkJCQkJCQkJCQkA"
    );
}

#[test]
fn vector_sequence_digest_matches_fixture_values() {
    let mut d = [0u8; 64];
    for (i, b) in d.iter_mut().enumerate() {
        *b = i as u8;
    }
    assert_eq!(
        fun512_from_sha512_digest(d, 0),
        "AIGAg4KFhIeGiYiLio2Mj46RkJOSlZSXlpmYm5qdnJ.eoaCjoqWkp6apqKuqrayvrrGws7K1tLe2ubi7ur28vw"
    );
    assert_eq!(
        fun512_from_sha512_digest(d, 7),
        "AIiJiouMjY6PgIGCg4SFhoeYmZqbnJ2en5CRkpOUlZaXqKmqq6ytrq.goaKjpKWmp7i5uru8vb6_sLGys7S1tg"
    );
}

#[test]
fn verify_log_bytes_reports_each_verdict() {
    let body = b"cyanrip log\nTrack 1 ripped\n".to_vec();
    let signature = fun512_from_bytes(&body, 3);

    let mut valid = body.clone();
    valid.extend_from_slice(LOG_FUN512_MARKER.as_bytes());
    valid.extend_from_slice(signature.as_bytes());
    valid.extend_from_slice(b"\r\n");
    assert_eq!(verify_log_bytes(&valid), LogVerify::Valid);

    let mut tampered = valid.clone();
    tampered[0] = b'C';
    assert_eq!(verify_log_bytes(&tampered), LogVerify::Mismatch);

    let mut trailing = valid.clone();
    trailing.extend_from_slice(b"extra");
    assert_eq!(verify_log_bytes(&trailing), LogVerify::TrailingData);

    assert_eq!(verify_log_bytes(&body), LogVerify::NoChecksum);
    assert_eq!(verify_log_bytes(&[]), LogVerify::IoError);
}

#[test]
fn signature_differs_from_index_and_content() {
    let a = fun512_from_bytes(b"abc", 0);
    assert_ne!(a, fun512_from_bytes(b"abc", 1));
    assert_ne!(a, fun512_from_bytes(b"abd", 0));
    assert_eq!(a.len(), 86);
    assert!(!a.contains('/') && !a.contains('+') && !a.contains('='));
}

#[test]
fn eac_crc_matches_the_standard_crc32() {
    assert_eq!(eac_crc32_from_bytes(b"123456789"), 0xCBF4_3926);
    assert_eq!(eac_crc32_from_bytes(b""), 0);
}

#[test]
fn checksum_ctx_smoke() {
    let mut ctx = ChecksumCtx::new(10_000, false, false);
    let data = [1u8, 2, 3, 4, 9, 8, 7, 6, 4, 5, 6, 7, 8, 9, 10, 11];
    ctx.process_bytes(&data);
    let res = ctx.finalize();

    assert_ne!(res.eac_crc, 0);
    assert_ne!(res.accurip_checksum_v1, 0);
}

#[test]
fn checksum_ctx_matches_reference_for_first_last_windows() {
    let samples: Vec<u32> = (0..8000)
        .map(|i| (i as u32).wrapping_mul(97).wrapping_add(13))
        .collect();
    let bytes = samples_to_le_bytes(&samples);
    let nb_samples = samples.len() as u32;

    let scenarios = [(false, false), (true, false), (false, true), (true, true)];

    for (first, last) in scenarios {
        let mut ctx = ChecksumCtx::new(nb_samples, first, last);
        ctx.process_bytes(&bytes);
        let got = ctx.finalize();
        let expected = reference_checksums(&samples, nb_samples, first, last);
        assert_eq!(got, expected, "mismatch for first={first}, last={last}");
    }
}

#[test]
fn checksum_ctx_matches_reference_with_chunked_processing() {
    let samples: Vec<u32> = (0..5000)
        .map(|i| (i as u32).wrapping_mul(1_000_003).wrapping_add(0xABCD))
        .collect();
    let bytes = samples_to_le_bytes(&samples);
    let nb_samples = samples.len() as u32;

    let expected = reference_checksums(&samples, nb_samples, true, false);

    let mut ctx = ChecksumCtx::new(nb_samples, true, false);
    for chunk in bytes.chunks(4 * 137) {
        ctx.process_bytes(chunk);
    }
    let got = ctx.finalize();

    assert_eq!(got, expected);
}

#[test]
fn checksum_ctx_short_last_track_wrap_behavior_matches_c() {
    let samples: Vec<u32> = (0..128).map(|i| i as u32 + 1).collect();
    let bytes = samples_to_le_bytes(&samples);
    let nb_samples = samples.len() as u32;

    let mut ctx = ChecksumCtx::new(nb_samples, false, true);
    ctx.process_bytes(&bytes);
    let got = ctx.finalize();
    let expected = reference_checksums(&samples, nb_samples, false, true);

    assert_eq!(got, expected);
}

#[test]
fn computes_discid_cddb_and_toc_case_with_trailing_data_track() {
    let tracks = vec![
        DiscTrack {
            number: 1,
            start_lsn: 0,
            end_lsn: 14_999,
            track_is_data: false,
        },
        DiscTrack {
            number: 2,
            start_lsn: 15_000,
            end_lsn: 29_999,
            track_is_data: false,
        },
        DiscTrack {
            number: 3,
            start_lsn: 30_000,
            end_lsn: 44_999,
            track_is_data: true,
        },
    ];

    let out = compute_discid(&tracks).expect("vector should compute");

    assert_eq!(out.musicbrainz_discid, "OMDNUUEF6OVAhAJVAHuIJDSdzdM-");
    assert_eq!(out.cddb, "06019002");
    assert_eq!(
        out.mb_submission_url,
        "https://musicbrainz.org/cdtoc/attach?toc=1+2+30150+150+15150&tracks=2&id=OMDNUUEF6OVAhAJVAHuIJDSdzdM-"
    );
    assert_eq!(out.last_audio_track_index, 1);
}

#[test]
fn computes_discid_cddb_and_toc_case_with_three_audio_tracks() {
    let tracks = vec![
        DiscTrack {
            number: 1,
            start_lsn: 183,
            end_lsn: 15_000,
            track_is_data: false,
        },
        DiscTrack {
            number: 2,
            start_lsn: 15_183,
            end_lsn: 30_000,
            track_is_data: false,
        },
        DiscTrack {
            number: 3,
            start_lsn: 30_200,
            end_lsn: 45_000,
            track_is_data: false,
        },
    ];

    let out = compute_discid(&tracks).expect("vector should compute");

    assert_eq!(out.musicbrainz_discid, "enjqiWIv9qV0S1_bscl.qi2QxTA-");
    assert_eq!(out.cddb, "12025603");
    assert_eq!(
        out.mb_submission_url,
        "https://musicbrainz.org/cdtoc/attach?toc=1+3+45151+333+15333+30350&tracks=3&id=enjqiWIv9qV0S1_bscl.qi2QxTA-"
    );
}

#[test]
fn rejects_missing_and_invalid_input() {
    let empty = compute_discid(&[]);
    assert_eq!(empty, Err(DiscidError::NoTracks));

    let only_data = vec![DiscTrack {
        number: 1,
        start_lsn: 0,
        end_lsn: 1_000,
        track_is_data: true,
    }];
    assert_eq!(compute_discid(&only_data), Err(DiscidError::NoAudioTracks));

    let invalid = vec![DiscTrack {
        number: 1,
        start_lsn: 2_000,
        end_lsn: 1_999,
        track_is_data: false,
    }];
    assert_eq!(compute_discid(&invalid), Err(DiscidError::InvalidTrackData));
}

#[test]
fn url_safe_discid_replaces_base64_punctuation() {
    assert_eq!(url_safe_discid("ab/c+d=="), "ab_c.d--");
    assert_eq!(url_safe_discid(""), "");
}

#[test]
fn verify_log_bytes_reads_the_last_marker() {
    let mut body = b"cyanrip log\nLog FUN512: stale\n".to_vec();
    body.extend_from_slice(b"Track 1 ripped\n");
    let signature = fun512_from_bytes(&body, 0);
    let mut log = body.clone();
    log.extend_from_slice(LOG_FUN512_MARKER.as_bytes());
    log.extend_from_slice(signature.as_bytes());
    log.extend_from_slice(b"\n");
    assert_eq!(verify_log_bytes(&log), LogVerify::Valid);
}
