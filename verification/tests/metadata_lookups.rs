use cyanrip_rs::metadata::accurip::{
    build_accurip_request_url, compute_accurip_ids, find_accurip_confidence,
    lookup_result_from_response, parse_accurip_db_blob, AccuDbStatus, AccuRipDbEntry,
    AccuRipDiscIds, AccuRipError, AccuRipHttpResponse, AccuRipService, AccuRipTrackInput,
};
use cyanrip_rs::metadata::coverart::{
    apply_fetch_response, cover_id, coverart_db_plan, infer_extension, new_coverart_db_art,
    string_is_url, CoverArtDbPlan, CoverArtError, CoverArtFetchStatus, CoverArtResponse,
    CoverArtService,
};
use cyanrip_rs::CoverArtLookupSize;

fn test_tracks() -> Vec<AccuRipTrackInput> {
    vec![
        AccuRipTrackInput {
            number: 1,
            start_lsn: 0,
            end_lsn: 10_000,
            track_is_data: false,
        },
        AccuRipTrackInput {
            number: 2,
            start_lsn: 15_000,
            end_lsn: 20_000,
            track_is_data: false,
        },
    ]
}

fn test_ids() -> AccuRipDiscIds {
    AccuRipDiscIds {
        audio_tracks: 2,
        id_type_1: 0x11223344,
        id_type_2: 0x55667788,
    }
}

fn build_valid_blob_for(ids: AccuRipDiscIds, cddb_id: u32) -> Vec<u8> {
    let mut out = Vec::new();
    for (c1, ck1, ck1450, c2, ck2, ck2450) in [
        (5u8, 0x11111111u32, 0xAAAAAAAAu32, 3u8, 0x22222222u32, 0xBBBBBBBBu32),
        (9u8, 0x33333333u32, 0xCCCCCCCCu32, 8u8, 0x22222222u32, 0xDDDDDDDDu32),
    ] {
        out.push(ids.audio_tracks as u8);
        out.extend_from_slice(&ids.id_type_1.to_le_bytes());
        out.extend_from_slice(&ids.id_type_2.to_le_bytes());
        out.extend_from_slice(&cddb_id.to_le_bytes());

        out.push(c1);
        out.extend_from_slice(&ck1.to_le_bytes());
        out.extend_from_slice(&ck1450.to_le_bytes());

        out.push(c2);
        out.extend_from_slice(&ck2.to_le_bytes());
        out.extend_from_slice(&ck2450.to_le_bytes());
    }
    out
}

#[test]
fn computes_disc_ids_like_c_formula() {
    let ids = compute_accurip_ids(&test_tracks()).expect("ids should compute");
    assert_eq!(ids.audio_tracks, 2);
    assert_eq!(ids.id_type_1, 0x000088B9);
    assert_eq!(ids.id_type_2, 0x00015F94);
}

#[test]
fn disc_ids_skip_data_tracks_and_need_audio() {
    let mut tracks = test_tracks();
    tracks.push(AccuRipTrackInput {
        number: 3,
        start_lsn: 30_000,
        end_lsn: 40_000,
        track_is_data: true,
    });
    assert_eq!(
        compute_accurip_ids(&tracks).unwrap(),
        compute_accurip_ids(&test_tracks()).unwrap()
    );

    let data_only = vec![AccuRipTrackInput {
        number: 1,
        start_lsn: 0,
        end_lsn: 10,
        track_is_data: true,
    }];
    assert_eq!(compute_accurip_ids(&data_only), Err(AccuRipError::NoAudioTracks));
    assert_eq!(compute_accurip_ids(&[]), Err(AccuRipError::NoAudioTracks));
}

#[test]
fn builds_request_url_like_c_path_template() {
    let url = build_accurip_request_url("http://host/accuraterip", &test_ids(), 0xAABBCCDD);
    assert_eq!(
        url,
        "http://host/accuraterip/4/4/3/dBAR-002-11223344-55667788-aabbccdd.bin"
    );
}

#[test]
fn service_request_strips_trailing_slash_from_base() {
    let svc = AccuRipService::new((), "http://host/db/", "agent/1");
    assert_eq!(svc.user_agent(), "agent/1");
    let (ids, url) = svc.request_for(&test_tracks(), 0x01020304).unwrap();
    assert_eq!(ids.audio_tracks, 2);
    assert_eq!(url, "http://host/db/9/b/8/dBAR-002-000088b9-00015f94-01020304.bin");
}

#[test]
fn parses_valid_blob_and_sorts_track_entries() {
    let blob = build_valid_blob_for(test_ids(), 0xAABBCCDD);
    let out = parse_accurip_db_blob(&blob, test_ids(), 0xAABBCCDD).expect("valid blob parses");

    assert_eq!(out.status, AccuDbStatus::Found);
    assert_eq!(out.track_matches.len(), 2);
    assert_eq!(out.track_matches[0].entries.len(), 2);
    assert_eq!(out.track_matches[0].entries[0].confidence, 5);
    assert_eq!(out.track_matches[0].entries[1].confidence, 9);
    assert_eq!(out.track_matches[1].entries[0].confidence, 3);
    assert_eq!(out.track_matches[1].entries[1].confidence, 8);
    assert_eq!(out.track_matches[1].max_confidence, 8);
    assert_eq!(out.track_matches[0].max_confidence, 9);
}

#[test]
fn parse_rejects_truncated_blob() {
    let mut blob = build_valid_blob_for(test_ids(), 0xAABBCCDD);
    blob.pop();
    let err = parse_accurip_db_blob(&blob, test_ids(), 0xAABBCCDD)
        .expect_err("truncated blob must fail");
    assert_eq!(
        err,
        AccuRipError::ParseError("unexpected number of bytes".to_string())
    );
}

#[test]
fn parse_reports_mismatch_when_no_record_is_for_this_disc() {
    let blob = build_valid_blob_for(test_ids(), 0xAABBCCDD);
    let out = parse_accurip_db_blob(&blob, test_ids(), 0x12345678).expect("blob parses");
    assert_eq!(out.status, AccuDbStatus::Mismatch);
    assert!(out.track_matches.iter().all(|t| t.entries.is_empty()));
}

#[test]
fn find_confidence_matches_c_semantics() {
    let entries = vec![
        AccuRipDbEntry {
            confidence: 2,
            checksum: 0x1111,
            checksum_450: 0xAAAA,
        },
        AccuRipDbEntry {
            confidence: 7,
            checksum: 0x1111,
            checksum_450: 0xBBBB,
        },
    ];
    assert_eq!(find_accurip_confidence(AccuDbStatus::Found, &entries, 0x1111, false), 7);
    assert_eq!(find_accurip_confidence(AccuDbStatus::Found, &entries, 0xAAAA, true), 2);
    assert_eq!(find_accurip_confidence(AccuDbStatus::Found, &entries, 0x9999, false), -1);
    assert_eq!(find_accurip_confidence(AccuDbStatus::NotFound, &entries, 0x1111, false), 0);
}

#[test]
fn lookup_maps_statuses_and_html_pages() {
    let url = "http://host/x.bin".to_string();
    let not_found = AccuRipHttpResponse {
        status_code: 404,
        content_type: None,
        body: Vec::new(),
    };
    let r = lookup_result_from_response(test_ids(), url.clone(), &not_found, 1).unwrap();
    assert_eq!(r.status, AccuDbStatus::NotFound);
    assert_eq!(r.request_url, url);
    assert_eq!(r.track_matches.len(), 2);

    let server_error = AccuRipHttpResponse {
        status_code: 500,
        content_type: None,
        body: Vec::new(),
    };
    let r = lookup_result_from_response(test_ids(), url.clone(), &server_error, 1).unwrap();
    assert_eq!(r.status, AccuDbStatus::Error);

    let html = AccuRipHttpResponse {
        status_code: 200,
        content_type: Some("text/html".to_string()),
        body: b"<html><body>missing</body></html>".to_vec(),
    };
    let r = lookup_result_from_response(test_ids(), url.clone(), &html, 1).unwrap();
    assert_eq!(r.status, AccuDbStatus::NotFound);

    let blob = AccuRipHttpResponse {
        status_code: 200,
        content_type: Some("application/octet-stream".to_string()),
        body: build_valid_blob_for(test_ids(), 7),
    };
    let r = lookup_result_from_response(test_ids(), url.clone(), &blob, 7).unwrap();
    assert_eq!(r.status, AccuDbStatus::Found);
    assert_eq!(r.request_url, url);
}

#[test]
fn url_detection_matches_c_prefixes() {
    assert!(string_is_url("http://a"));
    assert!(string_is_url("https://a"));
    assert!(string_is_url("ftp://a"));
    assert!(string_is_url("ftps://a"));
    assert!(string_is_url("sftp://a"));
    assert!(string_is_url("tftp://a"));
    assert!(string_is_url("gopher://a"));
    assert!(string_is_url("telnet://a"));
    assert!(!string_is_url("/tmp/file.jpg"));
}

#[test]
fn cover_ids_and_extensions() {
    assert_eq!(cover_id("front", CoverArtLookupSize::Original), "front");
    assert_eq!(cover_id("front", CoverArtLookupSize::Px500), "front-500");
    assert_eq!(infer_extension(Some("image/png; q=1")), Some("png".to_string()));
    assert_eq!(infer_extension(Some("text/plain")), None);
    assert_eq!(infer_extension(None), None);
}

#[test]
fn archive_plan_fetches_only_missing_sides() {
    let front = new_coverart_db_art("Front", "http://a/front");
    assert_eq!(
        coverart_db_plan(&[], true, false),
        CoverArtDbPlan {
            fetch_front: true,
            fetch_back_after_front: true,
        }
    );
    assert_eq!(
        coverart_db_plan(&[front.clone()], true, false),
        CoverArtDbPlan {
            fetch_front: false,
            fetch_back_after_front: false,
        }
    );
    assert_eq!(
        coverart_db_plan(&[], false, false),
        CoverArtDbPlan {
            fetch_front: false,
            fetch_back_after_front: false,
        }
    );
    assert_eq!(
        coverart_db_plan(&[], true, true),
        CoverArtDbPlan {
            fetch_front: false,
            fetch_back_after_front: false,
        }
    );
}

#[test]
fn fetch_response_updates_image() {
    let mut art = new_coverart_db_art("Front", "http://a/front");
    let resp = CoverArtResponse {
        status_code: 200,
        content_type: Some("image/png".to_string()),
        final_url: "http://b/front.png".to_string(),
        body: vec![1, 2, 3],
    };
    assert_eq!(
        apply_fetch_response(&mut art, resp, false),
        Ok(CoverArtFetchStatus::Downloaded)
    );
    assert_eq!(art.extension.as_deref(), Some("png"));
    assert_eq!(art.data.as_deref(), Some(&[1u8, 2, 3][..]));
    assert_eq!(art.source_url, "http://b/front.png");

    let before = art.clone();
    let missing = CoverArtResponse {
        status_code: 404,
        content_type: None,
        final_url: String::new(),
        body: Vec::new(),
    };
    assert_eq!(
        apply_fetch_response(&mut art, missing, false),
        Ok(CoverArtFetchStatus::NotFound)
    );
    assert_eq!(art, before);

    let failing = CoverArtResponse {
        status_code: 503,
        content_type: None,
        final_url: String::new(),
        body: Vec::new(),
    };
    assert_eq!(
        apply_fetch_response(&mut art, failing, false),
        Err(CoverArtError::Http("unexpected status 503".to_string()))
    );
}

#[test]
fn archive_urls_join_release_and_kind() {
    let svc = CoverArtService::new((), "http://coverartarchive.org/release/", "agent");
    assert_eq!(
        svc.coverart_db_url("rel-1", "front"),
        "http://coverartarchive.org/release/rel-1/front"
    );
}

#[test]
fn service_lookup_reads_a_404_as_not_found() {
    let svc = AccuRipService::new((), "http://host/db/", "agent/1");
    let not_found = AccuRipHttpResponse {
        status_code: 404,
        content_type: None,
        body: Vec::new(),
    };
    let r = svc.lookup_with_answer(&test_tracks(), 0x01020304, &not_found).unwrap();
    assert_eq!(r.status, AccuDbStatus::NotFound);
    assert_eq!(r.request_url, "http://host/db/9/b/8/dBAR-002-000088b9-00015f94-01020304.bin");
    assert_eq!(r.disc_ids.audio_tracks, 2);
    assert_eq!(r.track_matches.len(), 2);
    assert!(r.track_matches.iter().all(|m| m.entries.is_empty() && m.max_confidence == 0));

    let none = svc.lookup_with_answer(&[], 1, &not_found).unwrap_err();
    assert_eq!(none, AccuRipError::NoAudioTracks);
}
