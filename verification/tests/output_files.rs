use cyanrip_rs::audio::{PcmSpec, PcmTrackData};
use cyanrip_rs::cue::CueFileType;
use cyanrip_rs::metadata::cover_choice::{
    flac_embedded_picture_from_cover_arts, infer_cover_extension_from_source,
    infer_cover_mime_type, pick_cover_art_for_embedding, CoverPictureType,
};
use cyanrip_rs::metadata::coverart::CoverArtImage;
use cyanrip_rs::metadata::discid::DiscidInfo;
use cyanrip_rs::metadata::musicbrainz::MusicBrainzReleaseMeta;
use cyanrip_rs::runtime_cue::{
    cue_doc_meta_from_album_meta, cue_meta_from_runtime, cue_track_from_written_file,
    track_meta_for_number, track_meta_map_from_settings,
};
use cyanrip_rs::tags::{tag_map_from_pairs, TagMap};
use cyanrip_rs::track_output::{
    build_flac_comment_map, canonical_flac_vorbis_key, plan_track_outputs_for_format, plan_written_files,
    TrackOutputFlowError,
    warn_track_path_collisions_for_formats, TrackOutputInput, TrackOutputPlanError,
};
use cyanrip_rs::{OutputFormat, Settings};

fn map(pairs: &[(&str, &str)]) -> TagMap {
    tag_map_from_pairs(pairs)
}

fn get(m: &TagMap, k: &str) -> Option<String> {
    m.get(k).cloned()
}

fn silent_pcm() -> PcmTrackData {
    PcmTrackData {
        spec: PcmSpec { channels: 2, sample_rate: 44_100, bits_per_sample: 16 },
        interleaved_i16_samples: vec![0; 8],
    }
}

fn art(title: &str, data: Option<Vec<u8>>, source_url: &str) -> CoverArtImage {
    CoverArtImage {
        title: title.to_string(),
        source: None,
        source_url: source_url.to_string(),
        extension: None,
        data,
        content_type: None,
    }
}

#[test]
fn rejects_unsupported_output_formats_in_dispatch() {
    let mut settings = Settings::default();
    settings.outputs = vec![OutputFormat::Mp3];
    let album_meta = map(&[("album", "Example Album")]);
    let tracks = vec![TrackOutputInput {
        track_number: 1,
        track_meta: map(&[("track", "01"), ("title", "Intro")]),
        pcm: silent_pcm(),
    }];
    let err = plan_track_outputs_for_format(&settings, 1, &album_meta, &tracks, OutputFormat::Mp3)
        .unwrap_err();
    assert_eq!(err, TrackOutputPlanError::UnsupportedOutputFormat(OutputFormat::Mp3));
}

#[test]
fn plans_track_paths_per_format() {
    let mut settings = Settings::default();
    settings.folder_name_scheme = "{album} [{format}]".to_string();
    settings.track_name_scheme = "{track} - {title}".to_string();
    let album_meta = map(&[("album", "Example Album")]);
    let tracks = vec![
        TrackOutputInput {
            track_number: 1,
            track_meta: map(&[("track", "01"), ("title", "Intro")]),
            pcm: silent_pcm(),
        },
        TrackOutputInput {
            track_number: 2,
            track_meta: map(&[("track", "02"), ("title", "Outro")]),
            pcm: silent_pcm(),
        },
    ];
    let plan = plan_track_outputs_for_format(&settings, 2, &album_meta, &tracks, OutputFormat::Flac)
        .unwrap();
    assert_eq!(plan.format_suffix, "FLAC");
    assert_eq!(plan.extension, "flac");
    assert_eq!(
        plan.relative_paths,
        vec!["Example Album [FLAC]/01 - Intro.flac".to_string(), "Example Album [FLAC]/02 - Outro.flac".to_string()]
    );
}

#[test]
fn reports_tracks_sharing_a_path_in_each_format() {
    let mut settings = Settings::default();
    settings.outputs = vec![OutputFormat::Wav, OutputFormat::Flac];
    settings.folder_name_scheme = "{album} [{format}]".to_string();
    settings.track_name_scheme = "{title}".to_string();
    let album_meta = map(&[("album", "A")]);
    let tracks = vec![
        (1u32, map(&[("title", "Same")])),
        (2u32, map(&[("title", "Other")])),
        (3u32, map(&[("title", "Same")])),
    ];
    let collisions = warn_track_path_collisions_for_formats(&settings, &album_meta, &tracks, 3).unwrap();
    assert_eq!(
        collisions,
        vec![(1, 3, "A [WAV]/Same.wav".to_string()), (1, 3, "A [FLAC]/Same.flac".to_string())]
    );

    settings.outputs = vec![OutputFormat::Flac, OutputFormat::Opus];
    let err = warn_track_path_collisions_for_formats(&settings, &album_meta, &tracks, 3).unwrap_err();
    assert_eq!(err, TrackOutputPlanError::UnsupportedOutputFormat(OutputFormat::Opus));
}

#[test]
fn vorbis_keys_are_canonical() {
    assert_eq!(canonical_flac_vorbis_key("track"), "TRACKNUMBER");
    assert_eq!(canonical_flac_vorbis_key("tracknumber"), "TRACKNUMBER");
    assert_eq!(canonical_flac_vorbis_key("disc"), "DISCNUMBER");
    assert_eq!(canonical_flac_vorbis_key("disctotal"), "DISCTOTAL");
    assert_eq!(canonical_flac_vorbis_key("album_artist"), "ALBUMARTIST");
    assert_eq!(canonical_flac_vorbis_key("musicbrainz_discid"), "MUSICBRAINZ_DISCID");
    assert_eq!(canonical_flac_vorbis_key("title"), "TITLE");
    assert_eq!(canonical_flac_vorbis_key("Mixed_Case9"), "MIXED_CASE9");
}

#[test]
fn flac_comments_merge_track_over_album_and_fill_numbers() {
    let mut settings = Settings::default();
    settings.discnumber = 1;
    settings.totaldiscs = 2;
    let album_meta = map(&[("album", "Example Album"), ("album_artist", "Example Artist"), ("genre", "")]);
    let track = TrackOutputInput {
        track_number: 7,
        track_meta: map(&[("title", "Intro"), ("artist", "Track Artist"), ("album", "Override")]),
        pcm: silent_pcm(),
    };
    let c = build_flac_comment_map(&settings, &album_meta, &track);
    assert_eq!(get(&c, "ALBUM").as_deref(), Some("Override"));
    assert_eq!(get(&c, "ALBUMARTIST").as_deref(), Some("Example Artist"));
    assert_eq!(get(&c, "TITLE").as_deref(), Some("Intro"));
    assert_eq!(get(&c, "ARTIST").as_deref(), Some("Track Artist"));
    assert_eq!(get(&c, "TRACKNUMBER").as_deref(), Some("7"));
    assert_eq!(get(&c, "DISCNUMBER").as_deref(), Some("1"));
    assert_eq!(get(&c, "DISCTOTAL").as_deref(), Some("2"));
    assert_eq!(get(&c, "GENRE"), None);

    let plain = build_flac_comment_map(&Settings::default(), &map(&[]), &TrackOutputInput {
        track_number: 3,
        track_meta: map(&[("track", "03")]),
        pcm: silent_pcm(),
    });
    assert_eq!(get(&plain, "TRACKNUMBER").as_deref(), Some("03"));
    assert_eq!(get(&plain, "DISCNUMBER"), None);
    assert_eq!(plain.len(), 1);
}

#[test]
fn cover_extension_comes_from_the_file_name() {
    assert_eq!(infer_cover_extension_from_source("front.JPG").as_deref(), Some("jpg"));
    assert_eq!(
        infer_cover_extension_from_source("http://x.org/a/b/cover.png?size=500").as_deref(),
        Some("png")
    );
    assert_eq!(infer_cover_extension_from_source("dir/cover.webp/").as_deref(), Some("webp"));
    assert_eq!(infer_cover_extension_from_source("dir/cover.tiff/.").as_deref(), Some("tiff"));
    assert_eq!(infer_cover_extension_from_source(".hidden"), None);
    assert_eq!(infer_cover_extension_from_source("noext"), None);
    assert_eq!(infer_cover_extension_from_source("name."), None);
    assert_eq!(infer_cover_extension_from_source("a/.."), None);
    assert_eq!(infer_cover_extension_from_source(""), None);
}

#[test]
fn cover_mime_type_from_content_type_or_extension() {
    let mut a = art("Front", Some(vec![1]), "cover.png");
    assert_eq!(infer_cover_mime_type(&a), "image/png");
    a.content_type = Some(" Image/JPEG ; charset=x".to_string());
    assert_eq!(infer_cover_mime_type(&a), "image/jpeg");
    a.content_type = Some(" ; x".to_string());
    a.extension = Some("tif".to_string());
    assert_eq!(infer_cover_mime_type(&a), "image/tiff");
    a.extension = Some("xyz".to_string());
    assert_eq!(infer_cover_mime_type(&a), "application/octet-stream");
}

#[test]
fn front_cover_with_bytes_is_embedded_first() {
    let arts = vec![
        art("Back", Some(vec![1, 2]), "back.png"),
        art("FRONT", Some(vec![]), "front-empty.jpg"),
        art("front", Some(vec![9]), "front.jpg"),
    ];
    let picked = pick_cover_art_for_embedding(&arts).unwrap();
    assert_eq!(picked.source_url, "front.jpg");
    let pic = flac_embedded_picture_from_cover_arts(&arts).unwrap();
    assert_eq!(pic.picture_type, CoverPictureType::CoverFront);
    assert_eq!(pic.data, vec![9]);
    assert_eq!(pic.mime_type, "image/jpeg");

    let backs = vec![art("back", Some(vec![3]), "b.gif"), art("x", None, "y.png")];
    let pic = flac_embedded_picture_from_cover_arts(&backs).unwrap();
    assert_eq!(pic.picture_type, CoverPictureType::CoverBack);
    assert_eq!(pic.mime_type, "image/gif");

    let none = vec![art("front", None, "f.jpg")];
    assert!(pick_cover_art_for_embedding(&none).is_none());
    assert!(flac_embedded_picture_from_cover_arts(&none).is_none());
}

#[test]
fn track_tags_for_naming_fill_number_and_title() {
    let entries = vec![
        "2=title=First".to_string(),
        "x=title=Bad".to_string(),
        "2=title=Second:artist=B".to_string(),
        "5=artist=C".to_string(),
    ];
    let table = track_meta_map_from_settings(&entries);
    assert_eq!(table.len(), 2);
    let t2 = track_meta_for_number(2, &table);
    assert_eq!(get(&t2, "title").as_deref(), Some("Second"));
    assert_eq!(get(&t2, "artist").as_deref(), Some("B"));
    assert_eq!(get(&t2, "track").as_deref(), Some("02"));
    let t5 = track_meta_for_number(5, &table);
    assert_eq!(get(&t5, "title").as_deref(), Some("Track 05"));
    let t9 = track_meta_for_number(9, &table);
    assert_eq!(get(&t9, "track").as_deref(), Some("09"));
    assert_eq!(get(&t9, "title").as_deref(), Some("Track 09"));
    assert_eq!(t9.len(), 2);
}

#[test]
fn sheet_tags_leave_out_blank_album_tags() {
    let album = map(&[("album", "A"), ("comment", "  "), ("date", "2001")]);
    let doc = cue_doc_meta_from_album_meta(&album);
    assert_eq!(doc.len(), 2);
    assert_eq!(get(&doc, "album").as_deref(), Some("A"));
    assert_eq!(get(&doc, "comment"), None);
}

#[test]
fn written_file_becomes_a_wave_sheet_track() {
    let meta = map(&[("title", "Intro"), ("artist", "X"), ("preemphasis", "true")]);
    let t = cue_track_from_written_file(4, "Album [WAV]/04 - Intro.wav", "Album [WAV]/Album.cue", &meta);
    assert_eq!(t.number, 4);
    assert_eq!(t.index, 4);
    assert_eq!(t.file_type, CueFileType::Wave);
    assert_eq!(t.title.as_deref(), Some("Intro"));
    assert_eq!(t.performer.as_deref(), Some("X"));
    assert_eq!(t.cue_path.as_deref(), Some("Album [WAV]/Album.cue"));
    assert_eq!(t.file_path, "Album [WAV]/04 - Intro.wav");
    assert!(t.preemphasis);
    assert!(!t.is_data);
}

fn release() -> MusicBrainzReleaseMeta {
    MusicBrainzReleaseMeta {
        musicbrainz_albumid: "mbid".to_string(),
        releasecomment: None,
        date: Some("1999".to_string()),
        album: "Rel Album".to_string(),
        barcode: Some(" ".to_string()),
        packaging: None,
        country: None,
        releasestatus: Some("Official".to_string()),
        catalognumber: None,
        label: Some("Lbl".to_string()),
        album_artist: Some("Rel Artist".to_string()),
        discname: None,
        format: Some("CD".to_string()),
        discnumber: Some(1),
        totaldiscs: 2,
        tracks: Vec::new(),
    }
}

#[test]
fn sheet_made_without_ripping_gets_disc_release_and_user_tags() {
    let mut settings = Settings::default();
    settings.album_metadata = Some("album=User Album".to_string());
    let discid = DiscidInfo {
        musicbrainz_discid: "disc-id".to_string(),
        cddb: "0a0b0c0d".to_string(),
        mb_submission_url: String::new(),
        last_audio_track_index: 1,
    };
    let rel = release();
    let m = cue_meta_from_runtime(&settings, Some(&discid), Some(&rel));
    assert_eq!(get(&m, "album").as_deref(), Some("User Album"));
    assert_eq!(get(&m, "album_artist").as_deref(), Some("Rel Artist"));
    assert_eq!(get(&m, "date").as_deref(), Some("1999"));
    assert_eq!(get(&m, "musicbrainz_discid").as_deref(), Some("disc-id"));
    assert_eq!(get(&m, "cddb").as_deref(), Some("0a0b0c0d"));
    assert_eq!(get(&m, "media").as_deref(), Some("CD"));
    assert_eq!(get(&m, "comment").as_deref(), Some("cyanrip 0.9.4-rc2"));
    assert_eq!(get(&m, "musicbrainz_albumid").as_deref(), Some("mbid"));
    assert_eq!(get(&m, "barcode"), None);
    assert_eq!(get(&m, "releasestatus").as_deref(), Some("Official"));
    assert_eq!(get(&m, "label").as_deref(), Some("Lbl"));
    assert_eq!(get(&m, "totaldiscs").as_deref(), Some("2"));
    assert_eq!(get(&m, "disc").as_deref(), Some("1"));
    assert_eq!(get(&m, "format").as_deref(), Some("CD"));

    let bare = cue_meta_from_runtime(&Settings::default(), None, None);
    assert_eq!(bare.len(), 2);
    assert_eq!(get(&bare, "media").as_deref(), Some("CD"));
}

#[test]
fn written_files_follow_formats_then_tracks_below_the_root() {
    let mut settings = Settings::default();
    settings.folder_name_scheme = "{album} [{format}]".to_string();
    settings.track_name_scheme = "{track} - {title}".to_string();
    settings.outputs = vec![OutputFormat::Flac, OutputFormat::Wav];
    let album_meta = map(&[("album", "Example Album")]);
    let tracks = vec![
        TrackOutputInput {
            track_number: 1,
            track_meta: map(&[("track", "01"), ("title", "Intro")]),
            pcm: silent_pcm(),
        },
        TrackOutputInput {
            track_number: 2,
            track_meta: map(&[("track", "02"), ("title", "Outro")]),
            pcm: silent_pcm(),
        },
    ];
    let res = plan_written_files(&settings, 2, &album_meta, &tracks, "out").unwrap();
    let got: Vec<(u32, OutputFormat, String, String)> = res
        .written_files
        .iter()
        .map(|f| (f.track_number, f.output_format, f.relative_path.clone(), f.absolute_path.clone()))
        .collect();
    assert_eq!(
        got,
        vec![
            (1, OutputFormat::Flac, "Example Album [FLAC]/01 - Intro.flac".to_string(), "out/Example Album [FLAC]/01 - Intro.flac".to_string()),
            (2, OutputFormat::Flac, "Example Album [FLAC]/02 - Outro.flac".to_string(), "out/Example Album [FLAC]/02 - Outro.flac".to_string()),
            (1, OutputFormat::Wav, "Example Album [WAV]/01 - Intro.wav".to_string(), "out/Example Album [WAV]/01 - Intro.wav".to_string()),
            (2, OutputFormat::Wav, "Example Album [WAV]/02 - Outro.wav".to_string(), "out/Example Album [WAV]/02 - Outro.wav".to_string()),
        ]
    );

    settings.outputs = vec![OutputFormat::Flac, OutputFormat::Mp3];
    let err = plan_written_files(&settings, 2, &album_meta, &tracks, "out").unwrap_err();
    assert_eq!(err, TrackOutputFlowError::UnsupportedOutputFormat(OutputFormat::Mp3));
}
