use cyanrip_rs::cue::{frames_to_cue, render_cue, CueDoc, CueFileType, CueTrack};
use cyanrip_rs::tags::TagMap;

fn meta(entries: &[(&str, &str)]) -> TagMap {
    let mut m = TagMap::new();
    for (k, v) in entries {
        m.insert(k.to_string(), v.to_string());
    }
    m
}

fn track(number: u32, file_path: &str, title: Option<&str>) -> CueTrack {
    CueTrack {
        number,
        index: number,
        is_data: false,
        preemphasis: false,
        file_path: file_path.into(),
        cue_path: None,
        file_type: CueFileType::Wave,
        title: title.map(|t| t.to_string()),
        performer: None,
        songwriter: None,
        composer: None,
        arranger: None,
        isrc: None,
        pregap_lsn: None,
        start_lsn: 0,
        start_lsn_sig: 0,
        dropped_pregap_start: None,
        merged_pregap_end: None,
        previous_start_lsn_sig: None,
        postgap_frames: None,
        flag_dcp: false,
        flag_4ch: false,
        flag_scms: false,
    }
}

#[test]
fn cue_time_conversion() {
    assert_eq!(frames_to_cue(0), "00:00:00");
    assert_eq!(frames_to_cue(75), "00:01:00");
    assert_eq!(frames_to_cue(4500), "01:00:00");
}

#[test]
fn cue_time_conversion_mixed_fields() {
    assert_eq!(frames_to_cue(4500 * 3 + 75 * 7 + 12), "03:07:12");
}

#[test]
fn strips_cue_directory_prefix_from_file_path() {
    let mut t = track(1, "album/01 - Intro.flac", Some("Intro"));
    t.cue_path = Some("album/disc.cue".into());
    let rendered = render_cue(&CueDoc {
        meta: meta(&[("album", "X")]),
        tracks: vec![t],
        deemphasis: true,
        force_deemphasis: false,
    });

    assert!(rendered.contains("FILE \"01 - Intro.flac\" WAVE"));
}

#[test]
fn emits_preemphasis_and_pregap_lines() {
    let mut t = track(1, "t1.flac", Some("T1"));
    t.preemphasis = true;
    t.start_lsn = 200;
    t.start_lsn_sig = 200;
    t.dropped_pregap_start = Some(50);
    let rendered = render_cue(&CueDoc {
        meta: meta(&[("album", "X")]),
        tracks: vec![t],
        deemphasis: false,
        force_deemphasis: false,
    });

    assert!(rendered.contains("    FLAGS PRE\n"));
    assert!(rendered.contains("    PREGAP 00:02:00\n"));
    assert!(rendered.contains("    INDEX 01 00:00:00\n"));
}

#[test]
fn emits_extended_track_directives() {
    let mut t = track(1, "t1.flac", Some("T1"));
    t.preemphasis = true;
    t.performer = Some("Artist".into());
    t.songwriter = Some("Writer".into());
    t.composer = Some("Composer".into());
    t.arranger = Some("Arranger".into());
    t.isrc = Some("USAAA9912345".into());
    t.postgap_frames = Some(150);
    t.flag_dcp = true;
    t.flag_4ch = true;
    t.flag_scms = true;
    let rendered = render_cue(&CueDoc {
        meta: meta(&[("album", "X")]),
        tracks: vec![t],
        deemphasis: false,
        force_deemphasis: false,
    });

    assert!(rendered.contains("    SONGWRITER \"Writer\"\n"));
    assert!(rendered.contains("    COMPOSER \"Composer\"\n"));
    assert!(rendered.contains("    ARRANGER \"Arranger\"\n"));
    assert!(rendered.contains("    FLAGS PRE DCP 4CH SCMS\n"));
    assert!(rendered.contains("    POSTGAP 00:02:00\n"));
}

#[test]
fn deemphasis_suppresses_pre_flag() {
    let mut t = track(1, "t1.flac", Some("T1"));
    t.preemphasis = true;
    let rendered = render_cue(&CueDoc {
        meta: meta(&[("album", "X")]),
        tracks: vec![t],
        deemphasis: true,
        force_deemphasis: false,
    });
    assert!(!rendered.contains("FLAGS PRE"));
}

#[test]
fn renders_two_tracks_in_order() {
    let rendered = render_cue(&CueDoc {
        meta: meta(&[("album", "Example Album"), ("album_artist", "Example Artist")]),
        tracks: vec![
            track(1, "01 - Intro.flac", Some("Intro")),
            track(2, "02 - Outro.flac", Some("Outro")),
        ],
        deemphasis: true,
        force_deemphasis: false,
    });
    let first = rendered.find("TRACK 01 AUDIO").expect("first track");
    let second = rendered.find("TRACK 02 AUDIO").expect("second track");
    assert!(first < second);
    assert!(rendered.contains("TITLE \"Example Album\""));
    assert!(rendered.contains("PERFORMER \"Example Artist\""));
}

#[test]
fn written_index_times_read_back_as_the_same_start() {
    for f in [0u32, 74, 75, 4499, 4500, 123_456, 2_147_483_647] {
        let line = format!("    INDEX 01 {}", frames_to_cue(f));
        assert_eq!(
            cyanrip_rs::workflow::parse_cue_index_01_lsn(&line),
            Some(f as i32),
            "{line}"
        );
    }
}
