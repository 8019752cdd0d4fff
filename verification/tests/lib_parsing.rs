use cyanrip_rs::{
    apply_pregap_entries, calc_over_under_read_frames, open_dev_kind, parse_cover_size,
    parse_disc, parse_outputs, parse_paranoia, parse_pregap_entry, parse_release,
    parse_sanitize, parse_track_indices, validate_folder_scheme, validate_mode_combo,
    CoverArtLookupSize, DriverKind, OutputFormat, PregapAction, ReleaseSelection,
    SanitizeMethod, MAX_TRACKS,
};

#[test]
fn open_dev_suffix_mapping_regression() {
    assert_eq!(open_dev_kind("disc.bin"), DriverKind::BinCue);
    assert_eq!(open_dev_kind("disc.cue"), DriverKind::Cue);
    assert_eq!(open_dev_kind("disc.nrg"), DriverKind::Nrg);
    assert_eq!(open_dev_kind("disc.toc"), DriverKind::CdrDao);
    assert_eq!(open_dev_kind("/dev/cdrom"), DriverKind::Unknown);
}

#[test]
fn over_under_read_frames_regression() {
    assert_eq!(calc_over_under_read_frames(0), 0);
    assert_eq!(calc_over_under_read_frames(1), 1);
    assert_eq!(calc_over_under_read_frames(588), 1);
    assert_eq!(calc_over_under_read_frames(589), 2);
    assert_eq!(calc_over_under_read_frames(-588), -1);
    assert_eq!(calc_over_under_read_frames(-589), -2);
}

#[test]
fn paranoia_parsing_regression() {
    assert_eq!(parse_paranoia("none", 3).unwrap(), 0);
    assert_eq!(parse_paranoia("max", 3).unwrap(), 3);
    assert_eq!(parse_paranoia("2", 3).unwrap(), 2);
    assert_eq!(parse_paranoia("bogus", 3).unwrap(), 0);
    assert_eq!(parse_paranoia("2abc", 3).unwrap(), 2);
    assert!(parse_paranoia("4", 3).is_err());
}

#[test]
fn paranoia_parsing_reports_range_error() {
    assert_eq!(
        parse_paranoia("-1", 3).unwrap_err(),
        "Invalid paranoia level -1 must be between 0 and 3"
    );
    assert_eq!(parse_paranoia("  7", 9).unwrap(), 7);
}

#[test]
fn cover_size_regression() {
    assert_eq!(parse_cover_size(-1).unwrap(), CoverArtLookupSize::Original);
    assert_eq!(parse_cover_size(250).unwrap(), CoverArtLookupSize::Px250);
    assert_eq!(parse_cover_size(500).unwrap(), CoverArtLookupSize::Px500);
    assert_eq!(parse_cover_size(1200).unwrap(), CoverArtLookupSize::Px1200);
    assert!(parse_cover_size(999).is_err());
}

#[test]
fn cover_size_error_message() {
    assert_eq!(
        parse_cover_size(999).unwrap_err(),
        "Invalid max coverart size 999 (must be 250, 500, 1200 or -1)"
    );
}

#[test]
fn sanitize_regression() {
    assert_eq!(parse_sanitize("simple").unwrap(), SanitizeMethod::Simple);
    assert_eq!(parse_sanitize("os_simple").unwrap(), SanitizeMethod::OsSimple);
    assert_eq!(parse_sanitize("unicode").unwrap(), SanitizeMethod::Unicode);
    assert_eq!(parse_sanitize("os_unicode").unwrap(), SanitizeMethod::OsUnicode);
    assert!(parse_sanitize("bad").is_err());
}

#[test]
fn sanitize_error_message() {
    assert_eq!(parse_sanitize("bad").unwrap_err(), "Invalid sanitation method bad");
}

#[test]
fn disc_parse_regression() {
    assert_eq!(parse_disc("1").unwrap(), (1, 0));
    assert_eq!(parse_disc("2/3").unwrap(), (2, 3));
    assert!(parse_disc("0/3").is_err());
    assert!(parse_disc("3/2").is_err());
    assert!(parse_disc("1/0").is_err());
}

#[test]
fn disc_parse_error_messages() {
    assert_eq!(parse_disc("x").unwrap_err(), "Invalid discnumber 0");
    assert_eq!(parse_disc("1/x").unwrap_err(), "Invalid totaldiscs 0");
    assert_eq!(
        parse_disc("3/2").unwrap_err(),
        "discnumber 3 is larger than totaldiscs 2"
    );
}

#[test]
fn release_parse_regression() {
    assert_eq!(parse_release("2").unwrap(), ReleaseSelection::Index(2));
    assert_eq!(
        parse_release("1f2a3b4c").unwrap(),
        ReleaseSelection::Id("1f2a3b4c".to_string())
    );
    assert!(parse_release("0").is_err());
}

#[test]
fn outputs_validation_regression() {
    assert_eq!(parse_outputs(&[]).unwrap(), vec![OutputFormat::Flac]);
    assert_eq!(parse_outputs(&["help"]).unwrap(), Vec::<OutputFormat>::new());
    assert_eq!(
        parse_outputs(&["flac", "mp3"]).unwrap(),
        vec![OutputFormat::Flac, OutputFormat::Mp3]
    );
    assert!(parse_outputs(&["flac", "flac"]).is_err());
    assert!(parse_outputs(&["wat"]).is_err());
}

#[test]
fn output_format_names_round_trip() {
    for name in ["flac", "mp3", "tta", "opus", "aac", "aac_mp4", "wavpack", "vorbis", "alac", "alac_mp4", "wav", "opus_mp4", "pcm"] {
        assert!(OutputFormat::from_cli_name(name).is_some(), "{name}");
    }
    assert_eq!(OutputFormat::from_cli_name("wav"), Some(OutputFormat::Wav));
    assert_eq!(OutputFormat::from_cli_name("WAV"), None);
}

#[test]
fn track_indices_are_sorted_and_unique() {
    assert_eq!(parse_track_indices(&[5, 1, 3]).unwrap(), vec![1, 3, 5]);
    assert!(parse_track_indices(&[1, 2, 2]).is_err());
}

#[test]
fn pregap_parsing_regression() {
    assert_eq!(parse_pregap_entry("1=default").unwrap(), (0, PregapAction::Default));
    assert_eq!(parse_pregap_entry("2=drop").unwrap(), (1, PregapAction::Drop));
    assert_eq!(parse_pregap_entry("3=merge").unwrap(), (2, PregapAction::Merge));
    assert_eq!(parse_pregap_entry("4=track").unwrap(), (3, PregapAction::Track));
    assert!(parse_pregap_entry("0=drop").is_err());
    assert!(parse_pregap_entry("1=invalid").is_err());
    assert!(parse_pregap_entry("1").is_err());
}

#[test]
fn pregap_application_regression() {
    let mut pregap = [PregapAction::Default; MAX_TRACKS];
    apply_pregap_entries(&mut pregap, &["1=drop", "3=merge"]).unwrap();
    assert_eq!(pregap[0], PregapAction::Drop);
    assert_eq!(pregap[2], PregapAction::Merge);
    assert_eq!(pregap[1], PregapAction::Default);
}

#[test]
fn folder_scheme_validation_regression() {
    assert!(validate_folder_scheme(1, "{album}").is_ok());
    assert!(validate_folder_scheme(2, "{album}-{format}").is_ok());
    assert!(validate_folder_scheme(2, "{album}").is_err());
}

#[test]
fn mode_combo_validation_regression() {
    assert!(validate_mode_combo(false, false).is_ok());
    assert!(validate_mode_combo(true, false).is_ok());
    assert!(validate_mode_combo(false, true).is_ok());
    assert!(validate_mode_combo(true, true).is_err());
}
