use cyanrip_rs::cli::{CliAction, CliArgs, CliConfig, SUPPORTED_OUTPUTS_HELP};
use cyanrip_rs::{
    CoverArtLookupSize, OutputFormat, PregapAction, ReleaseSelection, SanitizeMethod, Settings,
};

fn s(v: &str) -> String {
    v.to_string()
}

fn config(args: CliArgs) -> Result<CliConfig, String> {
    args.to_config()
}

#[test]
fn maps_defaults() {
    let cfg = config(CliArgs::default()).unwrap();
    assert_eq!(cfg.settings, Settings::default());
    assert_eq!(cfg.action, CliAction::Run);
}

#[test]
fn maps_basic_flags_to_settings() {
    let cfg = config(CliArgs {
        offset: Some(589),
        retries: 15,
        repeat_rips: 2,
        speed: 4,
        hdcd: true,
        force_deemphasis: true,
        no_deemphasis: true,
        no_replaygain: true,
        no_musicbrainz: true,
        no_accurip: true,
        no_coverart_db: true,
        no_coverart_embed: true,
        eject: true,
        ..CliArgs::default()
    })
    .unwrap();

    assert_eq!(cfg.settings.offset, 589);
    assert_eq!(cfg.settings.over_under_read_frames, 2);
    assert_eq!(cfg.settings.max_retries, 15);
    assert_eq!(cfg.settings.ripping_retries, 2);
    assert_eq!(cfg.settings.speed, 4);
    assert!(cfg.settings.decode_hdcd);
    assert!(cfg.settings.force_deemphasis);
    assert!(!cfg.settings.deemphasis);
    assert!(!cfg.settings.enable_replaygain);
    assert!(cfg.settings.disable_mb);
    assert!(cfg.settings.disable_accurip);
    assert!(cfg.settings.disable_coverart_db);
    assert!(cfg.settings.disable_coverart_embedding);
    assert!(cfg.settings.eject_on_success_rip);
}

#[test]
fn maps_outputs_tracks_and_pregap() {
    let cfg = config(CliArgs {
        outputs: Some(s("flac,mp3")),
        tracks: Some(s("5,1,3")),
        pregap: vec![s("1=drop"), s("3=merge")],
        ..CliArgs::default()
    })
    .unwrap();

    assert_eq!(cfg.settings.outputs, vec![OutputFormat::Flac, OutputFormat::Mp3]);
    assert_eq!(cfg.settings.rip_indices, vec![1, 3, 5]);
    assert_eq!(cfg.settings.rip_indices_count, 3);
    assert_eq!(cfg.settings.pregap_action[0], PregapAction::Drop);
    assert_eq!(cfg.settings.pregap_action[2], PregapAction::Merge);
}

#[test]
fn parses_extended_fields() {
    let cfg = config(CliArgs {
        paranoia: Some(s("max")),
        sanitize: Some(s("os_unicode")),
        cover_size: 500,
        release: Some(s("2")),
        disc: Some(s("1/2")),
        ..CliArgs::default()
    })
    .unwrap();

    assert_eq!(cfg.settings.paranoia_level, 3);
    assert_eq!(cfg.settings.sanitize_method, SanitizeMethod::OsUnicode);
    assert_eq!(cfg.settings.coverart_lookup_size, CoverArtLookupSize::Px500);
    assert_eq!(cfg.settings.release, Some(ReleaseSelection::Index(2)));
    assert_eq!(cfg.settings.discnumber, 1);
    assert_eq!(cfg.settings.totaldiscs, 2);
}

#[test]
fn rejects_invalid_modes() {
    let err = config(CliArgs { info: true, cue_only: true, ..CliArgs::default() }).unwrap_err();
    assert_eq!(err, "-J (only generate a CUE sheet) cannot be used with -I (only print info)!");
}

#[test]
fn parses_outputs_help_mode() {
    let cfg = config(CliArgs { outputs: Some(s("help")), ..CliArgs::default() }).unwrap();
    assert_eq!(cfg.action, CliAction::ShowOutputsHelp);
    assert_eq!(cfg.settings.outputs, vec![OutputFormat::Flac]);
}

#[test]
fn outputs_help_short_circuits_late_validations_like_c() {
    let cfg = config(CliArgs {
        outputs: Some(s("help")),
        info: true,
        cue_only: true,
        ..CliArgs::default()
    })
    .unwrap();
    assert_eq!(cfg.action, CliAction::ShowOutputsHelp);
}

#[test]
fn verify_log_short_circuits_other_parsing_like_c() {
    let cfg = config(CliArgs {
        verify_log: Some(s("rip.log")),
        paranoia: Some(s("bogus")),
        ..CliArgs::default()
    })
    .unwrap();
    assert_eq!(cfg.action, CliAction::VerifyLog);
    assert_eq!(cfg.settings.verify_log.as_deref(), Some("rip.log"));
}

#[test]
fn paranoia_non_numeric_matches_c_strtol_behavior() {
    let cfg = config(CliArgs { paranoia: Some(s("bogus")), ..CliArgs::default() }).unwrap();
    assert_eq!(cfg.settings.paranoia_level, 0);
}

#[test]
fn golden_c_style_full_rip_invocation() {
    let cfg = config(CliArgs {
        device: Some(s("/dev/cdrom")),
        offset: Some(6),
        retries: 10,
        speed: 4,
        outputs: Some(s("flac,mp3")),
        folder_scheme: s("{album} [{format}]"),
        track_scheme: s("{track} - {title}"),
        pregap: vec![s("1=drop")],
        tracks: Some(s("1,2,3")),
        release: Some(s("2")),
        disc: Some(s("1/2")),
        eject: true,
        ..CliArgs::default()
    })
    .unwrap();

    assert_eq!(cfg.action, CliAction::Run);
    assert_eq!(cfg.settings.dev_path.as_deref(), Some("/dev/cdrom"));
    assert_eq!(cfg.settings.offset, 6);
    assert_eq!(cfg.settings.speed, 4);
    assert_eq!(cfg.settings.outputs, vec![OutputFormat::Flac, OutputFormat::Mp3]);
    assert_eq!(cfg.settings.pregap_action[0], PregapAction::Drop);
    assert_eq!(cfg.settings.rip_indices, vec![1, 2, 3]);
    assert_eq!(cfg.settings.release, Some(ReleaseSelection::Index(2)));
    assert_eq!(cfg.settings.discnumber, 1);
    assert_eq!(cfg.settings.totaldiscs, 2);
    assert!(cfg.settings.eject_on_success_rip);
}

#[test]
fn golden_c_style_metadata_invocation() {
    let cfg = config(CliArgs {
        album_meta: Some(s("album=Test:album_artist=Tester")),
        track_meta: vec![s("1=title=Intro:artist=Tester"), s("2=title=Outro")],
        cover: vec![s("Front=front.jpg"), s("2=track2.jpg")],
        ..CliArgs::default()
    })
    .unwrap();

    assert_eq!(cfg.settings.album_metadata.as_deref(), Some("album=Test:album_artist=Tester"));
    assert_eq!(cfg.settings.track_metadata.len(), 2);
    assert_eq!(cfg.settings.cover_specs.len(), 2);
}

#[test]
fn cue_only_applies_c_side_effects() {
    let cfg = config(CliArgs { cue_only: true, offset: Some(0), ..CliArgs::default() }).unwrap();
    assert!(cfg.settings.generate_cue_only);
    assert!(cfg.settings.disable_accurip);
    assert!(cfg.settings.disable_coverart_db);
}

#[test]
fn cue_only_without_offset_keeps_offset_unset_marker() {
    let cfg = config(CliArgs { cue_only: true, ..CliArgs::default() }).unwrap();
    assert!(cfg.settings.generate_cue_only);
    assert!(!cfg.settings.offset_is_set);
}

#[test]
fn info_only_disables_eject_side_effect() {
    let cfg = config(CliArgs { info: true, eject: true, ..CliArgs::default() }).unwrap();
    assert!(cfg.settings.print_info_only);
    assert!(!cfg.settings.eject_on_success_rip);
}

#[test]
fn find_offset_applies_c_side_effects() {
    let cfg = config(CliArgs {
        find_offset: true,
        no_accurip: true,
        eject: true,
        offset: Some(42),
        ..CliArgs::default()
    })
    .unwrap();
    assert!(cfg.settings.find_drive_offset);
    assert!(!cfg.settings.disable_accurip);
    assert!(cfg.settings.disable_mb);
    assert!(cfg.settings.disable_coverart_db);
    assert_eq!(cfg.settings.offset, 0);
    assert_eq!(cfg.settings.over_under_read_frames, 0);
    assert!(!cfg.settings.eject_on_success_rip);
}

#[test]
fn rejects_invalid_pregap() {
    let err = config(CliArgs { pregap: vec![s("0=drop")], ..CliArgs::default() }).unwrap_err();
    assert_eq!(err, "Invalid track idx for pregap: 0");
}

#[test]
fn rejects_invalid_cover_size_with_exact_message() {
    let err = config(CliArgs { cover_size: 999, ..CliArgs::default() }).unwrap_err();
    assert_eq!(err, "Invalid max coverart size 999 (must be 250, 500, 1200 or -1)");
}

#[test]
fn rejects_invalid_sanitize_with_exact_message() {
    let err = config(CliArgs { sanitize: Some(s("bad")), ..CliArgs::default() }).unwrap_err();
    assert_eq!(err, "Invalid sanitation method bad");
}

#[test]
fn rejects_invalid_release_with_exact_message() {
    let err = config(CliArgs { release: Some(s("0")), ..CliArgs::default() }).unwrap_err();
    assert_eq!(err, "Invalid release index 0!");
}

#[test]
fn rejects_invalid_disc_with_exact_message() {
    let err = config(CliArgs { disc: Some(s("3/2")), ..CliArgs::default() }).unwrap_err();
    assert_eq!(err, "discnumber 3 is larger than totaldiscs 2");
}

#[test]
fn rejects_duplicate_outputs_with_exact_message() {
    let err = config(CliArgs { outputs: Some(s("flac,flac")), ..CliArgs::default() }).unwrap_err();
    assert_eq!(err, "Duplicated format \"flac\"");
}

#[test]
fn rejects_unknown_output_with_exact_message() {
    let err = config(CliArgs { outputs: Some(s("wat")), ..CliArgs::default() }).unwrap_err();
    assert_eq!(err, "Invalid format \"wat\"");
}

#[test]
fn rejects_invalid_paranoia_range_with_exact_message() {
    let err = config(CliArgs { paranoia: Some(s("4")), ..CliArgs::default() }).unwrap_err();
    assert_eq!(err, "Invalid paranoia level 4 must be between 0 and 3");
}

#[test]
fn rejects_folder_scheme_without_format_for_multi_output() {
    let err = config(CliArgs {
        outputs: Some(s("flac,mp3")),
        folder_scheme: s("{album}"),
        ..CliArgs::default()
    })
    .unwrap_err();
    assert_eq!(err, "Directory name scheme must contain {format} with multiple output formats!");
}

#[test]
fn track_list_entries_are_trimmed_and_blank_ones_skipped() {
    let cfg = config(CliArgs { tracks: Some(s(" 4 ,, 2,")), ..CliArgs::default() }).unwrap();
    assert_eq!(cfg.settings.rip_indices, vec![2, 4]);
    assert_eq!(cfg.settings.rip_indices_count, 2);
}

#[test]
fn rejects_non_numeric_track_with_exact_message() {
    let err = config(CliArgs { tracks: Some(s("1,x2,y")), ..CliArgs::default() }).unwrap_err();
    assert_eq!(err, "Invalid track index x2");
}

#[test]
fn rejects_duplicate_track_with_exact_message() {
    let err = config(CliArgs { tracks: Some(s("3,1,3")), ..CliArgs::default() }).unwrap_err();
    assert_eq!(err, "Duplicated rip idx 3");
}

#[test]
fn first_error_in_order_wins() {
    let err = config(CliArgs {
        cover_size: 7,
        sanitize: Some(s("bad")),
        outputs: Some(s("wat")),
        ..CliArgs::default()
    })
    .unwrap_err();
    assert_eq!(err, "Invalid max coverart size 7 (must be 250, 500, 1200 or -1)");
}

#[test]
fn release_id_string_is_kept() {
    let cfg = config(CliArgs { release: Some(s("abc-123")), ..CliArgs::default() }).unwrap();
    assert_eq!(cfg.settings.release, Some(ReleaseSelection::Id(s("abc-123"))));
}

#[test]
fn supported_outputs_help_lists_every_codec() {
    assert!(SUPPORTED_OUTPUTS_HELP.starts_with("Supported output codecs:"));
    assert_eq!(SUPPORTED_OUTPUTS_HELP.lines().count(), 14);
}
