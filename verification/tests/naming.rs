use cyanrip_rs::naming::{
    append_missing_keys, build_cover_relative_path, build_cue_relative_path,
    build_log_relative_path, build_track_relative_path, detect_track_path_collisions, is_integer,
    render_scheme, sanitize_text, trim_path_components, NamingContext,
};
use cyanrip_rs::tags::{tag_map_from_pairs, TagMap};
use cyanrip_rs::SanitizeMethod;

fn mkctx(method: SanitizeMethod, tracks: usize) -> NamingContext {
    NamingContext {
        sanitize_method: method,
        nb_tracks: tracks,
    }
}

fn map(entries: &[(&str, &str)]) -> TagMap {
    tag_map_from_pairs(entries)
}

#[test]
fn prepends_missing_keys() {
    assert_eq!(
        append_missing_keys("Foo:Bar", "album=", "album_artist="),
        "album=Foo:album_artist=Bar"
    );
}

#[test]
fn keeps_existing_keys() {
    assert_eq!(
        append_missing_keys("album=Foo:artist=Bar", "album=", "album_artist="),
        "album=Foo:artist=Bar"
    );
}

#[test]
fn prepends_keys_with_escapes_like_c() {
    assert_eq!(
        append_missing_keys("Foo\\:Bar:Baz", "album=", "album_artist="),
        "album=Foo\\:Bar:album_artist=Baz"
    );
    assert_eq!(
        append_missing_keys("title=Foo\\=Bar:Baz", "title=", "artist="),
        "title=Foo\\=Bar:artist=Baz"
    );
}

#[test]
fn append_missing_keys_handles_edge_entries() {
    assert_eq!(append_missing_keys("", "a=", "b="), "");
    assert_eq!(append_missing_keys(":Bar", "a=", "b="), ":b=Bar");
    assert_eq!(append_missing_keys("Foo:", "a=", "b="), "a=Foo:");
    assert_eq!(append_missing_keys("x=1:y:z", "a=", "b="), "x=1:b=y:z");
    assert_eq!(append_missing_keys("Fé:Bär", "a=", "b="), "a=Fé:b=Bär");
}

#[test]
fn integer_check() {
    assert!(is_integer("123"));
    assert!(!is_integer("12a"));
    assert!(!is_integer(""));
}

#[test]
fn sanitize_simple_and_unicode() {
    let s = "A<B>:C?D*E/F\\G\"H\"";
    let simple = sanitize_text(&mkctx(SanitizeMethod::Simple, 10), s, true);
    assert_eq!(simple, "A_B__C_D_E_F_G'H'");

    let unicode = sanitize_text(&mkctx(SanitizeMethod::Unicode, 10), s, true);
    assert!(unicode.contains('‹'));
    assert!(unicode.contains('›'));
    assert!(unicode.contains("“H”"));
}

#[test]
fn sanitize_os_methods_keep_locally_valid_characters() {
    let s = "a:b/c\"d\"";
    assert_eq!(
        sanitize_text(&mkctx(SanitizeMethod::OsSimple, 1), s, true),
        "a:b_c\"d\""
    );
    assert_eq!(
        sanitize_text(&mkctx(SanitizeMethod::OsUnicode, 1), s, true),
        "a:b∕c\"d\""
    );
    assert_eq!(
        sanitize_text(&mkctx(SanitizeMethod::Unicode, 1), "|?*\\", true),
        "│？∗⧹"
    );
}

#[test]
fn sanitize_keeps_dir_separator_for_literal_text() {
    let out = sanitize_text(&mkctx(SanitizeMethod::Simple, 10), "Disc/Track", false);
    assert_eq!(out, "Disc/Track");
}

#[test]
fn render_default_folder_condition() {
    let ctx = mkctx(SanitizeMethod::Unicode, 12);
    let meta = map(&[("album", "The Wall")]);
    let s = "{album}{if #releasecomment# > #0# (|releasecomment|)} [{format}]";
    let out = render_scheme(&ctx, &meta, "FLAC", s).unwrap();
    assert_eq!(out, "The Wall [FLAC]");

    let meta2 = map(&[("album", "The Wall"), ("releasecomment", "Remaster")]);
    let out2 = render_scheme(&ctx, &meta2, "FLAC", s).unwrap();
    assert_eq!(out2, "The Wall (Remaster) [FLAC]");
}

#[test]
fn render_year_and_padded_track() {
    let ctx = mkctx(SanitizeMethod::Unicode, 12);
    let meta = map(&[("date", "1979-11-30"), ("track", "1")]);
    assert_eq!(
        render_scheme(&ctx, &meta, "FLAC", "{year}").unwrap(),
        "1979"
    );
    assert_eq!(render_scheme(&ctx, &meta, "FLAC", "{track}").unwrap(), "01");
}

#[test]
fn render_pads_track_to_three_digits_for_long_discs() {
    let ctx = mkctx(SanitizeMethod::Simple, 120);
    let meta = map(&[("track", "7")]);
    assert_eq!(render_scheme(&ctx, &meta, "FLAC", "{track}").unwrap(), "007");
    let few = mkctx(SanitizeMethod::Simple, 5);
    assert_eq!(render_scheme(&few, &meta, "FLAC", "{track}").unwrap(), "7");
}

#[test]
fn render_reports_scheme_errors() {
    let ctx = mkctx(SanitizeMethod::Simple, 5);
    let meta = map(&[("album", "A")]);
    assert_eq!(
        render_scheme(&ctx, &meta, "FLAC", "{album").unwrap_err(),
        "Invalid scheme syntax, unterminated \"{\"!"
    );
    assert_eq!(
        render_scheme(&ctx, &meta, "FLAC", "{if #album# == #A}").unwrap_err(),
        "Invalid scheme syntax, no terminating \"#\"!"
    );
    assert_eq!(
        render_scheme(&ctx, &meta, "FLAC", "{if #album# ~ #A# x}").unwrap_err(),
        "Invalid condition syntax!"
    );
}

#[test]
fn render_conditions_compare_text_and_numbers() {
    let ctx = mkctx(SanitizeMethod::Simple, 5);
    let meta = map(&[("album", "A"), ("disc", "10")]);
    assert_eq!(
        render_scheme(&ctx, &meta, "FLAC", "{if #album# == #A# yes}").unwrap(),
        " yes"
    );
    assert_eq!(
        render_scheme(&ctx, &meta, "FLAC", "{if #album# != #A# yes}").unwrap(),
        ""
    );
    assert_eq!(
        render_scheme(&ctx, &meta, "FLAC", "{if #disc# > #9# big}").unwrap(),
        " big"
    );
    assert_eq!(
        render_scheme(&ctx, &meta, "FLAC", "{if #b# < #a# x}").unwrap(),
        ""
    );
    assert_eq!(
        render_scheme(&ctx, &meta, "FLAC", "{if #album# > #0# x}").unwrap(),
        " x"
    );
    assert_eq!(
        render_scheme(&ctx, &meta, "FLAC", "{if #nope# > #0# x}").unwrap(),
        ""
    );
}

#[test]
fn render_sanitizes_tag_values_including_separators() {
    let ctx = mkctx(SanitizeMethod::Simple, 5);
    let meta = map(&[("title", "AC/DC: Live")]);
    assert_eq!(
        render_scheme(&ctx, &meta, "FLAC", "a/{title}").unwrap(),
        "a/AC_DC_ Live"
    );
}

#[test]
fn trims_path_components_and_extension_spacing() {
    let p = trim_path_components("  Album / 01 - Intro   .flac", '/');
    assert_eq!(p, "Album/01 - Intro.flac");
}

#[test]
fn trims_tabs_and_keeps_empty_components() {
    assert_eq!(trim_path_components("\ta//b\t", '/'), "a//b");
    assert_eq!(trim_path_components("", '/'), "");
}

#[test]
fn builds_track_path_from_fixture_example() {
    let ctx = mkctx(SanitizeMethod::Unicode, 12);
    let album = map(&[("album", "Example Album")]);
    let track = map(&[("track", "01"), ("title", "Intro")]);
    let out = build_track_relative_path(
        &ctx,
        &album,
        &track,
        "{album} [{format}]",
        "{track} - {title}",
        "FLAC",
        "flac",
    )
    .unwrap();
    assert_eq!(out, "Example Album [FLAC]/01 - Intro.flac");
}

#[test]
fn builds_log_and_cue_paths_from_schemes() {
    let ctx = mkctx(SanitizeMethod::Unicode, 12);
    let album = map(&[
        ("album", "Example Album"),
        ("disc", "1"),
        ("totaldiscs", "2"),
    ]);

    let log_path = build_log_relative_path(
        &ctx,
        &album,
        "{album} [{format}]",
        "{album}{if #totaldiscs# > #1# CD|disc|}",
        "FLAC",
    )
    .unwrap();
    assert_eq!(log_path, "Example Album [FLAC]/Example Album CD1.log");

    let cue_path = build_cue_relative_path(
        &ctx,
        &album,
        "{album} [{format}]",
        "{album}{if #totaldiscs# > #1# CD|disc|}",
        "FLAC",
    )
    .unwrap();
    assert_eq!(cue_path, "Example Album [FLAC]/Example Album CD1.cue");
}

#[test]
fn builds_cover_path_with_sanitized_title_and_extension() {
    let ctx = mkctx(SanitizeMethod::Simple, 12);
    let album = map(&[("album", "Example Album")]);
    let out = build_cover_relative_path(
        &ctx,
        &album,
        "{album} [{format}]",
        "FLAC",
        "Front:Cover",
        Some("jpg"),
    )
    .unwrap();

    assert_eq!(out, "Example Album [FLAC]/Front_Cover.jpg");
}

#[test]
fn cover_path_extension_falls_back_to_bin() {
    let ctx = mkctx(SanitizeMethod::Simple, 12);
    let album = map(&[("album", "A")]);
    let dotted = build_cover_relative_path(&ctx, &album, "{album}", "FLAC", "Front", Some("..png"))
        .unwrap();
    assert_eq!(dotted, "A/Front.png");
    let blank = build_cover_relative_path(&ctx, &album, "{album}", "FLAC", "Front", Some(". "))
        .unwrap();
    assert_eq!(blank, "A/Front.bin");
    let none = build_cover_relative_path(&ctx, &album, "{album}", "FLAC", "Front", None).unwrap();
    assert_eq!(none, "A/Front.bin");
}

#[test]
fn detects_track_path_collisions() {
    let collisions = detect_track_path_collisions(&[
        (1, "same/file.flac".to_string()),
        (2, "other/file.flac".to_string()),
        (3, "same/file.flac".to_string()),
    ]);

    assert_eq!(collisions.len(), 1);
    assert_eq!(collisions[0], (1, 3, "same/file.flac".to_string()));
}

#[test]
fn collisions_name_the_first_track_with_the_path() {
    let collisions = detect_track_path_collisions(&[
        (4, "x".to_string()),
        (5, "x".to_string()),
        (6, "x".to_string()),
    ]);
    assert_eq!(
        collisions,
        vec![(4, 5, "x".to_string()), (4, 6, "x".to_string())]
    );
}

#[test]
fn trimming_a_trimmed_path_changes_nothing() {
    for p in [
        "  Album / 01 - Intro   .flac",
        "a .x/b",
        " x / .hidden ",
        "\ta//b\t",
        "Disc 1 /  Track  2 .wav",
        "no-dot ",
    ] {
        let once = trim_path_components(p, '/');
        assert_eq!(trim_path_components(&once, '/'), once, "{p}");
    }
}
