use sani::builder::{CacheAnimeInfoBuilder, CacheAnimeInfoBuilderError};
use sani::setup::{default_anime_dir, default_case_insensitive, default_height, default_lines, Config, DmenuSettings};

#[test]
fn finalize_with_every_field_succeeds() {
    let info = CacheAnimeInfoBuilder::default()
        .anime_name("Show")
        .filename("lib/Show/S01E01.mkv")
        .current_ep(4)
        .timestamp(120)
        .finalize()
        .ok()
        .unwrap();
    assert_eq!(info.dir_name, "Show");
    assert_eq!(info.filename, "lib/Show/S01E01.mkv");
    assert_eq!(info.episode, 4);
    assert_eq!(info.season, 1);
    assert_eq!(info.timestamp, 120);
}

fn missing_field(r: Result<sani::store::CacheAnimeInfo, CacheAnimeInfoBuilderError>) -> String {
    match r {
        Err(CacheAnimeInfoBuilderError::MissingField(m)) => m,
        Ok(_) => panic!("expected a missing field"),
    }
}

#[test]
fn finalize_names_the_first_missing_field() {
    let r = CacheAnimeInfoBuilder::default().finalize();
    assert_eq!(missing_field(r), "anime_name");

    let r = CacheAnimeInfoBuilder::default().anime_name("Show").finalize();
    assert_eq!(missing_field(r), "filename");

    let r = CacheAnimeInfoBuilder::default().anime_name("Show").filename("f.mkv").finalize();
    assert_eq!(missing_field(r), "current_ep");

    let r = CacheAnimeInfoBuilder::default()
        .anime_name("Show")
        .filename("f.mkv")
        .current_ep(1)
        .finalize();
    assert_eq!(missing_field(r), "timestamp");
}

#[test]
fn defaults_match_documentation() {
    assert_eq!(default_height(), 24);
    assert_eq!(default_lines(), 15);
    assert!(default_case_insensitive());
    let dirs = default_anime_dir("/home/viewer");
    assert_eq!(dirs, vec![String::from("/home/viewer/Videos")]);

    let d = DmenuSettings::default();
    assert_eq!(d.height, 24);
    assert_eq!(d.lines, 15);
    assert!(d.case_insensitive);
    assert!(!d.bottom);
    assert!(d.font.is_none());
}

#[test]
fn parse_normalizes_empty_optional_settings() {
    let mut settings = DmenuSettings::default();
    settings.font = Some(String::new());
    settings.sel_fg = Some(String::from("#ffffff"));
    settings.norm_bg = Some(String::new());
    let mut config = Config { anime_dir: vec![String::from("/videos")], dmenu_settings: settings };

    config.parse();

    assert!(config.dmenu_settings.font.is_none());
    assert_eq!(config.dmenu_settings.sel_fg.as_deref(), Some("#ffffff"));
    assert!(config.dmenu_settings.norm_bg.is_none());
    assert!(config.dmenu_settings.sel_bg.is_none());
    assert_eq!(config.anime_dir, vec![String::from("/videos")]);
}
