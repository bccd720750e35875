use sani::classify::classify;
use sani::episode::{EpisodeKind, EpisodeNumbered};

fn numbered(season: u32, ep: u32) -> EpisodeKind {
    EpisodeKind::Numbered(EpisodeNumbered { ep, s: season })
}

fn special(label: &str) -> EpisodeKind {
    EpisodeKind::Special(String::from(label))
}

#[test]
fn classify_sxxexx_plain() {
    assert_eq!(classify("S01E01.mkv"), numbered(1, 1));
    assert_eq!(classify("Show S02E05.mkv"), numbered(2, 5));
    assert_eq!(classify("show s03e12.mkv"), numbered(3, 12));
}

#[test]
fn classify_sxxexx_with_noise_tokens() {
    // Resolution and codec markers must not be mistaken for coordinates.
    assert_eq!(classify("Show 1080p S02E05 x265.mkv"), numbered(2, 5));
    assert_eq!(classify("Show 720p S01E09 x264.mkv"), numbered(1, 9));
    assert_eq!(classify("Show S04E08 10bit.mkv"), numbered(4, 8));
}

#[test]
fn classify_noise_alone_defaults() {
    assert_eq!(classify("Show 1080p.mkv"), numbered(1, 1));
    assert_eq!(classify("Show x264.mkv"), numbered(1, 1));
}

#[test]
fn classify_separator_between_season_and_episode() {
    assert_eq!(classify("Show S01 E05.mkv"), numbered(1, 5));
    assert_eq!(classify("Show S01.E05.mkv"), numbered(1, 5));
    assert_eq!(classify("Show S02 05.mkv"), numbered(2, 5));
}

#[test]
fn classify_episode_without_season_defaults_to_season_one() {
    assert_eq!(classify("Show E07.mkv"), numbered(1, 7));
    assert_eq!(classify("Show.EP12.mkv"), numbered(1, 12));
    assert_eq!(classify("Show - 05.mkv"), numbered(1, 5));
}

#[test]
fn classify_season_x_episode_pair() {
    assert_eq!(classify("Show 2x05.mkv"), numbered(2, 5));
    assert_eq!(classify("Show 12x03.mkv"), numbered(12, 3));
}

#[test]
fn classify_unrecognizable_defaults() {
    assert_eq!(classify("Movie.mkv"), numbered(1, 1));
    assert_eq!(classify(""), numbered(1, 1));
    assert_eq!(classify("Film (final cut).mkv"), numbered(1, 1));
}

#[test]
fn classify_nced_label_keeps_digits() {
    // The credit marker wins and the matched substring is the label.
    assert_eq!(classify("Show - NCED1.mkv"), special("NCED1"));
    assert_eq!(classify("Show - NCOP2.mkv"), special("NCOP2"));
}

#[test]
fn classify_special_takes_priority_over_numbered() {
    // A special marker beats a perfectly good SxxExx pattern.
    assert_eq!(classify("OVA S01E05.mkv"), special("OVA"));
    assert_eq!(classify("Show S01E05 NCED3.mkv"), special("NCED3"));
}

#[test]
fn classify_isolated_credit_tokens() {
    assert_eq!(classify("[OVA] Show.mkv"), special("OVA"));
    assert_eq!(classify("Show OP2.mkv"), special("OP2"));
    assert_eq!(classify("Show ED2.mkv"), special("ED2"));
    assert_eq!(classify("Show OVA3.mkv"), special("OVA3"));
}

#[test]
fn classify_embedded_credit_letters_are_not_specials() {
    // "OP"/"ED" inside a word are not isolated tokens.
    assert_eq!(classify("DEDtective S01E02.mkv"), numbered(1, 2));
    assert_eq!(classify("OPen Road S01E03.mkv"), numbered(1, 3));
}
