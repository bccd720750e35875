use sani::classify::classify;
use sani::episode::{EpisodeKind, EpisodeNumbered};
use sani::picker::{fill_string, parse_episode};

fn numbered(season: u32, ep: u32) -> EpisodeKind {
    EpisodeKind::Numbered(EpisodeNumbered { ep, s: season })
}

#[test]
fn display_pads_to_two_digits() {
    assert_eq!(numbered(1, 2).display_string(), "S01E02");
    assert_eq!(numbered(12, 7).display_string(), "S12E07");
    assert_eq!(numbered(1, 107).display_string(), "S01E107");
    let s = EpisodeKind::Special(String::from("NCED1"));
    assert_eq!(s.display_string(), "NCED1");
}

#[test]
fn displayed_lines_classify_back_to_the_same_identity() {
    assert_eq!(classify(&numbered(3, 9).display_string()), numbered(3, 9));
    assert_eq!(classify(&numbered(12, 24).display_string()), numbered(12, 24));
    let s = EpisodeKind::Special(String::from("OVA2"));
    assert_eq!(classify(&s.display_string()), s);
}

#[test]
fn fill_string_builds_the_menu() {
    let mut buf = String::new();
    let episodes = vec![numbered(1, 1), numbered(1, 2)];
    let current = numbered(1, 1);
    let next = numbered(1, 2);
    fill_string(&mut buf, &episodes, &current, Some(&next));
    assert_eq!(
        buf,
        "Current Episode:\nS01E01\nNext Episode:\nS01E02\nS01E01\nS01E02\n"
    );
}

#[test]
fn fill_string_without_next_episode() {
    let mut buf = String::new();
    let episodes = vec![numbered(2, 1)];
    let current = numbered(2, 1);
    fill_string(&mut buf, &episodes, &current, None);
    assert_eq!(buf, "Current Episode:\nS02E01\nS02E01\n");
}

#[test]
fn parse_episode_maps_headers_and_lines() {
    let current = numbered(1, 3);
    let next = Some(numbered(1, 4));

    assert_eq!(parse_episode("Current Episode:", &current, &next), Some(numbered(1, 3)));
    assert_eq!(parse_episode("Next Episode:", &current, &next), Some(numbered(1, 4)));
    assert_eq!(parse_episode("Next Episode:", &current, &None), None);
    assert_eq!(parse_episode("S02E05", &current, &next), Some(numbered(2, 5)));
    assert_eq!(
        parse_episode("NCED1", &current, &next),
        Some(EpisodeKind::Special(String::from("NCED1")))
    );
}
