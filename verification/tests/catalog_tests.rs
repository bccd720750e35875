use sani::catalog::{Catalog, EpisodeRecord};
use sani::episode::{EpisodeKind, EpisodeNumbered};
use sani::indexer::parse_file_entry;

fn numbered(season: u32, ep: u32) -> EpisodeKind {
    EpisodeKind::Numbered(EpisodeNumbered { ep, s: season })
}

fn rec(path: &str, dir: &str, identity: EpisodeKind, resume: u64) -> EpisodeRecord {
    EpisodeRecord {
        path: String::from(path),
        dir_name: String::from(dir),
        identity,
        resume,
    }
}

#[test]
fn upsert_episode_is_insert_or_ignore_by_path() {
    let mut c = Catalog::new();
    c.upsert_episode(rec("lib/Show/a.mkv", "Show", numbered(1, 1), 7));
    // The same path again, with different data: the first record wins.
    c.upsert_episode(rec("lib/Show/a.mkv", "Show", numbered(9, 9), 0));
    assert_eq!(c.list_episodes("Show"), vec![numbered(1, 1)]);
    assert_eq!(c.resume_of("lib/Show/a.mkv"), 7);
}

#[test]
fn list_episodes_is_per_series() {
    let mut c = Catalog::new();
    c.upsert_episode(rec("a/One/e1.mkv", "One", numbered(1, 1), 0));
    c.upsert_episode(rec("a/Two/e1.mkv", "Two", numbered(2, 4), 0));
    assert_eq!(c.list_episodes("One"), vec![numbered(1, 1)]);
    assert_eq!(c.list_episodes("Two"), vec![numbered(2, 4)]);
    assert_eq!(c.list_episodes("Three"), vec![]);
}

#[test]
fn next_episode_at_the_largest_coordinates() {
    let mut c = Catalog::new();
    c.upsert_episode(rec("p1", "Show", numbered(1, u32::MAX), 0));
    let cur = EpisodeNumbered { ep: u32::MAX - 1, s: 1 };
    assert_eq!(c.next_episode("Show", &cur), Some(EpisodeNumbered { ep: u32::MAX, s: 1 }));

    c.upsert_episode(rec("p2", "Show", numbered(u32::MAX, 1), 0));
    let end_of_season = EpisodeNumbered { ep: 5, s: u32::MAX - 1 };
    assert_eq!(
        c.next_episode("Show", &end_of_season),
        Some(EpisodeNumbered { ep: 1, s: u32::MAX })
    );
}

#[test]
fn record_progress_creates_a_missing_series() {
    let mut c = Catalog::new();
    let cur = EpisodeNumbered { ep: 2, s: 1 };
    c.record_progress("New", &cur, 1234);
    assert_eq!(c.current_episode("New"), cur);
    assert_eq!(c.current_episode("Other"), EpisodeNumbered { ep: 1, s: 1 });
}

#[test]
fn set_resume_on_an_unknown_path_is_ignored() {
    let mut c = Catalog::new();
    c.set_resume("no/such/file.mkv", 99);
    assert_eq!(c.resume_of("no/such/file.mkv"), 0);
}

#[test]
fn parse_file_entry_derives_the_owning_series() {
    let entry = parse_file_entry("lib", "lib/Show/S01E02.mkv").unwrap();
    assert_eq!(entry.path, "lib/Show/S01E02.mkv");
    assert_eq!(entry.dir_name, "Show");
    assert_eq!(entry.identity, numbered(1, 2));
    assert_eq!(entry.resume, 0);

    // One level of season folder below the series directory.
    let nested = parse_file_entry("lib", "lib/Show/Season 2/S02E03.mkv").unwrap();
    assert_eq!(nested.dir_name, "Show");
    assert_eq!(nested.identity, numbered(2, 3));
}

#[test]
fn parse_file_entry_rejects_non_episodes() {
    // Not a video extension.
    assert!(parse_file_entry("lib", "lib/Show/notes.txt").is_none());
    // A file directly under the root has no owning series.
    assert!(parse_file_entry("lib", "lib/stray.mkv").is_none());
    // A path outside the root.
    assert!(parse_file_entry("other", "lib/Show/S01E01.mkv").is_none());
}
