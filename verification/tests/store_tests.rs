use sani::episode::{EpisodeKind, EpisodeNumbered};
use sani::store::{Cache, CacheAnimeInfo, CacheError};

fn numbered(season: u32, ep: u32) -> EpisodeKind {
    EpisodeKind::Numbered(EpisodeNumbered { ep, s: season })
}

fn show_files() -> Vec<(String, String)> {
    vec![
        (String::from("lib"), String::from("lib/Show/S01E01.mkv")),
        (String::from("lib"), String::from("lib/Show/S01E02.mkv")),
        (String::from("lib"), String::from("lib/Show/S02E01.mkv")),
    ]
}

fn open_memory_cache() -> Cache {
    Cache::new_at(":memory:").unwrap()
}

#[test]
fn next_ep_season_rollover_scenario() {
    let mut cache = open_memory_cache();
    cache.refresh(&vec![String::from("Show")], &show_files());

    let one_one = EpisodeNumbered { ep: 1, s: 1 };
    let one_two = EpisodeNumbered { ep: 2, s: 1 };
    let two_one = EpisodeNumbered { ep: 1, s: 2 };

    assert_eq!(cache.next_ep("Show", &one_one), Some(EpisodeNumbered { ep: 2, s: 1 }));
    assert_eq!(cache.next_ep("Show", &one_two), Some(EpisodeNumbered { ep: 1, s: 2 }));
    assert_eq!(cache.next_ep("Show", &two_one), None);
}

#[test]
fn check_ep_s_exist_cache_reports_exact_coordinates() {
    let mut cache = open_memory_cache();
    cache.refresh(&vec![String::from("Show")], &show_files());

    assert!(cache.check_ep_s_exist_cache("Show", &EpisodeNumbered { ep: 2, s: 1 }).unwrap());
    assert!(!cache.check_ep_s_exist_cache("Show", &EpisodeNumbered { ep: 3, s: 1 }).unwrap());
    assert!(!cache.check_ep_s_exist_cache("Other", &EpisodeNumbered { ep: 1, s: 1 }).unwrap());
}

#[test]
fn read_ep_is_sorted_and_deduplicated() {
    let mut cache = open_memory_cache();
    let files = vec![
        (String::from("lib"), String::from("lib/Show/S02E01.mkv")),
        (String::from("lib"), String::from("lib/Show/S01E02.mkv")),
        (String::from("lib"), String::from("lib/Show/Show - NCED1.mkv")),
        // A second copy of the same coordinate under a season folder:
        // deduplicated at read time.
        (String::from("lib"), String::from("lib/Show/extras/S01E02 720p.mkv")),
        (String::from("lib"), String::from("lib/Show/S01E01.mkv")),
    ];
    cache.refresh(&vec![String::from("Show")], &files);

    let listed = cache.read_ep("Show").unwrap();
    assert_eq!(
        listed,
        vec![
            EpisodeKind::Special(String::from("NCED1")),
            numbered(1, 1),
            numbered(1, 2),
            numbered(2, 1),
        ]
    );
}

#[test]
fn refresh_twice_leaves_listing_unchanged() {
    let mut cache = open_memory_cache();
    let dirs = vec![String::from("Show")];
    let files = show_files();

    cache.refresh(&dirs, &files);
    let first = cache.read_ep("Show").unwrap();
    cache.refresh(&dirs, &files);
    let second = cache.read_ep("Show").unwrap();

    assert_eq!(first, second);
    assert_eq!(second.len(), 3);
}

#[test]
fn write_then_read_relative_ep_round_trip() {
    let mut cache = open_memory_cache();
    cache.refresh(&vec![String::from("Show")], &show_files());

    let info = CacheAnimeInfo {
        dir_name: String::from("Show"),
        filename: String::from("lib/Show/S01E01.mkv"),
        episode: 1,
        season: 1,
        timestamp: 0,
    };
    cache.write(info).unwrap();

    let rel = cache.read_relative_ep("Show").unwrap();
    assert_eq!(rel.current_ep, EpisodeNumbered { ep: 1, s: 1 });
    assert_eq!(rel.next_ep, Some(EpisodeNumbered { ep: 2, s: 1 }));
}

#[test]
fn read_relative_ep_defaults_for_unknown_series() {
    let cache = open_memory_cache();
    let rel = cache.read_relative_ep("Nowhere").unwrap();
    assert_eq!(rel.current_ep, EpisodeNumbered { ep: 1, s: 1 });
    assert_eq!(rel.next_ep, None);
}

#[test]
fn find_ep_numbered_lists_paths_and_special_absence_is_none() {
    let mut cache = open_memory_cache();
    cache.refresh(&vec![String::from("Show")], &show_files());

    let paths = cache.find_ep("Show", &numbered(1, 2)).unwrap();
    assert_eq!(paths, vec![String::from("lib/Show/S01E02.mkv")]);

    // A numbered identity with no backing file still lists (emptily) ...
    let empty = cache.find_ep("Show", &numbered(9, 9)).unwrap();
    assert!(empty.is_empty());

    // ... but a missing special means "not found".
    assert!(cache.find_ep("Show", &EpisodeKind::Special(String::from("OVA"))).is_none());
}

#[test]
fn resume_timestamps_default_to_zero_and_round_trip() {
    let mut cache = open_memory_cache();
    cache.refresh(&vec![String::from("Show")], &show_files());

    assert_eq!(cache.read_resume_timestamp("lib/Show/S01E01.mkv"), 0);
    cache.record_resume_timestamp("lib/Show/S01E01.mkv", 245);
    assert_eq!(cache.read_resume_timestamp("lib/Show/S01E01.mkv"), 245);
    assert_eq!(cache.read_resume_timestamp("lib/Show/S01E02.mkv"), 0);
    assert_eq!(cache.read_resume_timestamp("no/such/path.mkv"), 0);
}

#[test]
fn read_list_orders_by_recency_then_name_descending() {
    let mut cache = open_memory_cache();
    let dirs = vec![String::from("Alpha"), String::from("Beta"), String::from("Gamma")];
    let no_files: Vec<(String, String)> = vec![];
    cache.refresh(&dirs, &no_files);

    // Never watched: names descending.
    let all = dirs.clone();
    assert_eq!(cache.read_list(&all).unwrap(), "Gamma\nBeta\nAlpha");

    // A watched series moves to the front.
    let info = CacheAnimeInfo {
        dir_name: String::from("Alpha"),
        filename: String::new(),
        episode: 3,
        season: 1,
        timestamp: 0,
    };
    cache.write(info).unwrap();
    assert_eq!(cache.read_list(&all).unwrap(), "Alpha\nGamma\nBeta");

    // Series whose directory is gone are filtered out, silently.
    let some = vec![String::from("Beta"), String::from("Gamma")];
    assert_eq!(cache.read_list(&some).unwrap(), "Gamma\nBeta");
}

#[test]
fn write_finished_updates_session_fields() {
    let mut cache = open_memory_cache();
    let cur = EpisodeNumbered { ep: 4, s: 2 };
    cache.write_finished(cur, None);
    assert_eq!(cache.current_ep_s, cur);
    assert_eq!(cache.next_ep_s, None);
}

#[test]
fn open_failure_is_storage_error() {
    let r = Cache::new_at("/nonexistent-sani-root/db/sani.db");
    assert!(matches!(r, Err(CacheError::Storage)));
}

#[test]
fn catalog_persists_across_reopen() {
    // A file-backed store read back by a second cache instance.
    let nanos = std::time::SystemTime::now()
        .duration_since(std::time::UNIX_EPOCH)
        .unwrap()
        .as_nanos();
    let db_file = format!("/tmp/sani-test-{nanos}.db");

    let mut cache = Cache::new_at(&db_file).unwrap();
    cache.refresh(&vec![String::from("Show")], &show_files());
    let info = CacheAnimeInfo {
        dir_name: String::from("Show"),
        filename: String::new(),
        episode: 2,
        season: 1,
        timestamp: 0,
    };
    cache.write(info).unwrap();
    cache.record_resume_timestamp("lib/Show/S01E02.mkv", 99);
    cache.close();

    let reopened = Cache::new_at(&db_file).unwrap();
    let listed = reopened.read_ep("Show").unwrap();
    assert_eq!(listed, vec![numbered(1, 1), numbered(1, 2), numbered(2, 1)]);
    let rel = reopened.read_relative_ep("Show").unwrap();
    assert_eq!(rel.current_ep, EpisodeNumbered { ep: 2, s: 1 });
    assert_eq!(rel.next_ep, Some(EpisodeNumbered { ep: 1, s: 2 }));
    assert_eq!(reopened.read_resume_timestamp("lib/Show/S01E02.mkv"), 99);
}
