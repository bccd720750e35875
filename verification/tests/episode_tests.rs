use sani::episode::{Episode, EpisodeKind, EpisodeNumbered};

fn numbered(season: u32, ep: u32) -> EpisodeKind {
    EpisodeKind::Numbered(EpisodeNumbered { ep, s: season })
}

fn special(label: &str) -> EpisodeKind {
    EpisodeKind::Special(String::from(label))
}

#[test]
fn numbered_order_is_season_major() {
    let a = EpisodeNumbered { ep: 9, s: 1 };
    let b = EpisodeNumbered { ep: 1, s: 2 };
    assert!(a.le(&b));
    assert!(!b.le(&a));

    let c = EpisodeNumbered { ep: 3, s: 2 };
    assert!(b.le(&c));
    assert!(c.le(&c));
}

#[test]
fn specials_come_before_numbered() {
    let s = special("OVA");
    let n = numbered(1, 1);
    assert!(s.le(&n));
    assert!(!n.le(&s));
}

#[test]
fn specials_compare_by_label() {
    assert!(special("NCED1").le(&special("NCOP1")));
    assert!(!special("OP2").le(&special("OP1")));
    assert!(special("OP").le(&special("OP1")));
}

#[test]
fn identity_equality_is_structural() {
    assert!(numbered(2, 5).eq_kind(&numbered(2, 5)));
    assert!(!numbered(2, 5).eq_kind(&numbered(5, 2)));
    assert!(special("OVA").eq_kind(&special("OVA")));
    assert!(!special("OVA").eq_kind(&special("OVA2")));
    // A numbered identity never equals a special.
    assert!(!numbered(1, 1).eq_kind(&special("OVA")));
}

#[test]
fn defaults_are_season_one_episode_one() {
    assert_eq!(EpisodeNumbered::default(), EpisodeNumbered { ep: 1, s: 1 });
    assert_eq!(EpisodeKind::default(), numbered(1, 1));
    let e = Episode::default();
    assert_eq!(e.dir_name, "");
    assert_eq!(e.ep, numbered(1, 1));
}

#[test]
fn episode_comparison_ignores_filename() {
    let a = Episode { dir_name: String::from("a.mkv"), ep: numbered(1, 2) };
    let b = Episode { dir_name: String::from("b.mkv"), ep: numbered(1, 2) };
    assert!(a.same_identity(&b));
    assert!(a.le(&b) && b.le(&a));
}
