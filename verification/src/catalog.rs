//! The in-memory episode catalog: the verified model of the cache store.
//!
//! The catalog holds one record per observed series directory and one record
//! per observed episode file. The persistent SQLite store mirrors this
//! model on disk; every query is answered from the catalog itself.
//! Well-formedness (`wf`) asks for
//! unique series names, unique episode paths, and that every episode record
//! references an existing series record.

use vstd::prelude::*;

verus! {

use crate::episode::{
    str_eq,
    lex_le,
    lex_le_exec,
    kind_le,
    kind_lt,
    EpisodeKind,
    EpisodeNumbered,
    KindView,
    lemma_kind_le_total,
    lemma_kind_le_antisym,
    lemma_kind_le_trans,
    lemma_lex_le_total,
    lemma_lex_le_antisym,
    lemma_lex_le_trans,
};

/// One series: its directory name, the episode the viewer is on, and when it
/// was last watched (seconds since the epoch).
#[derive(Debug)]
pub struct SeriesRecord {
    pub dir_name: String,
    pub current: Option<EpisodeNumbered>,
    pub last_watched: Option<i64>,
}

/// One episode file: its full path, its owning series directory, its
/// classified identity and the stored resume offset in seconds.
#[derive(Debug)]
pub struct EpisodeRecord {
    pub path: String,
    pub dir_name: String,
    pub identity: EpisodeKind,
    pub resume: u64,
}

#[verifier::ext_equal]
pub struct SeriesView {
    pub dir_name: Seq<char>,
    pub current: Option<EpisodeNumbered>,
    pub last_watched: Option<i64>,
}

#[verifier::ext_equal]
pub struct EpisodeRecView {
    pub path: Seq<char>,
    pub dir_name: Seq<char>,
    pub identity: KindView,
    pub resume: u64,
}

impl View for SeriesRecord {
    type V = SeriesView;

    open spec fn view(&self) -> SeriesView {
        SeriesView { dir_name: self.dir_name@, current: self.current, last_watched: self.last_watched }
    }
}

impl View for EpisodeRecord {
    type V = EpisodeRecView;

    open spec fn view(&self) -> EpisodeRecView {
        EpisodeRecView {
            path: self.path@,
            dir_name: self.dir_name@,
            identity: self.identity@,
            resume: self.resume,
        }
    }
}

/// The whole catalog.
#[derive(Debug)]
pub struct Catalog {
    pub series: Vec<SeriesRecord>,
    pub episodes: Vec<EpisodeRecord>,
}

#[verifier::ext_equal]
pub struct CatalogView {
    pub series: Seq<SeriesView>,
    pub episodes: Seq<EpisodeRecView>,
}

impl View for Catalog {
    type V = CatalogView;

    open spec fn view(&self) -> CatalogView {
        CatalogView {
            series: self.series@.map_values(|r: SeriesRecord| r@),
            episodes: self.episodes@.map_values(|r: EpisodeRecord| r@),
        }
    }
}

// ------------------------------------------------------------------
// Membership and lookup
// ------------------------------------------------------------------
pub open spec fn has_series(series: Seq<SeriesView>, dir: Seq<char>) -> bool {
    exists|i: int| 0 <= i < series.len() && series[i].dir_name == dir
}

/// The series record named `dir` (unique under well-formedness).
pub open spec fn series_of(series: Seq<SeriesView>, dir: Seq<char>) -> SeriesView {
    series[choose|i: int| 0 <= i < series.len() && series[i].dir_name == dir]
}

pub open spec fn has_path(eps: Seq<EpisodeRecView>, path: Seq<char>) -> bool {
    exists|i: int| 0 <= i < eps.len() && eps[i].path == path
}

/// The episode record at `path` (unique under well-formedness).
pub open spec fn episode_of(eps: Seq<EpisodeRecView>, path: Seq<char>) -> EpisodeRecView {
    eps[choose|i: int| 0 <= i < eps.len() && eps[i].path == path]
}

/// Some episode record of the series `dir` holds the numbered identity
/// (`ep`, `season`).
pub open spec fn has_numbered(eps: Seq<EpisodeRecView>, dir: Seq<char>, ep: u32, season: u32) -> bool {
    exists|i: int|
        0 <= i < eps.len() && eps[i].dir_name == dir && eps[i].identity == KindView::Numbered(
            EpisodeNumbered { ep: ep, s: season },
        )
}

/// An identity is listed for `dir` when some episode record of that series
/// carries it.
pub open spec fn has_identity(eps: Seq<EpisodeRecView>, dir: Seq<char>, k: KindView) -> bool {
    exists|i: int| 0 <= i < eps.len() && eps[i].dir_name == dir && eps[i].identity == k
}

// ------------------------------------------------------------------
// Well-formedness
// ------------------------------------------------------------------
pub open spec fn series_unique(series: Seq<SeriesView>) -> bool {
    forall|i: int, j: int|
        0 <= i < j < series.len() ==> series[i].dir_name != series[j].dir_name
}

pub open spec fn episodes_unique(eps: Seq<EpisodeRecView>) -> bool {
    forall|i: int, j: int| 0 <= i < j < eps.len() ==> eps[i].path != eps[j].path
}

/// Every episode record references an existing series record.
pub open spec fn episodes_linked(c: CatalogView) -> bool {
    forall|i: int| 0 <= i < c.episodes.len() ==> has_series(c.series, #[trigger] c.episodes[i].dir_name)
}

pub open spec fn catalog_wf(c: CatalogView) -> bool {
    series_unique(c.series) && episodes_unique(c.episodes) && episodes_linked(c)
}

// ------------------------------------------------------------------
// Operation specifications
// ------------------------------------------------------------------
/// Insert-or-ignore of a series name.
pub open spec fn upsert_series_spec(series: Seq<SeriesView>, dir: Seq<char>) -> Seq<SeriesView> {
    if has_series(series, dir) {
        series
    } else {
        series.push(SeriesView { dir_name: dir, current: None, last_watched: None })
    }
}

/// Insert-or-ignore of an episode record, keyed by path: re-running a scan
/// never overwrites path-level state.
pub open spec fn upsert_episode_spec(eps: Seq<EpisodeRecView>, rec: EpisodeRecView) -> Seq<
    EpisodeRecView,
> {
    if has_path(eps, rec.path) {
        eps
    } else {
        eps.push(rec)
    }
}

/// One indexer step: the entry's series is registered, then the episode
/// record itself.
pub open spec fn apply_entry(c: CatalogView, e: EpisodeRecView) -> CatalogView {
    CatalogView {
        series: upsert_series_spec(c.series, e.dir_name),
        episodes: upsert_episode_spec(c.episodes, e),
    }
}

/// The whole indexer run over a sequence of classified entries.
pub open spec fn index_entries_spec(c: CatalogView, es: Seq<EpisodeRecView>) -> CatalogView
    decreases es.len(),
{
    if es.len() == 0 {
        c
    } else {
        index_entries_spec(apply_entry(c, es[0]), es.drop_first())
    }
}

/// Insert-or-replace of a series' progress: its current episode becomes
/// `cur` and its last-watched time `now`.
pub open spec fn record_progress_spec(
    series: Seq<SeriesView>,
    dir: Seq<char>,
    cur: EpisodeNumbered,
    now: i64,
) -> Seq<SeriesView> {
    if has_series(series, dir) {
        series.map_values(
            |r: SeriesView|
                if r.dir_name == dir {
                    SeriesView { dir_name: r.dir_name, current: Some(cur), last_watched: Some(now) }
                } else {
                    r
                },
        )
    } else {
        series.push(SeriesView { dir_name: dir, current: Some(cur), last_watched: Some(now) })
    }
}

/// The stored current episode of a series, if any.
pub open spec fn stored_current(series: Seq<SeriesView>, dir: Seq<char>) -> Option<EpisodeNumbered> {
    if has_series(series, dir) {
        series_of(series, dir).current
    } else {
        None
    }
}

/// The current episode of a series, defaulting to season 1, episode 1.
pub open spec fn current_or_default(series: Seq<SeriesView>, dir: Seq<char>) -> EpisodeNumbered {
    match stored_current(series, dir) {
        Some(c) => c,
        None => EpisodeNumbered { ep: 1u32, s: 1u32 },
    }
}

/// The two-step next-episode rule: first the next episode of the same
/// season, then the first episode of the next season, else nothing.
pub open spec fn next_episode_spec(
    eps: Seq<EpisodeRecView>,
    dir: Seq<char>,
    cur: EpisodeNumbered,
) -> Option<EpisodeNumbered>
    recommends
        cur.ep < u32::MAX,
        cur.s < u32::MAX,
{
    if has_numbered(eps, dir, ((cur.ep + 1) as u32), cur.s) {
        Some(EpisodeNumbered { ep: ((cur.ep + 1) as u32), s: cur.s })
    } else if has_numbered(eps, dir, 1u32, ((cur.s + 1) as u32)) {
        Some(EpisodeNumbered { ep: 1u32, s: ((cur.s + 1) as u32) })
    } else {
        None
    }
}

/// Replace the resume offset of the episode record at `path`; a missing
/// record is left alone (there is nothing to resume).
pub open spec fn set_resume_spec(eps: Seq<EpisodeRecView>, path: Seq<char>, secs: u64) -> Seq<
    EpisodeRecView,
> {
    eps.map_values(
        |r: EpisodeRecView|
            if r.path == path {
                EpisodeRecView { path: r.path, dir_name: r.dir_name, identity: r.identity, resume: secs }
            } else {
                r
            },
    )
}

/// The stored resume offset at `path`, defaulting to 0.
pub open spec fn resume_spec(eps: Seq<EpisodeRecView>, path: Seq<char>) -> u64 {
    if has_path(eps, path) {
        episode_of(eps, path).resume
    } else {
        0
    }
}

/// The stored paths of all episode records of `dir` whose identity is `k`,
/// in catalog order.
pub open spec fn paths_for(eps: Seq<EpisodeRecView>, dir: Seq<char>, k: KindView) -> Seq<Seq<char>>
    decreases eps.len(),
{
    if eps.len() == 0 {
        Seq::empty()
    } else if eps[0].dir_name == dir && eps[0].identity == k {
        seq![eps[0].path] + paths_for(eps.drop_first(), dir, k)
    } else {
        paths_for(eps.drop_first(), dir, k)
    }
}

// ------------------------------------------------------------------
// Sortedness
// ------------------------------------------------------------------
/// A strictly increasing identity listing: sorted under the centralized
/// order, with no two structurally equal entries.
pub open spec fn strictly_sorted_kinds(s: Seq<KindView>) -> bool {
    forall|i: int, j: int| 0 <= i < j < s.len() ==> kind_lt(s[i], s[j])
}

pub open spec fn kind_views(s: Seq<EpisodeKind>) -> Seq<KindView> {
    s.map_values(|e: EpisodeKind| e@)
}

/// The series listing order: most recently watched first; never-watched
/// series last; ties broken by name, descending.
pub open spec fn series_before(a: SeriesView, b: SeriesView) -> bool {
    match (a.last_watched, b.last_watched) {
        (Some(x), Some(y)) => x > y || (x == y && lex_le(b.dir_name, a.dir_name)),
        (Some(_), None) => true,
        (None, Some(_)) => false,
        (None, None) => lex_le(b.dir_name, a.dir_name),
    }
}

pub open spec fn strict_series_before(a: SeriesView, b: SeriesView) -> bool {
    series_before(a, b) && a.dir_name != b.dir_name
}

pub proof fn lemma_series_before_total(a: SeriesView, b: SeriesView)
    ensures
        series_before(a, b) || series_before(b, a),
{
    match (a.last_watched, b.last_watched) {
        (Some(x), Some(y)) => {
            if x == y {
                lemma_lex_le_total(a.dir_name, b.dir_name);
            }
        },
        (None, None) => {
            lemma_lex_le_total(a.dir_name, b.dir_name);
        },
        _ => {},
    }
}

pub proof fn lemma_series_before_asym(a: SeriesView, b: SeriesView)
    requires
        a.dir_name != b.dir_name,
    ensures
        !(series_before(a, b) && series_before(b, a)),
{
    match (a.last_watched, b.last_watched) {
        (Some(x), Some(y)) => {
            if x == y && lex_le(b.dir_name, a.dir_name) && lex_le(a.dir_name, b.dir_name) {
                lemma_lex_le_antisym(a.dir_name, b.dir_name);
            }
        },
        (None, None) => {
            if lex_le(b.dir_name, a.dir_name) && lex_le(a.dir_name, b.dir_name) {
                lemma_lex_le_antisym(a.dir_name, b.dir_name);
            }
        },
        _ => {},
    }
}

pub open spec fn strictly_sorted_series(s: Seq<SeriesView>) -> bool {
    forall|i: int, j: int| 0 <= i < j < s.len() ==> strict_series_before(s[i], s[j])
}

// ------------------------------------------------------------------
// Laws
// ------------------------------------------------------------------
/// Round trip: after recording progress for a series, reading the series'
/// relative position yields exactly the recorded episode as current.
pub proof fn lemma_progress_roundtrip(
    series: Seq<SeriesView>,
    dir: Seq<char>,
    cur: EpisodeNumbered,
    now: i64,
)
    ensures
        current_or_default(record_progress_spec(series, dir, cur, now), dir) == cur,
{
    let updated = record_progress_spec(series, dir, cur, now);
    if has_series(series, dir) {
        let w = choose|i: int| 0 <= i < series.len() && series[i].dir_name == dir;
        assert(updated[w].dir_name == dir);
        assert(has_series(updated, dir));
        let j = choose|i: int| 0 <= i < updated.len() && updated[i].dir_name == dir;
        assert(updated[j] == SeriesView {
            dir_name: series[j].dir_name,
            current: Some(cur),
            last_watched: Some(now),
        });
    } else {
        let n = series.len() as int;
        assert(updated[n].dir_name == dir);
        assert(has_series(updated, dir));
        let j = choose|i: int| 0 <= i < updated.len() && updated[i].dir_name == dir;
        if j < n {
            assert(series[j].dir_name == dir);
            assert(has_series(series, dir));
        }
        assert(updated[j].current == Some(cur));
    }
}

proof fn lemma_apply_entry_presence(c: CatalogView, e: EpisodeRecView, p: Seq<char>, d: Seq<char>)
    ensures
        has_path(c.episodes, p) ==> has_path(apply_entry(c, e).episodes, p),
        has_series(c.series, d) ==> has_series(apply_entry(c, e).series, d),
        has_path(apply_entry(c, e).episodes, e.path),
        has_series(apply_entry(c, e).series, e.dir_name),
{
    let after = apply_entry(c, e);
    if has_path(c.episodes, p) {
        let i = choose|i: int| 0 <= i < c.episodes.len() && c.episodes[i].path == p;
        assert(after.episodes[i].path == p);
    }
    if has_series(c.series, d) {
        let i = choose|i: int| 0 <= i < c.series.len() && c.series[i].dir_name == d;
        assert(after.series[i].dir_name == d);
    }
    if !has_path(c.episodes, e.path) {
        assert(after.episodes[c.episodes.len() as int].path == e.path);
    } else {
        let i = choose|i: int| 0 <= i < c.episodes.len() && c.episodes[i].path == e.path;
        assert(after.episodes[i].path == e.path);
    }
    if !has_series(c.series, e.dir_name) {
        assert(after.series[c.series.len() as int].dir_name == e.dir_name);
    } else {
        let i = choose|i: int| 0 <= i < c.series.len() && c.series[i].dir_name == e.dir_name;
        assert(after.series[i].dir_name == e.dir_name);
    }
}

proof fn lemma_index_monotone(c: CatalogView, es: Seq<EpisodeRecView>, p: Seq<char>, d: Seq<char>)
    ensures
        has_path(c.episodes, p) ==> has_path(index_entries_spec(c, es).episodes, p),
        has_series(c.series, d) ==> has_series(index_entries_spec(c, es).series, d),
    decreases es.len(),
{
    if es.len() != 0 {
        lemma_apply_entry_presence(c, es[0], p, d);
        lemma_index_monotone(apply_entry(c, es[0]), es.drop_first(), p, d);
    }
}

proof fn lemma_index_covers(c: CatalogView, es: Seq<EpisodeRecView>, k: int)
    requires
        0 <= k < es.len(),
    ensures
        has_path(index_entries_spec(c, es).episodes, es[k].path),
        has_series(index_entries_spec(c, es).series, es[k].dir_name),
    decreases es.len(),
{
    let c1 = apply_entry(c, es[0]);
    if k == 0 {
        lemma_apply_entry_presence(c, es[0], es[0].path, es[0].dir_name);
        lemma_index_monotone(c1, es.drop_first(), es[0].path, es[0].dir_name);
    } else {
        assert(es.drop_first()[k - 1] == es[k]);
        lemma_index_covers(c1, es.drop_first(), k - 1);
    }
}

proof fn lemma_index_noop(c: CatalogView, es: Seq<EpisodeRecView>)
    requires
        forall|k: int|
            0 <= k < es.len() ==> has_path(c.episodes, #[trigger] es[k].path) && has_series(
                c.series,
                es[k].dir_name,
            ),
    ensures
        index_entries_spec(c, es) == c,
    decreases es.len(),
{
    if es.len() != 0 {
        assert(has_path(c.episodes, es[0].path));
        assert(has_series(c.series, es[0].dir_name));
        assert(apply_entry(c, es[0]) =~= c);
        assert(forall|k: int|
            0 <= k < es.drop_first().len() ==> #[trigger] es.drop_first()[k] == es[k + 1]);
        lemma_index_noop(c, es.drop_first());
    }
}

/// Indexer idempotence: running the indexer twice over the same entries
/// (an unchanged directory tree) leaves the catalog exactly as one run
/// does, so every read query answers the same.
pub proof fn lemma_index_idempotent(c: CatalogView, es: Seq<EpisodeRecView>)
    ensures
        index_entries_spec(index_entries_spec(c, es), es) == index_entries_spec(c, es),
{
    let once = index_entries_spec(c, es);
    assert forall|k: int| 0 <= k < es.len() implies has_path(
        once.episodes,
        #[trigger] es[k].path,
    ) && has_series(once.series, es[k].dir_name) by {
        lemma_index_covers(c, es, k);
    }
    lemma_index_noop(once, es);
}

/// The indexer's series pass: insert-or-ignore of each scanned directory
/// name, in scan order.
pub open spec fn upsert_names_fold(series: Seq<SeriesView>, names: Seq<Seq<char>>) -> Seq<
    SeriesView,
>
    decreases names.len(),
{
    if names.len() == 0 {
        series
    } else {
        upsert_names_fold(upsert_series_spec(series, names[0]), names.drop_first())
    }
}

/// A whole indexer run: the series pass over the scanned directory names,
/// then the episode pass over the classified entries.
pub open spec fn refresh_spec(
    c: CatalogView,
    names: Seq<Seq<char>>,
    es: Seq<EpisodeRecView>,
) -> CatalogView {
    index_entries_spec(
        CatalogView { series: upsert_names_fold(c.series, names), episodes: c.episodes },
        es,
    )
}

proof fn lemma_upsert_series_presence(series: Seq<SeriesView>, name: Seq<char>, d: Seq<char>)
    ensures
        has_series(series, d) ==> has_series(upsert_series_spec(series, name), d),
        has_series(upsert_series_spec(series, name), name),
{
    let next = upsert_series_spec(series, name);
    if has_series(series, d) {
        let w = choose|w: int| 0 <= w < series.len() && series[w].dir_name == d;
        assert(next[w].dir_name == d);
    }
    if has_series(series, name) {
        let w = choose|w: int| 0 <= w < series.len() && series[w].dir_name == name;
        assert(next[w].dir_name == name);
    } else {
        assert(next[series.len() as int].dir_name == name);
    }
}

proof fn lemma_names_fold_monotone(series: Seq<SeriesView>, names: Seq<Seq<char>>, d: Seq<char>)
    ensures
        has_series(series, d) ==> has_series(upsert_names_fold(series, names), d),
    decreases names.len(),
{
    if names.len() != 0 {
        lemma_upsert_series_presence(series, names[0], d);
        lemma_names_fold_monotone(upsert_series_spec(series, names[0]), names.drop_first(), d);
    }
}

proof fn lemma_names_fold_covers(series: Seq<SeriesView>, names: Seq<Seq<char>>, k: int)
    requires
        0 <= k < names.len(),
    ensures
        has_series(upsert_names_fold(series, names), names[k]),
    decreases names.len(),
{
    let next = upsert_series_spec(series, names[0]);
    if k == 0 {
        lemma_upsert_series_presence(series, names[0], names[0]);
        lemma_names_fold_monotone(next, names.drop_first(), names[0]);
    } else {
        assert(names.drop_first()[k - 1] == names[k]);
        lemma_names_fold_covers(next, names.drop_first(), k - 1);
    }
}

proof fn lemma_names_fold_noop(series: Seq<SeriesView>, names: Seq<Seq<char>>)
    requires
        forall|k: int| 0 <= k < names.len() ==> has_series(series, #[trigger] names[k]),
    ensures
        upsert_names_fold(series, names) == series,
    decreases names.len(),
{
    if names.len() != 0 {
        assert(has_series(series, names[0]));
        assert(upsert_series_spec(series, names[0]) == series);
        assert(forall|k: int|
            0 <= k < names.drop_first().len() ==> #[trigger] names.drop_first()[k] == names[k + 1]);
        lemma_names_fold_noop(series, names.drop_first());
    }
}

/// Full-run idempotence: re-running the indexer (both passes) over an
/// unchanged directory tree leaves the whole catalog exactly as one run
/// does, so `list_episodes` and every other read answer the same.
pub proof fn lemma_refresh_idempotent(
    c: CatalogView,
    names: Seq<Seq<char>>,
    es: Seq<EpisodeRecView>,
)
    ensures
        refresh_spec(refresh_spec(c, names, es), names, es) == refresh_spec(c, names, es),
{
    let base = CatalogView { series: upsert_names_fold(c.series, names), episodes: c.episodes };
    let r1 = refresh_spec(c, names, es);
    assert forall|k: int| 0 <= k < names.len() implies has_series(
        r1.series,
        #[trigger] names[k],
    ) by {
        lemma_names_fold_covers(c.series, names, k);
        lemma_index_monotone(base, es, names[k], names[k]);
    }
    lemma_names_fold_noop(r1.series, names);
    assert(CatalogView { series: upsert_names_fold(r1.series, names), episodes: r1.episodes }
        =~= r1);
    lemma_index_idempotent(base, es);
}

// ------------------------------------------------------------------
// Executable catalog
// ------------------------------------------------------------------
pub open spec fn str_views(s: Seq<String>) -> Seq<Seq<char>> {
    s.map_values(|x: String| x@)
}

pub open spec fn series_views(s: Seq<SeriesRecord>) -> Seq<SeriesView> {
    s.map_values(|r: SeriesRecord| r@)
}

/// An identity carried by one of the first `n` episode records of `dir`.
pub open spec fn has_identity_upto(
    eps: Seq<EpisodeRecView>,
    dir: Seq<char>,
    k: KindView,
    n: int,
) -> bool {
    exists|j: int| 0 <= j < n && eps[j].dir_name == dir && eps[j].identity == k
}

/// Membership of a directory name in a name listing.
pub open spec fn in_existing(names: Seq<Seq<char>>, d: Seq<char>) -> bool {
    exists|i: int| 0 <= i < names.len() && names[i] == d
}

/// Whether some element of `names` equals `s`, character for character.
pub fn contains_str(names: &Vec<String>, s: &str) -> (r: bool)
    ensures
        r == in_existing(str_views(names@), s@),
{
    let mut i: usize = 0;
    while i < names.len()
        invariant
            i <= names@.len(),
            forall|j: int| 0 <= j < i ==> str_views(names@)[j] != s@,
        decreases names@.len() - i,
    {
        if str_eq(names[i].as_str(), s) {
            proof {
                assert(str_views(names@)[i as int] == s@);
            }
            return true;
        }
        i += 1;
    }
    false
}

/// Transitivity of the series listing order.
pub proof fn lemma_series_before_trans(a: SeriesView, b: SeriesView, c: SeriesView)
    requires
        series_before(a, b),
        series_before(b, c),
    ensures
        series_before(a, c),
{
    match (a.last_watched, b.last_watched, c.last_watched) {
        (Some(x), Some(y), Some(z)) => {
            if x == y && y == z {
                lemma_lex_le_trans(c.dir_name, b.dir_name, a.dir_name);
            }
        },
        (None, None, None) => {
            lemma_lex_le_trans(c.dir_name, b.dir_name, a.dir_name);
        },
        _ => {},
    }
}

/// Inserts an identity into a strictly sorted listing, ignoring it when a
/// structurally equal identity is already there.
fn insert_sorted_kind(out: &mut Vec<EpisodeKind>, x: &EpisodeKind)
    requires
        strictly_sorted_kinds(kind_views(old(out)@)),
    ensures
        strictly_sorted_kinds(kind_views(final(out)@)),
        forall|k: KindView| #[trigger]
            kind_views(final(out)@).contains(k) <==> (kind_views(old(out)@).contains(k) || k
                == x@),
{
    let mut idx: usize = 0;
    while idx < out.len() && !x.le(&out[idx])
        invariant
            idx <= out@.len(),
            out@ == old(out)@,
            forall|j: int| 0 <= j < idx ==> kind_lt(#[trigger] kind_views(out@)[j], x@),
        decreases out@.len() - idx,
    {
        proof {
            lemma_kind_le_total(x@, out@[idx as int]@);
            assert(kind_views(out@)[idx as int] == out@[idx as int]@);
            assert(kind_lt(kind_views(out@)[idx as int], x@));
        }
        idx += 1;
    }
    if idx < out.len() {
        if out[idx].eq_kind(x) {
            proof {
                assert(kind_views(out@)[idx as int] == x@);
                assert(kind_views(out@).contains(x@));
            }
            return;
        }
    }
    let ghost prev = kind_views(out@);
    out.insert(idx, x.duplicate());
    proof {
        let nv = kind_views(out@);
        assert(nv =~= prev.insert(idx as int, x@));
        if (idx as int) < prev.len() {
            assert(kind_le(x@, prev[idx as int]) && x@ != prev[idx as int]);
        }
        assert forall|i: int, j: int| 0 <= i < j < nv.len() implies kind_lt(nv[i], nv[j]) by {
            if j < idx {
                assert(kind_lt(prev[i], prev[j]));
            } else if i < idx && j == idx {
                assert(nv[j] == x@);
                assert(kind_lt(prev[i], x@));
            } else if i < idx && j > idx {
                assert(kind_lt(prev[i], prev[j - 1]));
            } else if i == idx {
                assert(nv[i] == x@);
                assert(nv[j] == prev[j - 1]);
                assert(kind_lt(x@, prev[idx as int]));
                if j - 1 > idx {
                    assert(kind_lt(prev[idx as int], prev[j - 1]));
                    lemma_kind_le_trans(x@, prev[idx as int], prev[j - 1]);
                    if x@ == prev[j - 1] {
                        lemma_kind_le_antisym(x@, prev[idx as int]);
                    }
                }
            } else {
                assert(kind_lt(prev[i - 1], prev[j - 1]));
            }
        }
        assert forall|k: KindView| #[trigger]
            nv.contains(k) <==> (prev.contains(k) || k == x@) by {
            if nv.contains(k) {
                let w = choose|w: int| 0 <= w < nv.len() && nv[w] == k;
                if w < idx {
                    assert(prev[w] == k);
                    assert(prev.contains(k));
                } else if w == idx {
                    assert(k == x@);
                } else {
                    assert(prev[w - 1] == k);
                    assert(prev.contains(k));
                }
            }
            if prev.contains(k) {
                let w = choose|w: int| 0 <= w < prev.len() && prev[w] == k;
                if w < idx {
                    assert(nv[w] == k);
                } else {
                    assert(nv[w + 1] == k);
                }
                assert(nv.contains(k));
            }
            if k == x@ {
                assert(nv[idx as int] == k);
                assert(nv.contains(k));
            }
        }
    }
}

/// Inserts a series record into a strictly sorted listing; the record's
/// name must be new.
fn insert_sorted_series(out: &mut Vec<SeriesRecord>, x: SeriesRecord)
    requires
        strictly_sorted_series(series_views(old(out)@)),
        forall|j: int|
            0 <= j < old(out)@.len() ==> series_views(old(out)@)[j].dir_name != x@.dir_name,
    ensures
        strictly_sorted_series(series_views(final(out)@)),
        forall|v: SeriesView| #[trigger]
            series_views(final(out)@).contains(v) <==> (series_views(old(out)@).contains(v) || v
                == x@),
{
    let ghost xv = x@;
    let mut idx: usize = 0;
    while idx < out.len() && !series_before_exec(&x, &out[idx])
        invariant
            idx <= out@.len(),
            out@ == old(out)@,
            x@ == xv,
            forall|j: int|
                0 <= j < out@.len() ==> (#[trigger] series_views(out@)[j]).dir_name != xv.dir_name,
            forall|j: int|
                0 <= j < idx ==> strict_series_before(#[trigger] series_views(out@)[j], xv),
        decreases out@.len() - idx,
    {
        proof {
            lemma_series_before_total(xv, out@[idx as int]@);
            assert(series_views(out@)[idx as int] == out@[idx as int]@);
        }
        idx += 1;
    }
    let ghost prev = series_views(out@);
    out.insert(idx, x);
    proof {
        let nv = series_views(out@);
        assert(nv =~= prev.insert(idx as int, xv));
        if (idx as int) < prev.len() {
            assert(series_before(xv, prev[idx as int]));
            assert(strict_series_before(xv, prev[idx as int]));
        }
        assert forall|i: int, j: int| 0 <= i < j < nv.len() implies strict_series_before(
            nv[i],
            nv[j],
        ) by {
            if j < idx {
                assert(strict_series_before(prev[i], prev[j]));
            } else if i < idx && j == idx {
                assert(strict_series_before(prev[i], xv));
            } else if i < idx && j > idx {
                assert(strict_series_before(prev[i], prev[j - 1]));
            } else if i == idx {
                assert(nv[j] == prev[j - 1]);
                assert(strict_series_before(xv, prev[idx as int]));
                if j - 1 > idx {
                    assert(strict_series_before(prev[idx as int], prev[j - 1]));
                    lemma_series_before_trans(xv, prev[idx as int], prev[j - 1]);
                }
            } else {
                assert(strict_series_before(prev[i - 1], prev[j - 1]));
            }
        }
        assert forall|v: SeriesView| #[trigger]
            nv.contains(v) <==> (prev.contains(v) || v == xv) by {
            if nv.contains(v) {
                let w = choose|w: int| 0 <= w < nv.len() && nv[w] == v;
                if w < idx {
                    assert(prev[w] == v);
                    assert(prev.contains(v));
                } else if w == idx {
                    assert(v == xv);
                } else {
                    assert(prev[w - 1] == v);
                    assert(prev.contains(v));
                }
            }
            if prev.contains(v) {
                let w = choose|w: int| 0 <= w < prev.len() && prev[w] == v;
                if w < idx {
                    assert(nv[w] == v);
                } else {
                    assert(nv[w + 1] == v);
                }
                assert(nv.contains(v));
            }
            if v == xv {
                assert(nv[idx as int] == v);
                assert(nv.contains(v));
            }
        }
    }
}

/// The series listing order, executably.
fn series_before_exec(a: &SeriesRecord, b: &SeriesRecord) -> (r: bool)
    ensures
        r == series_before(a@, b@),
{
    match (&a.last_watched, &b.last_watched) {
        (Some(x), Some(y)) => *x > *y || (*x == *y && lex_le_exec(
            b.dir_name.as_str(),
            a.dir_name.as_str(),
        )),
        (Some(_), None) => true,
        (None, Some(_)) => false,
        (None, None) => lex_le_exec(b.dir_name.as_str(), a.dir_name.as_str()),
    }
}

impl EpisodeKind {
    /// A structural copy whose value provably equals the original's.
    pub fn duplicate(&self) -> (r: EpisodeKind)
        ensures
            r@ == self@,
    {
        match self {
            EpisodeKind::Numbered(n) => EpisodeKind::Numbered(*n),
            EpisodeKind::Special(label) => EpisodeKind::Special(label.clone()),
        }
    }
}

impl Catalog {
    pub open spec fn wf(&self) -> bool {
        catalog_wf(self@)
    }

    /// The empty catalog.
    pub fn new() -> (c: Catalog)
        ensures
            c.wf(),
            c@.series == Seq::<SeriesView>::empty(),
            c@.episodes == Seq::<EpisodeRecView>::empty(),
    {
        let c = Catalog { series: Vec::new(), episodes: Vec::new() };
        proof {
            assert(c@.series =~= Seq::<SeriesView>::empty());
            assert(c@.episodes =~= Seq::<EpisodeRecView>::empty());
        }
        c
    }

    /// The index of the series record named `dir`, if any.
    fn find_series(&self, dir: &str) -> (r: Option<usize>)
        ensures
            match r {
                Some(i) => i < self@.series.len() && self@.series[i as int].dir_name == dir@,
                None => !has_series(self@.series, dir@),
            },
    {
        let mut i: usize = 0;
        while i < self.series.len()
            invariant
                i <= self@.series.len(),
                self@.series.len() == self.series@.len(),
                forall|j: int| 0 <= j < i ==> self@.series[j].dir_name != dir@,
            decreases self.series@.len() - i,
        {
            if str_eq(self.series[i].dir_name.as_str(), dir) {
                return Some(i);
            }
            i += 1;
        }
        None
    }

    /// The index of the episode record at `path`, if any.
    fn find_episode(&self, path: &str) -> (r: Option<usize>)
        ensures
            match r {
                Some(i) => i < self@.episodes.len() && self@.episodes[i as int].path == path@,
                None => !has_path(self@.episodes, path@),
            },
    {
        let mut i: usize = 0;
        while i < self.episodes.len()
            invariant
                i <= self@.episodes.len(),
                self@.episodes.len() == self.episodes@.len(),
                forall|j: int| 0 <= j < i ==> self@.episodes[j].path != path@,
            decreases self.episodes@.len() - i,
        {
            if str_eq(self.episodes[i].path.as_str(), path) {
                return Some(i);
            }
            i += 1;
        }
        None
    }

    /// Insert-or-ignore of a full series record.
    pub fn upsert_series_rec(&mut self, rec: SeriesRecord)
        requires
            old(self).wf(),
        ensures
            final(self).wf(),
            final(self)@.episodes == old(self)@.episodes,
            final(self)@.series == (if has_series(old(self)@.series, rec.dir_name@) {
                old(self)@.series
            } else {
                old(self)@.series.push(rec@)
            }),
    {
        match self.find_series(rec.dir_name.as_str()) {
            Some(_) => {},
            None => {
                self.series.push(rec);
                proof {
                    assert(self@.series =~= old(self)@.series.push(rec@));
                    assert(self@.episodes =~= old(self)@.episodes);
                    assert forall|d: Seq<char>|
                        has_series(old(self)@.series, d) implies has_series(
                        self@.series,
                        d,
                    ) by {
                        let i = choose|i: int|
                            0 <= i < old(self)@.series.len() && old(self)@.series[i].dir_name == d;
                        assert(self@.series[i].dir_name == d);
                    }
                    assert(has_series(self@.series, rec.dir_name@)) by {
                        assert(self@.series[old(self)@.series.len() as int].dir_name
                            == rec.dir_name@);
                    }
                }
            },
        }
    }

    /// Insert-or-ignore of a series name alone (the indexer's series pass).
    pub fn upsert_series(&mut self, dir: &str)
        requires
            old(self).wf(),
        ensures
            final(self).wf(),
            final(self)@.episodes == old(self)@.episodes,
            final(self)@.series == upsert_series_spec(old(self)@.series, dir@),
    {
        let rec = SeriesRecord { dir_name: dir.to_owned(), current: None, last_watched: None };
        self.upsert_series_rec(rec);
    }

    /// Insert-or-ignore of an episode record; registers the owning series
    /// first, so every episode record stays linked.
    pub fn upsert_episode(&mut self, rec: EpisodeRecord)
        requires
            old(self).wf(),
        ensures
            final(self).wf(),
            final(self)@ == apply_entry(old(self)@, rec@),
    {
        self.upsert_series(rec.dir_name.as_str());
        let ghost mid = self@;
        match self.find_episode(rec.path.as_str()) {
            Some(_) => {
                proof {
                    assert(self@ =~= apply_entry(old(self)@, rec@));
                }
            },
            None => {
                let ghost recv = rec@;
                self.episodes.push(rec);
                proof {
                    assert(self@.episodes =~= mid.episodes.push(recv));
                    assert(self@.series =~= mid.series);
                    assert(self@ =~= apply_entry(old(self)@, recv));
                    assert(has_series(mid.series, recv.dir_name)) by {
                        if has_series(old(self)@.series, recv.dir_name) {
                            let w = choose|w: int|
                                0 <= w < old(self)@.series.len() && old(self)@.series[w].dir_name
                                    == recv.dir_name;
                            assert(mid.series[w].dir_name == recv.dir_name);
                        } else {
                            assert(mid.series[old(self)@.series.len() as int].dir_name
                                == recv.dir_name);
                        }
                    }
                    assert forall|i: int| 0 <= i < self@.episodes.len() implies has_series(
                        self@.series,
                        #[trigger] self@.episodes[i].dir_name,
                    ) by {
                        if i < mid.episodes.len() {
                            assert(has_series(mid.series, mid.episodes[i].dir_name));
                        } else {
                            assert(self@.episodes[i].dir_name == recv.dir_name);
                            assert(has_series(mid.series, recv.dir_name));
                        }
                    }
                }
            },
        }
    }

    /// Whether the series `dir` has an episode record at exactly
    /// (`ep`, `season`).
    pub fn exists_numbered(&self, dir: &str, ep: u32, season: u32) -> (r: bool)
        ensures
            r == has_numbered(self@.episodes, dir@, ep, season),
    {
        let mut i: usize = 0;
        while i < self.episodes.len()
            invariant
                i <= self@.episodes.len(),
                self@.episodes.len() == self.episodes@.len(),
                forall|j: int|
                    0 <= j < i ==> !(self@.episodes[j].dir_name == dir@
                        && self@.episodes[j].identity == KindView::Numbered(
                        EpisodeNumbered { ep: ep, s: season },
                    )),
            decreases self.episodes@.len() - i,
        {
            let rec = &self.episodes[i];
            let hit = match &rec.identity {
                EpisodeKind::Numbered(n) => n.ep == ep && n.s == season,
                _ => false,
            };
            if hit && str_eq(rec.dir_name.as_str(), dir) {
                proof {
                    assert(self@.episodes[i as int].dir_name == dir@ && self@.episodes[i as int].identity
                        == KindView::Numbered(EpisodeNumbered { ep: ep, s: season }));
                }
                return true;
            }
            i += 1;
        }
        false
    }

    /// The two-step next-episode rule: `{s, e+1}` when that coordinate is in
    /// the catalog, else `{s+1, 1}` when that one is, else none.
    pub fn next_episode(&self, dir: &str, current: &EpisodeNumbered) -> (r: Option<EpisodeNumbered>)
        requires
            current.ep < u32::MAX,
            current.s < u32::MAX,
        ensures
            r == next_episode_spec(self@.episodes, dir@, *current),
    {
        let next = EpisodeNumbered { ep: current.ep + 1, s: current.s };
        if self.exists_numbered(dir, next.ep, next.s) {
            return Some(next);
        }
        let rollover = EpisodeNumbered { ep: 1, s: current.s + 1 };
        if self.exists_numbered(dir, rollover.ep, rollover.s) {
            return Some(rollover);
        }
        None
    }

    /// The series' stored current episode, defaulting to season 1 episode 1
    /// when the series is unknown or has no recorded progress.
    pub fn current_episode(&self, dir: &str) -> (r: EpisodeNumbered)
        requires
            self.wf(),
        ensures
            r == current_or_default(self@.series, dir@),
    {
        match self.find_series(dir) {
            Some(i) => {
                proof {
                    let j = choose|j: int|
                        0 <= j < self@.series.len() && self@.series[j].dir_name == dir@;
                    if i as int != j {
                        if (i as int) < j {
                            assert(self@.series[i as int].dir_name != self@.series[j].dir_name);
                        } else {
                            assert(self@.series[j].dir_name != self@.series[i as int].dir_name);
                        }
                    }
                    assert(series_of(self@.series, dir@) == self@.series[i as int]);
                }
                match self.series[i].current {
                    Some(c) => c,
                    None => EpisodeNumbered { ep: 1, s: 1 },
                }
            },
            None => EpisodeNumbered { ep: 1, s: 1 },
        }
    }

    /// Insert-or-replace of a series' progress.
    pub fn record_progress(&mut self, dir: &str, cur: &EpisodeNumbered, now: i64)
        requires
            old(self).wf(),
        ensures
            final(self).wf(),
            final(self)@.episodes == old(self)@.episodes,
            final(self)@.series == record_progress_spec(old(self)@.series, dir@, *cur, now),
    {
        match self.find_series(dir) {
            Some(i) => {
                let name = self.series[i].dir_name.clone();
                self.series[i] = SeriesRecord {
                    dir_name: name,
                    current: Some(*cur),
                    last_watched: Some(now),
                };
                proof {
                    let os = old(self)@.series;
                    assert forall|k: int| 0 <= k < os.len() && k != i as int implies os[k].dir_name
                        != dir@ by {
                        if k < i as int {
                            assert(os[k].dir_name != os[i as int].dir_name);
                        } else {
                            assert(os[i as int].dir_name != os[k].dir_name);
                        }
                    }
                    assert(self@.series =~= record_progress_spec(os, dir@, *cur, now));
                    assert(self@.episodes =~= old(self)@.episodes);
                    assert forall|d: Seq<char>|
                        has_series(old(self)@.series, d) implies has_series(
                        self@.series,
                        d,
                    ) by {
                        let w = choose|w: int|
                            0 <= w < old(self)@.series.len() && old(self)@.series[w].dir_name == d;
                        assert(self@.series[w].dir_name == d);
                    }
                }
            },
            None => {
                let rec = SeriesRecord {
                    dir_name: dir.to_owned(),
                    current: Some(*cur),
                    last_watched: Some(now),
                };
                self.series.push(rec);
                proof {
                    assert(self@.series =~= record_progress_spec(
                        old(self)@.series,
                        dir@,
                        *cur,
                        now,
                    ));
                    assert(self@.episodes =~= old(self)@.episodes);
                    assert forall|d: Seq<char>|
                        has_series(old(self)@.series, d) implies has_series(
                        self@.series,
                        d,
                    ) by {
                        let w = choose|w: int|
                            0 <= w < old(self)@.series.len() && old(self)@.series[w].dir_name == d;
                        assert(self@.series[w].dir_name == d);
                    }
                }
            },
        }
    }

    /// Replace the stored resume offset of the episode record at `path`.
    pub fn set_resume(&mut self, path: &str, secs: u64)
        requires
            old(self).wf(),
        ensures
            final(self).wf(),
            final(self)@.series == old(self)@.series,
            final(self)@.episodes == set_resume_spec(old(self)@.episodes, path@, secs),
    {
        match self.find_episode(path) {
            Some(i) => {
                let rec = &self.episodes[i];
                let newrec = EpisodeRecord {
                    path: rec.path.clone(),
                    dir_name: rec.dir_name.clone(),
                    identity: rec.identity.duplicate(),
                    resume: secs,
                };
                self.episodes[i] = newrec;
                proof {
                    let oe = old(self)@.episodes;
                    assert forall|k: int| 0 <= k < oe.len() && k != i as int implies oe[k].path
                        != path@ by {
                        if k < i as int {
                            assert(oe[k].path != oe[i as int].path);
                        } else {
                            assert(oe[i as int].path != oe[k].path);
                        }
                    }
                    assert(self@.episodes =~= set_resume_spec(oe, path@, secs));
                    assert(self@.series =~= old(self)@.series);
                    assert forall|k: int| 0 <= k < self@.episodes.len() implies has_series(
                        self@.series,
                        #[trigger] self@.episodes[k].dir_name,
                    ) by {
                        assert(self@.episodes[k].dir_name == oe[k].dir_name);
                        assert(has_series(old(self)@.series, oe[k].dir_name));
                    }
                }
            },
            None => {
                proof {
                    assert(self@.episodes =~= set_resume_spec(old(self)@.episodes, path@, secs));
                }
            },
        }
    }

    /// The identities listed for `dir`: every identity carried by some
    /// episode record of the series, deduplicated by structural equality and
    /// sorted ascending under the centralized order.
    pub fn list_episodes(&self, dir: &str) -> (r: Vec<EpisodeKind>)
        ensures
            strictly_sorted_kinds(kind_views(r@)),
            forall|k: KindView| #[trigger]
                kind_views(r@).contains(k) <==> has_identity(self@.episodes, dir@, k),
    {
        let mut out: Vec<EpisodeKind> = Vec::new();
        let mut i: usize = 0;
        proof {
            assert(kind_views(out@) =~= Seq::<KindView>::empty());
        }
        while i < self.episodes.len()
            invariant
                i <= self@.episodes.len(),
                self@.episodes.len() == self.episodes@.len(),
                strictly_sorted_kinds(kind_views(out@)),
                forall|k: KindView| #[trigger]
                    kind_views(out@).contains(k) <==> has_identity_upto(
                        self@.episodes,
                        dir@,
                        k,
                        i as int,
                    ),
            decreases self.episodes@.len() - i,
        {
            let ghost prev = out@;
            let rec = &self.episodes[i];
            if str_eq(rec.dir_name.as_str(), dir) {
                insert_sorted_kind(&mut out, &rec.identity);
                proof {
                    let kv = self@.episodes[i as int].identity;
                    assert forall|k: KindView| #[trigger]
                        kind_views(out@).contains(k) <==> has_identity_upto(
                            self@.episodes,
                            dir@,
                            k,
                            i + 1,
                        ) by {
                        if kind_views(out@).contains(k) {
                            if kind_views(prev).contains(k) {
                                let w = choose|w: int|
                                    0 <= w < i && self@.episodes[w].dir_name == dir@
                                        && self@.episodes[w].identity == k;
                                assert(has_identity_upto(self@.episodes, dir@, k, i + 1));
                            } else {
                                assert(k == kv);
                                assert(self@.episodes[i as int].dir_name == dir@);
                                assert(has_identity_upto(self@.episodes, dir@, k, i + 1));
                            }
                        }
                        if has_identity_upto(self@.episodes, dir@, k, i + 1) {
                            let w = choose|w: int|
                                0 <= w < i + 1 && self@.episodes[w].dir_name == dir@
                                    && self@.episodes[w].identity == k;
                            if w < i {
                                assert(has_identity_upto(self@.episodes, dir@, k, i as int));
                            } else {
                                assert(k == kv);
                            }
                            assert(kind_views(out@).contains(k));
                        }
                    }
                }
            } else {
                proof {
                    assert forall|k: KindView| #[trigger]
                        kind_views(out@).contains(k) <==> has_identity_upto(
                            self@.episodes,
                            dir@,
                            k,
                            i + 1,
                        ) by {
                        if has_identity_upto(self@.episodes, dir@, k, i + 1) {
                            let w = choose|w: int|
                                0 <= w < i + 1 && self@.episodes[w].dir_name == dir@
                                    && self@.episodes[w].identity == k;
                            assert(w < i);
                            assert(has_identity_upto(self@.episodes, dir@, k, i as int));
                        }
                        if has_identity_upto(self@.episodes, dir@, k, i as int) {
                            assert(has_identity_upto(self@.episodes, dir@, k, i + 1));
                        }
                    }
                }
            }
            i += 1;
        }
        out
    }

    /// The stored paths of all episode records of `dir` carrying the
    /// identity `k`, in catalog order.
    pub fn find_paths(&self, dir: &str, k: &EpisodeKind) -> (r: Vec<String>)
        ensures
            str_views(r@) == paths_for(self@.episodes, dir@, k@),
    {
        let mut out: Vec<String> = Vec::new();
        let eps = &self.episodes;
        let mut i: usize = 0;
        proof {
            assert(self@.episodes.skip(0) =~= self@.episodes);
            assert(str_views(out@) + paths_for(self@.episodes, dir@, k@) =~= paths_for(
                self@.episodes,
                dir@,
                k@,
            ));
        }
        while i < eps.len()
            invariant
                i <= self@.episodes.len(),
                self@.episodes.len() == eps@.len(),
                eps@ == self.episodes@,
                str_views(out@) + paths_for(self@.episodes.skip(i as int), dir@, k@) == paths_for(
                    self@.episodes,
                    dir@,
                    k@,
                ),
            decreases eps@.len() - i,
        {
            let ghost suf = self@.episodes.skip(i as int);
            proof {
                assert(suf[0] == self@.episodes[i as int]);
                assert(suf.drop_first() =~= self@.episodes.skip(i + 1));
            }
            let rec = &eps[i];
            let hit = rec.identity.eq_kind(k) && str_eq(rec.dir_name.as_str(), dir);
            if hit {
                let ghost prev = out@;
                out.push(rec.path.clone());
                proof {
                    assert(str_views(out@) =~= str_views(prev).push(self@.episodes[i as int].path));
                    assert(paths_for(suf, dir@, k@) == seq![suf[0].path] + paths_for(
                        suf.drop_first(),
                        dir@,
                        k@,
                    ));
                    assert(str_views(out@) + paths_for(self@.episodes.skip(i + 1), dir@, k@)
                        =~= str_views(prev) + paths_for(suf, dir@, k@));
                }
            } else {
                proof {
                    assert(paths_for(suf, dir@, k@) == paths_for(suf.drop_first(), dir@, k@));
                }
            }
            i += 1;
        }
        proof {
            assert(self@.episodes.skip(i as int) =~= Seq::<EpisodeRecView>::empty());
            assert(paths_for(self@.episodes.skip(i as int), dir@, k@) =~= Seq::<Seq<char>>::empty());
            assert(str_views(out@) + paths_for(self@.episodes.skip(i as int), dir@, k@)
                =~= str_views(out@));
        }
        out
    }

    /// The series listing: every catalog series whose directory name is in
    /// `existing` (the directories still present on disk), ordered most
    /// recently watched first, never-watched last, ties by name descending.
    pub fn series_ordered(&self, existing: &Vec<String>) -> (r: Vec<SeriesRecord>)
        requires
            self.wf(),
        ensures
            strictly_sorted_series(series_views(r@)),
            forall|v: SeriesView| #[trigger]
                series_views(r@).contains(v) <==> (self@.series.contains(v) && in_existing(
                    str_views(existing@),
                    v.dir_name,
                )),
    {
        let mut out: Vec<SeriesRecord> = Vec::new();
        let mut i: usize = 0;
        proof {
            assert(series_views(out@) =~= Seq::<SeriesView>::empty());
        }
        while i < self.series.len()
            invariant
                i <= self@.series.len(),
                self@.series.len() == self.series@.len(),
                self.wf(),
                strictly_sorted_series(series_views(out@)),
                forall|v: SeriesView| #[trigger]
                    series_views(out@).contains(v) <==> (exists|j: int|
                        0 <= j < i && self@.series[j] == v) && in_existing(
                        str_views(existing@),
                        v.dir_name,
                    ),
            decreases self.series@.len() - i,
        {
            let ghost prev = out@;
            let rec = &self.series[i];
            if contains_str(existing, rec.dir_name.as_str()) {
                let copy = SeriesRecord {
                    dir_name: rec.dir_name.clone(),
                    current: rec.current,
                    last_watched: rec.last_watched,
                };
                proof {
                    assert(copy@ == self@.series[i as int]);
                    assert forall|w: int| 0 <= w < out@.len() implies series_views(out@)[w].dir_name
                        != copy@.dir_name by {
                        let v = series_views(out@)[w];
                        assert(series_views(out@).contains(v));
                        let j = choose|j: int| 0 <= j < i && self@.series[j] == v;
                        if v.dir_name == copy@.dir_name {
                            assert(self@.series[j].dir_name == self@.series[i as int].dir_name);
                        }
                    }
                }
                insert_sorted_series(&mut out, copy);
                proof {
                    assert forall|v: SeriesView| #[trigger]
                        series_views(out@).contains(v) <==> ((exists|j: int|
                            0 <= j < i + 1 && self@.series[j] == v) && in_existing(
                            str_views(existing@),
                            v.dir_name,
                        )) by {
                        if series_views(out@).contains(v) {
                            if series_views(prev).contains(v) {
                                let j = choose|j: int| 0 <= j < i && self@.series[j] == v;
                                assert(0 <= j < i + 1 && self@.series[j] == v);
                            } else {
                                assert(v == copy@);
                                assert(self@.series[i as int] == v);
                            }
                        }
                        if (exists|j: int| 0 <= j < i + 1 && self@.series[j] == v) && in_existing(
                            str_views(existing@),
                            v.dir_name,
                        ) {
                            let j = choose|j: int| 0 <= j < i + 1 && self@.series[j] == v;
                            if j < i {
                                assert(series_views(prev).contains(v));
                            } else {
                                assert(v == copy@);
                            }
                            assert(series_views(out@).contains(v));
                        }
                    }
                }
            } else {
                proof {
                    assert forall|v: SeriesView| #[trigger]
                        series_views(out@).contains(v) <==> ((exists|j: int|
                            0 <= j < i + 1 && self@.series[j] == v) && in_existing(
                            str_views(existing@),
                            v.dir_name,
                        )) by {
                        if (exists|j: int| 0 <= j < i + 1 && self@.series[j] == v) && in_existing(
                            str_views(existing@),
                            v.dir_name,
                        ) {
                            let j = choose|j: int| 0 <= j < i + 1 && self@.series[j] == v;
                            if j == i {
                                assert(v.dir_name == self@.series[i as int].dir_name);
                                assert(false);
                            }
                            assert(series_views(out@).contains(v));
                        }
                    }
                }
            }
            i += 1;
        }
        proof {
            assert forall|v: SeriesView| (exists|j: int| 0 <= j < i && self@.series[j] == v)
                <==> #[trigger] self@.series.contains(v) by {}
        }
        out
    }

    /// The stored resume offset at `path`, 0 when nothing was recorded.
    pub fn resume_of(&self, path: &str) -> (r: u64)
        requires
            self.wf(),
        ensures
            r == resume_spec(self@.episodes, path@),
    {
        match self.find_episode(path) {
            Some(i) => {
                proof {
                    let j = choose|j: int|
                        0 <= j < self@.episodes.len() && self@.episodes[j].path == path@;
                    if i as int != j {
                        if (i as int) < j {
                            assert(self@.episodes[i as int].path != self@.episodes[j].path);
                        } else {
                            assert(self@.episodes[j].path != self@.episodes[i as int].path);
                        }
                    }
                    assert(episode_of(self@.episodes, path@) == self@.episodes[i as int]);
                }
                self.episodes[i].resume
            },
            None => 0,
        }
    }
}

} // verus!
