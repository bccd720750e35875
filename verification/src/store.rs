//! The persistent cache store.
//!
//! `Cache` pairs the verified in-memory [`Catalog`] with an embedded SQLite
//! database that mirrors it on disk (WAL mode, `synchronous = NORMAL`).
//! Writes go to both; reads are answered from the catalog, which is loaded
//! from the database when the cache is opened. Storage failures on the
//! write path are swallowed: losing one progress write is preferable to
//! stalling playback. Only a failure to open or initialize the store is
//! surfaced, since nothing can proceed without it.

use vstd::prelude::*;

verus! {

use vstd::string::StringExecFns;

use crate::catalog::{
    apply_entry,
    Catalog,
    CatalogView,
    EpisodeRecord,
    EpisodeRecView,
    SeriesRecord,
    SeriesView,
    has_numbered,
    has_series,
    has_identity,
    in_existing,
    index_entries_spec,
    kind_views,
    next_episode_spec,
    current_or_default,
    paths_for,
    record_progress_spec,
    refresh_spec,
    resume_spec,
    series_views,
    set_resume_spec,
    str_views,
    strictly_sorted_kinds,
    strictly_sorted_series,
    upsert_names_fold,
};
use crate::episode::{EpisodeKind, EpisodeNumbered, KindView};
use crate::indexer::{entries_of, entry_of, parse_file_entry};
use crate::text::push_char;

/// The cache's error: the embedded store could not be opened, initialized
/// or read at startup. Per the error-handling policy everything later
/// degrades silently instead of failing.
#[derive(Clone, Copy, Debug, PartialEq, Eq, Structural)]
pub enum CacheError {
    Storage,
}

/// A progress-write payload: which series, which numbered episode the
/// viewer finished, plus the file it was played from and the position
/// reached there (for the resume-offset write).
#[derive(Clone, Debug)]
pub struct CacheAnimeInfo {
    pub dir_name: String,
    pub filename: String,
    pub episode: u32,
    pub season: u32,
    pub timestamp: u64,
}

/// A series' position: the current episode and, when the catalog knows one,
/// the episode to play next.
#[derive(Clone, Copy, Debug)]
pub struct RelativeEpisode {
    pub current_ep: EpisodeNumbered,
    pub next_ep: Option<EpisodeNumbered>,
}

#[verifier::external_type_specification]
#[verifier::external_body]
pub struct ExConnection(rusqlite::Connection);

#[verifier::external_type_specification]
#[verifier::external_body]
pub struct ExRusqliteError(rusqlite::Error);

/// One row of the `anime` table as read back from disk.
pub struct SeriesRow {
    pub dir_name: String,
    pub episode: Option<u32>,
    pub season: Option<u32>,
    pub last_watched: Option<i64>,
}

/// One row of the `episode` table as read back from disk.
pub struct EpisodeRow {
    pub path: String,
    pub dir_name: String,
    pub episode: Option<u32>,
    pub season: Option<u32>,
    pub special: Option<String>,
    pub resume: i64,
}

#[verifier::ext_equal]
pub struct SeriesRowView {
    pub dir_name: Seq<char>,
    pub episode: Option<u32>,
    pub season: Option<u32>,
    pub last_watched: Option<i64>,
}

#[verifier::ext_equal]
pub struct EpisodeRowView {
    pub path: Seq<char>,
    pub dir_name: Seq<char>,
    pub episode: Option<u32>,
    pub season: Option<u32>,
    pub special: Option<Seq<char>>,
    pub resume: i64,
}

impl View for SeriesRow {
    type V = SeriesRowView;

    open spec fn view(&self) -> SeriesRowView {
        SeriesRowView {
            dir_name: self.dir_name@,
            episode: self.episode,
            season: self.season,
            last_watched: self.last_watched,
        }
    }
}

impl View for EpisodeRow {
    type V = EpisodeRowView;

    open spec fn view(&self) -> EpisodeRowView {
        EpisodeRowView {
            path: self.path@,
            dir_name: self.dir_name@,
            episode: self.episode,
            season: self.season,
            special: match &self.special {
                Some(l) => Some(l@),
                None => None,
            },
            resume: self.resume,
        }
    }
}

// ------------------------------------------------------------------
// Trusted wrappers around the embedded store and the clock
// ------------------------------------------------------------------
/// Relies on `rusqlite::Connection::open`: opens (creating when absent) the
/// SQLite database file at the given path.
#[verifier::external_body]
fn open_db(path: &str) -> Result<rusqlite::Connection, rusqlite::Error> {
    rusqlite::Connection::open(path)
}

/// Relies on `rusqlite::Connection::execute_batch`: runs the given SQL
/// statements against the store.
#[verifier::external_body]
fn exec_batch(conn: &rusqlite::Connection, sql: &str) -> Result<(), rusqlite::Error> {
    conn.execute_batch(sql)
}

/// Relies on `rusqlite::Connection::prepare_cached` and
/// `rusqlite::Statement::execute`: insert-or-ignore of a series name into
/// the `anime` table.
#[verifier::external_body]
fn insert_series_row(conn: &rusqlite::Connection, dir: &str) -> Result<usize, rusqlite::Error> {
    let mut stmt = conn.prepare_cached("INSERT OR IGNORE INTO anime (dir_name) VALUES (?1)")?;
    stmt.execute((dir,))
}

/// Relies on `rusqlite::Connection::prepare_cached` and
/// `rusqlite::Statement::execute`: insert-or-ignore of an episode row,
/// keyed by path.
#[verifier::external_body]
fn insert_episode_row(
    conn: &rusqlite::Connection,
    path: &str,
    dir: &str,
    ep: Option<u32>,
    season: Option<u32>,
    special: Option<&str>,
) -> Result<usize, rusqlite::Error> {
    let mut stmt = conn.prepare_cached(
        "INSERT OR IGNORE INTO episode (path, dir_name, ep, s, special) VALUES (?1, ?2, ?3, ?4, ?5)",
    )?;
    stmt.execute((path, dir, ep, season, special))
}

/// Relies on `rusqlite::Connection::prepare_cached` and
/// `rusqlite::Statement::execute`: insert-or-replace of a series' progress
/// row.
#[verifier::external_body]
fn upsert_progress_row(
    conn: &rusqlite::Connection,
    dir: &str,
    ep: u32,
    season: u32,
    last: i64,
) -> Result<usize, rusqlite::Error> {
    let mut stmt = conn.prepare_cached(
        "INSERT OR REPLACE INTO anime (dir_name, current_ep, current_s, last_watched) VALUES (?1, ?2, ?3, ?4)",
    )?;
    stmt.execute((dir, ep, season, last))
}

/// Relies on `rusqlite::Connection::prepare_cached` and
/// `rusqlite::Statement::execute`: replaces the resume offset of the
/// episode row at the given path.
#[verifier::external_body]
fn update_resume_row(
    conn: &rusqlite::Connection,
    path: &str,
    secs: i64,
) -> Result<usize, rusqlite::Error> {
    let mut stmt = conn.prepare_cached("UPDATE episode SET resume = ?2 WHERE path = ?1")?;
    stmt.execute((path, secs))
}

/// Relies on `rusqlite::Connection::prepare_cached`,
/// `rusqlite::Statement::query_map` and `rusqlite::Row::get`: reads every
/// row of the `anime` table.
#[verifier::external_body]
fn select_series_rows(conn: &rusqlite::Connection) -> Result<Vec<SeriesRow>, rusqlite::Error> {
    let mut stmt = conn.prepare_cached(
        "SELECT dir_name, current_ep, current_s, last_watched FROM anime",
    )?;
    let rows = stmt.query_map((), |r| {
        Ok(SeriesRow { dir_name: r.get(0)?, episode: r.get(1)?, season: r.get(2)?, last_watched: r.get(3)? })
    })?;
    rows.collect()
}

/// Relies on `rusqlite::Connection::prepare_cached`,
/// `rusqlite::Statement::query_map` and `rusqlite::Row::get`: reads every
/// row of the `episode` table.
#[verifier::external_body]
fn select_episode_rows(conn: &rusqlite::Connection) -> Result<Vec<EpisodeRow>, rusqlite::Error> {
    let mut stmt = conn.prepare_cached(
        "SELECT path, dir_name, ep, s, special, resume FROM episode",
    )?;
    let rows = stmt.query_map((), |r| {
        Ok(EpisodeRow {
            path: r.get(0)?,
            dir_name: r.get(1)?,
            episode: r.get(2)?,
            season: r.get(3)?,
            special: r.get(4)?,
            resume: r.get(5)?,
        })
    })?;
    rows.collect()
}

/// Relies on `chrono::Utc::now` and `chrono::DateTime::timestamp`: the
/// current time as seconds since the epoch. Nothing can be promised of the
/// clock's value.
#[verifier::external_body]
fn now_unix() -> i64 {
    chrono::Utc::now().timestamp()
}

// ------------------------------------------------------------------
// Loading the catalog from stored rows
// ------------------------------------------------------------------
/// The series record a stored row stands for: a current episode only when
/// both coordinates are present.
pub open spec fn series_row_rec(r: SeriesRowView) -> SeriesView {
    SeriesView {
        dir_name: r.dir_name,
        current: match (r.episode, r.season) {
            (Some(e), Some(s)) => Some(EpisodeNumbered { ep: e, s: s }),
            _ => None,
        },
        last_watched: r.last_watched,
    }
}

/// A stored resume offset as the model's unsigned seconds: negative values
/// (which the library never writes) read back as 0.
pub open spec fn clamp_resume(r: i64) -> u64 {
    if r < 0 {
        0
    } else {
        r as u64
    }
}

/// The identity a stored episode row carries: the special label when the
/// special column is set, else the numbered coordinate when both its
/// columns are set, else nothing (the row is malformed and skipped).
pub open spec fn episode_row_identity(r: EpisodeRowView) -> Option<KindView> {
    match r.special {
        Some(label) => Some(KindView::Special(label)),
        None => match (r.episode, r.season) {
            (Some(e), Some(s)) => Some(KindView::Numbered(EpisodeNumbered { ep: e, s: s })),
            _ => None,
        },
    }
}

/// Loading the series table: first row per name wins.
pub open spec fn load_series_fold(series: Seq<SeriesView>, rows: Seq<SeriesRowView>) -> Seq<
    SeriesView,
>
    decreases rows.len(),
{
    if rows.len() == 0 {
        series
    } else {
        let v = series_row_rec(rows[0]);
        let next = if has_series(series, v.dir_name) {
            series
        } else {
            series.push(v)
        };
        load_series_fold(next, rows.drop_first())
    }
}

/// Loading the episode table: malformed rows are skipped, the first row per
/// path wins, and each loaded row registers its series so that the catalog
/// stays well formed.
pub open spec fn load_episodes_fold(c: CatalogView, rows: Seq<EpisodeRowView>) -> CatalogView
    decreases rows.len(),
{
    if rows.len() == 0 {
        c
    } else {
        let next = match episode_row_identity(rows[0]) {
            Some(k) => apply_entry(
                c,
                EpisodeRecView {
                    path: rows[0].path,
                    dir_name: rows[0].dir_name,
                    identity: k,
                    resume: clamp_resume(rows[0].resume),
                },
            ),
            None => c,
        };
        load_episodes_fold(next, rows.drop_first())
    }
}

/// The catalog stored rows describe.
pub open spec fn load_spec(series_rows: Seq<SeriesRowView>, episode_rows: Seq<EpisodeRowView>) -> CatalogView {
    load_episodes_fold(
        CatalogView {
            series: load_series_fold(Seq::empty(), series_rows),
            episodes: Seq::empty(),
        },
        episode_rows,
    )
}

pub open spec fn series_row_views(rows: Seq<SeriesRow>) -> Seq<SeriesRowView> {
    rows.map_values(|r: SeriesRow| r@)
}

pub open spec fn episode_row_views(rows: Seq<EpisodeRow>) -> Seq<EpisodeRowView> {
    rows.map_values(|r: EpisodeRow| r@)
}

/// Builds the in-memory catalog out of the rows read from disk, enforcing
/// the catalog invariants whatever the rows hold.
pub fn load_catalog(series_rows: &Vec<SeriesRow>, episode_rows: &Vec<EpisodeRow>) -> (c: Catalog)
    ensures
        c.wf(),
        c@ == load_spec(series_row_views(series_rows@), episode_row_views(episode_rows@)),
{
    let mut c = Catalog::new();
    let ghost srows = series_row_views(series_rows@);
    let mut i: usize = 0;
    proof {
        assert(srows.skip(0) =~= srows);
    }
    while i < series_rows.len()
        invariant
            i <= srows.len(),
            srows.len() == series_rows@.len(),
            srows == series_row_views(series_rows@),
            c.wf(),
            c@.episodes == Seq::<EpisodeRecView>::empty(),
            load_series_fold(c@.series, srows.skip(i as int)) == load_series_fold(
                Seq::empty(),
                srows,
            ),
        decreases srows.len() - i,
    {
        let ghost suf = srows.skip(i as int);
        proof {
            assert(suf[0] == srows[i as int]);
            assert(suf.drop_first() =~= srows.skip(i + 1));
        }
        let row = &series_rows[i];
        let rec = SeriesRecord {
            dir_name: row.dir_name.clone(),
            current: match (row.episode, row.season) {
                (Some(e), Some(s)) => Some(EpisodeNumbered { ep: e, s: s }),
                _ => None,
            },
            last_watched: row.last_watched,
        };
        proof {
            assert(rec@ == series_row_rec(srows[i as int]));
        }
        c.upsert_series_rec(rec);
        i += 1;
    }
    proof {
        assert(srows.skip(i as int) =~= Seq::<SeriesRowView>::empty());
        assert(c@.series == load_series_fold(Seq::empty(), srows));
    }
    let ghost erows = episode_row_views(episode_rows@);
    let ghost base = c@;
    let mut j: usize = 0;
    proof {
        assert(erows.skip(0) =~= erows);
    }
    while j < episode_rows.len()
        invariant
            j <= erows.len(),
            erows.len() == episode_rows@.len(),
            erows == episode_row_views(episode_rows@),
            c.wf(),
            load_episodes_fold(c@, erows.skip(j as int)) == load_episodes_fold(base, erows),
        decreases erows.len() - j,
    {
        let ghost suf = erows.skip(j as int);
        proof {
            assert(suf[0] == erows[j as int]);
            assert(suf.drop_first() =~= erows.skip(j + 1));
        }
        let row = &episode_rows[j];
        let identity: Option<EpisodeKind> = match &row.special {
            Some(label) => Some(EpisodeKind::Special(label.clone())),
            None => match (row.episode, row.season) {
                (Some(e), Some(s)) => Some(
                    EpisodeKind::Numbered(EpisodeNumbered { ep: e, s: s }),
                ),
                _ => None,
            },
        };
        match identity {
            Some(k) => {
                proof {
                    assert(episode_row_identity(erows[j as int]) == Some(k@));
                }
                let rec = EpisodeRecord {
                    path: row.path.clone(),
                    dir_name: row.dir_name.clone(),
                    identity: k,
                    resume: if row.resume < 0 {
                        0
                    } else {
                        row.resume as u64
                    },
                };
                c.upsert_episode(rec);
            },
            None => {
                proof {
                    assert(episode_row_identity(erows[j as int]) is None);
                }
            },
        }
        j += 1;
    }
    proof {
        assert(erows.skip(j as int) =~= Seq::<EpisodeRowView>::empty());
        assert(c@ == load_episodes_fold(base, erows));
    }
    c
}

// ------------------------------------------------------------------
// The cache
// ------------------------------------------------------------------
/// The episode catalog and progress cache, backed by the embedded store.
pub struct Cache {
    pub directory: String,
    pub current_ep_s: EpisodeNumbered,
    pub next_ep_s: Option<EpisodeNumbered>,
    pub catalog: Catalog,
    pub conn: rusqlite::Connection,
}

impl Cache {
    pub open spec fn wf(&self) -> bool {
        self.catalog.wf()
    }

    /// Opens (creating when needed) the store under the given cache
    /// directory, initializes the schema, and loads the catalog from it.
    /// A failure here is fatal to the cache: nothing can proceed without
    /// the store.
    pub fn new(cache: &str) -> (r: Result<Cache, CacheError>)
        ensures
            r matches Ok(c) ==> {
                &&& c.wf()
                &&& c.directory@ == Seq::<char>::empty()
                &&& c.current_ep_s == (EpisodeNumbered { ep: 1u32, s: 1u32 })
                &&& c.next_ep_s is None
            },
    {
        let mut db_file = cache.to_owned();
        db_file.append("/sani.db");
        Cache::new_at(db_file.as_str())
    }

    /// Opens the store at exactly the given database path (`:memory:` for a
    /// transient store), initializes the schema, and loads the catalog.
    pub fn new_at(db_file: &str) -> (r: Result<Cache, CacheError>)
        ensures
            r matches Ok(c) ==> {
                &&& c.wf()
                &&& c.directory@ == Seq::<char>::empty()
                &&& c.current_ep_s == (EpisodeNumbered { ep: 1u32, s: 1u32 })
                &&& c.next_ep_s is None
            },
    {
        let conn = match open_db(db_file) {
            Ok(c) => c,
            Err(_) => {
                return Err(CacheError::Storage);
            },
        };
        match exec_batch(
            &conn,
            "PRAGMA journal_mode = WAL;\n            PRAGMA synchronous = normal;\n            PRAGMA temp_store = memory;\n            CREATE TABLE IF NOT EXISTS anime (\n                dir_name TEXT NOT NULL,\n                current_ep INT,\n                current_s INT,\n                last_watched INT,\n                PRIMARY KEY (dir_name)\n            );\n            CREATE TABLE IF NOT EXISTS episode (\n                path TEXT PRIMARY KEY UNIQUE NOT NULL,\n                dir_name TEXT NOT NULL,\n                ep INT,\n                s INT,\n                special TEXT,\n                resume INT NOT NULL DEFAULT 0,\n                CONSTRAINT fk_dir_name FOREIGN KEY (dir_name) REFERENCES anime (dir_name)\n            );\n            CREATE UNIQUE INDEX IF NOT EXISTS filename_idx ON anime(dir_name);\n            CREATE INDEX IF NOT EXISTS episode_season_idx ON episode(ep, s);",
        ) {
            Ok(_) => {},
            Err(_) => {
                return Err(CacheError::Storage);
            },
        }
        let series_rows = match select_series_rows(&conn) {
            Ok(v) => v,
            Err(_) => {
                return Err(CacheError::Storage);
            },
        };
        let episode_rows = match select_episode_rows(&conn) {
            Ok(v) => v,
            Err(_) => {
                return Err(CacheError::Storage);
            },
        };
        let catalog = load_catalog(&series_rows, &episode_rows);
        Ok(
            Cache {
                directory: String::new(),
                current_ep_s: EpisodeNumbered { ep: 1, s: 1 },
                next_ep_s: None,
                catalog,
                conn,
            },
        )
    }

    /// Reconciles the catalog (and the store) with a scan of the library:
    /// one insert-or-ignore per scanned series directory, then one per
    /// classified episode file. Storage failures are swallowed; the
    /// in-memory catalog is authoritative for reads.
    pub fn refresh(&mut self, series_dirs: &Vec<String>, files: &Vec<(String, String)>)
        requires
            old(self).wf(),
        ensures
            final(self).wf(),
            final(self).catalog@ == refresh_spec(
                old(self).catalog@,
                str_views(series_dirs@),
                entries_of(files@.map_values(|p: (String, String)| (p.0@, p.1@))),
            ),
    {
        let ghost names = str_views(series_dirs@);
        let ghost start = self.catalog@;
        let mut i: usize = 0;
        proof {
            assert(names.skip(0) =~= names);
        }
        while i < series_dirs.len()
            invariant
                i <= names.len(),
                names.len() == series_dirs@.len(),
                names == str_views(series_dirs@),
                self.catalog.wf(),
                self.catalog@.episodes == start.episodes,
                upsert_names_fold(self.catalog@.series, names.skip(i as int)) == upsert_names_fold(
                    start.series,
                    names,
                ),
            decreases names.len() - i,
        {
            let ghost suf = names.skip(i as int);
            proof {
                assert(suf[0] == names[i as int]);
                assert(suf.drop_first() =~= names.skip(i + 1));
            }
            let dir = &series_dirs[i];
            let _ = insert_series_row(&self.conn, dir.as_str());
            self.catalog.upsert_series(dir.as_str());
            i += 1;
        }
        proof {
            assert(names.skip(i as int) =~= Seq::<Seq<char>>::empty());
            assert(self.catalog@.series == upsert_names_fold(start.series, names));
        }
        let ghost fviews = files@.map_values(|p: (String, String)| (p.0@, p.1@));
        let ghost base = self.catalog@;
        let mut j: usize = 0;
        proof {
            assert(fviews.skip(0) =~= fviews);
        }
        while j < files.len()
            invariant
                j <= fviews.len(),
                fviews.len() == files@.len(),
                fviews == files@.map_values(|p: (String, String)| (p.0@, p.1@)),
                self.catalog.wf(),
                index_entries_spec(self.catalog@, entries_of(fviews.skip(j as int)))
                    == index_entries_spec(base, entries_of(fviews)),
            decreases fviews.len() - j,
        {
            let ghost suf = fviews.skip(j as int);
            proof {
                assert(suf[0] == fviews[j as int]);
                assert(suf.drop_first() =~= fviews.skip(j + 1));
            }
            let root = &files[j].0;
            let path = &files[j].1;
            let ghost prev = self.catalog@;
            match parse_file_entry(root.as_str(), path.as_str()) {
                Some(rec) => {
                    proof {
                        assert(entry_of(suf[0].0, suf[0].1) == Some(rec@));
                        assert(entries_of(suf) == seq![rec@] + entries_of(suf.drop_first()));
                    }
                    let _ = insert_series_row(&self.conn, rec.dir_name.as_str());
                    let db_result = match &rec.identity {
                        EpisodeKind::Numbered(n) => insert_episode_row(
                            &self.conn,
                            rec.path.as_str(),
                            rec.dir_name.as_str(),
                            Some(n.ep),
                            Some(n.s),
                            None,
                        ),
                        EpisodeKind::Special(label) => insert_episode_row(
                            &self.conn,
                            rec.path.as_str(),
                            rec.dir_name.as_str(),
                            None,
                            None,
                            Some(label.as_str()),
                        ),
                    };
                    let _ = db_result;
                    let ghost recv = rec@;
                    self.catalog.upsert_episode(rec);
                    proof {
                        let es = entries_of(suf);
                        assert(es[0] == recv);
                        assert(es.drop_first() =~= entries_of(suf.drop_first()));
                        assert(index_entries_spec(prev, es) == index_entries_spec(
                            apply_entry(prev, recv),
                            entries_of(suf.drop_first()),
                        ));
                    }
                },
                None => {
                    proof {
                        assert(entry_of(suf[0].0, suf[0].1) is None);
                        assert(entries_of(suf) == entries_of(suf.drop_first()));
                    }
                },
            }
            j += 1;
        }
        proof {
            assert(fviews.skip(j as int) =~= Seq::<(Seq<char>, Seq<char>)>::empty());
            assert(entries_of(fviews.skip(j as int)) =~= Seq::<EpisodeRecView>::empty());
            assert(index_entries_spec(self.catalog@, entries_of(fviews.skip(j as int)))
                == self.catalog@);
        }
    }

    /// Remembers the finished episode and its successor for the running
    /// session.
    pub fn write_finished(&mut self, current_ep: EpisodeNumbered, next_ep: Option<EpisodeNumbered>)
        ensures
            final(self).current_ep_s == current_ep,
            final(self).next_ep_s == next_ep,
            final(self).catalog == old(self).catalog,
            final(self).directory == old(self).directory,
    {
        self.current_ep_s = current_ep;
        self.next_ep_s = next_ep;
    }

    /// Records watch progress with an explicit timestamp: the series'
    /// current episode becomes the payload's coordinate and its last-watched
    /// time becomes `now`.
    pub fn write_at(&mut self, info: &CacheAnimeInfo, now: i64)
        requires
            old(self).wf(),
        ensures
            final(self).wf(),
            final(self).catalog@.episodes == old(self).catalog@.episodes,
            final(self).catalog@.series == record_progress_spec(
                old(self).catalog@.series,
                info.dir_name@,
                EpisodeNumbered { ep: info.episode, s: info.season },
                now,
            ),
    {
        let _ = upsert_progress_row(&self.conn, info.dir_name.as_str(), info.episode, info.season, now);
        let cur = EpisodeNumbered { ep: info.episode, s: info.season };
        self.catalog.record_progress(info.dir_name.as_str(), &cur, now);
    }

    /// Records watch progress at the current time. The write is not allowed
    /// to fail the interactive flow: a storage error is swallowed and the
    /// in-memory state is updated regardless.
    pub fn write(&mut self, info: CacheAnimeInfo) -> (r: Result<(), CacheError>)
        requires
            old(self).wf(),
        ensures
            r is Ok,
            final(self).wf(),
            final(self).catalog@.episodes == old(self).catalog@.episodes,
            exists|now: i64|
                final(self).catalog@.series == record_progress_spec(
                    old(self).catalog@.series,
                    info.dir_name@,
                    EpisodeNumbered { ep: info.episode, s: info.season },
                    now,
                ),
    {
        let now = now_unix();
        self.write_at(&info, now);
        Ok(())
    }

    /// The identities listed for a series: deduplicated and sorted
    /// ascending under the centralized order.
    pub fn read_ep(&self, anime_dir: &str) -> (r: Result<Vec<EpisodeKind>, CacheError>)
        ensures
            r is Ok,
            r matches Ok(v) ==> {
                &&& strictly_sorted_kinds(kind_views(v@))
                &&& forall|k: KindView| #[trigger]
                    kind_views(v@).contains(k) <==> has_identity(
                        self.catalog@.episodes,
                        anime_dir@,
                        k,
                    )
            },
    {
        Ok(self.catalog.list_episodes(anime_dir))
    }

    /// Whether the series has an episode record at exactly this coordinate.
    pub fn check_ep_s_exist_cache(&self, directory: &str, ep_s: &EpisodeNumbered) -> (r: Result<
        bool,
        CacheError,
    >)
        ensures
            r is Ok,
            r matches Ok(b) ==> b == has_numbered(
                self.catalog@.episodes,
                directory@,
                ep_s.ep,
                ep_s.s,
            ),
    {
        Ok(self.catalog.exists_numbered(directory, ep_s.ep, ep_s.s))
    }

    /// The two-step next-episode rule: `{s, e+1}` exactly when that
    /// coordinate is in the catalog; else `{s+1, 1}` exactly when that one
    /// is; else none.
    pub fn next_ep(&self, directory: &str, current_ep_s: &EpisodeNumbered) -> (r: Option<
        EpisodeNumbered,
    >)
        requires
            current_ep_s.ep < u32::MAX,
            current_ep_s.s < u32::MAX,
        ensures
            r == next_episode_spec(self.catalog@.episodes, directory@, *current_ep_s),
    {
        self.catalog.next_episode(directory, current_ep_s)
    }

    /// The series' stored current episode (default: season 1, episode 1)
    /// and its successor under the two-step rule. A stored coordinate at
    /// the numeric limit has no successor.
    pub fn read_relative_ep(&self, directory: &str) -> (r: Result<RelativeEpisode, CacheError>)
        requires
            self.wf(),
        ensures
            r is Ok,
            r matches Ok(rel) ==> {
                &&& rel.current_ep == current_or_default(self.catalog@.series, directory@)
                &&& rel.next_ep == (if rel.current_ep.ep < u32::MAX && rel.current_ep.s
                    < u32::MAX {
                    next_episode_spec(self.catalog@.episodes, directory@, rel.current_ep)
                } else {
                    Option::<EpisodeNumbered>::None
                })
            },
    {
        let current_ep = self.catalog.current_episode(directory);
        let next_ep = if current_ep.ep < u32::MAX && current_ep.s < u32::MAX {
            self.catalog.next_episode(directory, &current_ep)
        } else {
            None
        };
        Ok(RelativeEpisode { current_ep, next_ep })
    }

    /// The stored paths of the series' episode records carrying the given
    /// identity. For a numbered identity an empty listing is still a
    /// listing; for a special it means "not found".
    pub fn find_ep(&self, directory: &str, episode: &EpisodeKind) -> (r: Option<Vec<String>>)
        ensures
            match episode@ {
                KindView::Numbered(_) => r matches Some(v) && str_views(v@) == paths_for(
                    self.catalog@.episodes,
                    directory@,
                    episode@,
                ),
                KindView::Special(_) => {
                    if paths_for(self.catalog@.episodes, directory@, episode@).len() == 0 {
                        r is None
                    } else {
                        r matches Some(v) && str_views(v@) == paths_for(
                            self.catalog@.episodes,
                            directory@,
                            episode@,
                        )
                    }
                },
            },
    {
        let paths = self.catalog.find_paths(directory, episode);
        match episode {
            EpisodeKind::Numbered(_) => Some(paths),
            EpisodeKind::Special(_) => {
                if paths.len() == 0 {
                    proof {
                        assert(str_views(paths@) =~= Seq::<Seq<char>>::empty());
                    }
                    None
                } else {
                    Some(paths)
                }
            },
        }
    }

    /// Replaces the stored resume offset of the episode record at `path`.
    pub fn record_resume_timestamp(&mut self, path: &str, secs: u64)
        requires
            old(self).wf(),
        ensures
            final(self).wf(),
            final(self).catalog@.series == old(self).catalog@.series,
            final(self).catalog@.episodes == set_resume_spec(
                old(self).catalog@.episodes,
                path@,
                secs,
            ),
    {
        let db_secs: i64 = if secs > (i64::MAX as u64) {
            i64::MAX
        } else {
            secs as i64
        };
        let _ = update_resume_row(&self.conn, path, db_secs);
        self.catalog.set_resume(path, secs);
    }

    /// The stored resume offset at `path`, 0 when nothing was recorded.
    pub fn read_resume_timestamp(&self, path: &str) -> (r: u64)
        requires
            self.wf(),
        ensures
            r == resume_spec(self.catalog@.episodes, path@),
    {
        self.catalog.resume_of(path)
    }

    /// The newline-joined series listing: every series whose directory is
    /// still present (per `existing`), most recently watched first,
    /// never-watched last, ties by name descending.
    pub fn read_list(&self, existing: &Vec<String>) -> (r: Result<String, CacheError>)
        requires
            self.wf(),
        ensures
            r is Ok,
            r matches Ok(s) ==> exists|vs: Seq<SeriesView>|
                {
                    &&& strictly_sorted_series(vs)
                    &&& forall|v: SeriesView| #[trigger]
                        vs.contains(v) <==> (self.catalog@.series.contains(v) && in_existing(
                            str_views(existing@),
                            v.dir_name,
                        ))
                    &&& s@ == join_lines(vs.map_values(|v: SeriesView| v.dir_name))
                },
    {
        let recs = self.catalog.series_ordered(existing);
        let joined = join_names(&recs);
        proof {
            let vs = series_views(recs@);
            assert(joined@ == join_lines(vs.map_values(|v: SeriesView| v.dir_name)));
        }
        Ok(joined)
    }

    /// Asks the store to re-optimize and gives the connection up.
    pub fn close(self) {
        let _ = exec_batch(&self.conn, "PRAGMA optimize;");
    }
}

/// Newline-joined text, with no trailing newline.
pub open spec fn join_lines(names: Seq<Seq<char>>) -> Seq<char>
    decreases names.len(),
{
    if names.len() == 0 {
        Seq::empty()
    } else if names.len() == 1 {
        names[0]
    } else {
        names[0] + seq!['\n'] + join_lines(names.drop_first())
    }
}

proof fn lemma_join_push(names: Seq<Seq<char>>, x: Seq<char>)
    ensures
        join_lines(names.push(x)) == (if names.len() == 0 {
            x
        } else {
            join_lines(names) + seq!['\n'] + x
        }),
    decreases names.len(),
{
    let p = names.push(x);
    if names.len() == 0 {
        assert(p.len() == 1);
        assert(join_lines(p) == p[0]);
        assert(p[0] == x);
    } else {
        assert(p.drop_first() =~= names.drop_first().push(x));
        lemma_join_push(names.drop_first(), x);
        if names.len() == 1 {
            assert(join_lines(names) == names[0]);
            assert(join_lines(p) == p[0] + seq!['\n'] + join_lines(p.drop_first()));
            assert(join_lines(p.drop_first()) == x);
        } else {
            assert(join_lines(p) == p[0] + seq!['\n'] + join_lines(p.drop_first()));
            assert(join_lines(names) + seq!['\n'] + x == (names[0] + seq!['\n'] + join_lines(
                names.drop_first(),
            )) + seq!['\n'] + x);
            assert((names[0] + seq!['\n'] + join_lines(names.drop_first())) + seq!['\n'] + x
                =~= names[0] + seq!['\n'] + (join_lines(names.drop_first()) + seq!['\n'] + x));
        }
    }
}

/// Joins the records' directory names with newlines.
fn join_names(recs: &Vec<SeriesRecord>) -> (r: String)
    ensures
        r@ == join_lines(series_views(recs@).map_values(|v: SeriesView| v.dir_name)),
{
    let ghost names = series_views(recs@).map_values(|v: SeriesView| v.dir_name);
    let mut out = String::new();
    let mut i: usize = 0;
    proof {
        assert(names.take(0) =~= Seq::<Seq<char>>::empty());
    }
    while i < recs.len()
        invariant
            i <= names.len(),
            names.len() == recs@.len(),
            names == series_views(recs@).map_values(|v: SeriesView| v.dir_name),
            out@ == join_lines(names.take(i as int)),
        decreases names.len() - i,
    {
        proof {
            assert(names.take(i + 1) =~= names.take(i as int).push(names[i as int]));
            lemma_join_push(names.take(i as int), names[i as int]);
        }
        if i > 0 {
            push_char(&mut out, '\n');
        }
        out.append(recs[i].dir_name.as_str());
        proof {
            assert(names[i as int] == recs@[i as int]@.dir_name);
        }
        i += 1;
    }
    proof {
        assert(names.take(i as int) =~= names);
    }
    out
}

} // verus!
