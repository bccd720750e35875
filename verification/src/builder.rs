//! Builder for progress-write payloads.
//!
//! `finalize` succeeds exactly when every required field was supplied, and
//! names the first missing field otherwise, in the order the setters are
//! declared. The season is not part of the builder; it defaults to 1, the
//! same default the classifier uses.

use vstd::prelude::*;

verus! {

use vstd::string::StringExecFns;

use crate::store::CacheAnimeInfo;

#[derive(Debug)]
pub struct CacheAnimeInfoBuilder {
    pub anime_name: Option<String>,
    pub filename: Option<String>,
    pub current_ep: Option<u32>,
    pub timestamp: Option<u64>,
}

/// The builder's error: a required field was never set; the label names it.
#[derive(Debug)]
pub enum CacheAnimeInfoBuilderError {
    MissingField(String),
}

impl Default for CacheAnimeInfoBuilder {
    /// A builder with no field set.
    fn default() -> (r: Self)
        ensures
            r.anime_name is None,
            r.filename is None,
            r.current_ep is None,
            r.timestamp is None,
    {
        CacheAnimeInfoBuilder { anime_name: None, filename: None, current_ep: None, timestamp: None }
    }
}

impl CacheAnimeInfoBuilder {
    pub fn anime_name(self, anime_name: &str) -> (r: Self)
        ensures
            r.anime_name matches Some(v) && v@ == anime_name@,
            r.filename == self.filename,
            r.current_ep == self.current_ep,
            r.timestamp == self.timestamp,
    {
        CacheAnimeInfoBuilder { anime_name: Some(anime_name.to_owned()), ..self }
    }

    pub fn filename(self, filename: &str) -> (r: Self)
        ensures
            r.filename matches Some(v) && v@ == filename@,
            r.anime_name == self.anime_name,
            r.current_ep == self.current_ep,
            r.timestamp == self.timestamp,
    {
        CacheAnimeInfoBuilder { filename: Some(filename.to_owned()), ..self }
    }

    pub fn current_ep(self, current_ep: u32) -> (r: Self)
        ensures
            r.current_ep == Some(current_ep),
            r.anime_name == self.anime_name,
            r.filename == self.filename,
            r.timestamp == self.timestamp,
    {
        CacheAnimeInfoBuilder { current_ep: Some(current_ep), ..self }
    }

    pub fn timestamp(self, timestamp: u64) -> (r: Self)
        ensures
            r.timestamp == Some(timestamp),
            r.anime_name == self.anime_name,
            r.filename == self.filename,
            r.current_ep == self.current_ep,
    {
        CacheAnimeInfoBuilder { timestamp: Some(timestamp), ..self }
    }

    /// Succeeds exactly when every field was supplied; otherwise names the
    /// first missing one.
    pub fn finalize(self) -> (r: Result<CacheAnimeInfo, CacheAnimeInfoBuilderError>)
        ensures
            (r is Ok) == (self.anime_name is Some && self.filename is Some && self.current_ep
                is Some && self.timestamp is Some),
            r matches Ok(info) ==> {
                &&& info.dir_name@ == self.anime_name->0@
                &&& info.filename@ == self.filename->0@
                &&& info.episode == self.current_ep->0
                &&& info.season == 1u32
                &&& info.timestamp == self.timestamp->0
            },
            r matches Err(e) ==> (e matches CacheAnimeInfoBuilderError::MissingField(m) && m@ == (
            if self.anime_name is None {
                "anime_name"@
            } else if self.filename is None {
                "filename"@
            } else if self.current_ep is None {
                "current_ep"@
            } else {
                "timestamp"@
            })),
    {
        let anime_name = match self.anime_name {
            Some(v) => v,
            None => {
                return Err(
                    CacheAnimeInfoBuilderError::MissingField(String::from_str("anime_name")),
                );
            },
        };
        let filename = match self.filename {
            Some(v) => v,
            None => {
                return Err(CacheAnimeInfoBuilderError::MissingField(String::from_str("filename")));
            },
        };
        let current_ep = match self.current_ep {
            Some(v) => v,
            None => {
                return Err(
                    CacheAnimeInfoBuilderError::MissingField(String::from_str("current_ep")),
                );
            },
        };
        let timestamp = match self.timestamp {
            Some(v) => v,
            None => {
                return Err(
                    CacheAnimeInfoBuilderError::MissingField(String::from_str("timestamp")),
                );
            },
        };
        Ok(
            CacheAnimeInfo {
                dir_name: anime_name,
                filename,
                episode: current_ep,
                season: 1,
                timestamp,
            },
        )
    }
}

} // verus!
