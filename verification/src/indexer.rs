//! Deriving catalog entries from scanned library paths.
//!
//! The filesystem walk itself happens outside the library; it hands in the
//! configured root directory and the full path of each regular file found
//! below it. This module decides which files are episodes (known video
//! extensions), which series directory owns them (the path component
//! directly under the root), and what identity they carry (the classifier,
//! run on the file name).

use vstd::prelude::*;

verus! {

use vstd::string::StringExecFns;

use crate::catalog::{EpisodeRecord, EpisodeRecView};
use crate::classify::{classify, classify_spec};
use crate::text::{chars_vec, string_from_range};

/// The index of the last `/` strictly below position `j`, or -1.
pub open spec fn last_slash_before(p: Seq<char>, j: int) -> int
    decreases j,
{
    if j <= 0 {
        -1
    } else if p[j - 1] == '/' {
        j - 1
    } else {
        last_slash_before(p, j - 1)
    }
}

pub proof fn lemma_last_slash_before(p: Seq<char>, j: int)
    requires
        0 <= j <= p.len(),
    ensures
        -1 <= last_slash_before(p, j) < j,
    decreases j,
{
    if j > 0 && p[j - 1] != '/' {
        lemma_last_slash_before(p, j - 1);
    }
}

/// The file-name part of a path: everything after the last `/`.
pub open spec fn file_name_of(p: Seq<char>) -> Seq<char> {
    p.subrange(last_slash_before(p, p.len() as int) + 1, p.len() as int)
}

/// The index of the first `/` at or after position `j`, or the length when
/// there is none.
pub open spec fn first_slash_from(p: Seq<char>, j: int) -> int
    decreases p.len() - j,
{
    if j < 0 || j >= p.len() {
        p.len() as int
    } else if p[j] == '/' {
        j
    } else {
        first_slash_from(p, j + 1)
    }
}

pub proof fn lemma_first_slash_from(p: Seq<char>, j: int)
    requires
        0 <= j <= p.len(),
    ensures
        j <= first_slash_from(p, j) <= p.len(),
    decreases p.len() - j,
{
    if j < p.len() && p[j] != '/' {
        lemma_first_slash_from(p, j + 1);
    }
}

/// Known video file extensions: `.mkv`, `.mp4`, `.ts`.
pub open spec fn is_video_path(p: Seq<char>) -> bool {
    let n = p.len() as int;
    (n >= 4 && p[n - 4] == '.' && p[n - 3] == 'm' && p[n - 2] == 'k' && p[n - 1] == 'v') || (n >= 4
        && p[n - 4] == '.' && p[n - 3] == 'm' && p[n - 2] == 'p' && p[n - 1] == '4') || (n >= 3 && p[n
        - 3] == '.' && p[n - 2] == 't' && p[n - 1] == 's')
}

/// The series directory owning a file below `root`: the non-empty path
/// component directly under the root, provided the file lies at least one
/// level below it.
pub open spec fn series_dir_of(root: Seq<char>, p: Seq<char>) -> Option<Seq<char>> {
    let start = root.len() + 1;
    if p.len() > start && p.subrange(0, root.len() as int) == root && p[root.len() as int] == '/' {
        let k = first_slash_from(p, start as int);
        if k < p.len() && k > start {
            Some(p.subrange(start as int, k))
        } else {
            None
        }
    } else {
        None
    }
}

/// The catalog entry a scanned file contributes, if any: video files below
/// a series directory, classified by file name, with no resume offset yet.
pub open spec fn entry_of(root: Seq<char>, p: Seq<char>) -> Option<EpisodeRecView> {
    if is_video_path(p) {
        match series_dir_of(root, p) {
            Some(dir) => Some(
                EpisodeRecView {
                    path: p,
                    dir_name: dir,
                    identity: classify_spec(file_name_of(p)),
                    resume: 0u64,
                },
            ),
            None => None,
        }
    } else {
        None
    }
}

/// The catalog entries of a whole scan, in scan order.
pub open spec fn entries_of(files: Seq<(Seq<char>, Seq<char>)>) -> Seq<EpisodeRecView>
    decreases files.len(),
{
    if files.len() == 0 {
        Seq::empty()
    } else {
        match entry_of(files[0].0, files[0].1) {
            Some(e) => seq![e] + entries_of(files.drop_first()),
            None => entries_of(files.drop_first()),
        }
    }
}

/// Video-extension test.
fn is_video_exec(v: &Vec<char>) -> (r: bool)
    ensures
        r == is_video_path(v@),
{
    let n = v.len();
    (n >= 4 && v[n - 4] == '.' && v[n - 3] == 'm' && v[n - 2] == 'k' && v[n - 1] == 'v') || (n >= 4
        && v[n - 4] == '.' && v[n - 3] == 'm' && v[n - 2] == 'p' && v[n - 1] == '4') || (n >= 3 && v[n
        - 3] == '.' && v[n - 2] == 't' && v[n - 1] == 's')
}

/// The index of the last `/`, or the vector's length when there is none
/// (so that the file name starts at `r + 1` in every case, wrapping to 0).
fn last_slash_exec(v: &Vec<char>) -> (r: Option<usize>)
    ensures
        match r {
            Some(i) => i < v@.len() && last_slash_before(v@, v@.len() as int) == i as int,
            None => last_slash_before(v@, v@.len() as int) == -1,
        },
{
    let mut j = v.len();
    while j > 0
        invariant
            j <= v@.len(),
            last_slash_before(v@, v@.len() as int) == last_slash_before(v@, j as int),
        decreases j,
    {
        if v[j - 1] == '/' {
            return Some(j - 1);
        }
        j -= 1;
    }
    None
}

/// The index of the first `/` at or after `j`, or the length.
fn first_slash_exec(v: &Vec<char>, j: usize) -> (r: usize)
    requires
        j <= v@.len(),
    ensures
        r as int == first_slash_from(v@, j as int),
        j <= r <= v@.len(),
{
    let mut k = j;
    while k < v.len()
        invariant
            j <= k <= v@.len(),
            first_slash_from(v@, j as int) == first_slash_from(v@, k as int),
            forall|w: int| j <= w < k ==> v@[w] != '/',
        decreases v@.len() - k,
    {
        if v[k] == '/' {
            return k;
        }
        k += 1;
    }
    k
}

/// Whether `p` starts with `root` followed by a `/`.
fn has_root_prefix(root: &Vec<char>, p: &Vec<char>) -> (r: bool)
    ensures
        r == (p@.len() > root@.len() + 1 && p@.subrange(0, root@.len() as int) == root@ && p@[root@.len() as int]
            == '/'),
{
    let rn = root.len();
    let pn = p.len();
    if !(pn > rn && pn - rn > 1) {
        return false;
    }
    if p[rn] != '/' {
        return false;
    }
    let mut i: usize = 0;
    while i < rn
        invariant
            i <= rn,
            rn < pn <= p@.len(),
            rn == root@.len(),
            pn == p@.len(),
            forall|w: int| 0 <= w < i ==> p@[w] == root@[w],
        decreases rn - i,
    {
        if p[i] != root[i] {
            proof {
                assert(p@.subrange(0, root@.len() as int)[i as int] != root@[i as int]);
            }
            return false;
        }
        i += 1;
    }
    proof {
        assert(p@.subrange(0, root@.len() as int) =~= root@);
    }
    true
}

/// Parses one scanned file into a catalog entry, exactly as `entry_of`
/// describes.
pub fn parse_file_entry(root: &str, path: &str) -> (r: Option<EpisodeRecord>)
    ensures
        match r {
            Some(rec) => entry_of(root@, path@) == Some(rec@),
            None => entry_of(root@, path@) is None,
        },
{
    let pv = chars_vec(path);
    if !is_video_exec(&pv) {
        return None;
    }
    let rv = chars_vec(root);
    if !has_root_prefix(&rv, &pv) {
        return None;
    }
    let start = rv.len() + 1;
    let k = first_slash_exec(&pv, start);
    if !(k < pv.len() && k > start) {
        return None;
    }
    let dir = string_from_range(&pv, start, k);
    let name_start: usize = match last_slash_exec(&pv) {
        Some(i) => i + 1,
        None => 0,
    };
    let name = string_from_range(&pv, name_start, pv.len());
    proof {
        assert(name@ == file_name_of(path@));
    }
    let identity = classify(name.as_str());
    let rec = EpisodeRecord { path: String::from_str(path), dir_name: dir, identity, resume: 0 };
    Some(rec)
}

} // verus!
