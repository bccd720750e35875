//! The filename classifier.
//!
//! `classify` turns a raw episode filename into an [`EpisodeKind`]:
//! 1. special-content markers (bracketed or isolated `OVA`, `NCED`/`NCOP`
//!    credit markers, isolated `OP`/`ED` tokens) win over everything and
//!    yield `Special` with the matched substring as label;
//! 2. otherwise known noise tokens (resolution markers `1080`/`720`, codec
//!    tags `x264`/`x265`, a `10bit` marker) are stripped, so that their digit
//!    runs cannot be mistaken for episode numbers;
//! 3. an episode/season capture runs over the cleaned text: an optional
//!    season marker (`S`/`s` plus two digits) followed by an episode marker
//!    (`E`/`e`/`EP`/`x` or a space, plus one or two digits); a season-less
//!    episode defaults to season 1; `NNxMM` pairs are read as season x
//!    episode;
//! 4. if nothing matches, the classifier degrades to the default identity
//!    `S01E01` instead of failing: the catalog must never lose a file to a
//!    naming irregularity.
//!
//! The whole algorithm is specified by `classify_spec`, a pure function over
//! the character sequence of the filename.

use vstd::prelude::*;

verus! {

use crate::episode::{Episode, EpisodeKind, EpisodeNumbered, KindView};
use crate::text::{chars_vec, string_from_range};

/// Separator characters: token boundaries inside filenames.
pub open spec fn is_sep(c: char) -> bool {
    c == ' ' || c == '.' || c == '_' || c == '-' || c == '(' || c == ')' || c == '[' || c == ']'
}

/// Decimal digit characters.
pub open spec fn is_digit(c: char) -> bool {
    '0' <= c && c <= '9'
}

/// The numeric value of a decimal digit character.
pub open spec fn digit_val(c: char) -> u32 {
    if c == '0' {
        0
    } else if c == '1' {
        1
    } else if c == '2' {
        2
    } else if c == '3' {
        3
    } else if c == '4' {
        4
    } else if c == '5' {
        5
    } else if c == '6' {
        6
    } else if c == '7' {
        7
    } else if c == '8' {
        8
    } else {
        9
    }
}

/// Position `i` starts a token: it is the start of the text or follows a
/// separator.
pub open spec fn boundary_before(s: Seq<char>, i: int) -> bool {
    i == 0 || is_sep(s[i - 1])
}

/// Position `j` ends a token: it is the end of the text or holds a
/// separator.
pub open spec fn boundary_after(s: Seq<char>, j: int) -> bool {
    j >= s.len() || is_sep(s[j])
}

/// The first position at or after `j` that does not hold a digit.
pub open spec fn digits_end(s: Seq<char>, j: int) -> int
    decreases s.len() - j,
{
    if j < 0 || j >= s.len() || !is_digit(s[j]) {
        j
    } else {
        digits_end(s, j + 1)
    }
}

pub proof fn lemma_digits_end(s: Seq<char>, j: int)
    requires
        0 <= j <= s.len(),
    ensures
        j <= digits_end(s, j) <= s.len(),
    decreases s.len() - j,
{
    if j < s.len() && is_digit(s[j]) {
        lemma_digits_end(s, j + 1);
    }
}

/// An `NCED` or `NCOP` credit marker standing at position `i`.
pub open spec fn credit_at(s: Seq<char>, i: int) -> bool {
    i + 4 <= s.len() && s[i] == 'N' && s[i + 1] == 'C' && ((s[i + 2] == 'E' && s[i + 3] == 'D') || (
    s[i + 2] == 'O' && s[i + 3] == 'P'))
}

/// An isolated `OVA` token at position `i` (separated or bracketed on both
/// sides, trailing digits allowed).
pub open spec fn ova_at(s: Seq<char>, i: int) -> bool {
    i + 3 <= s.len() && s[i] == 'O' && s[i + 1] == 'V' && s[i + 2] == 'A' && boundary_before(s, i)
        && boundary_after(s, digits_end(s, i + 3))
}

/// An isolated `OP` or `ED` token at position `i`, trailing digits allowed.
pub open spec fn credits_short_at(s: Seq<char>, i: int) -> bool {
    i + 2 <= s.len() && ((s[i] == 'O' && s[i + 1] == 'P') || (s[i] == 'E' && s[i + 1] == 'D'))
        && boundary_before(s, i) && boundary_after(s, digits_end(s, i + 2))
}

/// The special-content label starting at position `i`, if one does: the
/// matched marker together with its trailing digit run.
pub open spec fn special_at(s: Seq<char>, i: int) -> Option<Seq<char>> {
    if credit_at(s, i) {
        Some(s.subrange(i, digits_end(s, i + 4)))
    } else if ova_at(s, i) {
        Some(s.subrange(i, digits_end(s, i + 3)))
    } else if credits_short_at(s, i) {
        Some(s.subrange(i, digits_end(s, i + 2)))
    } else {
        None
    }
}

/// The leftmost special-content label at or after position `i`.
pub open spec fn special_find(s: Seq<char>, i: int) -> Option<Seq<char>>
    decreases s.len() - i,
{
    if i < 0 || i >= s.len() {
        None
    } else if special_at(s, i) is Some {
        special_at(s, i)
    } else {
        special_find(s, i + 1)
    }
}

/// The length of the noise token standing at position `i`, or 0.
/// Noise tokens: `10bit`, `1080`, `720`, `x264`, `x265`.
pub open spec fn noise_len_at(s: Seq<char>, i: int) -> int {
    if i + 5 <= s.len() && s[i] == '1' && s[i + 1] == '0' && s[i + 2] == 'b' && s[i + 3] == 'i'
        && s[i + 4] == 't' {
        5
    } else if i + 4 <= s.len() && s[i] == '1' && s[i + 1] == '0' && s[i + 2] == '8' && s[i + 3]
        == '0' {
        4
    } else if i + 3 <= s.len() && s[i] == '7' && s[i + 1] == '2' && s[i + 2] == '0' {
        3
    } else if i + 4 <= s.len() && s[i] == 'x' && s[i + 1] == '2' && s[i + 2] == '6' && (s[i + 3]
        == '4' || s[i + 3] == '5') {
        4
    } else {
        0
    }
}

/// The text with every noise token at or after position `i` deleted.
pub open spec fn strip_noise(s: Seq<char>, i: int) -> Seq<char>
    decreases s.len() - i,
{
    if i < 0 || i >= s.len() {
        Seq::empty()
    } else if noise_len_at(s, i) > 0 {
        strip_noise(s, i + noise_len_at(s, i))
    } else {
        seq![s[i]] + strip_noise(s, i + 1)
    }
}

/// The value of the two-digit run at `j` and `j + 1`.
pub open spec fn two_val(s: Seq<char>, j: int) -> u32 {
    ((10 * digit_val(s[j]) + digit_val(s[j + 1])) as u32)
}

/// A one- or two-digit number starting at `j`: its value and the position
/// just past it. Two digits are preferred when available.
pub open spec fn num12_at(s: Seq<char>, j: int) -> Option<(u32, int)> {
    if 0 <= j && j + 2 <= s.len() && is_digit(s[j]) && is_digit(s[j + 1]) {
        Some((two_val(s, j), j + 2))
    } else if 0 <= j && j + 1 <= s.len() && is_digit(s[j]) {
        Some((digit_val(s[j]), j + 1))
    } else {
        None
    }
}

/// The position just past an episode marker letter group at `j`:
/// `E`/`e` with an optional `P`/`p`, or `x`.
pub open spec fn letter_marker_end(s: Seq<char>, j: int) -> Option<int> {
    if 0 <= j && j < s.len() && (s[j] == 'E' || s[j] == 'e') {
        if j + 1 < s.len() && (s[j + 1] == 'P' || s[j + 1] == 'p') {
            Some(j + 2)
        } else {
            Some(j + 1)
        }
    } else if 0 <= j && j < s.len() && s[j] == 'x' {
        Some(j + 1)
    } else {
        None
    }
}

/// The episode number announced by a marker at `j`, if any: a letter marker
/// followed by digits.
pub open spec fn ep_at_marker(s: Seq<char>, j: int) -> Option<u32> {
    match letter_marker_end(s, j) {
        Some(k) => match num12_at(s, k) {
            Some((e, _)) => Some(e),
            None => None,
        },
        None => None,
    }
}

/// The episode number standing right after a season marker that ends at
/// `j0`: a letter marker, a space followed by digits, or one separator
/// followed by a letter marker.
pub open spec fn ep_after_season(s: Seq<char>, j0: int) -> Option<u32> {
    if ep_at_marker(s, j0) is Some {
        ep_at_marker(s, j0)
    } else if j0 < s.len() && s[j0] == ' ' && num12_at(s, j0 + 1) is Some {
        match num12_at(s, j0 + 1) {
            Some((e, _)) => Some(e),
            None => None,
        }
    } else if j0 < s.len() && is_sep(s[j0]) {
        ep_at_marker(s, j0 + 1)
    } else {
        None
    }
}

/// A full season-and-episode pattern at `i`: `S`/`s`, two season digits,
/// then an episode marker.
pub open spec fn sxx_at(s: Seq<char>, i: int) -> Option<(u32, u32)> {
    if 0 <= i && i + 3 <= s.len() && (s[i] == 'S' || s[i] == 's') && is_digit(s[i + 1]) && is_digit(
        s[i + 2],
    ) {
        match ep_after_season(s, i + 3) {
            Some(e) => Some((two_val(s, i + 1), e)),
            None => None,
        }
    } else {
        None
    }
}

/// An episode pattern without a season marker at `i`: a letter marker on a
/// token boundary, an `NNxMM` pair on a token boundary, or a space followed
/// by an isolated one- or two-digit number. The season defaults to 1 except
/// in the `NNxMM` form, where `NN` is the season.
pub open spec fn standalone_at(s: Seq<char>, i: int) -> Option<(u32, u32)> {
    if boundary_before(s, i) && letter_marker_end(s, i) is Some {
        match ep_at_marker(s, i) {
            Some(e) => Some((1u32, e)),
            None => None,
        }
    } else if boundary_before(s, i) && num12_at(s, i) is Some {
        match num12_at(s, i) {
            Some((n, j)) => if j < s.len() && s[j] == 'x' {
                match num12_at(s, j + 1) {
                    Some((m, _)) => Some((n, m)),
                    None => None,
                }
            } else {
                None
            },
            None => None,
        }
    } else if 0 <= i && i < s.len() && s[i] == ' ' {
        match num12_at(s, i + 1) {
            Some((e, j)) => if boundary_after(s, j) {
                Some((1u32, e))
            } else {
                None
            },
            None => None,
        }
    } else {
        None
    }
}

/// The season/episode capture at position `i`: the season-led form wins,
/// then the season-less forms.
pub open spec fn capture_at(s: Seq<char>, i: int) -> Option<(u32, u32)> {
    if sxx_at(s, i) is Some {
        sxx_at(s, i)
    } else {
        standalone_at(s, i)
    }
}

/// The leftmost season/episode capture at or after position `i`.
pub open spec fn capture_find(s: Seq<char>, i: int) -> Option<(u32, u32)>
    decreases s.len() - i,
{
    if i < 0 || i >= s.len() {
        None
    } else if capture_at(s, i) is Some {
        capture_at(s, i)
    } else {
        capture_find(s, i + 1)
    }
}

/// The full classification rule: specials first; otherwise the capture over
/// the noise-stripped text; otherwise the default identity.
pub open spec fn classify_spec(s: Seq<char>) -> KindView {
    match special_find(s, 0) {
        Some(label) => KindView::Special(label),
        None => match capture_find(strip_noise(s, 0), 0) {
            Some((season, ep)) => KindView::Numbered(EpisodeNumbered { ep: ep, s: season }),
            None => KindView::Numbered(EpisodeNumbered { ep: 1u32, s: 1u32 }),
        },
    }
}

/// Special detection takes priority: whenever a special-content pattern
/// occurs in the filename, the classification is `Special` with the leftmost
/// matched label, and no numbered pattern is considered.
pub proof fn lemma_special_priority(s: Seq<char>, label: Seq<char>)
    requires
        special_find(s, 0) == Some(label),
    ensures
        classify_spec(s) == KindView::Special(label),
{
}

/// Whenever the filename holds no special-content pattern and the cleaned
/// text yields a season/episode capture, the classification is exactly the
/// captured coordinate: surrounding noise tokens are stripped and cannot
/// change the digits that are read.
pub proof fn lemma_numbered_capture(s: Seq<char>, season: u32, ep: u32)
    requires
        special_find(s, 0) is None,
        capture_find(strip_noise(s, 0), 0) == Some((season, ep)),
    ensures
        classify_spec(s) == KindView::Numbered(EpisodeNumbered { ep: ep, s: season }),
{
}

/// On text without noise tokens, stripping is the identity.
pub proof fn lemma_strip_noise_clean(s: Seq<char>, i: int)
    requires
        0 <= i <= s.len(),
        forall|j: int| 0 <= j < s.len() ==> noise_len_at(s, j) == 0,
    ensures
        strip_noise(s, i) == s.skip(i),
    decreases s.len() - i,
{
    if i >= s.len() {
        assert(s.skip(i) =~= Seq::<char>::empty());
    } else {
        lemma_strip_noise_clean(s, i + 1);
        assert(seq![s[i]] + s.skip(i + 1) =~= s.skip(i));
    }
}

/// A filename without special markers and without noise tokens classifies
/// by the season/episode capture over the filename itself: the digits the
/// capture reads are the digits the classification carries.
pub proof fn lemma_classify_clean(s: Seq<char>, season: u32, ep: u32)
    requires
        special_find(s, 0) is None,
        forall|j: int| 0 <= j < s.len() ==> noise_len_at(s, j) == 0,
        capture_find(s, 0) == Some((season, ep)),
    ensures
        classify_spec(s) == KindView::Numbered(EpisodeNumbered { ep: ep, s: season }),
{
    lemma_strip_noise_clean(s, 0);
    assert(s.skip(0) =~= s);
}

// ------------------------------------------------------------------
// Executable classifier
// ------------------------------------------------------------------
/// Decimal digit test.
fn digit(c: char) -> (r: bool)
    ensures
        r == is_digit(c),
{
    '0' <= c && c <= '9'
}

/// Separator test.
fn sep(c: char) -> (r: bool)
    ensures
        r == is_sep(c),
{
    c == ' ' || c == '.' || c == '_' || c == '-' || c == '(' || c == ')' || c == '[' || c == ']'
}

/// Digit value.
pub fn digit_value(c: char) -> (r: u32)
    ensures
        r == digit_val(c),
        r <= 9,
{
    if c == '0' {
        0
    } else if c == '1' {
        1
    } else if c == '2' {
        2
    } else if c == '3' {
        3
    } else if c == '4' {
        4
    } else if c == '5' {
        5
    } else if c == '6' {
        6
    } else if c == '7' {
        7
    } else if c == '8' {
        8
    } else {
        9
    }
}

/// Every position of a digit run, up to its end, holds a digit.
pub proof fn lemma_digits_end_digits(s: Seq<char>, j: int)
    requires
        0 <= j <= s.len(),
    ensures
        forall|w: int| j <= w < digits_end(s, j) ==> is_digit(#[trigger] s[w]),
    decreases s.len() - j,
{
    if j < s.len() && is_digit(s[j]) {
        lemma_digits_end_digits(s, j + 1);
        lemma_digits_end(s, j + 1);
    }
}

pub fn digits_end_exec(v: &Vec<char>, j: usize) -> (r: usize)
    requires
        j <= v@.len(),
    ensures
        r as int == digits_end(v@, j as int),
        j <= r <= v@.len(),
{
    let mut k = j;
    while k < v.len() && digit(v[k])
        invariant
            j <= k <= v@.len(),
            digits_end(v@, j as int) == digits_end(v@, k as int),
        decreases v@.len() - k,
    {
        proof {
            assert(digits_end(v@, k as int) == digits_end(v@, k + 1));
        }
        k += 1;
    }
    proof {
        assert(digits_end(v@, k as int) == k as int);
    }
    k
}

/// Boundary test before position `i`.
fn boundary_before_exec(v: &Vec<char>, i: usize) -> (r: bool)
    requires
        i <= v@.len(),
    ensures
        r == boundary_before(v@, i as int),
{
    i == 0 || sep(v[i - 1])
}

/// Boundary test at position `j`.
fn boundary_after_exec(v: &Vec<char>, j: usize) -> (r: bool)
    requires
        j <= v@.len(),
    ensures
        r == boundary_after(v@, j as int),
{
    j >= v.len() || sep(v[j])
}

/// The end of the special label at `i`, if a special marker stands there.
fn special_at_exec(v: &Vec<char>, i: usize) -> (r: Option<usize>)
    requires
        i < v@.len(),
    ensures
        match r {
            Some(end) => {
                &&& i <= end <= v@.len()
                &&& special_at(v@, i as int) == Some(v@.subrange(i as int, end as int))
            },
            None => special_at(v@, i as int) is None,
        },
{
    let n = v.len();
    if n - i >= 4 && v[i] == 'N' && v[i + 1] == 'C' && ((v[i + 2] == 'E' && v[i + 3] == 'D') || (v[i
        + 2] == 'O' && v[i + 3] == 'P')) {
        proof {
            lemma_digits_end(v@, i + 4);
        }
        let end = digits_end_exec(v, i + 4);
        Some(end)
    } else if n - i >= 3 && v[i] == 'O' && v[i + 1] == 'V' && v[i + 2] == 'A' && boundary_before_exec(
        v,
        i,
    ) {
        proof {
            lemma_digits_end(v@, i + 3);
        }
        let end = digits_end_exec(v, i + 3);
        if boundary_after_exec(v, end) {
            Some(end)
        } else {
            None
        }
    } else if n - i >= 2 && ((v[i] == 'O' && v[i + 1] == 'P') || (v[i] == 'E' && v[i + 1] == 'D'))
        && boundary_before_exec(v, i) {
        proof {
            lemma_digits_end(v@, i + 2);
        }
        let end = digits_end_exec(v, i + 2);
        if boundary_after_exec(v, end) {
            Some(end)
        } else {
            None
        }
    } else {
        None
    }
}

/// The leftmost special label in `v`, as a character range.
fn special_find_exec(v: &Vec<char>) -> (r: Option<(usize, usize)>)
    ensures
        match r {
            Some((from, to)) => {
                &&& from <= to <= v@.len()
                &&& special_find(v@, 0) == Some(v@.subrange(from as int, to as int))
            },
            None => special_find(v@, 0) is None,
        },
{
    let mut i: usize = 0;
    while i < v.len()
        invariant
            i <= v@.len(),
            special_find(v@, 0) == special_find(v@, i as int),
        decreases v@.len() - i,
    {
        match special_at_exec(v, i) {
            Some(end) => {
                return Some((i, end));
            },
            None => {
                proof {
                    assert(special_find(v@, i as int) == special_find(v@, i + 1));
                }
            },
        }
        i += 1;
    }
    None
}

/// The length of the noise token at `i`, or 0.
fn noise_len_exec(v: &Vec<char>, i: usize) -> (r: usize)
    requires
        i < v@.len(),
    ensures
        r as int == noise_len_at(v@, i as int),
        i + r <= v@.len(),
{
    let n = v.len();
    if n - i >= 5 && v[i] == '1' && v[i + 1] == '0' && v[i + 2] == 'b' && v[i + 3] == 'i' && v[i
        + 4] == 't' {
        5
    } else if n - i >= 4 && v[i] == '1' && v[i + 1] == '0' && v[i + 2] == '8' && v[i + 3] == '0' {
        4
    } else if n - i >= 3 && v[i] == '7' && v[i + 1] == '2' && v[i + 2] == '0' {
        3
    } else if n - i >= 4 && v[i] == 'x' && v[i + 1] == '2' && v[i + 2] == '6' && (v[i + 3] == '4'
        || v[i + 3] == '5') {
        4
    } else {
        0
    }
}

/// The text with all noise tokens deleted.
fn strip_noise_exec(v: &Vec<char>) -> (r: Vec<char>)
    ensures
        r@ == strip_noise(v@, 0),
{
    let mut out: Vec<char> = Vec::new();
    let mut i: usize = 0;
    while i < v.len()
        invariant
            i <= v@.len(),
            strip_noise(v@, 0) == out@ + strip_noise(v@, i as int),
        decreases v@.len() - i,
    {
        let k = noise_len_exec(v, i);
        if k > 0 {
            proof {
                assert(strip_noise(v@, i as int) == strip_noise(v@, i + k));
            }
            i += k;
        } else {
            proof {
                assert(strip_noise(v@, i as int) == seq![v@[i as int]] + strip_noise(v@, i + 1));
                assert(out@ + strip_noise(v@, i as int) =~= out@.push(v@[i as int]) + strip_noise(
                    v@,
                    i + 1,
                ));
            }
            out.push(v[i]);
            i += 1;
        }
    }
    proof {
        assert(strip_noise(v@, i as int) =~= Seq::<char>::empty());
        assert(out@ + strip_noise(v@, i as int) =~= out@);
    }
    out
}

/// A one- or two-digit number at `j`.
fn num12_exec(v: &Vec<char>, j: usize) -> (r: Option<(u32, usize)>)
    requires
        j <= v@.len(),
    ensures
        match r {
            Some((val, nj)) => num12_at(v@, j as int) == Some((val, nj as int)) && j < nj <= v@.len(),
            None => num12_at(v@, j as int) is None,
        },
{
    let n = v.len();
    if n - j >= 2 && digit(v[j]) && digit(v[j + 1]) {
        let val = 10 * digit_value(v[j]) + digit_value(v[j + 1]);
        Some((val, j + 2))
    } else if n - j >= 1 && digit(v[j]) {
        Some((digit_value(v[j]), j + 1))
    } else {
        None
    }
}

/// The end of the letter marker group at `j`, if one stands there.
fn letter_marker_end_exec(v: &Vec<char>, j: usize) -> (r: Option<usize>)
    requires
        j <= v@.len(),
    ensures
        match r {
            Some(k) => letter_marker_end(v@, j as int) == Some(k as int) && j < k <= v@.len(),
            None => letter_marker_end(v@, j as int) is None,
        },
{
    let n = v.len();
    if j < n && (v[j] == 'E' || v[j] == 'e') {
        if n - j >= 2 && (v[j + 1] == 'P' || v[j + 1] == 'p') {
            Some(j + 2)
        } else {
            Some(j + 1)
        }
    } else if j < n && v[j] == 'x' {
        Some(j + 1)
    } else {
        None
    }
}

/// The episode number announced by a letter marker at `j`.
fn ep_at_marker_exec(v: &Vec<char>, j: usize) -> (r: Option<u32>)
    requires
        j <= v@.len(),
    ensures
        r == ep_at_marker(v@, j as int),
{
    match letter_marker_end_exec(v, j) {
        Some(k) => match num12_exec(v, k) {
            Some((e, _)) => Some(e),
            None => None,
        },
        None => None,
    }
}

/// The episode number right after a season marker ending at `j0`.
fn ep_after_season_exec(v: &Vec<char>, j0: usize) -> (r: Option<u32>)
    requires
        j0 <= v@.len(),
    ensures
        r == ep_after_season(v@, j0 as int),
{
    let first = ep_at_marker_exec(v, j0);
    if first.is_some() {
        first
    } else if j0 < v.len() && v[j0] == ' ' {
        match num12_exec(v, j0 + 1) {
            Some((e, _)) => Some(e),
            None => {
                if sep(v[j0]) {
                    ep_at_marker_exec(v, j0 + 1)
                } else {
                    None
                }
            },
        }
    } else if j0 < v.len() && sep(v[j0]) {
        ep_at_marker_exec(v, j0 + 1)
    } else {
        None
    }
}

/// The full season-and-episode capture at `i`.
fn sxx_at_exec(v: &Vec<char>, i: usize) -> (r: Option<(u32, u32)>)
    requires
        i < v@.len(),
    ensures
        r == sxx_at(v@, i as int),
{
    let n = v.len();
    if n - i >= 3 && (v[i] == 'S' || v[i] == 's') && digit(v[i + 1]) && digit(v[i + 2]) {
        match ep_after_season_exec(v, i + 3) {
            Some(e) => {
                let season = 10 * digit_value(v[i + 1]) + digit_value(v[i + 2]);
                Some((season, e))
            },
            None => None,
        }
    } else {
        None
    }
}

/// The season-less capture at `i`.
fn standalone_at_exec(v: &Vec<char>, i: usize) -> (r: Option<(u32, u32)>)
    requires
        i < v@.len(),
    ensures
        r == standalone_at(v@, i as int),
{
    let n = v.len();
    let at_boundary = boundary_before_exec(v, i);
    if at_boundary && letter_marker_end_exec(v, i).is_some() {
        match ep_at_marker_exec(v, i) {
            Some(e) => Some((1, e)),
            None => None,
        }
    } else if at_boundary && num12_exec(v, i).is_some() {
        match num12_exec(v, i) {
            Some((first, j)) => {
                if j < n && v[j] == 'x' {
                    match num12_exec(v, j + 1) {
                        Some((second, _)) => Some((first, second)),
                        None => None,
                    }
                } else {
                    None
                }
            },
            None => None,
        }
    } else if v[i] == ' ' {
        match num12_exec(v, i + 1) {
            Some((e, j)) => {
                if boundary_after_exec(v, j) {
                    Some((1, e))
                } else {
                    None
                }
            },
            None => None,
        }
    } else {
        None
    }
}

/// The leftmost season/episode capture in `v`.
fn capture_find_exec(v: &Vec<char>) -> (r: Option<(u32, u32)>)
    ensures
        r == capture_find(v@, 0),
{
    let mut i: usize = 0;
    while i < v.len()
        invariant
            i <= v@.len(),
            capture_find(v@, 0) == capture_find(v@, i as int),
        decreases v@.len() - i,
    {
        let c = sxx_at_exec(v, i);
        if c.is_some() {
            proof {
                assert(capture_find(v@, i as int) == capture_at(v@, i as int));
            }
            return c;
        }
        let c = standalone_at_exec(v, i);
        if c.is_some() {
            proof {
                assert(capture_find(v@, i as int) == capture_at(v@, i as int));
            }
            return c;
        }
        proof {
            assert(capture_at(v@, i as int) is None);
            assert(capture_find(v@, i as int) == capture_find(v@, i + 1));
        }
        i += 1;
    }
    None
}

/// Classifies a filename into an episode identity. Never fails: an
/// unrecognizable name degrades to the default identity `S01E01`.
pub fn classify(filename: &str) -> (r: EpisodeKind)
    ensures
        r@ == classify_spec(filename@),
{
    let v = chars_vec(filename);
    match special_find_exec(&v) {
        Some((from, to)) => {
            let label = string_from_range(&v, from, to);
            EpisodeKind::Special(label)
        },
        None => {
            let cleaned = strip_noise_exec(&v);
            match capture_find_exec(&cleaned) {
                Some((season, ep)) => EpisodeKind::Numbered(EpisodeNumbered { ep, s: season }),
                None => EpisodeKind::Numbered(EpisodeNumbered { ep: 1, s: 1 }),
            }
        },
    }
}

/// Classifies a filename, keeping the filename alongside the identity.
pub fn episode_from_filename(filename: &str) -> (r: Episode)
    ensures
        r.dir_name@ == filename@,
        r.ep@ == classify_spec(filename@),
{
    let v = chars_vec(filename);
    let name = crate::text::string_from_chars(&v);
    Episode { dir_name: name, ep: classify(filename) }
}

} // verus!
