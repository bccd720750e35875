//! The playback-position tracker's decision logic.
//!
//! While an episode plays, a watcher polls the player's local IPC endpoint
//! for `get_property playback-time` and remembers the last position it
//! heard; when the player exits, the last position is written back as the
//! episode's resume offset. The polling, the socket and the signals live
//! outside the library; this module holds what can be computed: parsing the
//! player's line-delimited response into whole seconds, and folding
//! observations into the tracker's state.

use vstd::prelude::*;

verus! {

use vstd::string::StrSliceExecFns;

use crate::classify::{digit_val, is_digit};
use crate::text::chars_vec;

/// The position of the first `"data":` marker in a response line, or the
/// length when there is none.
pub open spec fn data_marker_at(s: Seq<char>, i: int) -> bool {
    i + 7 <= s.len() && s[i] == '"' && s[i + 1] == 'd' && s[i + 2] == 'a' && s[i + 3] == 't' && s[i
        + 4] == 'a' && s[i + 5] == '"' && s[i + 6] == ':'
}

pub open spec fn find_data_marker(s: Seq<char>, i: int) -> int
    decreases s.len() - i,
{
    if i < 0 || i >= s.len() {
        s.len() as int
    } else if data_marker_at(s, i) {
        i
    } else {
        find_data_marker(s, i + 1)
    }
}

/// The value of a digit run read most significant first.
pub open spec fn dec_value(s: Seq<char>, i: int, j: int) -> nat
    decreases j - i,
{
    if i < 0 || j <= i || j > s.len() {
        0
    } else {
        dec_value(s, i, j - 1) * 10 + digit_val(s[j - 1]) as nat
    }
}

/// The parsed whole seconds of a player response: the digit run right
/// after the first `"data":` marker, when there is one, it is not empty,
/// and its value fits. Fractional digits after a `.` are dropped: resume
/// offsets are whole seconds.
pub open spec fn parse_position_spec(s: Seq<char>) -> Option<u64> {
    let m = find_data_marker(s, 0);
    if m >= s.len() {
        None
    } else {
        let start = m + 7;
        let end = crate::classify::digits_end(s, start);
        if end == start {
            None
        } else if dec_value(s, start, end) <= u64::MAX {
            Some(dec_value(s, start, end) as u64)
        } else {
            None
        }
    }
}

fn find_data_marker_exec(v: &Vec<char>) -> (r: usize)
    ensures
        r as int == find_data_marker(v@, 0),
        r <= v@.len(),
        r < v@.len() ==> data_marker_at(v@, r as int),
{
    let n = v.len();
    let mut i: usize = 0;
    while i < n
        invariant
            i <= n,
            n == v@.len(),
            find_data_marker(v@, 0) == find_data_marker(v@, i as int),
        decreases n - i,
    {
        if n - i >= 7 && v[i] == '"' && v[i + 1] == 'd' && v[i + 2] == 'a' && v[i + 3] == 't' && v[i
            + 4] == 'a' && v[i + 5] == '"' && v[i + 6] == ':' {
            proof {
                assert(data_marker_at(v@, i as int));
            }
            return i;
        }
        proof {
            assert(!data_marker_at(v@, i as int));
        }
        i += 1;
    }
    n
}

/// Parses the whole seconds out of a player response line.
pub fn parse_position_response(line: &str) -> (r: Option<u64>)
    ensures
        r == parse_position_spec(line@),
{
    let v = chars_vec(line);
    let m = find_data_marker_exec(&v);
    if m >= v.len() {
        return None;
    }
    let start = m + 7;
    proof {
        crate::classify::lemma_digits_end(v@, start as int);
        crate::classify::lemma_digits_end_digits(v@, start as int);
    }
    let end = crate::classify::digits_end_exec(&v, start);
    if end == start {
        return None;
    }
    let mut value: u64 = 0;
    let mut j: usize = start;
    while j < end
        invariant
            start <= j <= end <= v@.len(),
            v@ == line@,
            find_data_marker(v@, 0) < v@.len(),
            start as int == find_data_marker(v@, 0) + 7,
            start < end,
            end as int == crate::classify::digits_end(v@, start as int),
            forall|w: int| start <= w < end ==> is_digit(v@[w]),
            value as nat == dec_value(v@, start as int, j as int),
            dec_value(v@, start as int, j as int) <= u64::MAX,
        decreases end - j,
    {
        let d = crate::classify::digit_value(v[j]);
        let shifted = match value.checked_mul(10) {
            Some(x) => x,
            None => {
                proof {
                    assert(dec_value(v@, start as int, j + 1) == dec_value(
                        v@,
                        start as int,
                        j as int,
                    ) * 10 + digit_val(v@[j as int]) as nat);
                    lemma_dec_value_grows(v@, start as int, j + 1, end as int);
                }
                return None;
            },
        };
        let next = match shifted.checked_add(d as u64) {
            Some(x) => x,
            None => {
                proof {
                    assert(dec_value(v@, start as int, j + 1) == dec_value(
                        v@,
                        start as int,
                        j as int,
                    ) * 10 + digit_val(v@[j as int]) as nat);
                    lemma_dec_value_grows(v@, start as int, j + 1, end as int);
                }
                return None;
            },
        };
        value = next;
        j += 1;
    }
    Some(value)
}

/// A longer digit run never has a smaller value: digits only multiply the
/// prefix up.
proof fn lemma_dec_value_grows(s: Seq<char>, i: int, j: int, end: int)
    requires
        0 <= i <= j <= end <= s.len(),
    ensures
        dec_value(s, i, j) <= dec_value(s, i, end),
    decreases end - j,
{
    if j < end {
        assert(dec_value(s, i, j + 1) == dec_value(s, i, j) * 10 + digit_val(s[j]) as nat);
        assert(dec_value(s, i, j) * 10 >= dec_value(s, i, j)) by (nonlinear_arith);
        lemma_dec_value_grows(s, i, j + 1, end);
    }
}

/// The watcher's in-memory state: the last playback position heard from
/// the player.
pub struct TrackerState {
    pub last_position: u64,
}

impl TrackerState {
    /// A fresh watcher knows no position yet.
    pub fn new() -> (r: TrackerState)
        ensures
            r.last_position == 0u64,
    {
        TrackerState { last_position: 0 }
    }

    /// Folds one poll into the state: a parseable response replaces the
    /// remembered position; anything else (a failed connection, an
    /// unparseable line) leaves it alone and the watcher retries on the
    /// next tick.
    pub fn observe(&mut self, line: &str)
        ensures
            final(self).last_position == (match parse_position_spec(line@) {
                Some(p) => p,
                None => old(self).last_position,
            }),
    {
        match parse_position_response(line) {
            Some(p) => {
                self.last_position = p;
            },
            None => {},
        }
    }
}

} // verus!
