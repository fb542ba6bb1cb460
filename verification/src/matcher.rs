//! The two fixed line patterns, as executable matchers proved against
//! recursive specifications.
//!
//! Header pattern: a rigid 23-character timestamp, whitespace, a lazily
//! closed `[actor]`, whitespace, a lazily closed `[thread]`, whitespace, and
//! a greedy run of non-whitespace as the level. The match may start anywhere
//! in the line; the leftmost start wins, and a lazy close that strands the
//! rest of the pattern is reopened (the bracket becomes content).
//!
//! Content pattern: whitespace, a greedy non-whitespace logger token,
//! whitespace, a literal `-`, whitespace, and the rest of the line as the
//! message (one whitespace character is given back to the message when the
//! line ends in whitespace).

use vstd::prelude::*;

use crate::chars::{is_digit, is_digit_exec, is_ws, is_ws_exec};

verus! {

/// Input lines are newline-delimited with the newline stripped, so they
/// never contain one.
pub open spec fn no_nl(s: Seq<char>) -> bool {
    forall|k: int| 0 <= k < s.len() ==> #[trigger] s[k] != '\n'
}

/// End of the whitespace run that starts at `i`.
pub open spec fn ws_end(s: Seq<char>, i: int) -> int
    decreases s.len() - i,
{
    if 0 <= i < s.len() && is_ws(s[i]) {
        ws_end(s, i + 1)
    } else {
        i
    }
}

/// End of the non-whitespace run that starts at `i`.
pub open spec fn nonws_end(s: Seq<char>, i: int) -> int
    decreases s.len() - i,
{
    if 0 <= i < s.len() && !is_ws(s[i]) {
        nonws_end(s, i + 1)
    } else {
        i
    }
}

pub proof fn lemma_ws_end(s: Seq<char>, i: int)
    requires
        0 <= i <= s.len(),
    ensures
        i <= ws_end(s, i) <= s.len(),
        ws_end(s, i) < s.len() ==> !is_ws(s[ws_end(s, i)]),
        forall|k: int| i <= k < ws_end(s, i) ==> is_ws(#[trigger] s[k]),
    decreases s.len() - i,
{
    if 0 <= i < s.len() && is_ws(s[i]) {
        lemma_ws_end(s, i + 1);
    }
}

pub proof fn lemma_nonws_end(s: Seq<char>, i: int)
    requires
        0 <= i <= s.len(),
    ensures
        i <= nonws_end(s, i) <= s.len(),
        nonws_end(s, i) < s.len() ==> is_ws(s[nonws_end(s, i)]),
        forall|k: int| i <= k < nonws_end(s, i) ==> !is_ws(#[trigger] s[k]),
    decreases s.len() - i,
{
    if 0 <= i < s.len() && !is_ws(s[i]) {
        lemma_nonws_end(s, i + 1);
    }
}

fn ws_end_x(v: &Vec<char>, i: usize) -> (r: usize)
    requires
        i <= v@.len(),
    ensures
        r == ws_end(v@, i as int),
        i <= r <= v@.len(),
    decreases v@.len() - i,
{
    if i < v.len() && is_ws_exec(v[i]) {
        ws_end_x(v, i + 1)
    } else {
        i
    }
}

fn nonws_end_x(v: &Vec<char>, i: usize) -> (r: usize)
    requires
        i <= v@.len(),
    ensures
        r == nonws_end(v@, i as int),
        i <= r <= v@.len(),
    decreases v@.len() - i,
{
    if i < v.len() && !is_ws_exec(v[i]) {
        nonws_end_x(v, i + 1)
    } else {
        i
    }
}

/// The level capture after a thread bracket: whitespace, then a nonempty
/// run of non-whitespace.
pub open spec fn match_level(s: Seq<char>, i: int) -> Option<(int, int)> {
    let j = ws_end(s, i);
    if j > i && j < s.len() {
        Some((j, nonws_end(s, j)))
    } else {
        None
    }
}

/// Close the thread bracket lazily: the earliest `]` after at least one
/// content character from which the level still matches.
pub open spec fn close_thread(s: Seq<char>, k: int, m: int) -> Option<(int, int, int)>
    decreases s.len() - m,
{
    if m < 0 || m >= s.len() {
        None
    } else if s[m] == ']' && m > k {
        match match_level(s, m + 1) {
            Some((ls, le)) => Some((m, ls, le)),
            None => close_thread(s, k, m + 1),
        }
    } else {
        close_thread(s, k, m + 1)
    }
}

/// After the actor bracket closes: whitespace, `[`, then the thread close.
pub open spec fn match_tail_thread(s: Seq<char>, i: int) -> Option<(int, int, int, int)> {
    let j = ws_end(s, i);
    if j > i && j < s.len() && s[j] == '[' {
        match close_thread(s, j + 1, j + 1) {
            Some((te, ls, le)) => Some((j + 1, te, ls, le)),
            None => None,
        }
    } else {
        None
    }
}

/// Close the actor bracket lazily, reopening when the tail fails.
pub open spec fn close_actor(s: Seq<char>, k: int, m: int) -> Option<(int, int, int, int, int)>
    decreases s.len() - m,
{
    if m < 0 || m >= s.len() {
        None
    } else if s[m] == ']' && m > k {
        match match_tail_thread(s, m + 1) {
            Some((ts_, te, ls, le)) => Some((m, ts_, te, ls, le)),
            None => close_actor(s, k, m + 1),
        }
    } else {
        close_actor(s, k, m + 1)
    }
}

/// The rigid timestamp shape: `dddd-dd-dd<ws>dd:dd:dd<any>ddd` (the
/// separator before the milliseconds may be any character but a newline).
pub open spec fn ts_shape_at(s: Seq<char>, p: int) -> bool {
    &&& 0 <= p
    &&& p + 23 <= s.len()
    &&& is_digit(s[p])
    &&& is_digit(s[p + 1])
    &&& is_digit(s[p + 2])
    &&& is_digit(s[p + 3])
    &&& s[p + 4] == '-'
    &&& is_digit(s[p + 5])
    &&& is_digit(s[p + 6])
    &&& s[p + 7] == '-'
    &&& is_digit(s[p + 8])
    &&& is_digit(s[p + 9])
    &&& is_ws(s[p + 10])
    &&& is_digit(s[p + 11])
    &&& is_digit(s[p + 12])
    &&& s[p + 13] == ':'
    &&& is_digit(s[p + 14])
    &&& is_digit(s[p + 15])
    &&& s[p + 16] == ':'
    &&& is_digit(s[p + 17])
    &&& is_digit(s[p + 18])
    &&& s[p + 19] != '\n'
    &&& is_digit(s[p + 20])
    &&& is_digit(s[p + 21])
    &&& is_digit(s[p + 22])
}

/// Capture positions of a header match: timestamp at `start`, then the
/// actor, thread and level captures.
pub struct HeaderSpans {
    pub start: int,
    pub actor_lo: int,
    pub actor_hi: int,
    pub thread_lo: int,
    pub thread_hi: int,
    pub level_lo: int,
    pub level_hi: int,
}

pub open spec fn match_header_at(s: Seq<char>, p: int) -> Option<HeaderSpans> {
    if ts_shape_at(s, p) {
        let i = p + 23;
        let j = ws_end(s, i);
        if j > i && j < s.len() && s[j] == '[' {
            match close_actor(s, j + 1, j + 1) {
                Some((ae, ts_, te, ls, le)) => Some(
                    HeaderSpans {
                        start: p,
                        actor_lo: j + 1,
                        actor_hi: ae,
                        thread_lo: ts_,
                        thread_hi: te,
                        level_lo: ls,
                        level_hi: le,
                    },
                ),
                None => None,
            }
        } else {
            None
        }
    } else {
        None
    }
}

/// The leftmost position at which the header pattern matches.
pub open spec fn find_header(s: Seq<char>, p: int) -> Option<HeaderSpans>
    decreases s.len() - p,
{
    if p < 0 || p >= s.len() {
        None
    } else {
        match match_header_at(s, p) {
            Some(h) => Some(h),
            None => find_header(s, p + 1),
        }
    }
}

pub open spec fn header_spans(s: Seq<char>) -> Option<HeaderSpans> {
    find_header(s, 0)
}

pub proof fn lemma_match_level(s: Seq<char>, i: int)
    requires
        0 <= i <= s.len(),
    ensures
        match_level(s, i) matches Some((ls, le)) ==> i < ls < le <= s.len(),
{
    lemma_ws_end(s, i);
    lemma_nonws_end(s, ws_end(s, i));
}

pub proof fn lemma_close_thread(s: Seq<char>, k: int, m: int)
    requires
        0 <= m,
    ensures
        close_thread(s, k, m) matches Some((te, ls, le)) ==> {
            &&& m <= te < s.len()
            &&& k < te
            &&& s[te] == ']'
            &&& te < ls < le <= s.len()
        },
    decreases s.len() - m,
{
    if m < 0 || m >= s.len() {
    } else if s[m] == ']' && m > k {
        lemma_match_level(s, m + 1);
        if match_level(s, m + 1) is None {
            lemma_close_thread(s, k, m + 1);
        }
    } else {
        lemma_close_thread(s, k, m + 1);
    }
}

pub proof fn lemma_match_tail_thread(s: Seq<char>, i: int)
    requires
        0 <= i <= s.len(),
    ensures
        match_tail_thread(s, i) matches Some((ts_, te, ls, le)) ==> {
            &&& i < ts_ <= te < s.len()
            &&& s[te] == ']'
            &&& te < ls < le <= s.len()
        },
{
    lemma_ws_end(s, i);
    let j = ws_end(s, i);
    if j > i && j < s.len() && s[j] == '[' {
        lemma_close_thread(s, j + 1, j + 1);
    }
}

pub proof fn lemma_close_actor(s: Seq<char>, k: int, m: int)
    requires
        0 <= m,
    ensures
        close_actor(s, k, m) matches Some((ae, ts_, te, ls, le)) ==> {
            &&& m <= ae < s.len()
            &&& k < ae
            &&& s[ae] == ']'
            &&& ae < ts_ <= te < s.len()
            &&& s[te] == ']'
            &&& te < ls < le <= s.len()
        },
    decreases s.len() - m,
{
    if m < 0 || m >= s.len() {
    } else if s[m] == ']' && m > k {
        lemma_match_tail_thread(s, m + 1);
        if match_tail_thread(s, m + 1) is None {
            lemma_close_actor(s, k, m + 1);
        }
    } else {
        lemma_close_actor(s, k, m + 1);
    }
}

pub proof fn lemma_match_header_at(s: Seq<char>, p: int)
    ensures
        match_header_at(s, p) matches Some(h) ==> {
            &&& h.start == p
            &&& 0 <= p
            &&& p + 23 <= s.len()
            &&& p + 23 < h.actor_lo < h.actor_hi < s.len()
            &&& h.actor_hi < h.thread_lo <= h.thread_hi < s.len()
            &&& h.thread_hi < h.level_lo < h.level_hi <= s.len()
        },
{
    if ts_shape_at(s, p) {
        let i = p + 23;
        lemma_ws_end(s, i);
        let j = ws_end(s, i);
        if j > i && j < s.len() && s[j] == '[' {
            lemma_close_actor(s, j + 1, j + 1);
        }
    }
}

pub proof fn lemma_find_header(s: Seq<char>, p: int)
    requires
        0 <= p,
    ensures
        find_header(s, p) matches Some(h) ==> {
            &&& p <= h.start
            &&& match_header_at(s, h.start) == Some(h)
            &&& h.start + 23 <= s.len()
            &&& h.start + 23 < h.actor_lo < h.actor_hi < s.len()
            &&& h.actor_hi < h.thread_lo <= h.thread_hi < s.len()
            &&& h.thread_hi < h.level_lo < h.level_hi <= s.len()
        },
    decreases s.len() - p,
{
    if p < 0 || p >= s.len() {
    } else {
        lemma_match_header_at(s, p);
        if match_header_at(s, p) is None {
            lemma_find_header(s, p + 1);
        }
    }
}

fn match_level_x(v: &Vec<char>, i: usize) -> (r: Option<(usize, usize)>)
    requires
        i <= v@.len(),
    ensures
        r is Some <==> match_level(v@, i as int) is Some,
        r matches Some((a, b)) ==> match_level(v@, i as int) == Some((a as int, b as int)) && i < a
            < b <= v@.len(),
{
    let j = ws_end_x(v, i);
    if j > i && j < v.len() {
        let e = nonws_end_x(v, j);
        proof {
            lemma_ws_end(v@, i as int);
            lemma_nonws_end(v@, j as int);
        }
        Some((j, e))
    } else {
        None
    }
}

fn close_thread_x(v: &Vec<char>, k: usize, m: usize) -> (r: Option<(usize, usize, usize)>)
    requires
        m <= v@.len(),
    ensures
        r is Some <==> close_thread(v@, k as int, m as int) is Some,
        r matches Some((a, b, c)) ==> close_thread(v@, k as int, m as int) == Some(
            (a as int, b as int, c as int),
        ) && a < b < c <= v@.len(),
    decreases v@.len() - m,
{
    if m >= v.len() {
        None
    } else if v[m] == ']' && m > k {
        match match_level_x(v, m + 1) {
            Some((ls, le)) => Some((m, ls, le)),
            None => close_thread_x(v, k, m + 1),
        }
    } else {
        close_thread_x(v, k, m + 1)
    }
}

fn match_tail_thread_x(v: &Vec<char>, i: usize) -> (r: Option<(usize, usize, usize, usize)>)
    requires
        i <= v@.len(),
    ensures
        r is Some <==> match_tail_thread(v@, i as int) is Some,
        r matches Some((a, b, c, d)) ==> match_tail_thread(v@, i as int) == Some(
            (a as int, b as int, c as int, d as int),
        ) && a <= b && b < c && c < d <= v@.len(),
{
    let j = ws_end_x(v, i);
    if j > i && j < v.len() && v[j] == '[' {
        match close_thread_x(v, j + 1, j + 1) {
            Some((te, ls, le)) => {
                proof {
                    lemma_close_thread(v@, j + 1, j + 1);
                }
                Some((j + 1, te, ls, le))
            },
            None => None,
        }
    } else {
        None
    }
}

fn close_actor_x(v: &Vec<char>, k: usize, m: usize) -> (r: Option<
    (usize, usize, usize, usize, usize),
>)
    requires
        m <= v@.len(),
    ensures
        r is Some <==> close_actor(v@, k as int, m as int) is Some,
        r matches Some((a, b, c, d, e)) ==> close_actor(v@, k as int, m as int) == Some(
            (a as int, b as int, c as int, d as int, e as int),
        ) && a < b && b <= c && c < d && d < e <= v@.len(),
    decreases v@.len() - m,
{
    if m >= v.len() {
        None
    } else if v[m] == ']' && m > k {
        match match_tail_thread_x(v, m + 1) {
            Some((ts_, te, ls, le)) => Some((m, ts_, te, ls, le)),
            None => close_actor_x(v, k, m + 1),
        }
    } else {
        close_actor_x(v, k, m + 1)
    }
}

fn ts_shape_at_x(v: &Vec<char>, p: usize) -> (r: bool)
    requires
        p + 23 <= v@.len(),
    ensures
        r == ts_shape_at(v@, p as int),
{
    let n = v.len();
    assert(p + 23 <= n);
    is_digit_exec(v[p]) && is_digit_exec(v[p + 1]) && is_digit_exec(v[p + 2]) && is_digit_exec(
        v[p + 3],
    ) && v[p + 4] == '-' && is_digit_exec(v[p + 5]) && is_digit_exec(v[p + 6]) && v[p + 7] == '-'
        && is_digit_exec(v[p + 8]) && is_digit_exec(v[p + 9]) && is_ws_exec(v[p + 10])
        && is_digit_exec(v[p + 11]) && is_digit_exec(v[p + 12]) && v[p + 13] == ':'
        && is_digit_exec(v[p + 14]) && is_digit_exec(v[p + 15]) && v[p + 16] == ':'
        && is_digit_exec(v[p + 17]) && is_digit_exec(v[p + 18]) && v[p + 19] != '\n'
        && is_digit_exec(v[p + 20]) && is_digit_exec(v[p + 21]) && is_digit_exec(v[p + 22])
}

/// Capture positions of a header match, as machine integers.
pub struct HeaderSpansX {
    pub start: usize,
    pub actor_lo: usize,
    pub actor_hi: usize,
    pub thread_lo: usize,
    pub thread_hi: usize,
    pub level_lo: usize,
    pub level_hi: usize,
}

impl HeaderSpansX {
    pub open spec fn view(&self) -> HeaderSpans {
        HeaderSpans {
            start: self.start as int,
            actor_lo: self.actor_lo as int,
            actor_hi: self.actor_hi as int,
            thread_lo: self.thread_lo as int,
            thread_hi: self.thread_hi as int,
            level_lo: self.level_lo as int,
            level_hi: self.level_hi as int,
        }
    }
}

fn match_header_at_x(v: &Vec<char>, p: usize) -> (r: Option<HeaderSpansX>)
    requires
        p <= v@.len(),
    ensures
        r is Some <==> match_header_at(v@, p as int) is Some,
        r matches Some(h) ==> match_header_at(v@, p as int) == Some(h.view()),
{
    if v.len() - p < 23 {
        assert(match_header_at(v@, p as int) is None);
        return None;
    }
    if !ts_shape_at_x(v, p) {
        return None;
    }
    let i = p + 23;
    let j = ws_end_x(v, i);
    if j > i && j < v.len() && v[j] == '[' {
        match close_actor_x(v, j + 1, j + 1) {
            Some((ae, ts_, te, ls, le)) => Some(
                HeaderSpansX {
                    start: p,
                    actor_lo: j + 1,
                    actor_hi: ae,
                    thread_lo: ts_,
                    thread_hi: te,
                    level_lo: ls,
                    level_hi: le,
                },
            ),
            None => None,
        }
    } else {
        None
    }
}

pub fn find_header_x(v: &Vec<char>, p: usize) -> (r: Option<HeaderSpansX>)
    requires
        p <= v@.len(),
    ensures
        r is Some <==> find_header(v@, p as int) is Some,
        r matches Some(h) ==> find_header(v@, p as int) == Some(h.view()),
    decreases v@.len() - p,
{
    if p >= v.len() {
        None
    } else {
        match match_header_at_x(v, p) {
            Some(h) => Some(h),
            None => find_header_x(v, p + 1),
        }
    }
}

/// Capture positions of a content match: the logger token, then the start
/// of the message, which runs to the end of the line.
pub open spec fn match_content_at(s: Seq<char>, p: int) -> Option<(int, int, int)> {
    let j = ws_end(s, p);
    if j > p && j < s.len() {
        let le = nonws_end(s, j);
        let j2 = ws_end(s, le);
        if j2 > le && j2 < s.len() && s[j2] == '-' {
            let j3 = ws_end(s, j2 + 1);
            if j3 > j2 + 1 {
                if j3 < s.len() {
                    Some((j, le, j3))
                } else if j3 - (j2 + 1) >= 2 {
                    Some((j, le, j3 - 1))
                } else {
                    None
                }
            } else {
                None
            }
        } else {
            None
        }
    } else {
        None
    }
}

pub open spec fn find_content(s: Seq<char>, p: int) -> Option<(int, int, int)>
    decreases s.len() - p,
{
    if p < 0 || p >= s.len() {
        None
    } else {
        match match_content_at(s, p) {
            Some(c) => Some(c),
            None => find_content(s, p + 1),
        }
    }
}

pub open spec fn content_spans(s: Seq<char>) -> Option<(int, int, int)> {
    find_content(s, 0)
}

pub proof fn lemma_match_content_at(s: Seq<char>, p: int)
    requires
        0 <= p,
    ensures
        match_content_at(s, p) matches Some((lo, hi, ms)) ==> p < lo < hi < ms < s.len(),
{
    if p <= s.len() {
        lemma_ws_end(s, p);
        let j = ws_end(s, p);
        if j > p && j < s.len() {
            lemma_nonws_end(s, j);
            let le = nonws_end(s, j);
            lemma_ws_end(s, le);
            let j2 = ws_end(s, le);
            if j2 > le && j2 < s.len() && s[j2] == '-' {
                lemma_ws_end(s, j2 + 1);
            }
        }
    }
}

pub proof fn lemma_find_content(s: Seq<char>, p: int)
    requires
        0 <= p,
    ensures
        find_content(s, p) matches Some((lo, hi, ms)) ==> p <= lo && lo < hi < ms < s.len(),
    decreases s.len() - p,
{
    if p < 0 || p >= s.len() {
    } else {
        lemma_match_content_at(s, p);
        if match_content_at(s, p) is None {
            lemma_find_content(s, p + 1);
        }
    }
}

fn match_content_at_x(v: &Vec<char>, p: usize) -> (r: Option<(usize, usize, usize)>)
    requires
        p <= v@.len(),
    ensures
        r is Some <==> match_content_at(v@, p as int) is Some,
        r matches Some((a, b, c)) ==> match_content_at(v@, p as int) == Some(
            (a as int, b as int, c as int),
        ) && a < b && b < c && c < v@.len(),
{
    proof {
        lemma_match_content_at(v@, p as int);
    }
    let j = ws_end_x(v, p);
    if j > p && j < v.len() {
        let le = nonws_end_x(v, j);
        let j2 = ws_end_x(v, le);
        if j2 > le && j2 < v.len() && v[j2] == '-' {
            let j3 = ws_end_x(v, j2 + 1);
            if j3 > j2 + 1 {
                if j3 < v.len() {
                    Some((j, le, j3))
                } else if j3 - (j2 + 1) >= 2 {
                    Some((j, le, j3 - 1))
                } else {
                    None
                }
            } else {
                None
            }
        } else {
            None
        }
    } else {
        None
    }
}

pub fn find_content_x(v: &Vec<char>, p: usize) -> (r: Option<(usize, usize, usize)>)
    requires
        p <= v@.len(),
    ensures
        r is Some <==> find_content(v@, p as int) is Some,
        r matches Some((a, b, c)) ==> find_content(v@, p as int) == Some(
            (a as int, b as int, c as int),
        ) && a < b && b < c && c < v@.len(),
    decreases v@.len() - p,
{
    if p >= v.len() {
        None
    } else {
        match match_content_at_x(v, p) {
            Some(c) => Some(c),
            None => find_content_x(v, p + 1),
        }
    }
}

} // verus!
