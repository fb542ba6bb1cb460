//! The stream merger: drive the header and content matchers over one named
//! source, line by line, and merge completed records into the shared
//! collection. A matched header consumes the following line whether or not
//! it matches as content (a strict two-line skip).

use vstd::prelude::*;

use crate::actor::strs_view;
use crate::collection::LogCollection;
use crate::entry::EntryV;
use crate::matcher::no_nl;
use crate::parse::{content_of, header_of, log_header, log_message, ContentMatch};
use crate::timestamp::ts_parse;

verus! {

/// The record completed from the header at line `i` and the content at
/// line `i + 1`.
pub open spec fn entry_at(file: Seq<char>, lines: Seq<Seq<char>>, i: int) -> EntryV {
    let h = header_of(lines[i], i as u32).unwrap();
    let c = content_of(lines[i + 1]).unwrap();
    EntryV {
        timestamp: ts_parse(h.timestamp).unwrap(),
        lines: (i as u32, (i + 1) as u32),
        file: file,
        actor: h.actor,
        thread: h.thread,
        level: h.level,
        logger: c.0,
        message: c.1,
    }
}

/// Result of scanning one source: the completed records in the order they
/// were found, and the header line whose timestamp failed to parse, if the
/// scan was cut short by one.
pub struct ScanOut {
    pub entries: Seq<EntryV>,
    pub bad: Option<int>,
}

/// The scan, from line `i`: try each line as a header; on a match, try the
/// next line as content and move past both.
pub open spec fn scan(file: Seq<char>, lines: Seq<Seq<char>>, i: int) -> ScanOut
    decreases lines.len() - i,
{
    if i < 0 || i >= lines.len() {
        ScanOut { entries: seq![], bad: None }
    } else if header_of(lines[i], i as u32) is None {
        scan(file, lines, i + 1)
    } else if i + 1 >= lines.len() {
        ScanOut { entries: seq![], bad: None }
    } else if content_of(lines[i + 1]) is None {
        scan(file, lines, i + 2)
    } else if ts_parse(header_of(lines[i], i as u32).unwrap().timestamp) is None {
        ScanOut { entries: seq![], bad: Some(i) }
    } else {
        let rest = scan(file, lines, i + 2);
        ScanOut { entries: seq![entry_at(file, lines, i)] + rest.entries, bad: rest.bad }
    }
}

/// Process one source into the shared collection. Returns the index of a
/// header line whose captured timestamp failed to parse as a date-time,
/// reported explicitly rather than dropped.
pub fn process_source(c: &mut LogCollection, file: &str, lines: &Vec<String>) -> (r: Result<
    (),
    u32,
>)
    requires
        old(c).wf(),
        lines@.len() <= u32::MAX,
        forall|k: int| 0 <= k < lines@.len() ==> no_nl(#[trigger] strs_view(lines@)[k]),
    ensures
        final(c).wf(),
        ({
            let out = scan(file@, strs_view(lines@), 0);
            &&& (r is Ok <==> out.bad is None)
            &&& (r matches Err(ln) ==> out.bad == Some(ln as int))
            &&& forall|x: EntryV|
                #![trigger final(c)@.contains(x)]
                #![trigger out.entries.contains(x)]
                final(c)@.contains(x) <==> old(c)@.contains(x) || out.entries.contains(x)
        }),
{
    let ghost lv = strs_view(lines@);
    let ghost out0 = scan(file@, lv, 0);
    let n = lines.len();
    let mut i: usize = 0;
    let ghost mut acc: Seq<EntryV> = seq![];
    while i < n
        invariant
            n == lines@.len(),
            n <= u32::MAX,
            i <= n,
            lv == strs_view(lines@),
            out0 == scan(file@, lv, 0),
            forall|k: int| 0 <= k < lv.len() ==> no_nl(#[trigger] lv[k]),
            c.wf(),
            out0.entries == acc + scan(file@, lv, i as int).entries,
            out0.bad == scan(file@, lv, i as int).bad,
            forall|x: EntryV|
                #![trigger c@.contains(x)]
                #![trigger acc.contains(x)]
                c@.contains(x) <==> old(c)@.contains(x) || acc.contains(x),
        decreases n - i,
    {
        assert(lv[i as int] == lines@[i as int]@);
        let h = log_header(lines[i].as_str(), i as u32);
        match h {
            None => {
                assert(scan(file@, lv, i as int) == scan(file@, lv, i + 1));
                i += 1;
            },
            Some(h) => {
                if i + 1 >= n {
                    assert(scan(file@, lv, i as int).entries == Seq::<EntryV>::empty());
                    assert(scan(file@, lv, i as int).bad is None);
                    assert(out0.entries =~= acc);
                    return Ok(());
                }
                assert(lv[i + 1] == lines@[i + 1]@);
                let ghost hv = header_of(lv[i as int], i as u32).unwrap();
                assert(h@ == hv);
                match log_message(h, lines[i + 1].as_str(), (i + 1) as u32, file) {
                    ContentMatch::NoMatch => {
                        assert(scan(file@, lv, i as int) == scan(file@, lv, i + 2));
                        i += 2;
                    },
                    ContentMatch::InvalidTimestamp => {
                        assert(scan(file@, lv, i as int).bad == Some(i as int));
                        assert(scan(file@, lv, i as int).entries == Seq::<EntryV>::empty());
                        assert(out0.entries =~= acc);
                        return Err(i as u32);
                    },
                    ContentMatch::Matched(e) => {
                        let ghost ev = e@;
                        proof {
                            assert(ev =~= entry_at(file@, lv, i as int));
                        }
                        c.insert(e);
                        proof {
                            let accp = acc;
                            acc = acc.push(ev);
                            assert forall|x: EntryV| acc.contains(x) implies (accp.contains(x) || x
                                == ev) by {
                                let ix = choose|ix: int| 0 <= ix < acc.len() && acc[ix] == x;
                                if ix < accp.len() {
                                    assert(accp[ix] == x);
                                }
                            }
                            assert forall|x: EntryV| (accp.contains(x) || x == ev) implies acc
                                .contains(x) by {
                                if accp.contains(x) {
                                    let ix = choose|ix: int| 0 <= ix < accp.len() && accp[ix] == x;
                                    assert(acc[ix] == x);
                                } else {
                                    assert(acc[accp.len() as int] == x);
                                }
                            }
                            assert(scan(file@, lv, i as int).entries == seq![
                                entry_at(file@, lv, i as int),
                            ] + scan(file@, lv, i + 2).entries);
                            assert(out0.entries =~= acc + scan(file@, lv, i + 2).entries);
                        }
                        i += 2;
                    },
                }
            },
        }
    }
    assert(scan(file@, lv, i as int).entries == Seq::<EntryV>::empty());
    assert(scan(file@, lv, i as int).bad is None);
    assert(out0.entries =~= acc);
    Ok(())
}

/// The line the scan tries as a header right after trying line `i`.
pub open spec fn next_pos(lines: Seq<Seq<char>>, i: int) -> int {
    if header_of(lines[i], i as u32) is Some {
        i + 2
    } else {
        i + 1
    }
}

/// The scan that is about to try line `i` as a header later tries line `j`.
pub open spec fn reach(lines: Seq<Seq<char>>, i: int, j: int) -> bool
    decreases j - i,
{
    if i >= j {
        i == j
    } else if next_pos(lines, i) > j {
        false
    } else {
        reach(lines, next_pos(lines, i), j)
    }
}

/// The scan's path is a single deterministic chain: of two reached lines,
/// the later is reached from the earlier.
pub proof fn lemma_reach_linear(lines: Seq<Seq<char>>, a: int, b: int, c: int)
    requires
        reach(lines, a, b),
        reach(lines, a, c),
        b <= c,
    ensures
        reach(lines, b, c),
    decreases b - a,
{
    if a < b {
        lemma_reach_linear(lines, next_pos(lines, a), b, c);
    }
}

pub proof fn lemma_reach_trans(lines: Seq<Seq<char>>, a: int, b: int, c: int)
    requires
        reach(lines, a, b),
        reach(lines, b, c),
    ensures
        reach(lines, a, c),
    decreases b - a,
{
    if a < b {
        lemma_reach_trans(lines, next_pos(lines, a), b, c);
    }
}

/// Every record the scan yields originates at a reached header line whose
/// immediate successor matched as content.
pub proof fn lemma_scan_origin(file: Seq<char>, lines: Seq<Seq<char>>, p: int, k: int)
    requires
        0 <= p,
        lines.len() <= u32::MAX,
        0 <= k < scan(file, lines, p).entries.len(),
    ensures
        ({
            let e = scan(file, lines, p).entries[k];
            let s = e.lines.0 as int;
            &&& p <= s
            &&& reach(lines, p, s)
            &&& s + 1 < lines.len()
            &&& header_of(lines[s], s as u32) is Some
            &&& content_of(lines[s + 1]) is Some
            &&& e == entry_at(file, lines, s)
            &&& e.lines.1 == s + 1
        }),
    decreases lines.len() - p,
{
    if p >= lines.len() {
    } else if header_of(lines[p], p as u32) is None {
        lemma_scan_origin(file, lines, p + 1, k);
    } else if p + 1 >= lines.len() {
    } else if content_of(lines[p + 1]) is None {
        lemma_scan_origin(file, lines, p + 2, k);
    } else if ts_parse(header_of(lines[p], p as u32).unwrap().timestamp) is None {
    } else {
        if k == 0 {
            assert(scan(file, lines, p).entries[0] == entry_at(file, lines, p));
        } else {
            assert(scan(file, lines, p).entries[k] == scan(file, lines, p + 2).entries[k - 1]);
            lemma_scan_origin(file, lines, p + 2, k - 1);
        }
    }
}

/// Records from one source carry strictly increasing header line numbers:
/// no two records of a scan span the same pair of lines.
pub proof fn lemma_scan_starts_increasing(
    file: Seq<char>,
    lines: Seq<Seq<char>>,
    p: int,
    k1: int,
    k2: int,
)
    requires
        0 <= p,
        lines.len() <= u32::MAX,
        0 <= k1 < k2 < scan(file, lines, p).entries.len(),
    ensures
        scan(file, lines, p).entries[k1].lines.0 < scan(file, lines, p).entries[k2].lines.0,
    decreases lines.len() - p,
{
    if p >= lines.len() {
    } else if header_of(lines[p], p as u32) is None {
        lemma_scan_starts_increasing(file, lines, p + 1, k1, k2);
    } else if p + 1 >= lines.len() {
    } else if content_of(lines[p + 1]) is None {
        lemma_scan_starts_increasing(file, lines, p + 2, k1, k2);
    } else if ts_parse(header_of(lines[p], p as u32).unwrap().timestamp) is None {
    } else {
        if k1 == 0 {
            assert(scan(file, lines, p).entries[k2] == scan(file, lines, p + 2).entries[k2 - 1]);
            lemma_scan_origin(file, lines, p + 2, k2 - 1);
        } else {
            assert(scan(file, lines, p).entries[k1] == scan(file, lines, p + 2).entries[k1 - 1]);
            assert(scan(file, lines, p).entries[k2] == scan(file, lines, p + 2).entries[k2 - 1]);
            lemma_scan_starts_increasing(file, lines, p + 2, k1 - 1, k2 - 1);
        }
    }
}

proof fn lemma_scan_contains_pair(file: Seq<char>, lines: Seq<Seq<char>>, p: int, i: int)
    requires
        0 <= p <= i,
        i + 1 < lines.len(),
        lines.len() <= u32::MAX,
        reach(lines, p, i),
        header_of(lines[i], i as u32) is Some,
        content_of(lines[i + 1]) is Some,
        ts_parse(header_of(lines[i], i as u32).unwrap().timestamp) is Some,
        scan(file, lines, p).bad is None,
    ensures
        exists|k: int|
            #![trigger scan(file, lines, p).entries[k]]
            0 <= k < scan(file, lines, p).entries.len() && scan(file, lines, p).entries[k]
                == entry_at(file, lines, i),
    decreases i - p,
{
    if p == i {
        assert(scan(file, lines, p).entries[0] == entry_at(file, lines, i));
    } else {
        let q = next_pos(lines, p);
        if header_of(lines[p], p as u32) is None {
            lemma_scan_contains_pair(file, lines, p + 1, i);
        } else {
            assert(q == p + 2);
            assert(p + 1 < lines.len());
            if content_of(lines[p + 1]) is None {
                lemma_scan_contains_pair(file, lines, p + 2, i);
            } else {
                assert(ts_parse(header_of(lines[p], p as u32).unwrap().timestamp) is Some);
                lemma_scan_contains_pair(file, lines, p + 2, i);
                let k = choose|k: int|
                    #![trigger scan(file, lines, p + 2).entries[k]]
                    0 <= k < scan(file, lines, p + 2).entries.len() && scan(
                        file,
                        lines,
                        p + 2,
                    ).entries[k] == entry_at(file, lines, i);
                assert(scan(file, lines, p).entries[k + 1] == entry_at(file, lines, i));
            }
        }
    }
}

/// A header-matching line whose immediate successor matches as content
/// (and whose timestamp parses) yields exactly one record, spanning those
/// two lines — provided the scan reaches the header line and no earlier
/// pair cut the scan short.
pub proof fn lemma_pair_yields_exactly_one(file: Seq<char>, lines: Seq<Seq<char>>, i: int)
    requires
        0 <= i,
        i + 1 < lines.len(),
        lines.len() <= u32::MAX,
        reach(lines, 0, i),
        header_of(lines[i], i as u32) is Some,
        content_of(lines[i + 1]) is Some,
        ts_parse(header_of(lines[i], i as u32).unwrap().timestamp) is Some,
        scan(file, lines, 0).bad is None,
    ensures
        ({
            let out = scan(file, lines, 0);
            &&& entry_at(file, lines, i).lines == ((i as u32, (i + 1) as u32))
            &&& exists|k: int|
                #![trigger out.entries[k]]
                0 <= k < out.entries.len() && out.entries[k] == entry_at(file, lines, i)
            &&& forall|k1: int, k2: int|
                #![trigger out.entries[k1], out.entries[k2]]
                (0 <= k1 < out.entries.len() && 0 <= k2 < out.entries.len() && out.entries[k1].lines
                    == out.entries[k2].lines) ==> k1 == k2
        }),
{
    lemma_scan_contains_pair(file, lines, 0, i);
    let out = scan(file, lines, 0);
    assert forall|k1: int, k2: int|
        (0 <= k1 < out.entries.len() && 0 <= k2 < out.entries.len() && out.entries[k1].lines
            == out.entries[k2].lines) implies k1 == k2 by {
        if k1 < k2 {
            lemma_scan_starts_increasing(file, lines, 0, k1, k2);
        } else if k2 < k1 {
            lemma_scan_starts_increasing(file, lines, 0, k2, k1);
        }
    }
}

/// A header-matching line whose successor does not match as content yields
/// no record from either line, and the successor is never retried as a
/// header: the scan moves straight past both (the strict two-line skip).
pub proof fn lemma_unmatched_content_skips_two(file: Seq<char>, lines: Seq<Seq<char>>, i: int)
    requires
        0 <= i,
        i + 1 < lines.len(),
        lines.len() <= u32::MAX,
        reach(lines, 0, i),
        header_of(lines[i], i as u32) is Some,
        content_of(lines[i + 1]) is None,
    ensures
        !reach(lines, 0, i + 1),
        reach(lines, 0, i + 2),
        forall|k: int|
            0 <= k < scan(file, lines, 0).entries.len() ==> scan(file, lines, 0).entries[k].lines.0
                != i as u32 && scan(file, lines, 0).entries[k].lines.0 != (i + 1) as u32,
{
    if reach(lines, 0, i + 1) {
        lemma_reach_linear(lines, 0, i, i + 1);
        assert(false);
    }
    assert(next_pos(lines, i) == i + 2);
    assert(reach(lines, i + 2, i + 2));
    assert(reach(lines, i, i + 2));
    lemma_reach_trans(lines, 0, i, i + 2);
    assert forall|k: int| 0 <= k < scan(file, lines, 0).entries.len() implies scan(
        file,
        lines,
        0,
    ).entries[k].lines.0 != i as u32 && scan(file, lines, 0).entries[k].lines.0 != (i + 1) as u32 by {
        lemma_scan_origin(file, lines, 0, k);
        let e = scan(file, lines, 0).entries[k];
        let s = e.lines.0 as int;
        if e.lines.0 == i as u32 {
            assert(s == i);
            assert(false);
        }
        if e.lines.0 == (i + 1) as u32 {
            assert(s == i + 1);
            lemma_reach_linear(lines, 0, i, i + 1);
            assert(false);
        }
    }
}

} // verus!
