//! Aggregate statistics over the final collection: count, time span,
//! throughput, and the distinct broker and partition identifiers.

use vstd::prelude::*;

use crate::collection::LogCollection;
use crate::entry::{entry_cmp, entry_wf};
use crate::order::Cmp;
use crate::timestamp::{
    epoch_millis, epoch_millis_exec, lemma_ts_cmp_chronological, ts_cmp, ts_wf, Timestamp,
};

verus! {

/// Summary of a non-empty collection.
pub struct Stats {
    pub count: usize,
    pub from: Timestamp,
    pub to: Timestamp,
    pub span_seconds: u64,
    pub rate_centi: Option<u128>,
}

/// Whole seconds between two timestamps (the sub-second remainder is
/// dropped).
pub open spec fn span_seconds_of(from: Timestamp, to: Timestamp) -> int {
    (epoch_millis(to) - epoch_millis(from)) / 1000
}

/// Throughput in hundredths of entries per second, rounded to nearest with
/// halves away from zero. A zero-second span has no defined rate: `None`,
/// never a division by zero.
pub open spec fn rate_centi_of(count: int, span_seconds: int) -> Option<int> {
    if span_seconds == 0 {
        None
    } else {
        Some((200 * count + span_seconds) / (2 * span_seconds))
    }
}

/// Compute the summary. `None` exactly for an empty collection: the
/// explicit "no entries parsed" outcome.
pub fn report_stats(c: &LogCollection) -> (r: Option<Stats>)
    requires
        c.wf(),
    ensures
        r is Some <==> c@.len() > 0,
        r matches Some(st) ==> {
            &&& st.count == c@.len()
            &&& st.from == c@[0].timestamp
            &&& st.to == c@[c@.len() - 1].timestamp
            &&& epoch_millis(st.from) <= epoch_millis(st.to)
            &&& st.span_seconds == span_seconds_of(st.from, st.to)
            &&& (match st.rate_centi {
                Some(rc) => rate_centi_of(c@.len() as int, st.span_seconds as int) == Some(
                    rc as int,
                ),
                None => rate_centi_of(c@.len() as int, st.span_seconds as int) is None,
            })
        },
{
    let n = c.len();
    if n == 0 {
        return None;
    }
    let from = c.get(0).timestamp;
    let to = c.get(n - 1).timestamp;
    proof {
        assert(entry_wf(c@[0]));
        assert(entry_wf(c@[n - 1]));
        if n >= 2 {
            assert(entry_cmp(c@[0], c@[n - 1]) == Cmp::Lt);
            reveal(crate::entry::entry_cmp);
            lemma_ts_cmp_chronological(from, to);
        }
    }
    let ef = epoch_millis_exec(&from);
    let et = epoch_millis_exec(&to);
    let span_ms = et - ef;
    let span_seconds = span_ms / 1000;
    let rate_centi: Option<u128> = if span_seconds == 0 {
        None
    } else {
        let cnt = n as u128;
        let sp = span_seconds as u128;
        Some((200 * cnt + sp) / (2 * sp))
    };
    Some(Stats { count: n, from, to, span_seconds, rate_centi })
}

/// Strictly increasing: sorted and duplicate-free.
pub open spec fn u32_sorted(s: Seq<u32>) -> bool {
    forall|i: int, j: int| 0 <= i < j < s.len() ==> #[trigger] s[i] < #[trigger] s[j]
}

fn insert_sorted_u32(v: &mut Vec<u32>, x: u32)
    requires
        u32_sorted(old(v)@),
    ensures
        u32_sorted(final(v)@),
        forall|y: u32|
            #![trigger final(v)@.contains(y)]
            #![trigger old(v)@.contains(y)]
            final(v)@.contains(y) <==> old(v)@.contains(y) || y == x,
{
    let ghost ov = v@;
    let n = v.len();
    let mut idx: usize = 0;
    while idx < n && v[idx] < x
        invariant
            n == v@.len(),
            idx <= n,
            v@ == ov,
            forall|j: int| 0 <= j < idx ==> v@[j] < x,
        decreases n - idx,
    {
        idx += 1;
    }
    assert(idx < n ==> v@[idx as int] >= x);
    if idx < n && v[idx] == x {
        proof {
            assert(v@.contains(x));
            assert(forall|y: u32| v@.contains(y) <==> ov.contains(y) || y == x) by {
                assert(v@.contains(x));
            }
        }
        return ;
    }
    v.insert(idx, x);
    proof {
        ov.insert_ensures(idx as int, x);
        assert(v@ =~= ov.insert(idx as int, x));
        let nv = v@;
        assert forall|i: int, j: int| 0 <= i < j < nv.len() implies nv[i] < nv[j] by {
            if i < idx && j > idx {
                assert(nv[j] == ov[j - 1]);
            } else if i == idx && j > idx {
                assert(nv[j] == ov[j - 1]);
            } else if i > idx {
                assert(nv[i] == ov[i - 1]);
                assert(nv[j] == ov[j - 1]);
            }
        }
        assert forall|y: u32| nv.contains(y) implies (ov.contains(y) || y == x) by {
            let ix = choose|ix: int| 0 <= ix < nv.len() && nv[ix] == y;
            if ix < idx {
                assert(ov[ix] == y);
            } else if ix > idx {
                assert(ov[ix - 1] == y);
            }
        }
        assert forall|y: u32| (ov.contains(y) || y == x) implies nv.contains(y) by {
            if ov.contains(y) {
                let ix = choose|ix: int| 0 <= ix < ov.len() && ov[ix] == y;
                if ix < idx {
                    assert(nv[ix] == y);
                } else {
                    assert(nv[ix + 1] == y);
                }
            } else {
                assert(nv[idx as int] == y);
            }
        }
    }
}

/// The distinct broker identifiers present across all records, ascending.
pub fn broker_ids(c: &LogCollection) -> (v: Vec<u32>)
    requires
        c.wf(),
    ensures
        u32_sorted(v@),
        forall|b: u32|
            #![trigger v@.contains(b)]
            v@.contains(b) <==> (exists|k: int|
                0 <= k < c@.len() && #[trigger] c@[k].actor.broker == Some(b)),
{
    let n = c.len();
    let mut v: Vec<u32> = Vec::new();
    let mut i: usize = 0;
    while i < n
        invariant
            n == c@.len(),
            i <= n,
            c.wf(),
            u32_sorted(v@),
            forall|b: u32|
                #![trigger v@.contains(b)]
                v@.contains(b) <==> (exists|k: int|
                    0 <= k < i && #[trigger] c@[k].actor.broker == Some(b)),
        decreases n - i,
    {
        let ghost pv = v@;
        let b_opt = c.get(i).actor.broker;
        match b_opt {
            Some(b) => {
                insert_sorted_u32(&mut v, b);
                proof {
                    assert forall|y: u32| v@.contains(y) implies (exists|k: int|
                        0 <= k < i + 1 && #[trigger] c@[k].actor.broker == Some(y)) by {
                        if pv.contains(y) {
                            let k = choose|k: int|
                                0 <= k < i && #[trigger] c@[k].actor.broker == Some(y);
                            assert(0 <= k < i + 1 && c@[k].actor.broker == Some(y));
                        } else {
                            assert(c@[i as int].actor.broker == Some(y));
                        }
                    }
                    assert forall|y: u32|
                        (exists|k: int| 0 <= k < i + 1 && #[trigger] c@[k].actor.broker == Some(y))
                        implies v@.contains(y) by {
                        let k = choose|k: int|
                            0 <= k < i + 1 && #[trigger] c@[k].actor.broker == Some(y);
                        if k < i {
                            assert(pv.contains(y));
                        }
                    }
                }
            },
            None => {
                proof {
                    assert forall|y: u32|
                        (exists|k: int| 0 <= k < i + 1 && #[trigger] c@[k].actor.broker == Some(y))
                        implies v@.contains(y) by {
                        let k = choose|k: int|
                            0 <= k < i + 1 && #[trigger] c@[k].actor.broker == Some(y);
                        assert(k < i);
                    }
                }
            },
        }
        i += 1;
    }
    v
}

/// The distinct partition identifiers present across all records,
/// ascending.
pub fn partition_ids(c: &LogCollection) -> (v: Vec<u32>)
    requires
        c.wf(),
    ensures
        u32_sorted(v@),
        forall|p: u32|
            #![trigger v@.contains(p)]
            v@.contains(p) <==> (exists|k: int|
                0 <= k < c@.len() && #[trigger] c@[k].actor.partition == Some(p)),
{
    let n = c.len();
    let mut v: Vec<u32> = Vec::new();
    let mut i: usize = 0;
    while i < n
        invariant
            n == c@.len(),
            i <= n,
            c.wf(),
            u32_sorted(v@),
            forall|p: u32|
                #![trigger v@.contains(p)]
                v@.contains(p) <==> (exists|k: int|
                    0 <= k < i && #[trigger] c@[k].actor.partition == Some(p)),
        decreases n - i,
    {
        let ghost pv = v@;
        let p_opt = c.get(i).actor.partition;
        match p_opt {
            Some(p) => {
                insert_sorted_u32(&mut v, p);
                proof {
                    assert forall|y: u32| v@.contains(y) implies (exists|k: int|
                        0 <= k < i + 1 && #[trigger] c@[k].actor.partition == Some(y)) by {
                        if pv.contains(y) {
                            let k = choose|k: int|
                                0 <= k < i && #[trigger] c@[k].actor.partition == Some(y);
                            assert(0 <= k < i + 1 && c@[k].actor.partition == Some(y));
                        } else {
                            assert(c@[i as int].actor.partition == Some(y));
                        }
                    }
                    assert forall|y: u32|
                        (exists|k: int|
                            0 <= k < i + 1 && #[trigger] c@[k].actor.partition == Some(y)) implies v@
                        .contains(y) by {
                        let k = choose|k: int|
                            0 <= k < i + 1 && #[trigger] c@[k].actor.partition == Some(y);
                        if k < i {
                            assert(pv.contains(y));
                        }
                    }
                }
            },
            None => {
                proof {
                    assert forall|y: u32|
                        (exists|k: int|
                            0 <= k < i + 1 && #[trigger] c@[k].actor.partition == Some(y)) implies v@
                        .contains(y) by {
                        let k = choose|k: int|
                            0 <= k < i + 1 && #[trigger] c@[k].actor.partition == Some(y);
                        assert(k < i);
                    }
                }
            },
        }
        i += 1;
    }
    v
}

} // verus!
