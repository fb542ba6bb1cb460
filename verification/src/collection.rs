//! The accumulated record set: ordered by [`entry_cmp`], duplicate-free,
//! with set-insert semantics.

use vstd::prelude::*;

use crate::entry::{
    entry_cmp, entry_compare, entry_wf, lemma_entry_cmp_eq, lemma_entry_cmp_flip,
    lemma_entry_cmp_trans, EntryV, LogEntry,
};
use crate::order::Cmp;

verus! {

/// Strictly ascending under the record order: sorted and duplicate-free.
pub open spec fn sorted_strict(s: Seq<EntryV>) -> bool {
    forall|i: int, j: int|
        0 <= i < j < s.len() ==> entry_cmp(#[trigger] s[i], #[trigger] s[j]) == Cmp::Lt
}

pub open spec fn all_wf(s: Seq<EntryV>) -> bool {
    forall|i: int| 0 <= i < s.len() ==> entry_wf(#[trigger] s[i])
}

pub open spec fn views_of(s: Seq<LogEntry>) -> Seq<EntryV> {
    s.map_values(|e: LogEntry| e@)
}

/// The ordered, deduplicated set of all completed records.
pub struct LogCollection {
    entries: Vec<LogEntry>,
}

impl View for LogCollection {
    type V = Seq<EntryV>;

    closed spec fn view(&self) -> Seq<EntryV> {
        views_of(self.entries@)
    }
}

fn find_pos(entries: &Vec<LogEntry>, e: &LogEntry) -> (idx: usize)
    requires
        sorted_strict(views_of(entries@)),
        all_wf(views_of(entries@)),
        entry_wf(e@),
    ensures
        idx <= entries@.len(),
        forall|j: int| 0 <= j < idx ==> entry_cmp(#[trigger] views_of(entries@)[j], e@) == Cmp::Lt,
        idx < entries@.len() ==> entry_cmp(views_of(entries@)[idx as int], e@) != Cmp::Lt,
{
    let n = entries.len();
    let mut idx: usize = 0;
    while idx < n
        invariant
            n == entries@.len(),
            idx <= n,
            sorted_strict(views_of(entries@)),
            all_wf(views_of(entries@)),
            entry_wf(e@),
            forall|j: int|
                0 <= j < idx ==> entry_cmp(#[trigger] views_of(entries@)[j], e@) == Cmp::Lt,
        decreases n - idx,
    {
        assert(views_of(entries@)[idx as int] == entries@[idx as int]@);
        let c = entry_compare(&entries[idx], e);
        if matches!(c, Cmp::Lt) {
            idx += 1;
        } else {
            return idx;
        }
    }
    idx
}

impl LogCollection {
    /// Sorted, duplicate-free, every record well formed.
    pub open spec fn wf(&self) -> bool {
        sorted_strict(self@) && all_wf(self@)
    }

    pub fn new() -> (c: LogCollection)
        ensures
            c.wf(),
            c@ == Seq::<EntryV>::empty(),
    {
        let c = LogCollection { entries: Vec::new() };
        proof {
            assert(c@ =~= Seq::<EntryV>::empty());
        }
        c
    }

    pub fn len(&self) -> (n: usize)
        ensures
            n == self@.len(),
    {
        self.entries.len()
    }

    pub fn get(&self, i: usize) -> (e: &LogEntry)
        requires
            i < self@.len(),
        ensures
            e@ == self@[i as int],
    {
        assert(views_of(self.entries@)[i as int] == self.entries@[i as int]@);
        &self.entries[i]
    }

    /// Set-insert: a record equal in every field to one already present is
    /// silently absorbed; otherwise the record takes its place in the order.
    pub fn insert(&mut self, e: LogEntry)
        requires
            old(self).wf(),
            entry_wf(e@),
        ensures
            final(self).wf(),
            forall|x: EntryV| final(self)@.contains(x) <==> old(self)@.contains(x) || x == e@,
            old(self)@.contains(e@) ==> final(self)@ == old(self)@,
            final(self)@.len() == old(self)@.len() + (if old(self)@.contains(e@) {
                0int
            } else {
                1int
            }),
    {
        let ghost ov = self@;
        let n = self.entries.len();
        let idx = find_pos(&self.entries, &e);
        if idx < n {
            assert(views_of(self.entries@)[idx as int] == self.entries@[idx as int]@);
            let c = entry_compare(&self.entries[idx], &e);
            if matches!(c, Cmp::Eq) {
                proof {
                    lemma_entry_cmp_eq(ov[idx as int], e@);
                    assert(ov.contains(e@));
                    assert(forall|x: EntryV|
                        self@.contains(x) <==> ov.contains(x) || x == e@) by {
                        assert(ov.contains(e@));
                    }
                }
                return ;
            }
        }
        proof {
            // Everything before `idx` is strictly below `e`, everything at or
            // after it strictly above; so `e` is not present.
            if idx < ov.len() {
                lemma_entry_cmp_eq(ov[idx as int], e@);
            }
            assert forall|j: int| idx <= j < ov.len() implies entry_cmp(
                e@,
                #[trigger] ov[j],
            ) == Cmp::Lt by {
                lemma_entry_cmp_flip(ov[idx as int], e@);
                lemma_entry_cmp_eq(ov[idx as int], e@);
                if j > idx {
                    lemma_entry_cmp_trans(e@, ov[idx as int], ov[j]);
                }
            }
            assert forall|j: int| 0 <= j < ov.len() implies ov[j] != e@ by {
                lemma_entry_cmp_eq(ov[j], e@);
            }
            assert(!ov.contains(e@));
        }
        let ghost oe = self.entries@;
        self.entries.insert(idx, e);
        proof {
            oe.insert_ensures(idx as int, e);
            ov.insert_ensures(idx as int, e@);
            assert(self@ =~= ov.insert(idx as int, e@));
            let nv = self@;
            assert forall|i: int, j: int| 0 <= i < j < nv.len() implies entry_cmp(
                #[trigger] nv[i],
                #[trigger] nv[j],
            ) == Cmp::Lt by {
                if i < idx && j < idx {
                } else if i < idx && j == idx {
                } else if i < idx && j > idx {
                    assert(nv[j] == ov[j - 1]);
                } else if i == idx {
                    assert(nv[j] == ov[j - 1]);
                } else {
                    assert(nv[i] == ov[i - 1]);
                    assert(nv[j] == ov[j - 1]);
                }
            }
            assert forall|i: int| 0 <= i < nv.len() implies entry_wf(#[trigger] nv[i]) by {
                if i < idx {
                } else if i == idx {
                } else {
                    assert(nv[i] == ov[i - 1]);
                }
            }
            assert forall|x: EntryV| nv.contains(x) implies (ov.contains(x) || x == e@) by {
                let i = choose|i: int| 0 <= i < nv.len() && nv[i] == x;
                if i < idx {
                    assert(ov[i] == x);
                } else if i > idx {
                    assert(ov[i - 1] == x);
                }
            }
            assert forall|x: EntryV| (ov.contains(x) || x == e@) implies nv.contains(x) by {
                if ov.contains(x) {
                    let i = choose|i: int| 0 <= i < ov.len() && ov[i] == x;
                    if i < idx {
                        assert(nv[i] == x);
                    } else {
                        assert(nv[i + 1] == x);
                    }
                } else {
                    assert(nv[idx as int] == x);
                }
            }
        }
    }
}

/// Merging sources with overlapping timestamp ranges commutes: any two
/// collections that are sorted, duplicate-free and hold the union of the
/// same two record sets are one and the same sequence — the merged result
/// is the sorted union, however the sources were interleaved.
pub proof fn lemma_merge_union(ca: Seq<EntryV>, cb: Seq<EntryV>, ea: Seq<EntryV>, eb: Seq<EntryV>)
    requires
        sorted_strict(ca),
        sorted_strict(cb),
        forall|x: EntryV|
            #![trigger ca.contains(x)]
            ca.contains(x) <==> ea.contains(x) || eb.contains(x),
        forall|x: EntryV|
            #![trigger cb.contains(x)]
            cb.contains(x) <==> eb.contains(x) || ea.contains(x),
    ensures
        ca == cb,
{
    assert forall|x: EntryV| ca.contains(x) implies cb.contains(x) by {
        assert(ea.contains(x) || eb.contains(x));
        assert(cb.contains(x));
    }
    assert forall|x: EntryV| cb.contains(x) implies ca.contains(x) by {
        assert(eb.contains(x) || ea.contains(x));
        assert(ca.contains(x));
    }
    lemma_sorted_unique(ca, cb);
}

/// A strictly sorted sequence is determined by what it contains: two
/// sorted, duplicate-free collections of the same records are equal.
pub proof fn lemma_sorted_unique(s: Seq<EntryV>, t: Seq<EntryV>)
    requires
        sorted_strict(s),
        sorted_strict(t),
        forall|x: EntryV| s.contains(x) <==> t.contains(x),
    ensures
        s == t,
    decreases s.len(),
{
    if s.len() == 0 {
        if t.len() > 0 {
            assert(t.contains(t[0]));
        }
        assert(s =~= t);
    } else {
        assert(s.contains(s[0]));
        assert(t.contains(s[0]));
        let k = choose|k: int| 0 <= k < t.len() && t[k] == s[0];
        assert(t.contains(t[0]));
        assert(s.contains(t[0]));
        let l = choose|l: int| 0 <= l < s.len() && s[l] == t[0];
        if k > 0 && l > 0 {
            assert(entry_cmp(t[0], t[k]) == Cmp::Lt);
            assert(entry_cmp(s[0], s[l]) == Cmp::Lt);
            lemma_entry_cmp_trans(s[0], t[0], s[0]);
            lemma_entry_cmp_eq(s[0], s[0]);
            assert(false);
        }
        assert(s[0] == t[0]);
        let st = s.drop_first();
        let tt = t.drop_first();
        assert forall|x: EntryV| st.contains(x) implies tt.contains(x) by {
            let i = choose|i: int| 0 <= i < st.len() && st[i] == x;
            assert(s[i + 1] == x);
            assert(s.contains(x));
            assert(t.contains(x));
            let j = choose|j: int| 0 <= j < t.len() && t[j] == x;
            if j == 0 {
                assert(entry_cmp(s[0], s[i + 1]) == Cmp::Lt);
                lemma_entry_cmp_eq(s[0], s[0]);
                assert(false);
            }
            assert(tt[j - 1] == x);
        }
        assert forall|x: EntryV| tt.contains(x) implies st.contains(x) by {
            let i = choose|i: int| 0 <= i < tt.len() && tt[i] == x;
            assert(t[i + 1] == x);
            assert(t.contains(x));
            assert(s.contains(x));
            let j = choose|j: int| 0 <= j < s.len() && s[j] == x;
            if j == 0 {
                assert(entry_cmp(t[0], t[i + 1]) == Cmp::Lt);
                lemma_entry_cmp_eq(t[0], t[0]);
                assert(false);
            }
            assert(st[j - 1] == x);
        }
        assert forall|i: int, j: int| 0 <= i < j < st.len() implies entry_cmp(
            #[trigger] st[i],
            #[trigger] st[j],
        ) == Cmp::Lt by {
            assert(st[i] == s[i + 1]);
            assert(st[j] == s[j + 1]);
            assert(entry_cmp(s[i + 1], s[j + 1]) == Cmp::Lt);
        }
        assert forall|i: int, j: int| 0 <= i < j < tt.len() implies entry_cmp(
            #[trigger] tt[i],
            #[trigger] tt[j],
        ) == Cmp::Lt by {
            assert(tt[i] == t[i + 1]);
            assert(tt[j] == t[j + 1]);
            assert(entry_cmp(t[i + 1], t[j + 1]) == Cmp::Lt);
        }
        lemma_sorted_unique(st, tt);
        assert(s.len() == t.len());
        assert forall|i: int| 0 <= i < s.len() implies s[i] == t[i] by {
            if i > 0 {
                assert(st[i - 1] == s[i]);
                assert(tt[i - 1] == t[i]);
            }
        }
        assert(s =~= t);
    }
}

} // verus!
