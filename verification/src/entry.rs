//! Completed log records and the total order that both sorts and
//! deduplicates them: timestamp first, then line pair, source name, actor,
//! thread, level, logger and message.

use vstd::prelude::*;

use crate::actor::{
    actor_cmp, actor_compare, lemma_actor_cmp_eq, lemma_actor_cmp_flip, lemma_actor_cmp_trans,
    Actor, ActorV,
};
use crate::order::{
    flip, lex2, lemma_str_cmp_eq, lemma_str_cmp_flip, lemma_str_cmp_trans, str_cmp, str_compare,
    u32_cmp, u32_compare, Cmp,
};
use crate::timestamp::{
    lemma_ts_cmp_eq, lemma_ts_cmp_flip, lemma_ts_cmp_trans, ts_cmp, ts_compare, ts_wf, Timestamp,
};

verus! {

/// Intermediate parse result for one header line: the timestamp still raw,
/// the actor already decomposed.
#[derive(Debug)]
pub struct LogHeader {
    pub start: u32,
    pub timestamp: String,
    pub actor: Actor,
    pub thread: String,
    pub level: String,
}

/// Mathematical model of a [`LogHeader`].
#[verifier::ext_equal]
pub struct HeaderV {
    pub start: u32,
    pub timestamp: Seq<char>,
    pub actor: ActorV,
    pub thread: Seq<char>,
    pub level: Seq<char>,
}

impl View for LogHeader {
    type V = HeaderV;

    open spec fn view(&self) -> HeaderV {
        HeaderV {
            start: self.start,
            timestamp: self.timestamp@,
            actor: self.actor@,
            thread: self.thread@,
            level: self.level@,
        }
    }
}

/// A completed, normalized record spanning exactly two source lines.
#[derive(Debug)]
pub struct LogEntry {
    pub timestamp: Timestamp,
    pub lines: (u32, u32),
    pub file: String,
    pub actor: Actor,
    pub thread: String,
    pub level: String,
    pub logger: String,
    pub message: String,
}

/// Mathematical model of a [`LogEntry`].
#[verifier::ext_equal]
pub struct EntryV {
    pub timestamp: Timestamp,
    pub lines: (u32, u32),
    pub file: Seq<char>,
    pub actor: ActorV,
    pub thread: Seq<char>,
    pub level: Seq<char>,
    pub logger: Seq<char>,
    pub message: Seq<char>,
}

impl View for LogEntry {
    type V = EntryV;

    open spec fn view(&self) -> EntryV {
        EntryV {
            timestamp: self.timestamp,
            lines: self.lines,
            file: self.file@,
            actor: self.actor@,
            thread: self.thread@,
            level: self.level@,
            logger: self.logger@,
            message: self.message@,
        }
    }
}

/// A well-formed record carries a valid calendar timestamp.
pub open spec fn entry_wf(e: EntryV) -> bool {
    ts_wf(e.timestamp)
}

/// The total order on records: the natural field order, timestamp first.
/// It is also the deduplication key: `Cmp::Eq` is field-for-field equality.
#[verifier::opaque]
pub open spec fn entry_cmp(a: EntryV, b: EntryV) -> Cmp {
    lex2(
        ts_cmp(a.timestamp, b.timestamp),
        lex2(
            u32_cmp(a.lines.0, b.lines.0),
            lex2(
                u32_cmp(a.lines.1, b.lines.1),
                lex2(
                    str_cmp(a.file, b.file),
                    lex2(
                        actor_cmp(a.actor, b.actor),
                        lex2(
                            str_cmp(a.thread, b.thread),
                            lex2(
                                str_cmp(a.level, b.level),
                                lex2(str_cmp(a.logger, b.logger), str_cmp(a.message, b.message)),
                            ),
                        ),
                    ),
                ),
            ),
        ),
    )
}

pub fn entry_compare(a: &LogEntry, b: &LogEntry) -> (r: Cmp)
    requires
        entry_wf(a@),
        entry_wf(b@),
    ensures
        r == entry_cmp(a@, b@),
{
    proof {
        reveal(entry_cmp);
    }
    let r = ts_compare(&a.timestamp, &b.timestamp);
    if !matches!(r, Cmp::Eq) {
        return r;
    }
    let r = u32_compare(a.lines.0, b.lines.0);
    if !matches!(r, Cmp::Eq) {
        return r;
    }
    let r = u32_compare(a.lines.1, b.lines.1);
    if !matches!(r, Cmp::Eq) {
        return r;
    }
    let r = str_compare(a.file.as_str(), b.file.as_str());
    if !matches!(r, Cmp::Eq) {
        return r;
    }
    let r = actor_compare(&a.actor, &b.actor);
    if !matches!(r, Cmp::Eq) {
        return r;
    }
    let r = str_compare(a.thread.as_str(), b.thread.as_str());
    if !matches!(r, Cmp::Eq) {
        return r;
    }
    let r = str_compare(a.level.as_str(), b.level.as_str());
    if !matches!(r, Cmp::Eq) {
        return r;
    }
    let r = str_compare(a.logger.as_str(), b.logger.as_str());
    if !matches!(r, Cmp::Eq) {
        return r;
    }
    str_compare(a.message.as_str(), b.message.as_str())
}

/// Of two records, the one with the chronologically earlier timestamp
/// sorts first, whatever the other fields hold.
pub proof fn lemma_earlier_timestamp_sorts_first(a: EntryV, b: EntryV)
    requires
        crate::timestamp::epoch_millis(a.timestamp) < crate::timestamp::epoch_millis(b.timestamp),
    ensures
        entry_cmp(a, b) == Cmp::Lt,
{
    reveal(entry_cmp);
}

/// Records with the same timestamp are ordered by the remaining fields:
/// lines, then file, then actor, then thread, level, logger and message.
pub proof fn lemma_timestamp_tie_breaks_by_fields(a: EntryV, b: EntryV)
    requires
        a.timestamp == b.timestamp,
    ensures
        entry_cmp(a, b) == lex2(
            u32_cmp(a.lines.0, b.lines.0),
            lex2(
                u32_cmp(a.lines.1, b.lines.1),
                lex2(
                    str_cmp(a.file, b.file),
                    lex2(
                        actor_cmp(a.actor, b.actor),
                        lex2(
                            str_cmp(a.thread, b.thread),
                            lex2(
                                str_cmp(a.level, b.level),
                                lex2(str_cmp(a.logger, b.logger), str_cmp(a.message, b.message)),
                            ),
                        ),
                    ),
                ),
            ),
        ),
{
    reveal(entry_cmp);
    lemma_ts_cmp_eq(a.timestamp, b.timestamp);
}

/// A tie under the order is equality of every field.
pub proof fn lemma_entry_cmp_eq(a: EntryV, b: EntryV)
    ensures
        (entry_cmp(a, b) == Cmp::Eq) <==> (a == b),
{
    reveal(entry_cmp);
    lemma_ts_cmp_eq(a.timestamp, b.timestamp);
    lemma_str_cmp_eq(a.file, b.file);
    lemma_actor_cmp_eq(a.actor, b.actor);
    lemma_str_cmp_eq(a.thread, b.thread);
    lemma_str_cmp_eq(a.level, b.level);
    lemma_str_cmp_eq(a.logger, b.logger);
    lemma_str_cmp_eq(a.message, b.message);
    if entry_cmp(a, b) == Cmp::Eq {
        assert(a =~= b);
    }
}

/// Comparing in the other direction flips the result.
pub proof fn lemma_entry_cmp_flip(a: EntryV, b: EntryV)
    ensures
        entry_cmp(b, a) == flip(entry_cmp(a, b)),
{
    reveal(entry_cmp);
    lemma_ts_cmp_flip(a.timestamp, b.timestamp);
    lemma_str_cmp_flip(a.file, b.file);
    lemma_actor_cmp_flip(a.actor, b.actor);
    lemma_str_cmp_flip(a.thread, b.thread);
    lemma_str_cmp_flip(a.level, b.level);
    lemma_str_cmp_flip(a.logger, b.logger);
    lemma_str_cmp_flip(a.message, b.message);
}

/// The strict order is transitive; with [`lemma_entry_cmp_eq`] and
/// [`lemma_entry_cmp_flip`] this makes the comparison a valid total order.
pub proof fn lemma_entry_cmp_trans(a: EntryV, b: EntryV, c: EntryV)
    requires
        entry_cmp(a, b) == Cmp::Lt,
        entry_cmp(b, c) == Cmp::Lt,
    ensures
        entry_cmp(a, c) == Cmp::Lt,
{
    reveal(entry_cmp);
    lemma_ts_cmp_eq(a.timestamp, b.timestamp);
    lemma_ts_cmp_eq(b.timestamp, c.timestamp);
    if ts_cmp(a.timestamp, b.timestamp) == Cmp::Lt && ts_cmp(b.timestamp, c.timestamp)
        == Cmp::Lt {
        lemma_ts_cmp_trans(a.timestamp, b.timestamp, c.timestamp);
    }
    lemma_str_cmp_eq(a.file, b.file);
    lemma_str_cmp_eq(b.file, c.file);
    if str_cmp(a.file, b.file) == Cmp::Lt && str_cmp(b.file, c.file) == Cmp::Lt {
        lemma_str_cmp_trans(a.file, b.file, c.file);
    }
    lemma_actor_cmp_eq(a.actor, b.actor);
    lemma_actor_cmp_eq(b.actor, c.actor);
    if actor_cmp(a.actor, b.actor) == Cmp::Lt && actor_cmp(b.actor, c.actor) == Cmp::Lt {
        lemma_actor_cmp_trans(a.actor, b.actor, c.actor);
    }
    lemma_str_cmp_eq(a.thread, b.thread);
    lemma_str_cmp_eq(b.thread, c.thread);
    if str_cmp(a.thread, b.thread) == Cmp::Lt && str_cmp(b.thread, c.thread) == Cmp::Lt {
        lemma_str_cmp_trans(a.thread, b.thread, c.thread);
    }
    lemma_str_cmp_eq(a.level, b.level);
    lemma_str_cmp_eq(b.level, c.level);
    if str_cmp(a.level, b.level) == Cmp::Lt && str_cmp(b.level, c.level) == Cmp::Lt {
        lemma_str_cmp_trans(a.level, b.level, c.level);
    }
    lemma_str_cmp_eq(a.logger, b.logger);
    lemma_str_cmp_eq(b.logger, c.logger);
    if str_cmp(a.logger, b.logger) == Cmp::Lt && str_cmp(b.logger, c.logger) == Cmp::Lt {
        lemma_str_cmp_trans(a.logger, b.logger, c.logger);
    }
    lemma_str_cmp_eq(a.message, b.message);
    lemma_str_cmp_eq(b.message, c.message);
    if str_cmp(a.message, b.message) == Cmp::Lt && str_cmp(b.message, c.message) == Cmp::Lt {
        lemma_str_cmp_trans(a.message, b.message, c.message);
    }
}

} // verus!
