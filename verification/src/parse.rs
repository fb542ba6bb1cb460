//! The two public matchers: one line against the header pattern, the
//! following line against the content pattern.

use vstd::prelude::*;

use crate::actor::{actor_of, decompose_actor};
use crate::entry::{EntryV, HeaderV, LogEntry, LogHeader};
use crate::matcher::{
    content_spans, find_content_x, find_header_x, header_spans, lemma_find_content,
    lemma_find_header,
};
use crate::order::chars_of;
use crate::timestamp::{parse_timestamp, ts_parse};

verus! {

/// The header record a line yields, if the header pattern matches it.
pub open spec fn header_of(line: Seq<char>, number: u32) -> Option<HeaderV> {
    match header_spans(line) {
        Some(h) => Some(
            HeaderV {
                start: number,
                timestamp: line.subrange(h.start, h.start + 23),
                actor: actor_of(line.subrange(h.actor_lo, h.actor_hi)),
                thread: line.subrange(h.thread_lo, h.thread_hi),
                level: line.subrange(h.level_lo, h.level_hi),
            },
        ),
        None => None,
    }
}

/// The logger and message captures of a line, if the content pattern
/// matches it.
pub open spec fn content_of(line: Seq<char>) -> Option<(Seq<char>, Seq<char>)> {
    match content_spans(line) {
        Some((lo, hi, ms)) => Some((line.subrange(lo, hi), line.subrange(ms, line.len() as int))),
        None => None,
    }
}

/// Match one line against the header pattern. `number` is the line's
/// 0-based index within its source.
pub fn log_header(line: &str, number: u32) -> (r: Option<LogHeader>)
    ensures
        r is Some <==> header_of(line@, number) is Some,
        r matches Some(h) ==> header_of(line@, number) == Some(h@),
{
    let v = chars_of(line);
    let n = v.len();
    match find_header_x(&v, 0) {
        Some(sp) => {
            proof {
                lemma_find_header(v@, 0);
            }
            let timestamp = line.substring_char(sp.start, sp.start + 23).to_owned();
            let actor_tok = line.substring_char(sp.actor_lo, sp.actor_hi);
            let actor = decompose_actor(actor_tok);
            let thread = line.substring_char(sp.thread_lo, sp.thread_hi).to_owned();
            let level = line.substring_char(sp.level_lo, sp.level_hi).to_owned();
            let h = LogHeader { start: number, timestamp, actor, thread, level };
            assert(header_of(line@, number) == Some(h@)) by {
                assert(h@ =~= header_of(line@, number).unwrap());
            }
            Some(h)
        },
        None => None,
    }
}

/// Outcome of matching the line after a header against the content
/// pattern.
pub enum ContentMatch {
    /// The content pattern does not match: the header and this line are
    /// both discarded.
    NoMatch,
    /// The content pattern matches but the captured header timestamp is
    /// not a parseable date-time: reported rather than silently dropped.
    InvalidTimestamp,
    /// A completed record.
    Matched(LogEntry),
}

/// Match the line after `header` against the content pattern and complete
/// the record. `number` is the content line's 0-based index, `file` the
/// source's name.
pub fn log_message(header: LogHeader, line: &str, number: u32, file: &str) -> (r: ContentMatch)
    ensures
        ({
            let c = content_of(line@);
            let t = ts_parse(header@.timestamp);
            match r {
                ContentMatch::NoMatch => c is None,
                ContentMatch::InvalidTimestamp => c is Some && t is None,
                ContentMatch::Matched(e) => c is Some && t is Some && e@ == EntryV {
                    timestamp: t.unwrap(),
                    lines: (header@.start, number),
                    file: file@,
                    actor: header@.actor,
                    thread: header@.thread,
                    level: header@.level,
                    logger: c.unwrap().0,
                    message: c.unwrap().1,
                },
            }
        }),
        r matches ContentMatch::Matched(e) ==> crate::entry::entry_wf(e@),
{
    let v = chars_of(line);
    let n = v.len();
    match find_content_x(&v, 0) {
        Some((lo, hi, ms)) => {
            proof {
                lemma_find_content(v@, 0);
            }
            match parse_timestamp(header.timestamp.as_str()) {
                Some(t) => {
                    let logger = line.substring_char(lo, hi).to_owned();
                    let message = line.substring_char(ms, n).to_owned();
                    let e = LogEntry {
                        timestamp: t,
                        lines: (header.start, number),
                        file: file.to_owned(),
                        actor: header.actor,
                        thread: header.thread,
                        level: header.level,
                        logger,
                        message,
                    };
                    assert(e@ =~= EntryV {
                        timestamp: ts_parse(header@.timestamp).unwrap(),
                        lines: (header@.start, number),
                        file: file@,
                        actor: header@.actor,
                        thread: header@.thread,
                        level: header@.level,
                        logger: content_of(line@).unwrap().0,
                        message: content_of(line@).unwrap().1,
                    });
                    ContentMatch::Matched(e)
                },
                None => ContentMatch::InvalidTimestamp,
            }
        },
        None => ContentMatch::NoMatch,
    }
}

} // verus!
