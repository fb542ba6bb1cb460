use logs::parse::{log_header, log_message, ContentMatch};
use regex::Regex;

#[test]
fn end_to_end_pair() {
    let h = log_header(
        "2023-06-01 17:28:06.904 [Broker-5-Startup] [Broker-5-zb-actors-3] INFO",
        0,
    )
    .unwrap();
    assert_eq!(h.start, 0);
    assert_eq!(h.timestamp, "2023-06-01 17:28:06.904");
    assert_eq!(h.actor.broker, Some(5));
    assert_eq!(h.actor.name, "Startup");
    assert_eq!(h.actor.partition, None);
    assert_eq!(h.thread, "Broker-5-zb-actors-3");
    assert_eq!(h.level, "INFO");
    match log_message(h, "    SomeLogger - Starting up", 1, "stdin") {
        ContentMatch::Matched(e) => {
            assert_eq!(e.timestamp.year, 2023);
            assert_eq!(e.timestamp.month, 6);
            assert_eq!(e.timestamp.day, 1);
            assert_eq!(e.timestamp.hour, 17);
            assert_eq!(e.timestamp.minute, 28);
            assert_eq!(e.timestamp.second, 6);
            assert_eq!(e.timestamp.millis, 904);
            assert_eq!(e.lines, (0, 1));
            assert_eq!(e.file, "stdin");
            assert_eq!(e.actor.broker, Some(5));
            assert_eq!(e.actor.name, "Startup");
            assert_eq!(e.actor.partition, None);
            assert_eq!(e.thread, "Broker-5-zb-actors-3");
            assert_eq!(e.level, "INFO");
            assert_eq!(e.logger, "SomeLogger");
            assert_eq!(e.message, "Starting up");
        }
        _ => panic!("expected a completed record"),
    }
}

#[test]
fn header_rejects_plain_line() {
    assert!(log_header("nothing to see here", 0).is_none());
    assert!(log_header("", 0).is_none());
    assert!(log_header("2023-06-01 17:28:06.904", 0).is_none());
}

#[test]
fn header_matches_mid_line_and_ignores_trailing() {
    let h = log_header("xx 2023-06-01 17:28:06.904 [alpha] [beta] WARN trailing text", 3).unwrap();
    assert_eq!(h.start, 3);
    assert_eq!(h.timestamp, "2023-06-01 17:28:06.904");
    assert_eq!(h.actor.name, "alpha");
    assert_eq!(h.thread, "beta");
    assert_eq!(h.level, "WARN");
}

#[test]
fn lazy_actor_close_reopens_when_tail_fails() {
    let h = log_header("2023-06-01 17:28:06.904 [a]b] [c] INFO", 0).unwrap();
    assert_eq!(h.actor.name, "a]b");
    assert_eq!(h.thread, "c");
    assert_eq!(h.level, "INFO");
}

#[test]
fn content_requires_leading_whitespace_and_dash() {
    let h = log_header(
        "2023-06-01 17:28:06.904 [Broker-5-Startup] [t] INFO",
        0,
    )
    .unwrap();
    assert!(matches!(
        log_message(h, "Logger - msg", 1, "f"),
        ContentMatch::NoMatch
    ));
}

#[test]
fn invalid_month_is_reported() {
    let h = log_header("2023-13-01 17:28:06.904 [a] [b] INFO", 0).unwrap();
    assert!(matches!(
        log_message(h, "  L - m", 1, "f"),
        ContentMatch::InvalidTimestamp
    ));
}

#[test]
fn comma_before_millis_matches_header_but_fails_parse() {
    let h = log_header("2023-06-01 17:28:06,904 [a] [b] INFO", 0).unwrap();
    assert_eq!(h.timestamp, "2023-06-01 17:28:06,904");
    assert!(matches!(
        log_message(h, "  L - m", 1, "f"),
        ContentMatch::InvalidTimestamp
    ));
}

#[test]
fn leap_day_is_valid_only_in_leap_years() {
    let h = log_header("2024-02-29 00:00:00.000 [a] [b] INFO", 0).unwrap();
    assert!(matches!(
        log_message(h, "  L - m", 1, "f"),
        ContentMatch::Matched(_)
    ));
    let h = log_header("2023-02-29 00:00:00.000 [a] [b] INFO", 0).unwrap();
    assert!(matches!(
        log_message(h, "  L - m", 1, "f"),
        ContentMatch::InvalidTimestamp
    ));
}

const HEADER_PATTERN: &str = r"(?x)
    (?P<timestamp>\d{4}-\d{2}-\d{2}\s\d{2}:\d{2}:\d{2}.\d{3})
    \s+
    \[(?P<actor>.+?)\]
    \s+
    \[(?P<thread>.+?)\]
    \s+
    (?P<level>[^\s]+)";

#[test]
fn header_agrees_with_reference_pattern() {
    let re = Regex::new(HEADER_PATTERN).unwrap();
    // actor tokens chosen so the decomposed name equals the raw capture
    let cases = [
        "2023-06-01 17:28:06.904 [alpha] [beta] INFO",
        "junk 2023-06-01 17:28:06.904  [x y]  [z]   LEVEL more",
        "2023-06-01 17:28:06.904 [a]b] [c] INFO",
        "2023-06-01 17:28:06,904 [a[b] [c] D",
        "2023-06-01\t17:28:06.904 [a] [b] C",
        "2023-06-01 17:28:06.904 [a] [b]",
        "2023-06-01 17:28:06.904 [] [b] INFO",
        "no match at all",
        "2023-06-01 17:28:06.904 [a] [b] I 2022-01-01 00:00:00.000 [q] [r] S",
        "1111-11-11 11:11:11.111 x 2023-06-01 17:28:06.904 [late] [b] INFO",
        "2023-06-01 17:28:06.904 [a] [b] [c] X",
        "2023-06-01 17:28:06.904   [ spaced actor ]  [b] L",
        "2023-06-01 17:28:06.904 [a] [b]  ",
        "2023-06-01 17:28:06.904 [a][b] INFO",
        "2023-06-01 17:28:06.904 [[a]] [b] INFO",
    ];
    for line in cases {
        let got = log_header(line, 0);
        let want = re.captures(line);
        match (&got, &want) {
            (None, None) => {}
            (Some(h), Some(c)) => {
                assert_eq!(h.timestamp, &c["timestamp"], "timestamp for {line:?}");
                assert_eq!(h.actor.name, &c["actor"], "actor for {line:?}");
                assert_eq!(h.thread, &c["thread"], "thread for {line:?}");
                assert_eq!(h.level, &c["level"], "level for {line:?}");
            }
            _ => panic!("match disagreement on {line:?}: {got:?} vs {want:?}"),
        }
    }
}

const CONTENT_PATTERN: &str = r"(?x)
    \s+
    (?P<logger>[^\s]+)
    \s+
    -
    \s+
    (?P<message>.+)
";

#[test]
fn content_agrees_with_reference_pattern() {
    let re = Regex::new(CONTENT_PATTERN).unwrap();
    let cases = [
        "    SomeLogger - Starting up",
        "  a-b - keeps - everything after",
        "\tL\t-\tm",
        " x - ",
        " x -  ",
        "Logger - msg",
        "   onlylogger",
        " - - x",
        "  a - b - c",
        "  - ",
        " x-y -",
        "  lg  -  padded message  ",
    ];
    for line in cases {
        let h = log_header("2023-06-01 17:28:06.904 [a] [b] INFO", 0).unwrap();
        let got = log_message(h, line, 1, "f");
        let want = re.captures(line);
        match (&got, &want) {
            (ContentMatch::NoMatch, None) => {}
            (ContentMatch::Matched(e), Some(c)) => {
                assert_eq!(e.logger, &c["logger"], "logger for {line:?}");
                assert_eq!(e.message, &c["message"], "message for {line:?}");
            }
            _ => panic!("match disagreement on {line:?}: {want:?}"),
        }
    }
}

fn expected_actor(tok: &str) -> (Option<u32>, String, Option<u32>) {
    let parts: Vec<&str> = tok.split('-').collect();
    match parts[..] {
        ["Broker", b, n] => (b.parse().ok(), n.to_string(), None),
        ["Broker", b, n, p] => (b.parse().ok(), n.to_string(), p.parse().ok()),
        _ => (None, tok.to_string(), None),
    }
}

#[test]
fn pseudo_random_lines_agree_with_reference_patterns() {
    let header_re = Regex::new(HEADER_PATTERN).unwrap();
    let content_re = Regex::new(CONTENT_PATTERN).unwrap();
    let alphabet: Vec<char> = "0123456789-: .[]ab \t-".chars().collect();
    let mut state: u64 = 0x2545F4914F6CDD1D;
    let mut next = move || {
        state ^= state << 13;
        state ^= state >> 7;
        state ^= state << 17;
        state
    };
    for round in 0..600 {
        let len = (next() % 48) as usize;
        let mut line = String::new();
        if round % 3 == 0 {
            // seed with a near-timestamp prefix so the header path is hit often
            line.push_str("2023-06-01 17:28:06.904 ");
        }
        for _ in 0..len {
            line.push(alphabet[(next() as usize) % alphabet.len()]);
        }
        let got = log_header(&line, 7);
        let want = header_re.captures(&line);
        match (&got, &want) {
            (None, None) => {}
            (Some(h), Some(c)) => {
                assert_eq!(h.start, 7);
                assert_eq!(h.timestamp, &c["timestamp"], "timestamp for {line:?}");
                let (broker, name, partition) = expected_actor(&c["actor"]);
                assert_eq!(h.actor.broker, broker, "broker for {line:?}");
                assert_eq!(h.actor.name, name, "actor name for {line:?}");
                assert_eq!(h.actor.partition, partition, "partition for {line:?}");
                assert_eq!(h.thread, &c["thread"], "thread for {line:?}");
                assert_eq!(h.level, &c["level"], "level for {line:?}");
            }
            _ => panic!("header disagreement on {line:?}: {got:?} vs {want:?}"),
        }
        let h = log_header("2023-06-01 17:28:06.904 [a] [b] INFO", 0).unwrap();
        let got = log_message(h, &line, 1, "f");
        let want = content_re.captures(&line);
        match (&got, &want) {
            (ContentMatch::NoMatch, None) => {}
            (ContentMatch::Matched(e), Some(c)) => {
                assert_eq!(e.logger, &c["logger"], "logger for {line:?}");
                assert_eq!(e.message, &c["message"], "message for {line:?}");
            }
            _ => panic!("content disagreement on {line:?}: {want:?}"),
        }
    }
}
