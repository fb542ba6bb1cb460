use logs::collection::LogCollection;
use logs::entry::LogEntry;
use logs::merge::process_source;
use logs::report::{broker_ids, partition_ids, report_stats};
use logs::timestamp::Timestamp;

fn lines(v: &[&str]) -> Vec<String> {
    v.iter().map(|s| s.to_string()).collect()
}

fn header_line(ts: &str, actor: &str) -> String {
    format!("{ts} [{actor}] [thread-1] INFO")
}

#[test]
fn pair_produces_single_entry() {
    let mut c = LogCollection::new();
    let src = lines(&[
        "2023-06-01 17:28:06.904 [Broker-5-Startup] [Broker-5-zb-actors-3] INFO",
        "    SomeLogger - Starting up",
    ]);
    process_source(&mut c, "a.log", &src).unwrap();
    assert_eq!(c.len(), 1);
    let e = c.get(0);
    assert_eq!(e.lines, (0, 1));
    assert_eq!(e.file, "a.log");
    assert_eq!(e.message, "Starting up");
}

#[test]
fn unmatched_content_skips_two_lines() {
    // line 1 is itself header-shaped, but it follows a matched header, so it
    // is consumed as a failed content attempt and never retried as a header
    let mut c = LogCollection::new();
    let src = lines(&[
        "2023-06-01 17:28:06.904 [a] [b] INFO",
        "2023-06-01 17:28:07.000 [c] [d] INFO",
        "    SomeLogger - Starting up",
    ]);
    process_source(&mut c, "a.log", &src).unwrap();
    assert_eq!(c.len(), 0);
}

#[test]
fn non_header_lines_are_skipped_one_by_one() {
    let mut c = LogCollection::new();
    let src = lines(&[
        "noise",
        "2023-06-01 17:28:06.904 [a] [b] INFO",
        "    L - m",
        "more noise",
    ]);
    process_source(&mut c, "a.log", &src).unwrap();
    assert_eq!(c.len(), 1);
    assert_eq!(c.get(0).lines, (1, 2));
}

#[test]
fn duplicate_entries_are_absorbed() {
    let mut c = LogCollection::new();
    let src = lines(&[
        "2023-06-01 17:28:06.904 [a] [b] INFO",
        "    L - m",
    ]);
    process_source(&mut c, "a.log", &src).unwrap();
    process_source(&mut c, "a.log", &src).unwrap();
    assert_eq!(c.len(), 1);
}

#[test]
fn direct_duplicate_insert_is_absorbed() {
    let mut c = LogCollection::new();
    let make = || LogEntry {
        timestamp: Timestamp {
            year: 2023,
            month: 6,
            day: 1,
            hour: 17,
            minute: 28,
            second: 6,
            millis: 904,
        },
        lines: (0, 1),
        file: "f".to_string(),
        actor: logs::actor::decompose_actor("Broker-5-Startup"),
        thread: "t".to_string(),
        level: "INFO".to_string(),
        logger: "L".to_string(),
        message: "m".to_string(),
    };
    c.insert(make());
    c.insert(make());
    assert_eq!(c.len(), 1);
}

#[test]
fn merge_two_sources_globally_sorted() {
    let mut c = LogCollection::new();
    let src_a = vec![
        header_line("2023-06-01 17:28:07.000", "a"),
        "    L - second".to_string(),
        header_line("2023-06-01 17:28:09.000", "a"),
        "    L - fourth".to_string(),
    ];
    let src_b = vec![
        header_line("2023-06-01 17:28:06.000", "a"),
        "    L - first".to_string(),
        header_line("2023-06-01 17:28:08.000", "a"),
        "    L - third".to_string(),
    ];
    process_source(&mut c, "a.log", &src_a).unwrap();
    process_source(&mut c, "b.log", &src_b).unwrap();
    assert_eq!(c.len(), 4);
    let msgs: Vec<&str> = (0..4).map(|i| c.get(i).message.as_str()).collect();
    assert_eq!(msgs, vec!["first", "second", "third", "fourth"]);

    // the same sources in the other order give the same collection
    let mut d = LogCollection::new();
    process_source(&mut d, "b.log", &src_b).unwrap();
    process_source(&mut d, "a.log", &src_a).unwrap();
    assert_eq!(d.len(), 4);
    for i in 0..4 {
        assert_eq!(c.get(i).message, d.get(i).message);
        assert_eq!(c.get(i).file, d.get(i).file);
        assert_eq!(c.get(i).lines, d.get(i).lines);
    }
}

#[test]
fn equal_timestamps_break_ties_by_file() {
    let mut c = LogCollection::new();
    let src = vec![
        header_line("2023-06-01 17:28:06.904", "a"),
        "    L - m".to_string(),
    ];
    process_source(&mut c, "b.log", &src).unwrap();
    process_source(&mut c, "a.log", &src).unwrap();
    assert_eq!(c.len(), 2);
    assert_eq!(c.get(0).file, "a.log");
    assert_eq!(c.get(1).file, "b.log");
}

#[test]
fn earlier_timestamp_sorts_first_across_calendar_fields() {
    let mut c = LogCollection::new();
    let src = vec![
        header_line("2024-01-01 00:00:00.000", "a"),
        "    L - newer".to_string(),
        header_line("2023-12-31 23:59:59.999", "a"),
        "    L - older".to_string(),
    ];
    process_source(&mut c, "a.log", &src).unwrap();
    assert_eq!(c.get(0).message, "older");
    assert_eq!(c.get(1).message, "newer");
}

#[test]
fn rate_of_ten_entries_over_five_seconds_is_two() {
    let mut c = LogCollection::new();
    let mut v: Vec<String> = Vec::new();
    for i in 0..10u32 {
        let ts = format!("2023-06-01 17:28:0{}.{:03}", i / 2, if i % 2 == 1 { 500 } else { 0 });
        v.push(header_line(&ts, "a"));
        v.push(format!("    L - msg{i}"));
    }
    // timestamps run 17:28:00.000 .. 17:28:04.500; stretch the last to 05.000
    v[18] = header_line("2023-06-01 17:28:05.000", "a");
    process_source(&mut c, "a.log", &v).unwrap();
    let st = report_stats(&c).unwrap();
    assert_eq!(st.count, 10);
    assert_eq!(st.span_seconds, 5);
    assert_eq!(st.rate_centi, Some(200));
}

#[test]
fn zero_span_rate_is_undefined() {
    let mut c = LogCollection::new();
    let src = vec![
        header_line("2023-06-01 17:28:06.904", "a"),
        "    L - m".to_string(),
    ];
    process_source(&mut c, "a.log", &src).unwrap();
    let st = report_stats(&c).unwrap();
    assert_eq!(st.count, 1);
    assert_eq!(st.span_seconds, 0);
    assert_eq!(st.rate_centi, None);
}

#[test]
fn empty_collection_has_no_stats() {
    let c = LogCollection::new();
    assert!(report_stats(&c).is_none());
}

#[test]
fn broker_and_partition_sets_are_distinct_and_ascending() {
    let mut c = LogCollection::new();
    let src = vec![
        header_line("2023-06-01 17:28:00.000", "Broker-5-Startup"),
        "    L - a".to_string(),
        header_line("2023-06-01 17:28:01.000", "Broker-2-Raft-7"),
        "    L - b".to_string(),
        header_line("2023-06-01 17:28:02.000", "Broker-2-Log-3"),
        "    L - c".to_string(),
        header_line("2023-06-01 17:28:03.000", "plain"),
        "    L - d".to_string(),
    ];
    process_source(&mut c, "a.log", &src).unwrap();
    assert_eq!(c.len(), 4);
    assert_eq!(broker_ids(&c), vec![2, 5]);
    assert_eq!(partition_ids(&c), vec![3, 7]);
}

#[test]
fn invalid_timestamp_is_a_reported_error() {
    let mut c = LogCollection::new();
    let src = lines(&[
        "2023-13-01 17:28:06.904 [a] [b] INFO",
        "    L - m",
    ]);
    assert_eq!(process_source(&mut c, "a.log", &src), Err(0));
}
