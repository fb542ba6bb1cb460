use logs::actor::{dash_parts, decompose_actor, parse_u32};

#[test]
fn broker_three_part_token() {
    let a = decompose_actor("Broker-5-Startup");
    assert_eq!(a.broker, Some(5));
    assert_eq!(a.name, "Startup");
    assert_eq!(a.partition, None);
}

#[test]
fn broker_four_part_token() {
    let a = decompose_actor("Broker-5-Name-3");
    assert_eq!(a.broker, Some(5));
    assert_eq!(a.name, "Name");
    assert_eq!(a.partition, Some(3));
}

#[test]
fn five_part_token_is_generic() {
    let a = decompose_actor("Broker-5-zb-actors-3");
    assert_eq!(a.broker, None);
    assert_eq!(a.name, "Broker-5-zb-actors-3");
    assert_eq!(a.partition, None);
}

#[test]
fn non_broker_token_is_generic() {
    let a = decompose_actor("Worker-1");
    assert_eq!(a.broker, None);
    assert_eq!(a.name, "Worker-1");
    assert_eq!(a.partition, None);
}

#[test]
fn bad_numeric_subtoken_degrades_to_absent() {
    let a = decompose_actor("Broker-x-Name");
    assert_eq!(a.broker, None);
    assert_eq!(a.name, "Name");
    assert_eq!(a.partition, None);

    let a = decompose_actor("Broker-1-Name-y");
    assert_eq!(a.broker, Some(1));
    assert_eq!(a.name, "Name");
    assert_eq!(a.partition, None);
}

#[test]
fn parse_u32_accepts_what_std_accepts() {
    assert_eq!(parse_u32("0"), Some(0));
    assert_eq!(parse_u32("+5"), Some(5));
    assert_eq!(parse_u32("4294967295"), Some(u32::MAX));
    assert_eq!(parse_u32("4294967296"), None);
    assert_eq!(parse_u32(""), None);
    assert_eq!(parse_u32("+"), None);
    assert_eq!(parse_u32("1a"), None);
    assert_eq!(parse_u32("-1"), None);
    assert_eq!(parse_u32(" 1"), None);
    // cross-check against the standard library on the same inputs
    for s in ["0", "+5", "4294967295", "4294967296", "", "+", "1a", "-1", " 1", "007"] {
        assert_eq!(parse_u32(s), s.parse::<u32>().ok());
    }
}

#[test]
fn dash_parts_keeps_empty_parts() {
    assert_eq!(dash_parts("a--b"), vec!["a", "", "b"]);
    assert_eq!(dash_parts(""), vec![""]);
    assert_eq!(dash_parts("-x"), vec!["", "x"]);
    assert_eq!(dash_parts("x-"), vec!["x", ""]);
}
