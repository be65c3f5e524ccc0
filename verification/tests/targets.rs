use multiping::targets::{dotted_text, parse_targets};

fn names(parts: &[&str]) -> Vec<String> {
    parts.iter().map(|s| s.to_string()).collect()
}

#[test]
fn blank_input_has_no_targets() {
    assert_eq!(parse_targets(""), Vec::<String>::new());
    assert_eq!(parse_targets("  \t\n\u{a0}\u{3000} "), Vec::<String>::new());
}

#[test]
fn single_name_is_kept_without_margins() {
    assert_eq!(parse_targets("  example.com "), names(&["example.com"]));
    assert_eq!(parse_targets("8.8.8.8"), names(&["8.8.8.8"]));
    assert_eq!(parse_targets("::1"), names(&["::1"]));
    assert_eq!(parse_targets("日本.example"), names(&["日本.example"]));
}

#[test]
fn list_members_are_trimmed_and_empty_ones_dropped() {
    assert_eq!(parse_targets("a, b ,, c ,"), names(&["a", "b", "c"]));
    assert_eq!(parse_targets(" , "), Vec::<String>::new());
    assert_eq!(parse_targets("10.0.0.0/30,10.0.0.1-9"), names(&["10.0.0.0/30", "10.0.0.1-9"]));
}

#[test]
fn list_gives_back_its_members() {
    let members = names(&["8.8.8.8", "one.one.one.one", "host-7", "fe80::1"]);
    assert_eq!(parse_targets(&members.join(",")), members);
}

#[test]
fn small_block() {
    assert_eq!(parse_targets("192.168.1.0/30"), names(&["192.168.1.1", "192.168.1.2"]));
    assert_eq!(parse_targets("192.168.1.7/30"), names(&["192.168.1.5", "192.168.1.6"]));
    assert_eq!(
        parse_targets("10.0.0.255/29"),
        names(&["10.0.0.249", "10.0.0.250", "10.0.0.251", "10.0.0.252", "10.0.0.253", "10.0.0.254"])
    );
}

#[test]
fn block_of_24_bits_gives_1_to_254() {
    let expected: Vec<String> = (1..=254).map(|i| format!("192.168.1.{i}")).collect();
    assert_eq!(parse_targets("192.168.1.0/24"), expected);
    assert_eq!(parse_targets("192.168.1.77/+24"), expected);
}

#[test]
fn block_across_octets() {
    let all = parse_targets("172.16.255.9/22");
    assert_eq!(all.len(), 1022);
    assert_eq!(all[0], "172.16.252.1");
    assert_eq!(all[255], "172.16.253.0");
    assert_eq!(all[1021], "172.16.255.254");
}

#[test]
fn block_at_the_end_of_the_address_space() {
    let all = parse_targets("255.255.255.255/28");
    assert_eq!(all.len(), 14);
    assert_eq!(all[0], "255.255.255.241");
    assert_eq!(all[13], "255.255.255.254");
}

#[test]
fn octets_above_255_overlap() {
    // 256 in the third octet is bit 16, which belongs to the second one.
    assert_eq!(parse_targets("10.0.256.0/30"), names(&["10.1.0.1", "10.1.0.2"]));
    assert_eq!(parse_targets("257.0.0.0/30"), names(&["1.0.0.1", "1.0.0.2"]));
}

#[test]
fn bad_blocks_have_no_targets() {
    for input in [
        "192.168.1.0/31",
        "192.168.1.0/32",
        "192.168.1.0/0",
        "192.168.1.0/300",
        "192.168.1.0/",
        "192.168.1.0/x",
        "192.168.1/24",
        "192.168.1.0.1/24",
        "192.168.one.0/24",
        "192.168..0/24",
        "4294967296.0.0.0/24",
        "/24",
        "a/b",
        "192.168.1.0/24/8",
    ] {
        assert_eq!(parse_targets(input), Vec::<String>::new(), "{input}");
    }
}

#[test]
fn range_of_last_octets() {
    assert_eq!(
        parse_targets("192.168.1.1-3"),
        names(&["192.168.1.1", "192.168.1.2", "192.168.1.3"])
    );
    assert_eq!(parse_targets("10.0.0.7-7"), names(&["10.0.0.7"]));
    assert_eq!(parse_targets("10.0.0.0-254").len(), 255);
    assert_eq!(parse_targets("lab.1-2"), names(&["lab.1", "lab.2"]));
    assert_eq!(parse_targets(".1-2"), names(&[".1", ".2"]));
    assert_eq!(parse_targets("x.+1-+2"), names(&["x.1", "x.2"]));
    assert_eq!(parse_targets("x.01-002"), names(&["x.1", "x.2"]));
}

#[test]
fn what_is_no_range_is_a_name() {
    for input in [
        "10.0.0.9-3",
        "10.0.0.1-255",
        "10.0.0.1-",
        "10.0.0.-5",
        "10.0.0.1-2-3",
        "10.0.0.a-b",
        "my-host.example",
        "my-host",
        "10.0.0.1-99999999999",
    ] {
        assert_eq!(parse_targets(input), names(&[input]), "{input}");
    }
}

#[test]
fn targets_of_a_block_are_all_different() {
    let all = parse_targets("10.1.2.3/20");
    assert_eq!(all.len(), 4094);
    let set: std::collections::HashSet<&String> = all.iter().collect();
    assert_eq!(set.len(), all.len());
    assert!(!set.contains(&"10.1.0.0".to_string()));
    assert!(!set.contains(&"10.1.15.255".to_string()));
}

#[test]
fn dotted_notation() {
    assert_eq!(dotted_text(0), "0.0.0.0");
    assert_eq!(dotted_text(0xffff_ffff), "255.255.255.255");
    assert_eq!(dotted_text(0x0102_0a64), "1.2.10.100");
}
