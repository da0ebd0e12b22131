use netscan::net::{expand_block, expand_targets, parse_cidr, split_targets, Block, IpAddress, ParseError};
use netscan::scan::{parse_ports_range, port_result, ScanResult};

fn v4(a: u8, b: u8, c: u8, d: u8) -> IpAddress {
    IpAddress { v6: false, bits: u32::from_be_bytes([a, b, c, d]) as u128 }
}

#[test]
fn single_port() {
    assert_eq!(parse_ports_range("80"), vec![80]);
}

#[test]
fn port_range_inclusive() {
    assert_eq!(parse_ports_range("20-25"), vec![20, 21, 22, 23, 24, 25]);
}

#[test]
fn port_range_single_element() {
    assert_eq!(parse_ports_range("443-443"), vec![443]);
}

#[test]
fn port_range_reversed_is_empty() {
    assert_eq!(parse_ports_range("25-20"), Vec::<u16>::new());
}

#[test]
fn port_range_full() {
    let r = parse_ports_range("0-65535");
    assert_eq!(r.len(), 65536);
    assert_eq!(r[0], 0);
    assert_eq!(r[65535], 65535);
}

#[test]
fn port_out_of_range_dropped() {
    assert_eq!(parse_ports_range("65536"), Vec::<u16>::new());
    assert_eq!(parse_ports_range("1-70000"), Vec::<u16>::new());
}

#[test]
fn port_malformed_dropped() {
    assert_eq!(parse_ports_range("abc"), Vec::<u16>::new());
    assert_eq!(parse_ports_range(""), Vec::<u16>::new());
    assert_eq!(parse_ports_range("1-2-3"), Vec::<u16>::new());
    assert_eq!(parse_ports_range("-5"), Vec::<u16>::new());
    assert_eq!(parse_ports_range("5-"), Vec::<u16>::new());
    assert_eq!(parse_ports_range(" 80"), Vec::<u16>::new());
}

#[test]
fn port_plus_sign_and_leading_zeros() {
    assert_eq!(parse_ports_range("+8"), vec![8]);
    assert_eq!(parse_ports_range("0080"), vec![80]);
    assert_eq!(parse_ports_range("+"), Vec::<u16>::new());
}

#[test]
fn port_result_classifies() {
    assert_eq!(port_result(22, true), ScanResult { port: 22, is_open: true });
    assert_eq!(port_result(23, false), ScanResult { port: 23, is_open: false });
}

#[test]
fn bare_address_expands_to_itself() {
    let r = parse_cidr("10.0.0.5").unwrap();
    assert_eq!(r, vec![v4(10, 0, 0, 5)]);
}

#[test]
fn cidr_block_expands_ascending() {
    let r = parse_cidr("10.0.0.0/30").unwrap();
    assert_eq!(r, vec![v4(10, 0, 0, 0), v4(10, 0, 0, 1), v4(10, 0, 0, 2), v4(10, 0, 0, 3)]);
}

#[test]
fn cidr_block_unaligned_address_uses_network() {
    let r = parse_cidr("192.168.1.77/30").unwrap();
    assert_eq!(r, vec![v4(192, 168, 1, 76), v4(192, 168, 1, 77), v4(192, 168, 1, 78), v4(192, 168, 1, 79)]);
}

#[test]
fn cidr_block_count_matches_capacity() {
    assert_eq!(parse_cidr("172.16.0.0/20").unwrap().len(), 4096);
    assert_eq!(parse_cidr("172.16.0.0/32").unwrap().len(), 1);
}

#[test]
fn ipv6_block_expands() {
    let r = parse_cidr("2001:db8::/126").unwrap();
    let base: u128 = 0x2001_0db8_0000_0000_0000_0000_0000_0000;
    let expected: Vec<IpAddress> = (0..4).map(|i| IpAddress { v6: true, bits: base + i }).collect();
    assert_eq!(r, expected);
    assert_eq!(parse_cidr("::1").unwrap(), vec![IpAddress { v6: true, bits: 1 }]);
}

#[test]
fn malformed_target_is_error() {
    assert_eq!(parse_cidr("not-an-address"), Err(ParseError::InvalidTarget));
    assert_eq!(parse_cidr("10.0.0.0/33"), Err(ParseError::InvalidTarget));
    assert_eq!(parse_cidr(""), Err(ParseError::InvalidTarget));
}

#[test]
fn expand_block_top_of_space() {
    let b = Block { v6: false, network: 0xffff_fffe, prefix: 31 };
    assert_eq!(expand_block(&b), vec![v4(255, 255, 255, 254), v4(255, 255, 255, 255)]);
    let b6 = Block { v6: true, network: u128::MAX - 1, prefix: 127 };
    assert_eq!(expand_block(&b6).len(), 2);
}

#[test]
fn expand_targets_skips_bad_tokens() {
    let targets = vec!["10.0.0.5".to_string(), "bogus".to_string(), "10.0.1.0/31".to_string()];
    assert_eq!(expand_targets(&targets), vec![v4(10, 0, 0, 5), v4(10, 0, 1, 0), v4(10, 0, 1, 1)]);
}

#[test]
fn split_targets_on_spaces() {
    assert_eq!(split_targets("10.0.0.1 10.0.0.0/30"), vec!["10.0.0.1".to_string(), "10.0.0.0/30".to_string()]);
    assert_eq!(split_targets("a  b"), vec!["a".to_string(), String::new(), "b".to_string()]);
    assert_eq!(split_targets(""), vec![String::new()]);
}
