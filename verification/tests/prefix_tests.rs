use netblocks::prefix::Prefix;
use netblocks::prefix::parse_cidr;
use netblocks::prefix::parse_subnet_list;

fn v4(a: u128, b: u128, c: u128, d: u128, len: u8) -> Prefix {
    Prefix { v6: false, addr: (a << 24) | (b << 16) | (c << 8) | d, len }
}

#[test]
fn parse_cidr_v4() {
    let (p, raw) = parse_cidr("10.0.0.0/8").unwrap();
    assert_eq!(p, v4(10, 0, 0, 0, 8));
    assert_eq!(raw, 10u128 << 24);
}

#[test]
fn parse_cidr_masks_host_bits() {
    let (p, raw) = parse_cidr("10.1.2.3/8").unwrap();
    assert_eq!(p, v4(10, 0, 0, 0, 8));
    assert_eq!(raw, (10u128 << 24) | (1 << 16) | (2 << 8) | 3);
}

#[test]
fn parse_cidr_v6() {
    let (p, _) = parse_cidr("2001:db8::/32").unwrap();
    assert!(p.v6);
    assert_eq!(p.len, 32);
    assert_eq!(p.addr, 0x2001_0db8u128 << 96);
}

#[test]
fn parse_cidr_rejects_bad_input() {
    assert!(parse_cidr("banana").is_none());
    assert!(parse_cidr("10.0.0.0").is_none());
    assert!(parse_cidr("10.0.0.0/33").is_none());
    assert!(parse_cidr("").is_none());
}

#[test]
fn new_rejects_out_of_range() {
    assert!(Prefix::new(false, 0, 33).is_none());
    assert!(Prefix::new(false, 1u128 << 32, 8).is_none());
    assert!(Prefix::new(true, 0, 129).is_none());
    assert!(Prefix::new(true, 0, 128).is_some());
}

#[test]
fn new_normalizes() {
    let p = Prefix::new(false, (10u128 << 24) | 12345, 8).unwrap();
    assert_eq!(p, v4(10, 0, 0, 0, 8));
}

#[test]
fn last_addr_of_v4_block() {
    let p = v4(10, 0, 0, 0, 8);
    assert_eq!(p.last_addr(), (10u128 << 24) | 0x00FF_FFFF);
    let q = v4(10, 5, 0, 0, 16);
    assert_eq!(q.last_addr(), (10u128 << 24) | (5 << 16) | 0xFFFF);
}

#[test]
fn contains_nested_blocks() {
    let big = v4(10, 0, 0, 0, 8);
    let small = v4(10, 5, 0, 0, 16);
    assert!(big.contains(&small));
    assert!(!small.contains(&big));
    assert!(big.contains(&big));
}

#[test]
fn contains_respects_family() {
    let four = v4(10, 0, 0, 0, 8);
    let six = Prefix { v6: true, addr: four.addr, len: 8 };
    assert!(!four.contains(&six));
    assert!(!six.contains(&four));
}

#[test]
fn covers_addr_boundaries() {
    let p = v4(10, 5, 0, 0, 16);
    assert!(p.covers_addr(false, (10u128 << 24) | (5 << 16)));
    assert!(p.covers_addr(false, (10u128 << 24) | (5 << 16) | 0xFFFF));
    assert!(!p.covers_addr(false, (10u128 << 24) | (6 << 16)));
    assert!(!p.covers_addr(true, (10u128 << 24) | (5 << 16)));
}

#[test]
fn split_halves_v4() {
    let p = v4(10, 0, 0, 0, 8);
    let (lo, hi) = p.split();
    assert_eq!(lo, v4(10, 0, 0, 0, 9));
    assert_eq!(hi, v4(10, 128, 0, 0, 9));
}

#[test]
fn parse_subnet_list_parses_all() {
    let texts = vec![String::from("10.0.0.0/8"), String::from("192.168.1.2/16")];
    let parsed = parse_subnet_list(&texts).unwrap();
    assert_eq!(parsed, vec![v4(10, 0, 0, 0, 8), v4(192, 168, 0, 0, 16)]);
}

#[test]
fn parse_subnet_list_empty_is_no_exclusion() {
    assert_eq!(parse_subnet_list(&vec![]).unwrap(), vec![]);
}

#[test]
fn parse_subnet_list_rejects_malformed() {
    // A text that does not parse is a malformed input naming its position,
    // not a silently skipped entry.
    let texts = vec![
        String::from("10.0.0.0/8"),
        String::from("junk"),
        String::from("192.168.0.0/16"),
    ];
    assert_eq!(parse_subnet_list(&texts).unwrap_err().index, 1);
    assert_eq!(parse_subnet_list(&vec![String::from("junk")]).unwrap_err().index, 0);
    assert_eq!(parse_subnet_list(&vec![String::from("10.0.0.0")]).unwrap_err().index, 0);
}
