use netblocks::exclude::exclude;
use netblocks::exclude::exclude_subnets;
use netblocks::exclude::find_netblocks;
use netblocks::prefix::Prefix;

fn v4(a: u128, b: u128, c: u128, d: u128, len: u8) -> Prefix {
    Prefix { v6: false, addr: (a << 24) | (b << 16) | (c << 8) | d, len }
}

fn disjoint(x: &Prefix, y: &Prefix) -> bool {
    x.v6 != y.v6 || x.last_addr() < y.addr || y.last_addr() < x.addr
}

#[test]
fn exclude_identity_same_prefix() {
    let c = v4(10, 0, 0, 0, 8);
    assert_eq!(exclude(&c, &c), vec![]);
}

#[test]
fn exclude_identity_disjoint() {
    let c = v4(10, 0, 0, 0, 8);
    let e = v4(192, 168, 0, 0, 16);
    assert_eq!(exclude(&c, &e), vec![c]);
}

#[test]
fn exclude_other_family_unchanged() {
    let c = v4(10, 0, 0, 0, 8);
    let e = Prefix { v6: true, addr: c.addr, len: 8 };
    assert_eq!(exclude(&c, &e), vec![c]);
}

#[test]
fn exclude_scenario_ten_slash_eight() {
    // Candidate 10.0.0.0/8, excluded 10.5.0.0/16: one sibling per halving
    // step, low half before high half.
    let c = v4(10, 0, 0, 0, 8);
    let e = v4(10, 5, 0, 0, 16);
    let r = exclude(&c, &e);
    assert_eq!(r.len(), 8);
    assert_eq!(
        r,
        vec![
            v4(10, 0, 0, 0, 14),
            v4(10, 4, 0, 0, 16),
            v4(10, 6, 0, 0, 15),
            v4(10, 8, 0, 0, 13),
            v4(10, 16, 0, 0, 12),
            v4(10, 32, 0, 0, 11),
            v4(10, 64, 0, 0, 10),
            v4(10, 128, 0, 0, 9),
        ]
    );
    // Pairwise disjoint, none overlaps the excluded prefix, and together
    // with the excluded prefix they reconstruct the candidate exactly.
    for i in 0..r.len() {
        assert!(disjoint(&r[i], &e));
        assert!(c.contains(&r[i]));
        for j in 0..r.len() {
            if i != j {
                assert!(disjoint(&r[i], &r[j]));
            }
        }
    }
    let total: u128 = r.iter().map(|p| p.last_addr() - p.addr + 1).sum();
    assert_eq!(total + (e.last_addr() - e.addr + 1), c.last_addr() - c.addr + 1);
}

#[test]
fn exclude_half_leaves_other_half() {
    let c = v4(10, 0, 0, 0, 8);
    let e = v4(10, 128, 0, 0, 9);
    assert_eq!(exclude(&c, &e), vec![v4(10, 0, 0, 0, 9)]);
}

#[test]
fn exclude_subnets_drops_covered_and_splits() {
    let prefixes = vec![v4(10, 0, 0, 0, 8), v4(192, 168, 0, 0, 16), v4(172, 16, 0, 0, 12)];
    let excluded = vec![v4(10, 5, 0, 0, 16), v4(192, 168, 0, 0, 16)];
    let r = exclude_subnets(&prefixes, &excluded);
    // 192.168.0.0/16 is dropped entirely, 10.0.0.0/8 is split into eight
    // pieces, 172.16.0.0/12 passes through untouched.
    assert_eq!(r.len(), 9);
    assert!(r.contains(&v4(172, 16, 0, 0, 12)));
    assert!(!r.contains(&v4(192, 168, 0, 0, 16)));
    for p in &r {
        for e in &excluded {
            assert!(disjoint(p, e));
        }
    }
}

#[test]
fn exclude_subnets_no_exclusions() {
    let prefixes = vec![v4(10, 0, 0, 0, 8)];
    let r = exclude_subnets(&prefixes, &vec![]);
    assert_eq!(r, prefixes);
}

#[test]
fn exclude_subnets_drops_prefix_equal_to_exclusion() {
    let prefixes = vec![v4(10, 0, 0, 0, 8)];
    let excluded = vec![v4(10, 0, 0, 0, 8)];
    assert_eq!(exclude_subnets(&prefixes, &excluded), vec![]);
}

#[test]
fn exclude_subnets_drops_prefix_inside_exclusion() {
    let prefixes = vec![v4(10, 5, 0, 0, 16)];
    let excluded = vec![v4(10, 0, 0, 0, 8)];
    assert_eq!(exclude_subnets(&prefixes, &excluded), vec![]);
}

#[test]
fn find_netblocks_aggregates_adjacent() {
    let prefixes = vec![v4(10, 0, 0, 0, 9), v4(10, 128, 0, 0, 9)];
    let r = find_netblocks(&prefixes, &vec![]);
    assert_eq!(r, vec![v4(10, 0, 0, 0, 8)]);
}

#[test]
fn find_netblocks_excludes_then_aggregates() {
    let prefixes = vec![v4(10, 0, 0, 0, 8)];
    let excluded = vec![v4(10, 5, 0, 0, 16)];
    let r = find_netblocks(&prefixes, &excluded);
    // The eight split pieces are already maximal: nothing merges.
    assert_eq!(r.len(), 8);
    let e = v4(10, 5, 0, 0, 16);
    for p in &r {
        assert!(disjoint(p, &e));
    }
    let total: u128 = r.iter().map(|p| p.last_addr() - p.addr + 1).sum();
    assert_eq!(total, (1u128 << 24) - (1u128 << 16));
}

#[test]
fn exclude_v6_scenario() {
    let c = Prefix { v6: true, addr: 0x2001_0db8u128 << 96, len: 32 };
    let e = Prefix { v6: true, addr: (0x2001_0db8u128 << 96) | (1u128 << 94), len: 34 };
    let r = exclude(&c, &e);
    assert_eq!(r.len(), 2);
    assert_eq!(
        r,
        vec![
            Prefix { v6: true, addr: 0x2001_0db8u128 << 96, len: 34 },
            Prefix { v6: true, addr: (0x2001_0db8u128 << 96) | (1u128 << 95), len: 33 },
        ]
    );
    for piece in &r {
        assert!(disjoint(piece, &e));
        assert!(c.contains(piece));
    }
}

#[test]
fn find_netblocks_aggregates_v6() {
    let prefixes = vec![
        Prefix { v6: true, addr: 0x2001_0db8u128 << 96, len: 33 },
        Prefix { v6: true, addr: (0x2001_0db8u128 << 96) | (1u128 << 95), len: 33 },
    ];
    let r = find_netblocks(&prefixes, &vec![]);
    assert_eq!(r, vec![Prefix { v6: true, addr: 0x2001_0db8u128 << 96, len: 32 }]);
}

#[test]
fn find_netblocks_merges_split_when_exclusion_restored() {
    // Excluding 10.5.0.0/16 and handing it back as a candidate must
    // aggregate back to the whole 10.0.0.0/8.
    let prefixes = vec![v4(10, 0, 0, 0, 8)];
    let excluded = vec![v4(10, 5, 0, 0, 16)];
    let mut pieces = exclude_subnets(&prefixes, &excluded);
    pieces.push(v4(10, 5, 0, 0, 16));
    let r = find_netblocks(&pieces, &vec![]);
    assert_eq!(r, vec![v4(10, 0, 0, 0, 8)]);
}
