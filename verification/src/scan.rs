//! Scanning a routing-table dump for the prefixes announced by a set of
//! origin ASNs: the external parser turns the dump's bytes into plain route
//! records, and the verified collector filters them by record type, address
//! family and origin ASN, normalizes each announced prefix and deduplicates
//! the result.

use vstd::prelude::*;

verus! {

use crate::exclude::all_wf;
use crate::prefix::Prefix;

/// One route element of a routing-table dump, reduced to plain values.
pub struct RouteRecord {
    /// True when the announced prefix is IPv6.
    pub v6: bool,
    /// The announced address, not necessarily aligned to the length.
    pub addr: u128,
    /// The announced prefix length.
    pub len: u8,
    /// The record is an announcement, not a withdrawal.
    pub announce: bool,
    /// The origin ASNs of the route, when the dump carries them.
    pub origins: Option<Vec<u32>>,
}

/// What the external MRT parser yields for a dump's bytes: its route
/// elements in order, parse-failed records skipped. The result depends on
/// the bytes alone.
pub uninterp spec fn mrt_records_of(data: Seq<u8>) -> Seq<RouteRecord>;

/// Relies on bgpkit-parser's BgpkitParser::from_reader and its element
/// iterator, which yields the per-prefix elements of an MRT dump in order
/// and skips what it cannot parse; the elements depend on the bytes alone.
#[verifier::external_body]
fn parse_mrt(data: &Vec<u8>) -> (r: Vec<RouteRecord>)
    ensures
        r@ == mrt_records_of(data@),
{
    let mut out: Vec<RouteRecord> = Vec::new();
    let parser = bgpkit_parser::BgpkitParser::from_reader(data.as_slice());
    for e in parser.into_elem_iter() {
        let (v6, addr, len) = match e.prefix.prefix {
            ipnet::IpNet::V4(n) => (false, u32::from(n.addr()) as u128, n.prefix_len()),
            ipnet::IpNet::V6(n) => (true, u128::from(n.addr()), n.prefix_len()),
        };
        let origins = e.origin_asns.map(|v| v.into_iter().map(|a| a.to_u32()).collect());
        out.push(RouteRecord { v6, addr, len, announce: e.elem_type.is_announce(), origins });
    }
    out
}

/// The record passes the scan's filter: it is an announcement, its address
/// family agrees with the requested restriction, and its origin-ASN list
/// intersects the requested set.
pub open spec fn record_matches_spec(
    rec: RouteRecord,
    asns: Seq<u32>,
    v4_only: bool,
    v6_only: bool,
) -> bool {
    &&& rec.announce
    &&& (v4_only ==> !rec.v6)
    &&& (v6_only ==> rec.v6)
    &&& (rec.origins matches Some(os) && exists|i: int|
        0 <= i < os@.len() && asns.contains(#[trigger] os@[i]))
}

/// The prefix the record announces, normalized; `None` when the record's
/// length or address is out of range for its family.
pub open spec fn record_prefix_spec(rec: RouteRecord) -> Option<Prefix> {
    Prefix::normalize_spec(rec.v6, rec.addr, rec.len)
}

/// Membership test on a list of ASNs.
fn contains_u32(v: &Vec<u32>, x: u32) -> (r: bool)
    ensures
        r == v@.contains(x),
{
    let mut i: usize = 0;
    while i < v.len()
        invariant
            i <= v.len(),
            forall|k: int| 0 <= k < i ==> v@[k] != x,
        decreases v.len() - i,
    {
        if v[i] == x {
            return true;
        }
        i = i + 1;
    }
    false
}

/// Membership test on a list of prefixes.
fn contains_prefix(v: &Vec<Prefix>, p: &Prefix) -> (r: bool)
    ensures
        r == v@.contains(*p),
{
    let mut i: usize = 0;
    while i < v.len()
        invariant
            i <= v.len(),
            forall|k: int| 0 <= k < i ==> v@[k] != *p,
        decreases v.len() - i,
    {
        if v[i] == *p {
            return true;
        }
        i = i + 1;
    }
    false
}

/// Whether the record passes the filter for the requested origin ASNs and
/// family restriction.
#[verifier::loop_isolation(false)]
fn record_matches(rec: &RouteRecord, asns: &Vec<u32>, v4_only: bool, v6_only: bool) -> (r: bool)
    ensures
        r == record_matches_spec(*rec, asns@, v4_only, v6_only),
{
    if !rec.announce {
        return false;
    }
    if v4_only && rec.v6 {
        return false;
    }
    if v6_only && !rec.v6 {
        return false;
    }
    match &rec.origins {
        None => false,
        Some(os) => {
            let mut i: usize = 0;
            while i < os.len()
                invariant
                    i <= os.len(),
                    forall|k: int| 0 <= k < i ==> !asns@.contains(#[trigger] os@[k]),
                decreases os.len() - i,
            {
                if contains_u32(asns, os[i]) {
                    proof {
                        let osv = rec.origins->Some_0;
                        assert(osv@ == os@);
                        assert(0 <= i < osv@.len() && asns@.contains(osv@[i as int]));
                        assert(exists|j: int|
                            0 <= j < osv@.len() && asns@.contains(#[trigger] osv@[j]));
                        assert(record_matches_spec(*rec, asns@, v4_only, v6_only));
                    }
                    return true;
                }
                i = i + 1;
            }
            false
        },
    }
}

/// The scanned prefix set is sound and complete for the records: the
/// prefixes are well-formed and deduplicated, and a prefix is in the set
/// exactly when some matching record announces it.
pub open spec fn scan_exact(
    r: Seq<Prefix>,
    records: Seq<RouteRecord>,
    asns: Seq<u32>,
    v4_only: bool,
    v6_only: bool,
) -> bool {
    &&& all_wf(r)
    &&& r.no_duplicates()
    &&& forall|p: Prefix|
        r.contains(p) <==> exists|k: int|
            0 <= k < records.len() && record_matches_spec(
                #[trigger] records[k],
                asns,
                v4_only,
                v6_only,
            ) && record_prefix_spec(records[k]) == Some(p)
}

/// A record that adds nothing — it fails the filter, announces nothing
/// normalizable, or announces a prefix already in the set — leaves the
/// collected set exact.
proof fn lemma_collect_unchanged(
    out: Seq<Prefix>,
    taken: Seq<RouteRecord>,
    rec: RouteRecord,
    asns: Seq<u32>,
    v4_only: bool,
    v6_only: bool,
)
    requires
        scan_exact(out, taken, asns, v4_only, v6_only),
        !record_matches_spec(rec, asns, v4_only, v6_only) || record_prefix_spec(rec) is None || (
        record_prefix_spec(rec) matches Some(p) && out.contains(p)),
    ensures
        scan_exact(out, taken.push(rec), asns, v4_only, v6_only),
{
    let taken1 = taken.push(rec);
    assert forall|q: Prefix| out.contains(q) implies exists|t: int|
        0 <= t < taken1.len() && record_matches_spec(#[trigger] taken1[t], asns, v4_only, v6_only)
            && record_prefix_spec(taken1[t]) == Some(q) by {
        let t = choose|t: int|
            0 <= t < taken.len() && record_matches_spec(
                #[trigger] taken[t],
                asns,
                v4_only,
                v6_only,
            ) && record_prefix_spec(taken[t]) == Some(q);
        assert(taken1[t] == taken[t]);
    }
    assert forall|q: Prefix|
        (exists|t: int|
            0 <= t < taken1.len() && record_matches_spec(
                #[trigger] taken1[t],
                asns,
                v4_only,
                v6_only,
            ) && record_prefix_spec(taken1[t]) == Some(q)) implies out.contains(q) by {
        let t = choose|t: int|
            0 <= t < taken1.len() && record_matches_spec(
                #[trigger] taken1[t],
                asns,
                v4_only,
                v6_only,
            ) && record_prefix_spec(taken1[t]) == Some(q);
        if t < taken.len() {
            assert(taken[t] == taken1[t]);
        } else {
            assert(taken1[t] == rec);
        }
    }
}

/// A matching record announcing a prefix not yet in the set extends the
/// collected set by exactly that prefix and keeps it exact.
proof fn lemma_collect_insert(
    out: Seq<Prefix>,
    taken: Seq<RouteRecord>,
    rec: RouteRecord,
    p: Prefix,
    asns: Seq<u32>,
    v4_only: bool,
    v6_only: bool,
)
    requires
        scan_exact(out, taken, asns, v4_only, v6_only),
        record_matches_spec(rec, asns, v4_only, v6_only),
        record_prefix_spec(rec) == Some(p),
        !out.contains(p),
        p.wf(),
    ensures
        scan_exact(out.push(p), taken.push(rec), asns, v4_only, v6_only),
{
    let out1 = out.push(p);
    let taken1 = taken.push(rec);
    assert(all_wf(out1)) by {
        assert forall|i: int| 0 <= i < out1.len() implies (#[trigger] out1[i]).wf() by {
            if i < out.len() {
                assert(out[i].wf());
            }
        }
    }
    assert(out1.no_duplicates()) by {
        assert forall|i: int, j: int|
            0 <= i < out1.len() && 0 <= j < out1.len() && i != j implies out1[i] != out1[j] by {
            if i < out.len() && j < out.len() {
                assert(out[i] == out1[i] && out[j] == out1[j]);
            } else if i < out.len() {
                assert(out[i] != p) by {
                    if out[i] == p {
                        assert(out.contains(p));
                    }
                }
            } else {
                assert(out[j] != p) by {
                    if out[j] == p {
                        assert(out.contains(p));
                    }
                }
            }
        }
    }
    assert forall|q: Prefix| out1.contains(q) implies exists|t: int|
        0 <= t < taken1.len() && record_matches_spec(#[trigger] taken1[t], asns, v4_only, v6_only)
            && record_prefix_spec(taken1[t]) == Some(q) by {
        let i = choose|i: int| 0 <= i < out1.len() && out1[i] == q;
        if i < out.len() {
            assert(out[i] == q);
            assert(out.contains(q));
            let t = choose|t: int|
                0 <= t < taken.len() && record_matches_spec(
                    #[trigger] taken[t],
                    asns,
                    v4_only,
                    v6_only,
                ) && record_prefix_spec(taken[t]) == Some(q);
            assert(taken1[t] == taken[t]);
        } else {
            assert(q == p);
            assert(taken1[taken.len() as int] == rec);
        }
    }
    assert forall|q: Prefix|
        (exists|t: int|
            0 <= t < taken1.len() && record_matches_spec(
                #[trigger] taken1[t],
                asns,
                v4_only,
                v6_only,
            ) && record_prefix_spec(taken1[t]) == Some(q)) implies out1.contains(q) by {
        let t = choose|t: int|
            0 <= t < taken1.len() && record_matches_spec(
                #[trigger] taken1[t],
                asns,
                v4_only,
                v6_only,
            ) && record_prefix_spec(taken1[t]) == Some(q);
        if t < taken.len() {
            assert(taken[t] == taken1[t]);
            assert(out.contains(q));
            let i = choose|i: int| 0 <= i < out.len() && out[i] == q;
            assert(out1[i] == q);
        } else {
            assert(taken1[t] == rec);
            assert(q == p);
            assert(out1[out.len() as int] == p);
        }
    }
}

/// Collects the deduplicated, normalized prefixes of the records that pass
/// the filter, in order of first appearance; insertion order does not affect
/// which prefixes are in the set.
pub fn collect_prefixes(
    records: &Vec<RouteRecord>,
    origin_asns: &Vec<u32>,
    ipv4_only: bool,
    ipv6_only: bool,
) -> (r: Vec<Prefix>)
    ensures
        scan_exact(r@, records@, origin_asns@, ipv4_only, ipv6_only),
{
    let mut out: Vec<Prefix> = Vec::new();
    let mut k: usize = 0;
    while k < records.len()
        invariant
            k <= records.len(),
            scan_exact(out@, records@.take(k as int), origin_asns@, ipv4_only, ipv6_only),
        decreases records.len() - k,
    {
        let ghost taken = records@.take(k as int);
        let ghost rec = records@[k as int];
        proof {
            assert(records@.take(k as int + 1) =~= taken.push(rec));
        }
        if record_matches(&records[k], origin_asns, ipv4_only, ipv6_only) {
            match Prefix::new(records[k].v6, records[k].addr, records[k].len) {
                Some(p) => {
                    if !contains_prefix(&out, &p) {
                        let ghost before = out@;
                        out.push(p);
                        proof {
                            lemma_collect_insert(
                                before,
                                taken,
                                rec,
                                p,
                                origin_asns@,
                                ipv4_only,
                                ipv6_only,
                            );
                        }
                    } else {
                        proof {
                            lemma_collect_unchanged(
                                out@,
                                taken,
                                rec,
                                origin_asns@,
                                ipv4_only,
                                ipv6_only,
                            );
                        }
                    }
                },
                None => {
                    proof {
                        lemma_collect_unchanged(
                            out@,
                            taken,
                            rec,
                            origin_asns@,
                            ipv4_only,
                            ipv6_only,
                        );
                    }
                },
            }
        } else {
            proof {
                lemma_collect_unchanged(out@, taken, rec, origin_asns@, ipv4_only, ipv6_only);
            }
        }
        k = k + 1;
    }
    proof {
        assert(records@.take(records.len() as int) =~= records@);
    }
    out
}

/// Scans a routing-table dump held in memory and returns the deduplicated,
/// normalized prefixes announced by the requested origin ASNs, optionally
/// restricted to one address family.
pub fn scan_prefixes(
    data: &Vec<u8>,
    origin_asns: &Vec<u32>,
    ipv4_only: bool,
    ipv6_only: bool,
) -> (r: Vec<Prefix>)
    ensures
        scan_exact(r@, mrt_records_of(data@), origin_asns@, ipv4_only, ipv6_only),
{
    let records = parse_mrt(data);
    collect_prefixes(&records, origin_asns, ipv4_only, ipv6_only)
}

} // verus!
