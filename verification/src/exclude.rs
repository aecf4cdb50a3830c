//! CIDR set algebra: removing excluded prefixes from candidate prefixes by
//! midpoint halving, so that the result covers exactly the remaining address
//! space with pairwise disjoint prefixes, and merging the result into its
//! minimal covering set.

use vstd::prelude::*;

verus! {

use crate::prefix::Prefix;
use crate::prefix::lemma_in_one_half;
use crate::prefix::lemma_pow2_le;
use crate::prefix::lemma_split_halves;
use crate::prefix::lemma_prefix_trichotomy;
use vstd::arithmetic::power2::lemma_pow2_pos;
use vstd::arithmetic::power2::lemma_pow2_strictly_increases;
use vstd::arithmetic::power2::pow2;
use ipnet::IpNet;
use ipnet::Ipv4Net;
use ipnet::Ipv6Net;

/// Some prefix of the sequence covers address `a` of family `v6`.
pub open spec fn seq_covers(s: Seq<Prefix>, v6: bool, a: int) -> bool {
    exists|i: int| 0 <= i < s.len() && s[i].covers(v6, a)
}

/// Every prefix of the sequence is well-formed.
pub open spec fn all_wf(s: Seq<Prefix>) -> bool {
    forall|i: int| 0 <= i < s.len() ==> (#[trigger] s[i]).wf()
}

/// The prefixes of the sequence are pairwise disjoint.
pub open spec fn pairwise_disjoint(s: Seq<Prefix>) -> bool {
    forall|i: int, j: int| 0 <= i < j < s.len() ==> (#[trigger] s[i]).disjoint_from(#[trigger] s[j])
}

/// The minimal covering set of `c` with the part covered by `e` removed,
/// low half before high half. When `e` is not contained in `c` there is
/// nothing to remove and `c` is passed through unchanged; when the two are
/// identical the whole range is removed; otherwise `c` is halved, the half
/// holding `e` is recursed into and its sibling is emitted whole.
pub open spec fn exclude_spec(c: Prefix, e: Prefix) -> Seq<Prefix>
    decreases c.bits() - c.len,
{
    if !c.contains_pfx(e) {
        seq![c]
    } else if c == e {
        Seq::empty()
    } else if c.len >= c.bits() {
        Seq::empty()
    } else if e.first() >= c.high_half().first() {
        seq![c.low_half()] + exclude_spec(c.high_half(), e)
    } else {
        exclude_spec(c.low_half(), e) + seq![c.high_half()]
    }
}

/// Covering an address of a concatenation is covering it in one of the parts.
proof fn lemma_seq_covers_concat(s1: Seq<Prefix>, s2: Seq<Prefix>)
    ensures
        forall|v6: bool, a: int|
            #[trigger] seq_covers(s1 + s2, v6, a) <==> seq_covers(s1, v6, a) || seq_covers(
                s2,
                v6,
                a,
            ),
{
    assert forall|v6: bool, a: int| #[trigger]
        seq_covers(s1 + s2, v6, a) implies seq_covers(s1, v6, a) || seq_covers(s2, v6, a) by {
        let i = choose|i: int| 0 <= i < (s1 + s2).len() && (s1 + s2)[i].covers(v6, a);
        if i < s1.len() {
            assert(s1[i].covers(v6, a));
        } else {
            assert(s2[i - s1.len()].covers(v6, a));
        }
    }
    assert forall|v6: bool, a: int|
        seq_covers(s1, v6, a) || seq_covers(s2, v6, a) implies #[trigger] seq_covers(
        s1 + s2,
        v6,
        a,
    ) by {
        if seq_covers(s1, v6, a) {
            let i = choose|i: int| 0 <= i < s1.len() && s1[i].covers(v6, a);
            assert((s1 + s2)[i].covers(v6, a));
        } else {
            let i = choose|i: int| 0 <= i < s2.len() && s2[i].covers(v6, a);
            assert((s1 + s2)[i + s1.len()].covers(v6, a));
        }
    }
}

/// A well-formed prefix strictly contained in another well-formed prefix is
/// strictly longer.
proof fn lemma_contains_strict_longer(c: Prefix, e: Prefix)
    requires
        c.wf(),
        e.wf(),
        c.contains_pfx(e),
        c != e,
    ensures
        c.len < e.len,
{
    if c.len >= e.len {
        lemma_pow2_le((c.bits() - c.len) as nat, (c.bits() - e.len) as nat);
        if c.len > e.len {
            lemma_pow2_strictly_increases((c.bits() - c.len) as nat, (c.bits() - e.len) as nat);
        }
        assert(c.size() == e.size());
        assert(c.first() == e.first());
        assert(c.addr == e.addr);
        assert(c.len == e.len);
    }
}

/// Exclusion is exact: the result prefixes are well-formed and contained in
/// `c`, pairwise disjoint, cover precisely the addresses of `c` not removed,
/// and number one per halving step.
pub proof fn lemma_exclude_spec_exact(c: Prefix, e: Prefix)
    requires
        c.wf(),
        e.wf(),
    ensures
        forall|i: int|
            0 <= i < exclude_spec(c, e).len() ==> (#[trigger] exclude_spec(c, e)[i]).wf()
                && c.contains_pfx(exclude_spec(c, e)[i]),
        pairwise_disjoint(exclude_spec(c, e)),
        forall|v6: bool, a: int|
            #[trigger] seq_covers(exclude_spec(c, e), v6, a) <==> c.covers(v6, a) && !(
            c.contains_pfx(e) && e.covers(v6, a)),
        c.contains_pfx(e) && c != e ==> exclude_spec(c, e).len() == e.len - c.len,
    decreases c.bits() - c.len,
{
    let r = exclude_spec(c, e);
    lemma_pow2_pos((c.bits() - c.len) as nat);
    lemma_pow2_pos((e.bits() - e.len) as nat);
    if !c.contains_pfx(e) {
        assert(r == seq![c]);
        assert forall|v6: bool, a: int| #[trigger]
            seq_covers(r, v6, a) <==> c.covers(v6, a) && !(c.contains_pfx(e) && e.covers(
            v6,
            a,
        )) by {
            if c.covers(v6, a) {
                assert(r[0].covers(v6, a));
            }
        }
    } else if c == e {
        assert(r =~= Seq::<Prefix>::empty());
        assert forall|v6: bool, a: int| !(#[trigger] seq_covers(r, v6, a)) by {}
    } else {
        lemma_contains_strict_longer(c, e);
        lemma_split_halves(c);
        lemma_in_one_half(c, e);
        let lo = c.low_half();
        let hi = c.high_half();
        if e.first() >= hi.first() {
            lemma_exclude_spec_exact(hi, e);
            let rest = exclude_spec(hi, e);
            assert(r == seq![lo] + rest);
            lemma_seq_covers_concat(seq![lo], rest);
            assert forall|v6: bool, a: int| #[trigger]
                seq_covers(r, v6, a) <==> c.covers(v6, a) && !(c.contains_pfx(e) && e.covers(
                v6,
                a,
            )) by {
                assert(seq_covers(seq![lo], v6, a) <==> lo.covers(v6, a)) by {
                    if lo.covers(v6, a) {
                        assert(seq![lo][0].covers(v6, a));
                    }
                }
                if e.covers(v6, a) {
                    assert(hi.covers(v6, a));
                }
            }
            assert forall|i: int| 0 <= i < r.len() implies (#[trigger] r[i]).wf()
                && c.contains_pfx(r[i]) by {
                if i > 0 {
                    assert(rest[i - 1].wf() && hi.contains_pfx(rest[i - 1]));
                }
            }
            assert forall|i: int, j: int| 0 <= i < j < r.len() implies (#[trigger] r[i]).disjoint_from(
                #[trigger] r[j],
            ) by {
                if i == 0 {
                    assert(hi.contains_pfx(rest[j - 1]));
                } else {
                    assert(rest[i - 1].disjoint_from(rest[j - 1]));
                }
            }
        } else {
            lemma_exclude_spec_exact(lo, e);
            let rest = exclude_spec(lo, e);
            assert(r == rest + seq![hi]);
            lemma_seq_covers_concat(rest, seq![hi]);
            assert forall|v6: bool, a: int| #[trigger]
                seq_covers(r, v6, a) <==> c.covers(v6, a) && !(c.contains_pfx(e) && e.covers(
                v6,
                a,
            )) by {
                assert(seq_covers(seq![hi], v6, a) <==> hi.covers(v6, a)) by {
                    if hi.covers(v6, a) {
                        assert(seq![hi][0].covers(v6, a));
                    }
                }
                if e.covers(v6, a) {
                    assert(lo.covers(v6, a));
                }
            }
            assert forall|i: int| 0 <= i < r.len() implies (#[trigger] r[i]).wf()
                && c.contains_pfx(r[i]) by {
                if i < rest.len() {
                    assert(rest[i].wf() && lo.contains_pfx(rest[i]));
                }
            }
            assert forall|i: int, j: int| 0 <= i < j < r.len() implies (#[trigger] r[i]).disjoint_from(
                #[trigger] r[j],
            ) by {
                if j == r.len() - 1 {
                    assert(lo.contains_pfx(rest[i]));
                } else {
                    assert(rest[i].disjoint_from(rest[j]));
                }
            }
        }
    }
}

/// Removes from `candidate` the part of its range covered by `excluded`,
/// returning the minimal set of prefixes covering the remainder, low half
/// before high half. A prefix not containing the exclusion passes through
/// unchanged; a prefix identical to it vanishes.
pub fn exclude(candidate: &Prefix, excluded: &Prefix) -> (r: Vec<Prefix>)
    requires
        candidate.wf(),
        excluded.wf(),
    ensures
        r@ == exclude_spec(*candidate, *excluded),
    decreases candidate.bits() - candidate.len,
{
    if !candidate.contains(excluded) {
        let mut v: Vec<Prefix> = Vec::new();
        v.push(*candidate);
        proof {
            assert(v@ =~= exclude_spec(*candidate, *excluded));
        }
        v
    } else if *candidate == *excluded {
        let v: Vec<Prefix> = Vec::new();
        proof {
            assert(v@ =~= exclude_spec(*candidate, *excluded));
        }
        v
    } else {
        proof {
            lemma_contains_strict_longer(*candidate, *excluded);
            lemma_split_halves(*candidate);
        }
        let (lo, hi) = candidate.split();
        if excluded.addr >= hi.addr {
            let mut v: Vec<Prefix> = Vec::new();
            v.push(lo);
            let mut rest = exclude(&hi, excluded);
            v.append(&mut rest);
            proof {
                assert(v@ =~= exclude_spec(*candidate, *excluded));
            }
            v
        } else {
            let mut v = exclude(&lo, excluded);
            v.push(hi);
            proof {
                assert(v@ =~= exclude_spec(*candidate, *excluded));
            }
            v
        }
    }
}

/// The covering set of `p` with everything covered by `e` removed: `p` is
/// dropped when `e` covers all of it, split when it strictly contains `e`,
/// and passed through unchanged when the two are disjoint.
pub open spec fn exclude_one_spec(p: Prefix, e: Prefix) -> Seq<Prefix> {
    if e.contains_pfx(p) {
        Seq::empty()
    } else {
        exclude_spec(p, e)
    }
}

/// One exclusion applied to one prefix covers exactly the prefix's addresses
/// that the exclusion does not cover.
pub proof fn lemma_exclude_one_exact(p: Prefix, e: Prefix)
    requires
        p.wf(),
        e.wf(),
    ensures
        forall|i: int|
            0 <= i < exclude_one_spec(p, e).len() ==> (#[trigger] exclude_one_spec(p, e)[i]).wf(),
        forall|v6: bool, a: int|
            #[trigger] seq_covers(exclude_one_spec(p, e), v6, a) <==> p.covers(v6, a) && !e.covers(
                v6,
                a,
            ),
{
    lemma_exclude_spec_exact(p, e);
    if e.contains_pfx(p) {
        assert forall|v6: bool, a: int| !(#[trigger] seq_covers(exclude_one_spec(p, e), v6, a)) by {}
    } else if !p.contains_pfx(e) {
        if p.v6 == e.v6 {
            lemma_prefix_trichotomy(p, e);
        }
        lemma_pow2_pos((p.bits() - p.len) as nat);
        lemma_pow2_pos((e.bits() - e.len) as nat);
    }
}

/// One exclusion applied to every prefix of a list, keeping order.
pub open spec fn exclude_list_spec(ps: Seq<Prefix>, e: Prefix) -> Seq<Prefix>
    decreases ps.len(),
{
    if ps.len() == 0 {
        Seq::empty()
    } else {
        exclude_list_spec(ps.drop_last(), e) + exclude_one_spec(ps.last(), e)
    }
}

/// One exclusion applied to a list covers exactly what the list covered
/// less what the exclusion covers, and stays well-formed.
pub proof fn lemma_exclude_list_exact(ps: Seq<Prefix>, e: Prefix)
    requires
        all_wf(ps),
        e.wf(),
    ensures
        all_wf(exclude_list_spec(ps, e)),
        forall|v6: bool, a: int|
            #[trigger] seq_covers(exclude_list_spec(ps, e), v6, a) <==> seq_covers(ps, v6, a)
                && !e.covers(v6, a),
    decreases ps.len(),
{
    let r = exclude_list_spec(ps, e);
    if ps.len() == 0 {
        assert forall|v6: bool, a: int| !(#[trigger] seq_covers(r, v6, a)) by {}
        assert forall|v6: bool, a: int| !(#[trigger] seq_covers(ps, v6, a)) by {}
    } else {
        let front = ps.drop_last();
        let p = ps.last();
        assert(all_wf(front)) by {
            assert forall|i: int| 0 <= i < front.len() implies (#[trigger] front[i]).wf() by {
                assert(ps[i].wf());
            }
        }
        assert(p.wf());
        lemma_exclude_list_exact(front, e);
        lemma_exclude_one_exact(p, e);
        lemma_seq_covers_concat(exclude_list_spec(front, e), exclude_one_spec(p, e));
        assert(all_wf(r)) by {
            assert forall|i: int| 0 <= i < r.len() implies (#[trigger] r[i]).wf() by {
                if i < exclude_list_spec(front, e).len() {
                    assert(exclude_list_spec(front, e)[i].wf());
                } else {
                    assert(exclude_one_spec(p, e)[i - exclude_list_spec(front, e).len()].wf());
                }
            }
        }
        assert forall|v6: bool, a: int| #[trigger]
            seq_covers(r, v6, a) <==> seq_covers(ps, v6, a) && !e.covers(v6, a) by {
            assert(seq_covers(ps, v6, a) <==> seq_covers(front, v6, a) || p.covers(v6, a)) by {
                if seq_covers(ps, v6, a) {
                    let i = choose|i: int| 0 <= i < ps.len() && ps[i].covers(v6, a);
                    if i < front.len() {
                        assert(front[i].covers(v6, a));
                    }
                }
                if seq_covers(front, v6, a) {
                    let i = choose|i: int| 0 <= i < front.len() && front[i].covers(v6, a);
                    assert(ps[i].covers(v6, a));
                }
                if p.covers(v6, a) {
                    assert(ps[ps.len() - 1].covers(v6, a));
                }
            }
        }
    }
}

/// A list of exclusions applied in order to a list of prefixes.
pub open spec fn exclude_subnets_spec(ps: Seq<Prefix>, es: Seq<Prefix>) -> Seq<Prefix>
    decreases es.len(),
{
    if es.len() == 0 {
        ps
    } else {
        exclude_list_spec(exclude_subnets_spec(ps, es.drop_last()), es.last())
    }
}

/// Applying every exclusion leaves exactly the addresses the candidates
/// covered and no exclusion covers, all in well-formed prefixes.
pub proof fn lemma_exclude_subnets_exact(ps: Seq<Prefix>, es: Seq<Prefix>)
    requires
        all_wf(ps),
        all_wf(es),
    ensures
        all_wf(exclude_subnets_spec(ps, es)),
        forall|v6: bool, a: int|
            #[trigger] seq_covers(exclude_subnets_spec(ps, es), v6, a) <==> seq_covers(ps, v6, a)
                && !seq_covers(es, v6, a),
    decreases es.len(),
{
    let r = exclude_subnets_spec(ps, es);
    if es.len() == 0 {
        assert forall|v6: bool, a: int| !(#[trigger] seq_covers(es, v6, a)) by {}
    } else {
        let front = es.drop_last();
        let e = es.last();
        assert(all_wf(front)) by {
            assert forall|i: int| 0 <= i < front.len() implies (#[trigger] front[i]).wf() by {
                assert(es[i].wf());
            }
        }
        assert(e.wf());
        lemma_exclude_subnets_exact(ps, front);
        lemma_exclude_list_exact(exclude_subnets_spec(ps, front), e);
        assert forall|v6: bool, a: int| #[trigger]
            seq_covers(r, v6, a) <==> seq_covers(ps, v6, a) && !seq_covers(es, v6, a) by {
            assert(seq_covers(es, v6, a) <==> seq_covers(front, v6, a) || e.covers(v6, a)) by {
                if seq_covers(es, v6, a) {
                    let i = choose|i: int| 0 <= i < es.len() && es[i].covers(v6, a);
                    if i < front.len() {
                        assert(front[i].covers(v6, a));
                    }
                }
                if seq_covers(front, v6, a) {
                    let i = choose|i: int| 0 <= i < front.len() && front[i].covers(v6, a);
                    assert(es[i].covers(v6, a));
                }
                if e.covers(v6, a) {
                    assert(es[es.len() - 1].covers(v6, a));
                }
            }
        }
    }
}

/// `exclude_one_spec`, as a value.
fn exclude_one(p: &Prefix, e: &Prefix) -> (r: Vec<Prefix>)
    requires
        p.wf(),
        e.wf(),
    ensures
        r@ == exclude_one_spec(*p, *e),
{
    if e.contains(p) {
        let v: Vec<Prefix> = Vec::new();
        proof {
            assert(v@ =~= exclude_one_spec(*p, *e));
        }
        v
    } else {
        exclude(p, e)
    }
}

/// Applies one exclusion to every prefix of the list, keeping order.
fn exclude_list(prefixes: &Vec<Prefix>, e: &Prefix) -> (r: Vec<Prefix>)
    requires
        all_wf(prefixes@),
        e.wf(),
    ensures
        r@ == exclude_list_spec(prefixes@, *e),
{
    let mut out: Vec<Prefix> = Vec::new();
    let mut k: usize = 0;
    proof {
        assert(prefixes@.take(0) =~= Seq::<Prefix>::empty());
    }
    while k < prefixes.len()
        invariant
            k <= prefixes.len(),
            all_wf(prefixes@),
            e.wf(),
            out@ == exclude_list_spec(prefixes@.take(k as int), *e),
        decreases prefixes.len() - k,
    {
        proof {
            assert(prefixes@[k as int].wf());
        }
        let mut piece = exclude_one(&prefixes[k], e);
        out.append(&mut piece);
        proof {
            let taken = prefixes@.take(k as int + 1);
            assert(taken.drop_last() =~= prefixes@.take(k as int));
            assert(taken.last() == prefixes@[k as int]);
        }
        k = k + 1;
    }
    proof {
        assert(prefixes@.take(prefixes.len() as int) =~= prefixes@);
    }
    out
}

/// Subtracts every excluded prefix from the candidate prefixes. The result
/// covers exactly the addresses some candidate covers and no exclusion
/// covers: a candidate disjoint from every exclusion passes through
/// unchanged, one covered entirely by an exclusion is dropped, and one
/// strictly containing an exclusion is split around it.
pub fn exclude_subnets(prefixes: &Vec<Prefix>, excluded: &Vec<Prefix>) -> (r: Vec<Prefix>)
    requires
        all_wf(prefixes@),
        all_wf(excluded@),
    ensures
        r@ == exclude_subnets_spec(prefixes@, excluded@),
        all_wf(r@),
        forall|v6: bool, a: int|
            #[trigger] seq_covers(r@, v6, a) <==> seq_covers(prefixes@, v6, a) && !seq_covers(
                excluded@,
                v6,
                a,
            ),
{
    let mut acc: Vec<Prefix> = Vec::new();
    let mut i: usize = 0;
    while i < prefixes.len()
        invariant
            i <= prefixes.len(),
            acc@ == prefixes@.take(i as int),
        decreases prefixes.len() - i,
    {
        acc.push(prefixes[i]);
        proof {
            assert(prefixes@.take(i as int + 1) =~= prefixes@.take(i as int).push(
                prefixes@[i as int],
            ));
        }
        i = i + 1;
    }
    proof {
        assert(prefixes@.take(prefixes.len() as int) =~= prefixes@);
        assert(excluded@.take(0) =~= Seq::<Prefix>::empty());
    }
    let mut j: usize = 0;
    while j < excluded.len()
        invariant
            j <= excluded.len(),
            all_wf(prefixes@),
            all_wf(excluded@),
            acc@ == exclude_subnets_spec(prefixes@, excluded@.take(j as int)),
        decreases excluded.len() - j,
    {
        proof {
            assert(all_wf(excluded@.take(j as int))) by {
                assert forall|t: int| 0 <= t < j implies (#[trigger] excluded@.take(
                    j as int,
                )[t]).wf() by {
                    assert(excluded@[t].wf());
                }
            }
            lemma_exclude_subnets_exact(prefixes@, excluded@.take(j as int));
            assert(excluded@[j as int].wf());
        }
        acc = exclude_list(&acc, &excluded[j]);
        proof {
            let taken = excluded@.take(j as int + 1);
            assert(taken.drop_last() =~= excluded@.take(j as int));
            assert(taken.last() == excluded@[j as int]);
        }
        j = j + 1;
    }
    proof {
        assert(excluded@.take(excluded.len() as int) =~= excluded@);
        lemma_exclude_subnets_exact(prefixes@, excluded@);
    }
    acc
}

/// Exclusion completeness: the prefixes of `exclude_spec(c, e)` are pairwise
/// disjoint; together with `e`'s range, when `e` lies within `c`, they
/// reconstruct exactly `c`'s range; and whenever `e` does not strictly
/// contain `c`, none of them overlaps `e`.
pub proof fn lemma_exclusion_completeness(c: Prefix, e: Prefix)
    requires
        c.wf(),
        e.wf(),
    ensures
        pairwise_disjoint(exclude_spec(c, e)),
        forall|v6: bool, a: int|
            #[trigger] c.covers(v6, a) <==> seq_covers(exclude_spec(c, e), v6, a) || (
            c.contains_pfx(e) && e.covers(v6, a)),
        c.contains_pfx(e) || c.disjoint_from(e) ==> forall|v6: bool, a: int|
            !(#[trigger] seq_covers(exclude_spec(c, e), v6, a) && e.covers(v6, a)),
{
    lemma_exclude_spec_exact(c, e);
    if c.contains_pfx(e) || c.disjoint_from(e) {
        assert forall|v6: bool, a: int|
            !(#[trigger] seq_covers(exclude_spec(c, e), v6, a) && e.covers(v6, a)) by {
            if seq_covers(exclude_spec(c, e), v6, a) {
                assert(c.covers(v6, a));
            }
        }
    }
}

/// Exclusion identity: excluding a prefix from itself leaves nothing, and
/// excluding a disjoint prefix changes nothing.
pub proof fn lemma_exclusion_identity(c: Prefix, e: Prefix)
    requires
        c.wf(),
        e.wf(),
    ensures
        c == e ==> exclude_spec(c, e) == Seq::<Prefix>::empty(),
        c.disjoint_from(e) ==> exclude_spec(c, e) == seq![c],
{
    lemma_pow2_pos((c.bits() - c.len) as nat);
    lemma_pow2_pos((e.bits() - e.len) as nat);
}

/// What ipnet's minimal-cover aggregation returns for a list of prefixes:
/// the same address space, merged into the fewest prefixes.
pub uninterp spec fn aggregate_of(s: Seq<Prefix>) -> Seq<Prefix>;

/// Relies on ipnet's IpNet::aggregate to merge a list of prefixes into its
/// minimal covering set; the result depends on the prefixes alone. Per
/// family it sorts the prefixes' address intervals, merges what overlaps or
/// touches, and re-emits each merged interval as aligned blocks of valid
/// length — so the output is well-formed and covers exactly the input's
/// addresses.
#[verifier::external_body]
fn aggregate(prefixes: &Vec<Prefix>) -> (r: Vec<Prefix>)
    requires
        all_wf(prefixes@),
    ensures
        r@ == aggregate_of(prefixes@),
        all_wf(r@),
        forall|v6: bool, a: int|
            #[trigger] seq_covers(r@, v6, a) <==> seq_covers(prefixes@, v6, a),
{
    let nets: Vec<IpNet> = prefixes.iter().map(|p| match p.v6 {
        true => IpNet::V6(Ipv6Net::new(core::net::Ipv6Addr::from(p.addr), p.len).unwrap()),
        false => IpNet::V4(Ipv4Net::new(core::net::Ipv4Addr::from(p.addr as u32), p.len).unwrap()),
    }).collect();
    IpNet::aggregate(&nets).into_iter().map(|n| match n {
        IpNet::V4(x) => Prefix { v6: false, addr: u32::from(x.addr()) as u128, len: x.prefix_len() },
        IpNet::V6(x) => Prefix { v6: true, addr: u128::from(x.addr()), len: x.prefix_len() },
    }).collect()
}

/// Subtracts the excluded prefixes from the candidates and merges what is
/// left into its minimal covering set: the well-formed result covers exactly
/// the addresses some candidate covers and no exclusion covers.
pub fn find_netblocks(prefixes: &Vec<Prefix>, excluded: &Vec<Prefix>) -> (r: Vec<Prefix>)
    requires
        all_wf(prefixes@),
        all_wf(excluded@),
    ensures
        r@ == aggregate_of(exclude_subnets_spec(prefixes@, excluded@)),
        all_wf(r@),
        forall|v6: bool, a: int|
            #[trigger] seq_covers(r@, v6, a) <==> seq_covers(prefixes@, v6, a) && !seq_covers(
                excluded@,
                v6,
                a,
            ),
{
    let kept = exclude_subnets(prefixes, excluded);
    aggregate(&kept)
}

} // verus!
