//! Network prefixes modelled as aligned blocks of fixed-width unsigned
//! integers, the representation both address families share: an IPv4 address
//! occupies the low 32 bits of the same integer type that holds an IPv6
//! address.

use vstd::prelude::*;

verus! {

use vstd::arithmetic::div_mod::lemma_fundamental_div_mod;
use vstd::arithmetic::div_mod::lemma_mod_add_multiples_vanish;
use vstd::arithmetic::div_mod::lemma_mod_multiples_basic;
use vstd::arithmetic::div_mod::lemma_mod_decreases;
use vstd::arithmetic::div_mod::lemma_small_mod;
use vstd::arithmetic::power2::lemma2_to64;
use vstd::arithmetic::power2::lemma_pow2_adds;
use vstd::arithmetic::power2::lemma_pow2_pos;
use vstd::arithmetic::power2::lemma_pow2_strictly_increases;
use vstd::arithmetic::power2::lemma_pow2_unfold;
use vstd::arithmetic::power2::pow2;

/// An address range expressed as base address plus prefix length. The base
/// address is the all-zeros-host form of the range; equality is structural
/// (family, address, length).
#[derive(Clone, Copy, Debug, PartialEq, Eq, Structural)]
pub struct Prefix {
    /// True for an IPv6 prefix, false for IPv4.
    pub v6: bool,
    /// The network (base) address, with every host bit zero.
    pub addr: u128,
    /// The prefix length in bits.
    pub len: u8,
}

impl Prefix {
    /// Width in bits of an address of this prefix's family.
    pub open spec fn bits(self) -> int {
        if self.v6 {
            128
        } else {
            32
        }
    }

    /// Number of addresses the prefix covers.
    pub open spec fn size(self) -> int {
        pow2((self.bits() - self.len) as nat) as int
    }

    /// The first (network) address of the range.
    pub open spec fn first(self) -> int {
        self.addr as int
    }

    /// The last (broadcast) address of the range.
    pub open spec fn last(self) -> int {
        self.first() + self.size() - 1
    }

    /// Well-formed: the length fits the family's width, the base address is
    /// aligned to the block size, and the block lies within the address space.
    pub open spec fn wf(self) -> bool {
        &&& self.len <= self.bits()
        &&& self.first() % self.size() == 0
        &&& self.first() + self.size() <= pow2(self.bits() as nat)
    }

    /// The prefix covers address `a` of family `v6`.
    pub open spec fn covers(self, v6: bool, a: int) -> bool {
        self.v6 == v6 && self.first() <= a <= self.last()
    }

    /// `other`'s whole range lies within `self`'s range, same family.
    pub open spec fn contains_pfx(self, other: Prefix) -> bool {
        self.v6 == other.v6 && self.first() <= other.first() && other.last() <= self.last()
    }

    /// The two prefixes cover no common address.
    pub open spec fn disjoint_from(self, other: Prefix) -> bool {
        self.v6 != other.v6 || self.last() < other.first() || other.last() < self.first()
    }

    /// Half the block size; the size of each half after one split.
    pub open spec fn half_size(self) -> int {
        pow2((self.bits() - self.len - 1) as nat) as int
    }

    /// The lower half of the range, one bit longer.
    pub open spec fn low_half(self) -> Prefix {
        Prefix { v6: self.v6, addr: self.addr, len: (self.len + 1) as u8 }
    }

    /// The upper half of the range, one bit longer.
    pub open spec fn high_half(self) -> Prefix {
        Prefix {
            v6: self.v6,
            addr: (self.addr + self.half_size()) as u128,
            len: (self.len + 1) as u8,
        }
    }
}

/// The concrete value of `pow2(128)`, one past the top of the IPv6 space.
proof fn lemma_pow2_128()
    ensures
        pow2(128) == 0x100000000000000000000000000000000,
{
    lemma2_to64();
    lemma_pow2_adds(64, 64);
}

/// `pow2` is nondecreasing.
pub proof fn lemma_pow2_le(e1: nat, e2: nat)
    requires
        e1 <= e2,
    ensures
        pow2(e1) <= pow2(e2),
{
    if e1 < e2 {
        lemma_pow2_strictly_increases(e1, e2);
    }
}

/// Two multiples of `s` at distinct values lie at least `s` apart.
proof fn lemma_aligned_gap(x: int, y: int, s: int)
    requires
        s > 0,
        x % s == 0,
        y % s == 0,
        x < y,
    ensures
        x + s <= y,
{
    lemma_fundamental_div_mod(x, s);
    lemma_fundamental_div_mod(y, s);
    let qx = x / s;
    let qy = y / s;
    assert(y - x == s * (qy - qx)) by (nonlinear_arith)
        requires
            x == s * qx,
            y == s * qy,
    ;
    if qy - qx <= 0 {
        assert(s * (qy - qx) <= 0) by (nonlinear_arith)
            requires
                s > 0,
                qy - qx <= 0,
        ;
    }
    assert(s * (qy - qx) >= s) by (nonlinear_arith)
        requires
            s > 0,
            qy - qx >= 1,
    ;
}

/// Alignment to a coarser block implies alignment to any block that divides it.
proof fn lemma_aligned_divides(a: int, s: int, k: int)
    requires
        s > 0,
        k > 0,
        a % (k * s) == 0,
    ensures
        a % s == 0,
{
    assert(k * s > 0) by (nonlinear_arith)
        requires
            s > 0,
            k > 0,
    ;
    lemma_fundamental_div_mod(a, k * s);
    let q = a / (k * s);
    assert(a == (k * q) * s) by (nonlinear_arith)
        requires
            a == (k * s) * q,
    ;
    lemma_mod_multiples_basic(k * q, s);
}

/// The sum of two multiples of `s` is a multiple of `s`.
proof fn lemma_aligned_add(x: int, y: int, s: int)
    requires
        s > 0,
        x % s == 0,
        y % s == 0,
    ensures
        (x + y) % s == 0,
{
    lemma_fundamental_div_mod(x, s);
    lemma_fundamental_div_mod(y, s);
    let qx = x / s;
    let qy = y / s;
    assert(x + y == (qx + qy) * s) by (nonlinear_arith)
        requires
            x == s * qx,
            y == s * qy,
    ;
    lemma_mod_multiples_basic(qx + qy, s);
}

/// A well-formed prefix's block size divides the block size of any shorter
/// well-formed prefix of the same family, and the boundaries of the shorter
/// prefix are aligned to the longer one's size.
proof fn lemma_size_divides(c: Prefix, e: Prefix)
    requires
        c.wf(),
        e.wf(),
        c.v6 == e.v6,
        c.len <= e.len,
    ensures
        c.size() == pow2((e.len - c.len) as nat) * e.size(),
        e.size() <= c.size(),
        c.first() % e.size() == 0,
{
    lemma_pow2_adds((e.len - c.len) as nat, (c.bits() - e.len) as nat);
    lemma_pow2_pos((e.len - c.len) as nat);
    lemma_pow2_pos((c.bits() - e.len) as nat);
    lemma_pow2_le((c.bits() - e.len) as nat, (c.bits() - c.len) as nat);
    lemma_aligned_divides(c.first(), e.size(), pow2((e.len - c.len) as nat) as int);
}

/// Splitting a well-formed prefix at its midpoint yields two well-formed
/// halves that partition its range, lower half first.
pub proof fn lemma_split_halves(c: Prefix)
    requires
        c.wf(),
        c.len < c.bits(),
    ensures
        c.size() == 2 * c.half_size(),
        c.low_half().wf(),
        c.high_half().wf(),
        c.low_half().first() == c.first(),
        c.low_half().last() == c.first() + c.half_size() - 1,
        c.high_half().first() == c.first() + c.half_size(),
        c.high_half().last() == c.last(),
        c.low_half().size() == c.half_size(),
        c.high_half().size() == c.half_size(),
        forall|v6: bool, a: int|
            c.covers(v6, a) <==> c.low_half().covers(v6, a) || c.high_half().covers(v6, a),
{
    lemma_pow2_unfold((c.bits() - c.len) as nat);
    lemma_pow2_pos((c.bits() - c.len - 1) as nat);
    let h = c.half_size();
    assert(c.first() % h == 0) by {
        lemma_aligned_divides(c.first(), h, 2);
    }
    assert((c.first() + h) % h == 0) by {
        lemma_mod_add_multiples_vanish(c.first(), h);
    }
    assert(c.first() + h <= pow2(c.bits() as nat)) by {
        lemma_pow2_le(c.bits() as nat, 128);
        lemma_pow2_128();
    }
    assert(c.high_half().first() == c.first() + h) by {
        lemma_pow2_le(c.bits() as nat, 128);
        lemma_pow2_128();
    }
}

/// A well-formed prefix strictly longer than a well-formed prefix containing
/// it lies entirely within one of the two halves: the upper half exactly when
/// its base address reaches the upper half's base.
pub proof fn lemma_in_one_half(c: Prefix, e: Prefix)
    requires
        c.wf(),
        e.wf(),
        c.contains_pfx(e),
        c.len < e.len,
    ensures
        e.first() >= c.first() + c.half_size() ==> c.high_half().contains_pfx(e),
        e.first() < c.first() + c.half_size() ==> c.low_half().contains_pfx(e),
{
    lemma_split_halves(c);
    lemma_size_divides(c, e);
    let boundary = c.first() + c.half_size();
    assert(e.size() <= c.half_size()) by {
        lemma_pow2_le((c.bits() - e.len) as nat, (c.bits() - c.len - 1) as nat);
    }
    assert(boundary % e.size() == 0) by {
        lemma_pow2_pos((c.bits() - e.len) as nat);
        if e.len == c.len + 1 {
            lemma_mod_add_multiples_vanish(c.first(), e.size());
        } else {
            lemma_pow2_adds((e.len - c.len - 1) as nat, (c.bits() - e.len) as nat);
            lemma_pow2_pos((e.len - c.len - 1) as nat);
            lemma_mod_multiples_basic(pow2((e.len - c.len - 1) as nat) as int, e.size());
            lemma_aligned_add(c.first(), c.half_size(), e.size());
        }
    }
    if e.first() < boundary {
        lemma_pow2_pos((c.bits() - e.len) as nat);
        lemma_aligned_gap(e.first(), boundary, e.size());
    }
}

/// Two well-formed prefixes of one family never partially overlap: one
/// contains the other, or they are disjoint.
pub proof fn lemma_prefix_trichotomy(c: Prefix, e: Prefix)
    requires
        c.wf(),
        e.wf(),
        c.v6 == e.v6,
    ensures
        c.contains_pfx(e) || e.contains_pfx(c) || c.disjoint_from(e),
{
    if !c.disjoint_from(e) {
        if c.len <= e.len {
            lemma_size_divides(c, e);
            lemma_pow2_pos((c.bits() - e.len) as nat);
            if e.first() < c.first() {
                lemma_aligned_gap(e.first(), c.first(), e.size());
            } else {
                lemma_mod_multiples_basic(pow2((e.len - c.len) as nat) as int, e.size());
                lemma_aligned_add(c.first(), c.size(), e.size());
                if e.last() > c.last() {
                    lemma_aligned_gap(e.first(), c.first() + c.size(), e.size());
                }
            }
        } else {
            lemma_size_divides(e, c);
            lemma_pow2_pos((e.bits() - c.len) as nat);
            if c.first() < e.first() {
                lemma_aligned_gap(c.first(), e.first(), c.size());
            } else {
                lemma_mod_multiples_basic(pow2((c.len - e.len) as nat) as int, c.size());
                lemma_aligned_add(e.first(), e.size(), c.size());
                if c.last() > e.last() {
                    lemma_aligned_gap(c.first(), e.first() + e.size(), c.size());
                }
            }
        }
    }
}

/// 2^(bits - len) - 1: the all-ones pattern of the host bits, one less than
/// the block size.
fn host_mask(bits: u8, len: u8) -> (r: u128)
    requires
        len <= bits <= 128,
    ensures
        r as int == pow2((bits - len) as nat) - 1,
{
    proof {
        lemma2_to64();
    }
    let mut i: u8 = len;
    let mut acc: u128 = 0;
    while i < bits
        invariant
            len <= i <= bits <= 128,
            acc as int == pow2((i - len) as nat) - 1,
        decreases bits - i,
    {
        proof {
            lemma_pow2_unfold((i + 1 - len) as nat);
            lemma_pow2_le((i + 1 - len) as nat, 128);
            lemma_pow2_128();
        }
        acc = acc + acc + 1;
        i = i + 1;
    }
    acc
}

impl Prefix {
    /// Width in bits of an address of this prefix's family, as a value.
    pub fn bit_width(&self) -> (r: u8)
        ensures
            r as int == self.bits(),
    {
        if self.v6 {
            128
        } else {
            32
        }
    }

    /// The last address of the range.
    pub fn last_addr(&self) -> (r: u128)
        requires
            self.wf(),
        ensures
            r as int == self.last(),
    {
        proof {
            lemma_pow2_le(self.bits() as nat, 128);
            lemma_pow2_128();
        }
        let bits = self.bit_width();
        self.addr + host_mask(bits, self.len)
    }

    /// Whether the prefix covers the single address `a` of family `v6`.
    pub fn covers_addr(&self, v6: bool, a: u128) -> (r: bool)
        requires
            self.wf(),
        ensures
            r == self.covers(v6, a as int),
    {
        self.v6 == v6 && self.addr <= a && a <= self.last_addr()
    }

    /// Containment test: `other`'s whole range lies within `self`'s.
    pub fn contains(&self, other: &Prefix) -> (r: bool)
        requires
            self.wf(),
            other.wf(),
        ensures
            r == self.contains_pfx(*other),
    {
        self.v6 == other.v6 && self.addr <= other.addr && other.last_addr() <= self.last_addr()
    }

    /// The normalized prefix a raw family/address/length denotes, host bits
    /// masked away; `None` when the length exceeds the family's width or an
    /// IPv4 address overflows 32 bits.
    pub open spec fn normalize_spec(v6: bool, addr: u128, len: u8) -> Option<Prefix> {
        let bits: int = if v6 {
            128
        } else {
            32
        };
        let block = pow2((bits - len) as nat) as int;
        if len <= bits && (v6 || addr <= 0xFFFF_FFFFu128) {
            Some(Prefix { v6, addr: (addr - (addr as int) % block) as u128, len })
        } else {
            None
        }
    }

    /// Splits the range into its two halves, lower half first.
    pub fn split(&self) -> (r: (Prefix, Prefix))
        requires
            self.wf(),
            self.len < self.bits(),
        ensures
            r.0 == self.low_half(),
            r.1 == self.high_half(),
            r.0.wf(),
            r.1.wf(),
    {
        proof {
            lemma_split_halves(*self);
            lemma_pow2_128();
            lemma_pow2_unfold(128);
            lemma_pow2_le((self.bits() - self.len - 1) as nat, 127);
            lemma_pow2_le(self.bits() as nat, 128);
        }
        let bits = self.bit_width();
        let half = host_mask(bits, self.len + 1) + 1;
        let lo = Prefix { v6: self.v6, addr: self.addr, len: self.len + 1 };
        let hi = Prefix { v6: self.v6, addr: self.addr + half, len: self.len + 1 };
        (lo, hi)
    }

    /// Builds a normalized prefix from a raw address and length, masking the
    /// host bits away; `None` when the length exceeds the family's width or
    /// an IPv4 address overflows 32 bits.
    pub fn new(v6: bool, addr: u128, len: u8) -> (r: Option<Prefix>)
        ensures
            (r is Some <==> len <= (if v6 { 128int } else { 32int }) && (v6 || addr
                <= 0xFFFF_FFFFu128)),
            (r matches Some(p) ==> p.wf() && p.v6 == v6 && p.len == len && p.first() == addr
                - (addr as int) % p.size()),
            r == Self::normalize_spec(v6, addr, len),
    {
        let bits: u8 = if v6 {
            128
        } else {
            32
        };
        if len > bits {
            return None;
        }
        if !v6 && addr > 0xFFFF_FFFFu128 {
            return None;
        }
        if v6 && len == 0 {
            let p = Prefix { v6, addr: 0, len: 0 };
            proof {
                lemma_pow2_128();
                lemma_mod_multiples_basic(0, p.size());
                lemma_small_mod(addr as nat, pow2(128));
            }
            return Some(p);
        }
        let mask = host_mask(bits, len);
        proof {
            lemma_pow2_128();
            lemma_pow2_unfold(128);
            lemma_pow2_le((bits - len) as nat, 127);
        }
        let block = mask + 1;
        let rem = addr % block;
        proof {
            lemma_mod_decreases(addr as nat, block as nat);
        }
        let base = addr - rem;
        let p = Prefix { v6, addr: base, len };
        proof {
            lemma_pow2_128();
            lemma2_to64();
            lemma_pow2_pos((bits - len) as nat);
            lemma_fundamental_div_mod(addr as int, block as int);
            lemma_mod_multiples_basic(addr as int / block as int, block as int);
            assert(base as int == block as int * (addr as int / block as int));
            assert(base as int == (addr as int / block as int) * block as int) by (nonlinear_arith)
                requires
                    base as int == block as int * (addr as int / block as int),
            ;
            assert(pow2(p.bits() as nat) as int % p.size() == 0) by {
                lemma_pow2_pos(len as nat);
                lemma_mod_multiples_basic(pow2(len as nat) as int, p.size());
                assert(pow2(p.bits() as nat) == pow2(len as nat) * pow2((bits - len) as nat)) by {
                    lemma_pow2_adds(len as nat, (bits - len) as nat);
                }
            }
            if p.first() + p.size() > pow2(p.bits() as nat) {
                lemma_aligned_gap(p.first(), pow2(p.bits() as nat) as int, p.size());
            }
        }
        Some(p)
    }
}

/// What ipnet's CIDR parsing yields for a text: family, address and length
/// exactly as written, or `None` when the text is not in CIDR form. The
/// parse depends on the characters alone.
pub uninterp spec fn cidr_parse_of(s: Seq<char>) -> Option<(bool, u128, u8)>;

/// Relies on ipnet's IpNet FromStr implementation, whose parser admits only
/// lengths up to the family's width: the address comes back as written, host
/// bits included.
#[verifier::external_body]
fn ipnet_parse(s: &str) -> (r: Option<(bool, u128, u8)>)
    ensures
        r == cidr_parse_of(s@),
        (r matches Some(t) ==> t.2 <= (if t.0 { 128int } else { 32int }) && (t.0 || t.1
            <= 0xFFFF_FFFFu128)),
{
    match s.parse::<ipnet::IpNet>() {
        Ok(ipnet::IpNet::V4(n)) => Some((false, u32::from(n.addr()) as u128, n.prefix_len())),
        Ok(ipnet::IpNet::V6(n)) => Some((true, u128::from(n.addr()), n.prefix_len())),
        Err(_) => None,
    }
}

/// Parses a CIDR text into its normalized prefix together with the address
/// exactly as written, host bits intact; `None` when the text does not
/// parse.
pub fn parse_cidr(s: &str) -> (r: Option<(Prefix, u128)>)
    ensures
        r is Some <==> cidr_parse_of(s@) is Some,
        (r matches Some(pair) ==> cidr_parse_of(s@) matches Some(t) && pair.1 == t.1
            && Prefix::normalize_spec(t.0, t.1, t.2) == Some(pair.0) && pair.0.wf()),
{
    match ipnet_parse(s) {
        Some((v6, addr, len)) => {
            match Prefix::new(v6, addr, len) {
                Some(p) => Some((p, addr)),
                None => None,
            }
        },
        None => None,
    }
}

/// The normalized prefixes of the texts that parse as CIDR forms, in order;
/// texts that do not parse are passed over.
pub open spec fn parsed_subnets_spec(ss: Seq<String>) -> Seq<Prefix>
    decreases ss.len(),
{
    if ss.len() == 0 {
        Seq::<Prefix>::empty()
    } else {
        parsed_subnets_spec(ss.drop_last()) + match cidr_parse_of(ss.last()@) {
            Some(t) => match Prefix::normalize_spec(t.0, t.1, t.2) {
                Some(p) => seq![p],
                None => Seq::<Prefix>::empty(),
            },
            None => Seq::<Prefix>::empty(),
        }
    }
}

/// An input text that fails to parse: the position of the first offending
/// entry. Such an argument is an error of the run, never silently dropped.
#[derive(Clone, Copy, Debug, PartialEq, Eq, Structural)]
pub struct MalformedInput {
    /// Index of the first text that does not parse.
    pub index: usize,
}

/// Parses a list of excluded-subnet texts into their normalized prefixes, in
/// order. A text that does not parse as a CIDR form is a malformed input:
/// the whole operation fails, naming the first offending position.
pub fn parse_subnet_list(subnets: &Vec<String>) -> (r: Result<Vec<Prefix>, MalformedInput>)
    ensures
        (r is Ok <==> forall|t: int|
            0 <= t < subnets@.len() ==> cidr_parse_of(#[trigger] subnets@[t]@) is Some),
        (r matches Ok(v) ==> v@ == parsed_subnets_spec(subnets@) && crate::exclude::all_wf(v@)),
        (r matches Err(e) ==> e.index < subnets@.len() && cidr_parse_of(
            subnets@[e.index as int]@,
        ) is None && forall|t: int|
            0 <= t < e.index ==> cidr_parse_of(#[trigger] subnets@[t]@) is Some),
{
    let mut out: Vec<Prefix> = Vec::new();
    let mut i: usize = 0;
    proof {
        assert(subnets@.take(0) =~= Seq::<String>::empty());
    }
    while i < subnets.len()
        invariant
            i <= subnets.len(),
            out@ == parsed_subnets_spec(subnets@.take(i as int)),
            crate::exclude::all_wf(out@),
            forall|t: int| 0 <= t < i ==> cidr_parse_of(#[trigger] subnets@[t]@) is Some,
        decreases subnets.len() - i,
    {
        let ghost before = out@;
        match parse_cidr(subnets[i].as_str()) {
            Some((p, _)) => {
                out.push(p);
                proof {
                    assert forall|t: int| 0 <= t < out@.len() implies (#[trigger] out@[t]).wf() by {
                        if t < before.len() {
                            assert(before[t].wf());
                        } else {
                            assert(out@[t] == p);
                        }
                    }
                }
            },
            None => {
                return Err(MalformedInput { index: i });
            },
        }
        proof {
            let taken1 = subnets@.take(i as int + 1);
            assert(taken1.drop_last() =~= subnets@.take(i as int));
            assert(taken1.last() == subnets@[i as int]);
            assert(out@ =~= parsed_subnets_spec(taken1));
        }
        i = i + 1;
    }
    proof {
        assert(subnets@.take(subnets.len() as int) =~= subnets@);
    }
    Ok(out)
}

} // verus!
