//! IP addresses and networks in CIDR notation, as plain numbers.
//!
//! Networks are read, written and enumerated by the `cidr_utils` crate.
use vstd::arithmetic::div_mod::{lemma_fundamental_div_mod, lemma_mod_multiples_basic};
use vstd::arithmetic::power2::{lemma2_to64, lemma_pow2_adds, lemma_pow2_pos, pow2};
use vstd::prelude::*;

use cidr_utils::cidr::{IpCidr, Ipv4Cidr, Ipv6Cidr};

use crate::decimal::decimal_text;

verus! {

/// An IP address: an IPv4 address as its 32 bits, an IPv6 address as its
/// 128 bits, most significant first.
#[derive(Clone, Copy, PartialEq, Eq, Structural, Debug)]
pub enum IpAddress {
    V4(u32),
    V6(u128),
}

/// A network: its first address and the number of leading bits that all of
/// its addresses share.
#[derive(Clone, Copy, PartialEq, Eq, Structural, Debug)]
pub enum Cidr {
    V4 { prefix: u32, bits: u8 },
    V6 { prefix: u128, bits: u8 },
}

impl Cidr {
    /// The number of bits of an address of the network's family.
    pub open spec fn width(&self) -> nat {
        match self {
            Cidr::V4 { .. } => 32,
            Cidr::V6 { .. } => 128,
        }
    }

    /// The first address of the network, as a number.
    pub open spec fn first(&self) -> nat {
        match self {
            Cidr::V4 { prefix, .. } => *prefix as nat,
            Cidr::V6 { prefix, .. } => *prefix as nat,
        }
    }

    /// The length of the network's prefix.
    pub open spec fn prefix_len(&self) -> nat {
        match self {
            Cidr::V4 { bits, .. } => *bits as nat,
            Cidr::V6 { bits, .. } => *bits as nat,
        }
    }

    /// The number of addresses in the network.
    pub open spec fn size(&self) -> nat {
        pow2((self.width() - self.prefix_len()) as nat)
    }

    /// A network is well formed: its prefix is no longer than an address,
    /// and the bits of its first address past the prefix are zero.
    pub open spec fn wf(&self) -> bool {
        &&& self.prefix_len() <= self.width()
        &&& self.first() % self.size() == 0
    }

    /// The `i`-th address of the network, counting from its first.
    pub open spec fn address_at(&self, i: int) -> IpAddress {
        match self {
            Cidr::V4 { prefix, .. } => IpAddress::V4((*prefix + i) as u32),
            Cidr::V6 { prefix, .. } => IpAddress::V6((*prefix + i) as u128),
        }
    }
}

/// The dotted-decimal text of an IPv4 address.
pub open spec fn ipv4_text(a: u32) -> Seq<char> {
    decimal_text((a as nat / 0x1000000) % 256) + seq!['.'] + decimal_text((a as nat / 0x10000) % 256)
        + seq!['.'] + decimal_text((a as nat / 0x100) % 256) + seq!['.'] + decimal_text(
        a as nat % 256,
    )
}

/// The text that `cidr_utils` writes for the IPv6 network with first address
/// `prefix` and prefix length `bits`.
pub uninterp spec fn spec_ipv6_cidr_text(prefix: u128, bits: u8) -> Seq<char>;

/// The network that `cidr_utils` reads from the text `s`, if it reads one.
pub uninterp spec fn spec_cidr_parse(s: Seq<char>) -> Option<Cidr>;

/// The text of a network in CIDR notation: an IPv4 network as its first
/// address in dotted decimal, `/` and the prefix length.
pub open spec fn cidr_text(c: Cidr) -> Seq<char> {
    match c {
        Cidr::V4 { prefix, bits } => ipv4_text(prefix) + seq!['/'] + decimal_text(bits as nat),
        Cidr::V6 { prefix, bits } => spec_ipv6_cidr_text(prefix, bits),
    }
}

/// Reads a network in CIDR notation with `cidr_utils::cidr::IpCidr::from_str`.
/// Claimed: the result is `spec_cidr_parse` of the text, and a network read
/// is well formed (the crate masks the first address to the prefix and
/// rejects prefix lengths longer than an address). What texts are read is
/// left to the name.
#[verifier::external_body]
pub(crate) fn cidr_from_str(s: &str) -> (r: Option<Cidr>)
    ensures
        r == spec_cidr_parse(s@),
        r matches Some(c) ==> c.wf(),
{
    match IpCidr::from_str(s) {
        Ok(IpCidr::V4(c)) => Some(Cidr::V4 { prefix: c.get_prefix(), bits: c.get_bits() }),
        Ok(IpCidr::V6(c)) => Some(Cidr::V6 { prefix: c.get_prefix(), bits: c.get_bits() }),
        Err(_) => None,
    }
}

/// Writes a network with the `Display` impl of `cidr_utils::cidr::IpCidr`.
/// Claimed: an IPv4 network is written as its first address in dotted
/// decimal, `/` and its prefix length; an IPv6 network is written as
/// `spec_ipv6_cidr_text` (std's text of the first address, `/` and the
/// prefix length); and `IpCidr::from_str` reads either text back as the same
/// network.
#[verifier::external_body]
pub(crate) fn cidr_to_text(c: &Cidr) -> (s: String)
    requires
        c.wf(),
    ensures
        *c matches Cidr::V4 { prefix, bits } ==> s@ == ipv4_text(prefix) + seq!['/']
            + decimal_text(bits as nat),
        *c matches Cidr::V6 { prefix, bits } ==> s@ == spec_ipv6_cidr_text(prefix, bits),
        spec_cidr_parse(s@) == Some(*c),
{
    match *c {
        Cidr::V4 { prefix, bits } => IpCidr::V4(Ipv4Cidr::from_prefix_and_bits(prefix, bits).unwrap()).to_string(),
        Cidr::V6 { prefix, bits } => IpCidr::V6(Ipv6Cidr::from_prefix_and_bits(prefix, bits).unwrap()).to_string(),
    }
}

/// Lists the addresses of a network with `cidr_utils`' iterators
/// (`Ipv4Cidr::iter`, `Ipv6Cidr::iter`). Claimed: every address of the
/// network, once, from the first upward.
#[verifier::external_body]
pub(crate) fn cidr_addresses(c: &Cidr) -> (r: Vec<IpAddress>)
    requires
        c.wf(),
        c.size() <= usize::MAX,
    ensures
        r@.len() == c.size(),
        forall|i: int| 0 <= i < c.size() ==> #[trigger] r@[i] == c.address_at(i),
{
    match *c {
        Cidr::V4 { prefix, bits } => Ipv4Cidr::from_prefix_and_bits(prefix, bits).unwrap().iter().map(IpAddress::V4).collect(),
        Cidr::V6 { prefix, bits } => Ipv6Cidr::from_prefix_and_bits(prefix, bits).unwrap().iter().map(IpAddress::V6).collect(),
    }
}

/// An aligned block of `size` numbers that starts below a multiple `total`
/// of `size` ends at or below `total`.
proof fn lemma_aligned_block_fits(first: nat, size: nat, total: nat)
    requires
        size > 0,
        first % size == 0,
        total % size == 0,
        first < total,
    ensures
        first + size <= total,
{
    lemma_fundamental_div_mod(first as int, size as int);
    lemma_fundamental_div_mod(total as int, size as int);
    let q = first / size;
    let m = total / size;
    assert(first == size * q);
    assert(total == size * m);
    assert(q < m) by (nonlinear_arith)
        requires
            size * q < size * m,
            size > 0,
    ;
    assert(size * q + size <= size * m) by (nonlinear_arith)
        requires
            q + 1 <= m,
            size > 0,
    ;
}

/// The addresses of a well-formed network are its first address and the
/// ones that follow, with no wrap past the end of the address space; so
/// they are pairwise distinct, and the first is where the network starts.
pub proof fn lemma_network_addresses_distinct(c: Cidr)
    requires
        c.wf(),
    ensures
        c.first() + c.size() <= pow2(c.width()),
        forall|i: int, j: int|
            0 <= i < j < c.size() ==> c.address_at(i) != c.address_at(j),
{
    let k = (c.width() - c.prefix_len()) as nat;
    lemma_pow2_adds(k, c.prefix_len());
    assert(k + c.prefix_len() == c.width());
    lemma_pow2_pos(k);
    lemma_pow2_pos(c.prefix_len());
    lemma_mod_multiples_basic(pow2(c.prefix_len()) as int, pow2(k) as int);
    assert(pow2(c.width()) == pow2(c.prefix_len()) * pow2(k)) by (nonlinear_arith)
        requires
            pow2(c.width()) == pow2(k) * pow2(c.prefix_len()),
    ;
    lemma2_to64();
    lemma_pow2_adds(64, 64);
    match c {
        Cidr::V4 { prefix, bits } => {
            assert(pow2(32) == 0x1_0000_0000);
        },
        Cidr::V6 { prefix, bits } => {
            assert(pow2(128) == 0x1_0000_0000_0000_0000 * 0x1_0000_0000_0000_0000);
        },
    }
    lemma_aligned_block_fits(c.first(), c.size(), pow2(c.width()));
}

} // verus!
