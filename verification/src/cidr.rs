//! CIDR canonicalization: parse an address block, zero its host bits, and
//! render it in standard form (e.g. `142.250.1.5/16` -> `142.250.0.0/16`).
//!
//! Parsing and rendering are done by the `ipnet` crate; the network-address
//! computation is done here.
use vstd::prelude::*;

use crate::text::decimal;
use vstd::arithmetic::power2::{lemma2_to64, pow2};

verus! {

/// An IP network as plain values: the address octets and the prefix length.
#[derive(Debug, Clone, Copy, PartialEq, Eq)]
pub enum NetAddr {
    V4 { octets: [u8; 4], prefix_len: u8 },
    V6 { octets: [u8; 16], prefix_len: u8 },
}

impl NetAddr {
    /// The octets and prefix length.
    pub open spec fn parts(self) -> (Seq<u8>, u8) {
        match self {
            NetAddr::V4 { octets, prefix_len } => (octets@, prefix_len),
            NetAddr::V6 { octets, prefix_len } => (octets@, prefix_len),
        }
    }
}

/// An address of 4 octets with a prefix of at most 32 bits, or of 16
/// octets with a prefix of at most 128 bits.
pub open spec fn valid_net(octets: Seq<u8>, prefix_len: u8) -> bool {
    (octets.len() == 4 && prefix_len <= 32) || (octets.len() == 16 && prefix_len <= 128)
}

/// What `ipnet` parses from `text` (`IpNet::from_str`): the octets and
/// prefix length of an `a.b.c.d/p` or IPv6 `addr/p` network, if any.
pub uninterp spec fn ipnet_parse(text: Seq<char>) -> Option<(Seq<u8>, u8)>;

/// The text `ipnet` renders for an IPv4 network (`Ipv4Net`'s `Display`):
/// the address in dotted decimal, `/`, and the prefix length in decimal.
pub open spec fn ipv4_net_text(octets: Seq<u8>, prefix_len: u8) -> Seq<char> {
    decimal(octets[0] as nat) + "."@ + decimal(octets[1] as nat) + "."@ + decimal(
        octets[2] as nat,
    ) + "."@ + decimal(octets[3] as nat) + "/"@ + decimal(prefix_len as nat)
}

/// The text `ipnet` renders for an IPv6 network (`Ipv6Net`'s `Display`).
pub uninterp spec fn ipv6_net_text(octets: Seq<u8>, prefix_len: u8) -> Seq<char>;

/// The plain-value view of a parse outcome.
pub open spec fn parsed_parts(r: Option<NetAddr>) -> Option<(Seq<u8>, u8)> {
    match r {
        Some(n) => Some(n.parts()),
        None => None,
    }
}

/// Parses an IP network with `ipnet::IpNet::from_str`. The contract names
/// the parse result (`ipnet_parse`) and states what the crate's source
/// guarantees of it: a 4-octet address has a prefix of at most 32 bits and a
/// 16-octet address one of at most 128 bits. Which texts parse, and to
/// what, is not stated.
#[verifier::external_body]
fn parse_ipnet(text: &str) -> (r: Option<NetAddr>)
    ensures
        parsed_parts(r) == ipnet_parse(text@),
        r matches Some(n) ==> valid_net(n.parts().0, n.parts().1),
        r matches Some(NetAddr::V4 { .. }) ==> r->0.parts().0.len() == 4,
        r matches Some(NetAddr::V6 { .. }) ==> r->0.parts().0.len() == 16,
{
    match text.parse::<ipnet::IpNet>() {
        Ok(ipnet::IpNet::V4(n)) => Some(NetAddr::V4 { octets: n.addr().octets(), prefix_len: n.prefix_len() }),
        Ok(ipnet::IpNet::V6(n)) => Some(NetAddr::V6 { octets: n.addr().octets(), prefix_len: n.prefix_len() }),
        Err(_) => None,
    }
}

/// Renders an IPv4 network with `ipnet::Ipv4Net`'s `Display`, which writes
/// `{addr}/{prefix_len}`, the address shown by std in dotted decimal: the
/// text is [`ipv4_net_text`]. `Ipv4Net::new` rejects prefixes above 32, so
/// the call requires a prefix of at most 32 bits.
#[verifier::external_body]
fn render_ipv4_net(octets: [u8; 4], prefix_len: u8) -> (r: String)
    requires
        prefix_len <= 32,
    ensures
        r@ == ipv4_net_text(octets@, prefix_len),
{
    ipnet::Ipv4Net::new(octets.into(), prefix_len).unwrap().to_string()
}

/// Renders an IPv6 network with `ipnet::Ipv6Net`'s `Display`; the text is
/// named `ipv6_net_text`. `Ipv6Net::new` rejects prefixes above 128, so the
/// call requires a prefix of at most 128 bits.
#[verifier::external_body]
fn render_ipv6_net(octets: [u8; 16], prefix_len: u8) -> (r: String)
    requires
        prefix_len <= 128,
    ensures
        r@ == ipv6_net_text(octets@, prefix_len),
{
    ipnet::Ipv6Net::new(octets.into(), prefix_len).unwrap().to_string()
}

/// The high `keep` bits of a byte set, the rest clear.
pub open spec fn keep_mask(keep: int) -> u8 {
    if keep >= 8 {
        0xff
    } else if keep <= 0 {
        0
    } else if keep == 1 {
        0x80
    } else if keep == 2 {
        0xc0
    } else if keep == 3 {
        0xe0
    } else if keep == 4 {
        0xf0
    } else if keep == 5 {
        0xf8
    } else if keep == 6 {
        0xfc
    } else {
        0xfe
    }
}

/// Masking a byte with `keep_mask(k)` keeps its `k` high bits and clears
/// the others: the masked byte agrees with the byte on every bit of the
/// prefix and is a multiple of the weight of the first host bit. A byte
/// wholly inside the prefix is kept, one wholly outside becomes 0.
pub proof fn lemma_masking_keeps_prefix_bits(b: u8, k: int)
    ensures
        0 <= k <= 8 ==> (b & keep_mask(k)) as int / pow2((8 - k) as nat) as int == b as int / pow2(
            (8 - k) as nat,
        ) as int,
        0 <= k <= 8 ==> (b & keep_mask(k)) as int % pow2((8 - k) as nat) as int == 0,
        k >= 8 ==> b & keep_mask(k) == b,
        k <= 0 ==> b & keep_mask(k) == 0,
{
    lemma2_to64();
    if k >= 8 {
        assert(b & 0xffu8 == b) by (bit_vector);
        if k == 8 {
            assert(pow2(0) == 1);
        assert(pow2((8 - k) as nat) == 1);
        }
    } else if k <= 0 {
        assert(b & 0u8 == 0) by (bit_vector);
        if k == 0 {
            assert(pow2(8) == 256);
        assert(pow2((8 - k) as nat) == 256);
        }
    } else if k == 1 {
        assert(pow2(7) == 128);
        assert(pow2((8 - k) as nat) == 128);
        assert((b & 0x80u8) / 128 == b / 128 && (b & 0x80u8) % 128 == 0) by (bit_vector);
        assert(keep_mask(k) == 0x80u8);
        assert((8 - k) as nat == 7);
        assert((b & keep_mask(k)) as int / 128 == b as int / 128);
    } else if k == 2 {
        assert(pow2(6) == 64);
        assert(pow2((8 - k) as nat) == 64);
        assert((b & 0xc0u8) / 64 == b / 64 && (b & 0xc0u8) % 64 == 0) by (bit_vector);
    } else if k == 3 {
        assert(pow2(5) == 32);
        assert(pow2((8 - k) as nat) == 32);
        assert((b & 0xe0u8) / 32 == b / 32 && (b & 0xe0u8) % 32 == 0) by (bit_vector);
    } else if k == 4 {
        assert(pow2(4) == 16);
        assert(pow2((8 - k) as nat) == 16);
        assert((b & 0xf0u8) / 16 == b / 16 && (b & 0xf0u8) % 16 == 0) by (bit_vector);
    } else if k == 5 {
        assert(pow2(3) == 8);
        assert(pow2((8 - k) as nat) == 8);
        assert((b & 0xf8u8) / 8 == b / 8 && (b & 0xf8u8) % 8 == 0) by (bit_vector);
    } else if k == 6 {
        assert(pow2(2) == 4);
        assert(pow2((8 - k) as nat) == 4);
        assert((b & 0xfcu8) / 4 == b / 4 && (b & 0xfcu8) % 4 == 0) by (bit_vector);
    } else {
        assert(pow2(1) == 2);
        assert(pow2((8 - k) as nat) == 2);
        assert((b & 0xfeu8) / 2 == b / 2 && (b & 0xfeu8) % 2 == 0) by (bit_vector);
    }
}

/// The network address keeps the first `prefix_len` bits of the address
/// and clears the rest, byte by byte: a byte before the prefix's end is
/// kept, a byte after it is 0, and the byte it ends in keeps exactly its
/// leading prefix bits.
pub proof fn lemma_network_keeps_prefix(octets: Seq<u8>, prefix_len: int, i: int)
    requires
        0 <= i < octets.len(),
    ensures
        network_octets(octets, prefix_len).len() == octets.len(),
        8 * (i + 1) <= prefix_len ==> network_octets(octets, prefix_len)[i] == octets[i],
        prefix_len <= 8 * i ==> network_octets(octets, prefix_len)[i] == 0,
        8 * i < prefix_len < 8 * (i + 1) ==> {
            let host_bits = (8 * (i + 1) - prefix_len) as nat;
            &&& network_octets(octets, prefix_len)[i] as int / pow2(host_bits) as int == octets[i] as int
                / pow2(host_bits) as int
            &&& network_octets(octets, prefix_len)[i] as int % pow2(host_bits) as int == 0
        },
{
    lemma_masking_keeps_prefix_bits(octets[i], prefix_len - 8 * i);
}

/// The network address of `octets` under a `prefix_len`-bit prefix: every
/// bit after the first `prefix_len` bits cleared.
pub open spec fn network_octets(octets: Seq<u8>, prefix_len: int) -> Seq<u8> {
    Seq::new(octets.len(), |i: int| octets[i] & keep_mask(prefix_len - 8 * i))
}

/// The canonical text of a parsed network: its network address and prefix.
pub open spec fn net_text(octets: Seq<u8>, prefix_len: u8) -> Seq<char> {
    if octets.len() == 4 {
        ipv4_net_text(network_octets(octets, prefix_len as int), prefix_len)
    } else {
        ipv6_net_text(network_octets(octets, prefix_len as int), prefix_len)
    }
}

/// Canonical form of `raw` (surrounding whitespace ignored), or `None` when
/// it is not a network in CIDR notation.
pub open spec fn canonical_cidr(raw: Seq<char>) -> Option<Seq<char>> {
    match ipnet_parse(crate::text::trim(raw)) {
        Some((octets, prefix_len)) => Some(net_text(octets, prefix_len)),
        None => None,
    }
}

fn mask_byte(b: u8, keep: i32) -> (r: u8)
    ensures
        r == b & keep_mask(keep as int),
{
    let m: u8 = if keep >= 8 {
        0xff
    } else if keep <= 0 {
        0
    } else if keep == 1 {
        0x80
    } else if keep == 2 {
        0xc0
    } else if keep == 3 {
        0xe0
    } else if keep == 4 {
        0xf0
    } else if keep == 5 {
        0xf8
    } else if keep == 6 {
        0xfc
    } else {
        0xfe
    };
    b & m
}

/// The canonical text of a parsed network: its network address (host bits
/// cleared) and its prefix length.
pub fn canonical_network(net: NetAddr) -> (r: String)
    requires
        valid_net(net.parts().0, net.parts().1),
    ensures
        r@ == net_text(net.parts().0, net.parts().1),
{
    match net {
        NetAddr::V4 { octets: o, prefix_len: p } => {
            let k = p as i32;
            let masked = [
                mask_byte(o[0], k),
                mask_byte(o[1], k - 8),
                mask_byte(o[2], k - 16),
                mask_byte(o[3], k - 24),
            ];
            proof {
                assert(masked@ =~= network_octets(o@, p as int));
            }
            render_ipv4_net(masked, p)
        },
        NetAddr::V6 { octets: o, prefix_len: p } => {
            let k = p as i32;
            let masked = [
                mask_byte(o[0], k),
                mask_byte(o[1], k - 8),
                mask_byte(o[2], k - 16),
                mask_byte(o[3], k - 24),
                mask_byte(o[4], k - 32),
                mask_byte(o[5], k - 40),
                mask_byte(o[6], k - 48),
                mask_byte(o[7], k - 56),
                mask_byte(o[8], k - 64),
                mask_byte(o[9], k - 72),
                mask_byte(o[10], k - 80),
                mask_byte(o[11], k - 88),
                mask_byte(o[12], k - 96),
                mask_byte(o[13], k - 104),
                mask_byte(o[14], k - 112),
                mask_byte(o[15], k - 120),
            ];
            proof {
                assert(masked@ =~= network_octets(o@, p as int));
            }
            render_ipv6_net(masked, p)
        },
    }
}

/// Canonicalizes a CIDR to network form (host bits zeroed), so that
/// equivalent inputs coincide.
pub fn canonicalize_cidr(raw: &str) -> (r: Option<String>)
    ensures
        match r {
            Some(s) => canonical_cidr(raw@) == Some(s@),
            None => canonical_cidr(raw@) is None,
        },
{
    let chars = crate::text::chars_of(raw);
    let trimmed = crate::text::string_of(&crate::text::trim_chars(&chars));
    match parse_ipnet(trimmed.as_str()) {
        None => None,
        Some(net) => Some(canonical_network(net)),
    }
}

} // verus!
