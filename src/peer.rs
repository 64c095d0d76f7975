//! The per-peer header that precedes most monitoring messages.
use vstd::prelude::*;

use crate::wire::{
    be_bytes, be_value, lemma_be_bytes_len, lemma_be_round_trip, lemma_pow256_facts, push_be,
    read_be,
};

verus! {

/// Flag bit that marks an IPv6 peer.
pub const PEER_FLAGS_IS_IPV6: u8 = 0x80;

/// Flag bit that marks post-policy routes.
pub const PEER_FLAGS_IS_POST_POLICY: u8 = 0x40;

/// Flag bit that marks a peer using 2-octet AS numbers.
pub const PEER_FLAGS_IS_ASN2: u8 = 0x20;

/// Flag bit that marks routes of the Adj-RIB-Out.
pub const PEER_FLAGS_IS_ADJ_RIB_OUT: u8 = 0x10;

/// Flag bit that marks a filtered Loc-RIB.
pub const PEER_FLAGS_IS_FILTERED: u8 = 0x80;

/// Kind of a monitored peer, with the flags that its kind defines.
#[derive(Clone, Copy, Debug, PartialEq, Eq, Structural)]
pub enum BmpPeerType {
    GlobalInstancePeer { ipv6: bool, post_policy: bool, asn2: bool, adj_rib_out: bool },
    RdInstancePeer { ipv6: bool, post_policy: bool, asn2: bool, adj_rib_out: bool },
    LocalInstancePeer { ipv6: bool, post_policy: bool, asn2: bool, adj_rib_out: bool },
    LocRibInstancePeer { filtered: bool },
    Experimental251 { flags: u8 },
    Experimental252 { flags: u8 },
    Experimental253 { flags: u8 },
    Experimental254 { flags: u8 },
}

/// The flags octet for the four generic peer flags.
pub open spec fn peer_flags(ipv6: bool, post_policy: bool, asn2: bool, adj_rib_out: bool) -> u8 {
    ((if ipv6 { 0x80u8 } else { 0u8 }) | (if post_policy { 0x40u8 } else { 0u8 }) | (if asn2 {
        0x20u8
    } else {
        0u8
    }) | (if adj_rib_out { 0x10u8 } else { 0u8 })) as u8
}

/// Computes the flags octet of a peer with the given generic flags.
pub fn compute_peer_flags_value(ipv6: bool, post_policy: bool, asn2: bool, adj_rib_out: bool) -> (r:
    u8)
    ensures
        r == peer_flags(ipv6, post_policy, asn2, adj_rib_out),
{
    let ipv6_bit: u8 = if ipv6 { PEER_FLAGS_IS_IPV6 } else { 0 };
    let post_policy_bit: u8 = if post_policy { PEER_FLAGS_IS_POST_POLICY } else { 0 };
    let asn2_bit: u8 = if asn2 { PEER_FLAGS_IS_ASN2 } else { 0 };
    let adj_rib_out_bit: u8 = if adj_rib_out { PEER_FLAGS_IS_ADJ_RIB_OUT } else { 0 };
    ipv6_bit | post_policy_bit | asn2_bit | adj_rib_out_bit
}

/// Each generic flag can be read back from its bit.
pub proof fn lemma_flag_bits(a: bool, b: bool, c: bool, d: bool)
    ensures
        (peer_flags(a, b, c, d) & 0x80 != 0) == a,
        (peer_flags(a, b, c, d) & 0x40 != 0) == b,
        (peer_flags(a, b, c, d) & 0x20 != 0) == c,
        (peer_flags(a, b, c, d) & 0x10 != 0) == d,
{
    assert(((((if a { 0x80u8 } else { 0u8 }) | (if b { 0x40u8 } else { 0u8 }) | (if c {
        0x20u8
    } else {
        0u8
    }) | (if d { 0x10u8 } else { 0u8 })) as u8) & 0x80 != 0) == a) by (bit_vector);
    assert(((((if a { 0x80u8 } else { 0u8 }) | (if b { 0x40u8 } else { 0u8 }) | (if c {
        0x20u8
    } else {
        0u8
    }) | (if d { 0x10u8 } else { 0u8 })) as u8) & 0x40 != 0) == b) by (bit_vector);
    assert(((((if a { 0x80u8 } else { 0u8 }) | (if b { 0x40u8 } else { 0u8 }) | (if c {
        0x20u8
    } else {
        0u8
    }) | (if d { 0x10u8 } else { 0u8 })) as u8) & 0x20 != 0) == c) by (bit_vector);
    assert(((((if a { 0x80u8 } else { 0u8 }) | (if b { 0x40u8 } else { 0u8 }) | (if c {
        0x20u8
    } else {
        0u8
    }) | (if d { 0x10u8 } else { 0u8 })) as u8) & 0x10 != 0) == d) by (bit_vector);
}

impl BmpPeerType {
    /// The peer type code.
    pub open spec fn code(self) -> u8 {
        match self {
            BmpPeerType::GlobalInstancePeer { .. } => 0,
            BmpPeerType::RdInstancePeer { .. } => 1,
            BmpPeerType::LocalInstancePeer { .. } => 2,
            BmpPeerType::LocRibInstancePeer { .. } => 3,
            BmpPeerType::Experimental251 { .. } => 251,
            BmpPeerType::Experimental252 { .. } => 252,
            BmpPeerType::Experimental253 { .. } => 253,
            BmpPeerType::Experimental254 { .. } => 254,
        }
    }

    /// The flags octet.
    pub open spec fn flags(self) -> u8 {
        match self {
            BmpPeerType::GlobalInstancePeer { ipv6, post_policy, asn2, adj_rib_out }
            | BmpPeerType::RdInstancePeer { ipv6, post_policy, asn2, adj_rib_out }
            | BmpPeerType::LocalInstancePeer { ipv6, post_policy, asn2, adj_rib_out } => peer_flags(
                ipv6,
                post_policy,
                asn2,
                adj_rib_out,
            ),
            BmpPeerType::LocRibInstancePeer { filtered } => if filtered {
                PEER_FLAGS_IS_FILTERED
            } else {
                0
            },
            BmpPeerType::Experimental251 { flags }
            | BmpPeerType::Experimental252 { flags }
            | BmpPeerType::Experimental253 { flags }
            | BmpPeerType::Experimental254 { flags } => flags,
        }
    }

    /// A peer type can be rebuilt from its code and flags.
    pub open spec fn from_code(code: u8, flags: u8) -> Option<BmpPeerType> {
        let ipv6 = flags & 0x80 != 0;
        let post_policy = flags & 0x40 != 0;
        let asn2 = flags & 0x20 != 0;
        let adj_rib_out = flags & 0x10 != 0;
        if code == 0 {
            Some(BmpPeerType::GlobalInstancePeer { ipv6, post_policy, asn2, adj_rib_out })
        } else if code == 1 {
            Some(BmpPeerType::RdInstancePeer { ipv6, post_policy, asn2, adj_rib_out })
        } else if code == 2 {
            Some(BmpPeerType::LocalInstancePeer { ipv6, post_policy, asn2, adj_rib_out })
        } else if code == 3 {
            Some(BmpPeerType::LocRibInstancePeer { filtered: flags & 0x80 != 0 })
        } else if code == 251 {
            Some(BmpPeerType::Experimental251 { flags })
        } else if code == 252 {
            Some(BmpPeerType::Experimental252 { flags })
        } else if code == 253 {
            Some(BmpPeerType::Experimental253 { flags })
        } else if code == 254 {
            Some(BmpPeerType::Experimental254 { flags })
        } else {
            None
        }
    }

    pub proof fn lemma_round_trip(self)
        ensures
            BmpPeerType::from_code(self.code(), self.flags()) == Some(self),
    {
        match self {
            BmpPeerType::GlobalInstancePeer { ipv6, post_policy, asn2, adj_rib_out }
            | BmpPeerType::RdInstancePeer { ipv6, post_policy, asn2, adj_rib_out }
            | BmpPeerType::LocalInstancePeer { ipv6, post_policy, asn2, adj_rib_out } => {
                lemma_flag_bits(ipv6, post_policy, asn2, adj_rib_out);
            },
            BmpPeerType::LocRibInstancePeer { filtered } => {
                assert((PEER_FLAGS_IS_FILTERED & 0x80 != 0) == true) by (bit_vector);
                assert((0u8 & 0x80 != 0) == false) by (bit_vector);
            },
            _ => {},
        }
    }

    /// Decodes a peer type from its code and flags octets.
    pub fn from_wire(code: u8, flags: u8) -> (r: Option<BmpPeerType>)
        ensures
            r == BmpPeerType::from_code(code, flags),
    {
        let ipv6 = flags & 0x80 != 0;
        let post_policy = flags & 0x40 != 0;
        let asn2 = flags & 0x20 != 0;
        let adj_rib_out = flags & 0x10 != 0;
        match code {
            0 => Some(BmpPeerType::GlobalInstancePeer { ipv6, post_policy, asn2, adj_rib_out }),
            1 => Some(BmpPeerType::RdInstancePeer { ipv6, post_policy, asn2, adj_rib_out }),
            2 => Some(BmpPeerType::LocalInstancePeer { ipv6, post_policy, asn2, adj_rib_out }),
            3 => Some(BmpPeerType::LocRibInstancePeer { filtered: flags & 0x80 != 0 }),
            251 => Some(BmpPeerType::Experimental251 { flags }),
            252 => Some(BmpPeerType::Experimental252 { flags }),
            253 => Some(BmpPeerType::Experimental253 { flags }),
            254 => Some(BmpPeerType::Experimental254 { flags }),
            _ => None,
        }
    }

    /// The peer type code.
    pub fn get_type(&self) -> (r: u8)
        ensures
            r == self.code(),
    {
        match self {
            BmpPeerType::GlobalInstancePeer { .. } => 0,
            BmpPeerType::RdInstancePeer { .. } => 1,
            BmpPeerType::LocalInstancePeer { .. } => 2,
            BmpPeerType::LocRibInstancePeer { .. } => 3,
            BmpPeerType::Experimental251 { .. } => 251,
            BmpPeerType::Experimental252 { .. } => 252,
            BmpPeerType::Experimental253 { .. } => 253,
            BmpPeerType::Experimental254 { .. } => 254,
        }
    }

    /// Number of octets that the peer type takes on the wire.
    pub fn len(&self) -> (r: usize)
        ensures
            r == 2,
    {
        2
    }

    /// Appends the type and flags octets to `out`.
    pub fn write(&self, out: &mut Vec<u8>)
        ensures
            final(out)@ == old(out)@ + seq![self.code(), self.flags()],
    {
        out.push(self.get_type());
        let flags = match self {
            BmpPeerType::GlobalInstancePeer { ipv6, post_policy, asn2, adj_rib_out }
            | BmpPeerType::RdInstancePeer { ipv6, post_policy, asn2, adj_rib_out }
            | BmpPeerType::LocalInstancePeer { ipv6, post_policy, asn2, adj_rib_out } => {
                compute_peer_flags_value(*ipv6, *post_policy, *asn2, *adj_rib_out)
            },
            BmpPeerType::LocRibInstancePeer { filtered } => if *filtered {
                PEER_FLAGS_IS_FILTERED
            } else {
                0
            },
            BmpPeerType::Experimental251 { flags }
            | BmpPeerType::Experimental252 { flags }
            | BmpPeerType::Experimental253 { flags }
            | BmpPeerType::Experimental254 { flags } => *flags,
        };
        out.push(flags);
        assert(final(out)@ =~= old(out)@ + seq![self.code(), self.flags()]);
    }
}

/// Octets of a peer header on the wire.
pub const PEER_HEADER_LEN: usize = 42;

/// Identity and time stamp of the peer that a message is about.
///
/// The address is held as 16 octets; an IPv4 address takes the low four.
/// The time stamp is in seconds and microseconds; zero when absent.
#[derive(Clone, Copy, Debug, PartialEq, Eq, Structural)]
pub struct PeerHeader {
    pub peer_type: BmpPeerType,
    pub distinguisher: u64,
    pub address: u128,
    pub peer_as: u32,
    pub bgp_id: u32,
    pub timestamp_secs: u32,
    pub timestamp_micros: u32,
}

impl PeerHeader {
    /// The octets of the header on the wire.
    pub open spec fn spec_encode(self) -> Seq<u8> {
        seq![self.peer_type.code(), self.peer_type.flags()] + be_bytes(self.distinguisher as nat, 8)
            + be_bytes(self.address as nat, 16) + be_bytes(self.peer_as as nat, 4) + be_bytes(
            self.bgp_id as nat,
            4,
        ) + be_bytes(self.timestamp_secs as nat, 4) + be_bytes(self.timestamp_micros as nat, 4)
    }

    /// The header held by the first octets of `s`, if its peer type is known.
    pub open spec fn spec_parse(s: Seq<u8>) -> Option<PeerHeader> {
        if s.len() < 42 {
            None
        } else {
            match BmpPeerType::from_code(s[0], s[1]) {
                None => None,
                Some(peer_type) => Some(
                    PeerHeader {
                        peer_type,
                        distinguisher: be_value(s.subrange(2, 10)) as u64,
                        address: be_value(s.subrange(10, 26)) as u128,
                        peer_as: be_value(s.subrange(26, 30)) as u32,
                        bgp_id: be_value(s.subrange(30, 34)) as u32,
                        timestamp_secs: be_value(s.subrange(34, 38)) as u32,
                        timestamp_micros: be_value(s.subrange(38, 42)) as u32,
                    },
                ),
            }
        }
    }

    pub proof fn lemma_encode_len(self)
        ensures
            self.spec_encode().len() == 42,
    {
        lemma_be_bytes_len(self.distinguisher as nat, 8);
        lemma_be_bytes_len(self.address as nat, 16);
        lemma_be_bytes_len(self.peer_as as nat, 4);
        lemma_be_bytes_len(self.bgp_id as nat, 4);
        lemma_be_bytes_len(self.timestamp_secs as nat, 4);
        lemma_be_bytes_len(self.timestamp_micros as nat, 4);
    }

    /// Decoding the octets of a header, followed by anything, gives the header back.
    pub proof fn lemma_round_trip(self, rest: Seq<u8>)
        ensures
            PeerHeader::spec_parse(self.spec_encode() + rest) == Some(self),
    {
        let s = self.spec_encode() + rest;
        self.lemma_encode_len();
        lemma_be_bytes_len(self.distinguisher as nat, 8);
        lemma_be_bytes_len(self.address as nat, 16);
        lemma_be_bytes_len(self.peer_as as nat, 4);
        lemma_be_bytes_len(self.bgp_id as nat, 4);
        lemma_be_bytes_len(self.timestamp_secs as nat, 4);
        lemma_be_bytes_len(self.timestamp_micros as nat, 4);
        lemma_pow256_facts();
        lemma_be_round_trip(self.distinguisher as nat, 8);
        lemma_be_round_trip(self.address as nat, 16);
        lemma_be_round_trip(self.peer_as as nat, 4);
        lemma_be_round_trip(self.bgp_id as nat, 4);
        lemma_be_round_trip(self.timestamp_secs as nat, 4);
        lemma_be_round_trip(self.timestamp_micros as nat, 4);
        self.peer_type.lemma_round_trip();
        assert(s.subrange(2, 10) =~= be_bytes(self.distinguisher as nat, 8));
        assert(s.subrange(10, 26) =~= be_bytes(self.address as nat, 16));
        assert(s.subrange(26, 30) =~= be_bytes(self.peer_as as nat, 4));
        assert(s.subrange(30, 34) =~= be_bytes(self.bgp_id as nat, 4));
        assert(s.subrange(34, 38) =~= be_bytes(self.timestamp_secs as nat, 4));
        assert(s.subrange(38, 42) =~= be_bytes(self.timestamp_micros as nat, 4));
    }

    /// Number of octets that the header takes on the wire.
    pub fn len(&self) -> (r: usize)
        ensures
            r == PEER_HEADER_LEN,
    {
        PEER_HEADER_LEN
    }

    /// Appends the header to `out`.
    pub fn write(&self, out: &mut Vec<u8>)
        ensures
            final(out)@ == old(out)@ + self.spec_encode(),
    {
        self.peer_type.write(out);
        push_be(out, self.distinguisher as u128, 8);
        push_be(out, self.address, 16);
        push_be(out, self.peer_as as u128, 4);
        push_be(out, self.bgp_id as u128, 4);
        push_be(out, self.timestamp_secs as u128, 4);
        push_be(out, self.timestamp_micros as u128, 4);
        assert(final(out)@ =~= old(out)@ + self.spec_encode());
    }

    /// Decodes the header that starts at `pos`.
    pub fn from_wire(b: &[u8], pos: usize) -> (r: Option<PeerHeader>)
        requires
            pos <= b@.len(),
        ensures
            r == PeerHeader::spec_parse(b@.skip(pos as int)),
    {
        let _len = b.len();
        if b.len() - pos < PEER_HEADER_LEN {
            return None;
        }
        let s = Ghost(b@.skip(pos as int));
        let peer_type = match BmpPeerType::from_wire(b[pos], b[pos + 1]) {
            None => return None,
            Some(t) => t,
        };
        let distinguisher = read_be(b, pos + 2, 8);
        let address = read_be(b, pos + 10, 16);
        let peer_as = read_be(b, pos + 26, 4);
        let bgp_id = read_be(b, pos + 30, 4);
        let timestamp_secs = read_be(b, pos + 34, 4);
        let timestamp_micros = read_be(b, pos + 38, 4);
        proof {
            lemma_pow256_facts();
            crate::wire::lemma_be_value_bound(b@.subrange(pos + 2, pos + 10));
            crate::wire::lemma_be_value_bound(b@.subrange(pos + 26, pos + 30));
            crate::wire::lemma_be_value_bound(b@.subrange(pos + 30, pos + 34));
            crate::wire::lemma_be_value_bound(b@.subrange(pos + 34, pos + 38));
            crate::wire::lemma_be_value_bound(b@.subrange(pos + 38, pos + 42));
            assert(s@.subrange(2, 10) =~= b@.subrange(pos + 2, pos + 10));
            assert(s@.subrange(10, 26) =~= b@.subrange(pos + 10, pos + 26));
            assert(s@.subrange(26, 30) =~= b@.subrange(pos + 26, pos + 30));
            assert(s@.subrange(30, 34) =~= b@.subrange(pos + 30, pos + 34));
            assert(s@.subrange(34, 38) =~= b@.subrange(pos + 34, pos + 38));
            assert(s@.subrange(38, 42) =~= b@.subrange(pos + 38, pos + 42));
        }
        Some(
            PeerHeader {
                peer_type,
                distinguisher: distinguisher as u64,
                address,
                peer_as: peer_as as u32,
                bgp_id: bgp_id as u32,
                timestamp_secs: timestamp_secs as u32,
                timestamp_micros: timestamp_micros as u32,
            },
        )
    }
}

} // verus!
