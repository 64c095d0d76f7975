//! Monitoring messages: their model, their octets, and how those octets are read back.
use vstd::prelude::*;

use crate::bgp::{
    encode_open, lemma_encode_open_len, lemma_open_round_trip, open_len, open_wf, parse_open,
    BgpOpenView,
};
use crate::error::BmpMessageParsingError;
use crate::peer::PeerHeader;
use crate::tlv::{
    encode_info, encode_infos, info_wf, lemma_encode_info_len, lemma_info_round_trip,
    lemma_infos_round_trip, parse_info, parse_infos, InfoView,
};
use crate::wire::{be_bytes, be_value, lemma_be_bytes_len, lemma_be_round_trip, lemma_pow256_facts};

verus! {

/// The only protocol version spoken.
pub const BMP_VERSION: u8 = 3;

/// Octets of the common header: version, 32-bit length and message type.
pub const BMP_COMMON_HEADER_LEN: usize = 6;

/// A reason seen as plain values: code, FSM event, data octets and TLV.
///
/// Fields that the reason code does not use hold zero or empty values.
pub type ReasonView = (u8, u16, Seq<u8>, InfoView);

/// The TLV value that stands in unused reason fields.
pub open spec fn no_info() -> InfoView {
    (0u16, Seq::empty())
}

/// Whether `code` is a peer down reason whose payload is raw data.
pub open spec fn reason_has_data(code: u8) -> bool {
    code == 1 || code == 3 || (251 <= code && code <= 254)
}

/// A reason that can be encoded, with its unused fields at their empty values.
pub open spec fn reason_wf(r: ReasonView) -> bool {
    &&& (reason_has_data(r.0) || r.0 == 2 || r.0 == 4 || r.0 == 5 || r.0 == 6)
    &&& (r.0 != 2 ==> r.1 == 0)
    &&& (!reason_has_data(r.0) ==> r.2 == Seq::<u8>::empty())
    &&& (r.0 == 6 ==> info_wf(r.3))
    &&& (r.0 != 6 ==> r.3 == no_info())
}

/// The octets of a reason: its code, then its payload.
pub open spec fn encode_reason(r: ReasonView) -> Seq<u8> {
    seq![r.0] + if r.0 == 2 {
        be_bytes(r.1 as nat, 2)
    } else if r.0 == 6 {
        encode_info(r.3)
    } else {
        r.2
    }
}

/// The reason that fills `s` exactly.
pub open spec fn parse_reason(s: Seq<u8>) -> Result<ReasonView, BmpMessageParsingError> {
    if s.len() == 0 {
        Err(BmpMessageParsingError::Truncated)
    } else {
        let code = s[0];
        let p = s.skip(1);
        if reason_has_data(code) {
            Ok((code, 0u16, p, no_info()))
        } else if code == 2 {
            if p.len() != 2 {
                Err(BmpMessageParsingError::InvalidReasonPayload(code))
            } else {
                Ok((code, be_value(p) as u16, Seq::empty(), no_info()))
            }
        } else if code == 4 || code == 5 {
            if p.len() != 0 {
                Err(BmpMessageParsingError::InvalidReasonPayload(code))
            } else {
                Ok((code, 0u16, Seq::empty(), no_info()))
            }
        } else if code == 6 {
            match parse_info(p) {
                Err(e) => Err(e),
                Ok((i, n)) => if n != p.len() {
                    Err(BmpMessageParsingError::InvalidReasonPayload(code))
                } else {
                    Ok((code, 0u16, Seq::empty(), i))
                },
            }
        } else {
            Err(BmpMessageParsingError::UndefinedPeerDownReason(code))
        }
    }
}

pub proof fn lemma_reason_round_trip(r: ReasonView)
    requires
        reason_wf(r),
    ensures
        parse_reason(encode_reason(r)) == Ok::<_, BmpMessageParsingError>(r),
{
    let s = encode_reason(r);
    if r.0 == 2 {
        lemma_be_bytes_len(r.1 as nat, 2);
        lemma_pow256_facts();
        lemma_be_round_trip(r.1 as nat, 2);
        assert(s.skip(1) =~= be_bytes(r.1 as nat, 2));
    } else if r.0 == 6 {
        assert(s.skip(1) =~= encode_info(r.3) + Seq::<u8>::empty());
        lemma_info_round_trip(r.3, Seq::<u8>::empty());
        lemma_encode_info_len(r.3);
    } else {
        assert(s.skip(1) =~= r.2);
    }
}

/// A monitoring message seen as plain values.
pub enum BmpMessageView {
    RouteMonitoring { peer_header: PeerHeader, updates: Seq<u8> },
    PeerDownNotification { peer_header: PeerHeader, reason: ReasonView },
    PeerUpNotification {
        peer_header: PeerHeader,
        local_address: u128,
        local_port: u16,
        remote_port: u16,
        sent: BgpOpenView,
        received: BgpOpenView,
        information: Seq<InfoView>,
    },
    Initiation { information: Seq<InfoView> },
    Termination { peer_header: PeerHeader, information: Seq<InfoView> },
    Experimental { kind: u8, data: Seq<u8> },
}

/// Whether `kind` is one of the experimental message types.
pub open spec fn is_experimental_kind(kind: u8) -> bool {
    251 <= kind && kind <= 254
}

/// Whether every TLV of `l` can be encoded.
pub open spec fn infos_wf(l: Seq<InfoView>) -> bool {
    forall|k: int| 0 <= k < l.len() ==> info_wf(#[trigger] l[k])
}

/// The message type code.
pub open spec fn msg_kind(m: BmpMessageView) -> u8 {
    match m {
        BmpMessageView::RouteMonitoring { .. } => 0,
        BmpMessageView::PeerDownNotification { .. } => 2,
        BmpMessageView::PeerUpNotification { .. } => 3,
        BmpMessageView::Initiation { .. } => 4,
        BmpMessageView::Termination { .. } => 5,
        BmpMessageView::Experimental { kind, .. } => kind,
    }
}

/// The octets of a message after its common header.
pub open spec fn encode_body(m: BmpMessageView) -> Seq<u8> {
    match m {
        BmpMessageView::RouteMonitoring { peer_header, updates } => peer_header.spec_encode()
            + updates,
        BmpMessageView::PeerDownNotification { peer_header, reason } => peer_header.spec_encode()
            + encode_reason(reason),
        BmpMessageView::PeerUpNotification {
            peer_header,
            local_address,
            local_port,
            remote_port,
            sent,
            received,
            information,
        } => peer_header.spec_encode() + be_bytes(local_address as nat, 16) + be_bytes(
            local_port as nat,
            2,
        ) + be_bytes(remote_port as nat, 2) + encode_open(sent) + encode_open(received)
            + encode_infos(information),
        BmpMessageView::Initiation { information } => encode_infos(information),
        BmpMessageView::Termination { peer_header, information } => peer_header.spec_encode()
            + encode_infos(information),
        BmpMessageView::Experimental { data, .. } => data,
    }
}

/// Octets that a message takes, common header included.
pub open spec fn msg_len(m: BmpMessageView) -> nat {
    6 + encode_body(m).len()
}

/// Whether every part of a message fits its own length fields.
pub open spec fn parts_wf(m: BmpMessageView) -> bool {
    match m {
        BmpMessageView::RouteMonitoring { .. } => true,
        BmpMessageView::PeerDownNotification { reason, .. } => reason_wf(reason),
        BmpMessageView::PeerUpNotification { sent, received, information, .. } => open_wf(sent)
            && open_wf(received) && infos_wf(information),
        BmpMessageView::Initiation { information } => infos_wf(information),
        BmpMessageView::Termination { information, .. } => infos_wf(information),
        BmpMessageView::Experimental { kind, .. } => is_experimental_kind(kind),
    }
}

/// Whether every part of a message fits its length fields, the message's own included.
pub open spec fn msg_wf(m: BmpMessageView) -> bool {
    parts_wf(m) && msg_len(m) <= 0xffff_ffff
}

/// The octets of a whole message: version, length, type, then the body.
pub open spec fn encode_msg(m: BmpMessageView) -> Seq<u8> {
    seq![BMP_VERSION] + be_bytes(msg_len(m), 4) + seq![msg_kind(m)] + encode_body(m)
}

/// The message of type `kind` whose body fills `body` exactly.
pub open spec fn parse_body(kind: u8, body: Seq<u8>) -> Result<
    BmpMessageView,
    BmpMessageParsingError,
> {
    if kind == 4 {
        match parse_infos(body) {
            Err(e) => Err(e),
            Ok(information) => Ok(BmpMessageView::Initiation { information }),
        }
    } else if is_experimental_kind(kind) {
        Ok(BmpMessageView::Experimental { kind, data: body })
    } else if kind == 0 || kind == 2 || kind == 3 || kind == 5 {
        if body.len() < 42 {
            Err(BmpMessageParsingError::Truncated)
        } else {
            match PeerHeader::spec_parse(body) {
                None => Err(BmpMessageParsingError::UndefinedPeerType(body[0])),
                Some(peer_header) => parse_after_header(kind, peer_header, body.skip(42)),
            }
        }
    } else {
        Err(BmpMessageParsingError::UndefinedMessageType(kind))
    }
}

/// A message of type `kind` that starts with a peer header, given the octets after it.
pub open spec fn parse_after_header(kind: u8, peer_header: PeerHeader, rest: Seq<u8>) -> Result<
    BmpMessageView,
    BmpMessageParsingError,
> {
    if kind == 0 {
        Ok(BmpMessageView::RouteMonitoring { peer_header, updates: rest })
    } else if kind == 2 {
        match parse_reason(rest) {
            Err(e) => Err(e),
            Ok(reason) => Ok(BmpMessageView::PeerDownNotification { peer_header, reason }),
        }
    } else if kind == 5 {
        match parse_infos(rest) {
            Err(e) => Err(e),
            Ok(information) => Ok(BmpMessageView::Termination { peer_header, information }),
        }
    } else {
        parse_peer_up_rest(peer_header, rest)
    }
}

/// A peer up notification, given its header and the octets after it.
pub open spec fn parse_peer_up_rest(peer_header: PeerHeader, rest: Seq<u8>) -> Result<
    BmpMessageView,
    BmpMessageParsingError,
> {
    if rest.len() < 20 {
        Err(BmpMessageParsingError::Truncated)
    } else {
        match parse_open(rest.skip(20)) {
            Err(e) => Err(e),
            Ok((sent, n1)) => match parse_open(rest.skip(20 + n1 as int)) {
                Err(e) => Err(e),
                Ok((received, n2)) => match parse_infos(rest.skip(20 + n1 as int + n2 as int)) {
                    Err(e) => Err(e),
                    Ok(information) => Ok(
                        BmpMessageView::PeerUpNotification {
                            peer_header,
                            local_address: be_value(rest.subrange(0, 16)) as u128,
                            local_port: be_value(rest.subrange(16, 18)) as u16,
                            remote_port: be_value(rest.subrange(18, 20)) as u16,
                            sent,
                            received,
                            information,
                        },
                    ),
                },
            },
        }
    }
}

/// The message that fills the frame `s` exactly.
pub open spec fn parse_msg(s: Seq<u8>) -> Result<BmpMessageView, BmpMessageParsingError> {
    if s.len() < 6 {
        Err(BmpMessageParsingError::Truncated)
    } else if s[0] != BMP_VERSION {
        Err(BmpMessageParsingError::UndefinedBmpVersion(s[0]))
    } else if be_value(s.subrange(1, 5)) != s.len() {
        Err(BmpMessageParsingError::InvalidMessageLength(be_value(s.subrange(1, 5)) as u32))
    } else {
        parse_body(s[5], s.skip(6))
    }
}

pub proof fn lemma_encode_msg_len(m: BmpMessageView)
    ensures
        encode_msg(m).len() == msg_len(m),
{
    lemma_be_bytes_len(msg_len(m), 4);
}

/// Decoding the octets of a well-formed message gives the message back.
pub proof fn lemma_msg_round_trip(m: BmpMessageView)
    requires
        msg_wf(m),
    ensures
        parse_msg(encode_msg(m)) == Ok::<_, BmpMessageParsingError>(m),
{
    let s = encode_msg(m);
    lemma_encode_msg_len(m);
    lemma_be_bytes_len(msg_len(m), 4);
    lemma_pow256_facts();
    lemma_be_round_trip(msg_len(m), 4);
    assert(s.subrange(1, 5) =~= be_bytes(msg_len(m), 4));
    assert(s.skip(6) =~= encode_body(m));
    lemma_body_round_trip(m);
}

/// Decoding the body of a well-formed message gives the message back.
pub proof fn lemma_body_round_trip(m: BmpMessageView)
    requires
        msg_wf(m),
    ensures
        parse_body(msg_kind(m), encode_body(m)) == Ok::<_, BmpMessageParsingError>(m),
{
    match m {
        BmpMessageView::RouteMonitoring { peer_header, updates } => {
            lemma_header_split(0, peer_header, updates);
        },
        BmpMessageView::PeerDownNotification { peer_header, reason } => {
            lemma_peer_down_round_trip(peer_header, reason);
        },
        BmpMessageView::PeerUpNotification {
            peer_header,
            local_address,
            local_port,
            remote_port,
            sent,
            received,
            information,
        } => {
            lemma_peer_up_round_trip(
                peer_header,
                local_address,
                local_port,
                remote_port,
                sent,
                received,
                information,
            );
        },
        BmpMessageView::Initiation { information } => {
            lemma_infos_round_trip(information);
        },
        BmpMessageView::Termination { peer_header, information } => {
            lemma_termination_round_trip(peer_header, information);
        },
        BmpMessageView::Experimental { .. } => {},
    }
}

proof fn lemma_peer_down_round_trip(peer_header: PeerHeader, reason: ReasonView)
    requires
        reason_wf(reason),
    ensures
        parse_body(2, peer_header.spec_encode() + encode_reason(reason)) == Ok::<
            _,
            BmpMessageParsingError,
        >(BmpMessageView::PeerDownNotification { peer_header, reason }),
{
    lemma_header_split(2, peer_header, encode_reason(reason));
    lemma_reason_round_trip(reason);
}

proof fn lemma_termination_round_trip(peer_header: PeerHeader, information: Seq<InfoView>)
    requires
        infos_wf(information),
    ensures
        parse_body(5, peer_header.spec_encode() + encode_infos(information)) == Ok::<
            _,
            BmpMessageParsingError,
        >(BmpMessageView::Termination { peer_header, information }),
{
    lemma_header_split(5, peer_header, encode_infos(information));
    lemma_infos_round_trip(information);
}

proof fn lemma_peer_up_round_trip(
    peer_header: PeerHeader,
    local_address: u128,
    local_port: u16,
    remote_port: u16,
    sent: BgpOpenView,
    received: BgpOpenView,
    information: Seq<InfoView>,
)
    requires
        open_wf(sent),
        open_wf(received),
        infos_wf(information),
    ensures
        ({
            let m = BmpMessageView::PeerUpNotification {
                peer_header,
                local_address,
                local_port,
                remote_port,
                sent,
                received,
                information,
            };
            parse_body(3, encode_body(m)) == Ok::<_, BmpMessageParsingError>(m)
        }),
{
    let m = BmpMessageView::PeerUpNotification {
        peer_header,
        local_address,
        local_port,
        remote_port,
        sent,
        received,
        information,
    };
    let tail = be_bytes(local_address as nat, 16) + be_bytes(local_port as nat, 2) + be_bytes(
        remote_port as nat,
        2,
    ) + encode_open(sent) + encode_open(received) + encode_infos(information);
    assert(encode_body(m) =~= peer_header.spec_encode() + tail);
    lemma_header_split(3, peer_header, tail);
    lemma_peer_up_rest_round_trip(
        peer_header,
        local_address,
        local_port,
        remote_port,
        sent,
        received,
        information,
    );
}

proof fn lemma_header_split(kind: u8, peer_header: PeerHeader, rest: Seq<u8>)
    requires
        kind == 0 || kind == 2 || kind == 3 || kind == 5,
    ensures
        parse_body(kind, peer_header.spec_encode() + rest) == parse_after_header(
            kind,
            peer_header,
            rest,
        ),
{
    let body = peer_header.spec_encode() + rest;
    peer_header.lemma_round_trip(rest);
    peer_header.lemma_encode_len();
    assert(body.skip(42) =~= rest);
}

proof fn lemma_peer_up_rest_round_trip(
    peer_header: PeerHeader,
    local_address: u128,
    local_port: u16,
    remote_port: u16,
    sent: BgpOpenView,
    received: BgpOpenView,
    information: Seq<InfoView>,
)
    requires
        open_wf(sent),
        open_wf(received),
        infos_wf(information),
    ensures
        parse_peer_up_rest(
            peer_header,
            be_bytes(local_address as nat, 16) + be_bytes(local_port as nat, 2) + be_bytes(
                remote_port as nat,
                2,
            ) + encode_open(sent) + encode_open(received) + encode_infos(information),
        ) == Ok::<_, BmpMessageParsingError>(
            BmpMessageView::PeerUpNotification {
                peer_header,
                local_address,
                local_port,
                remote_port,
                sent,
                received,
                information,
            },
        ),
{
    let rest = be_bytes(local_address as nat, 16) + be_bytes(local_port as nat, 2) + be_bytes(
        remote_port as nat,
        2,
    ) + encode_open(sent) + encode_open(received) + encode_infos(information);
    lemma_pow256_facts();
    lemma_be_bytes_len(local_address as nat, 16);
    lemma_be_bytes_len(local_port as nat, 2);
    lemma_be_bytes_len(remote_port as nat, 2);
    lemma_be_round_trip(local_address as nat, 16);
    lemma_be_round_trip(local_port as nat, 2);
    lemma_be_round_trip(remote_port as nat, 2);
    lemma_encode_open_len(sent);
    lemma_encode_open_len(received);
    assert(rest.subrange(0, 16) =~= be_bytes(local_address as nat, 16));
    assert(rest.subrange(16, 18) =~= be_bytes(local_port as nat, 2));
    assert(rest.subrange(18, 20) =~= be_bytes(remote_port as nat, 2));
    let after_sent = encode_open(received) + encode_infos(information);
    assert(rest.skip(20) =~= encode_open(sent) + after_sent);
    lemma_open_round_trip(sent, after_sent);
    assert(rest.skip(20 + open_len(sent) as int) =~= encode_open(received) + encode_infos(
        information,
    ));
    lemma_open_round_trip(received, encode_infos(information));
    assert(rest.skip(20 + open_len(sent) as int + open_len(received) as int) =~= encode_infos(
        information,
    ));
    lemma_infos_round_trip(information);
}

} // verus!
