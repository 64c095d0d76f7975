//! Executable monitoring messages: length, encoding and decoding.
use vstd::prelude::*;

use crate::bgp::{lemma_encode_open_len, BgpOpenMessage};
use crate::bmp::{
    encode_body, encode_msg, encode_reason, msg_kind, msg_len, msg_wf, no_info, parts_wf,
    parse_after_header, parse_msg, parse_peer_up_rest, parse_reason, reason_wf, BmpMessageView,
    ReasonView, BMP_COMMON_HEADER_LEN, BMP_VERSION,
};
use crate::error::{
    BmpMessageParsingError, BmpMessageWritingError, InitiationInformationWritingError,
    InitiationMessageWritingError, PeerDownNotificationMessageWritingError,
    PeerDownNotificationReasonWritingError, PeerUpNotificationMessageWritingError,
};
use crate::peer::{PeerHeader, PEER_HEADER_LEN};
use crate::tlv::{
    info_wf, infos_len_checked, infos_view, validate_infos, lemma_encode_info_len,
    lemma_encode_infos_len, parse_infos_exec, write_infos, InitiationInformation,
};
use crate::wire::{
    copy_range, extend_bytes, lemma_be_bytes_len, lemma_be_value_bound, lemma_pow256_facts,
    push_be, read_be,
};

verus! {

/// Why the session with a peer went down, with what the reason carries.
#[derive(Clone, Debug, PartialEq, Eq)]
pub enum PeerDownNotificationReason {
    LocalSystemClosedNotificationPduFollows(Vec<u8>),
    LocalSystemClosedFsmEventFollows(u16),
    RemoteSystemClosedNotificationPduFollows(Vec<u8>),
    RemoteSystemClosedNoData,
    PeerDeConfigured,
    LocalSystemClosedTlvDataFollows(InitiationInformation),
    Experimental251(Vec<u8>),
    Experimental252(Vec<u8>),
    Experimental253(Vec<u8>),
    Experimental254(Vec<u8>),
}

impl View for PeerDownNotificationReason {
    type V = ReasonView;

    open spec fn view(&self) -> ReasonView {
        match self {
            PeerDownNotificationReason::LocalSystemClosedNotificationPduFollows(v) => (
                1u8,
                0u16,
                v@,
                no_info(),
            ),
            PeerDownNotificationReason::LocalSystemClosedFsmEventFollows(e) => (
                2u8,
                *e,
                Seq::empty(),
                no_info(),
            ),
            PeerDownNotificationReason::RemoteSystemClosedNotificationPduFollows(v) => (
                3u8,
                0u16,
                v@,
                no_info(),
            ),
            PeerDownNotificationReason::RemoteSystemClosedNoData => (
                4u8,
                0u16,
                Seq::empty(),
                no_info(),
            ),
            PeerDownNotificationReason::PeerDeConfigured => (5u8, 0u16, Seq::empty(), no_info()),
            PeerDownNotificationReason::LocalSystemClosedTlvDataFollows(i) => (
                6u8,
                0u16,
                Seq::empty(),
                i@,
            ),
            PeerDownNotificationReason::Experimental251(v) => (251u8, 0u16, v@, no_info()),
            PeerDownNotificationReason::Experimental252(v) => (252u8, 0u16, v@, no_info()),
            PeerDownNotificationReason::Experimental253(v) => (253u8, 0u16, v@, no_info()),
            PeerDownNotificationReason::Experimental254(v) => (254u8, 0u16, v@, no_info()),
        }
    }
}

impl PeerDownNotificationReason {
    /// The reason code.
    pub fn get_type(&self) -> (r: u8)
        ensures
            r == self@.0,
    {
        match self {
            PeerDownNotificationReason::LocalSystemClosedNotificationPduFollows(_) => 1,
            PeerDownNotificationReason::LocalSystemClosedFsmEventFollows(_) => 2,
            PeerDownNotificationReason::RemoteSystemClosedNotificationPduFollows(_) => 3,
            PeerDownNotificationReason::RemoteSystemClosedNoData => 4,
            PeerDownNotificationReason::PeerDeConfigured => 5,
            PeerDownNotificationReason::LocalSystemClosedTlvDataFollows(_) => 6,
            PeerDownNotificationReason::Experimental251(_) => 251,
            PeerDownNotificationReason::Experimental252(_) => 252,
            PeerDownNotificationReason::Experimental253(_) => 253,
            PeerDownNotificationReason::Experimental254(_) => 254,
        }
    }

    /// Checks that the reason can be encoded.
    pub fn validate(&self) -> (r: Result<(), PeerDownNotificationReasonWritingError>)
        ensures
            r.is_ok() == reason_wf(self@),
    {
        match self {
            PeerDownNotificationReason::LocalSystemClosedTlvDataFollows(info) => {
                if info.is_valid() {
                    Ok(())
                } else {
                    Err(
                        PeerDownNotificationReasonWritingError::InitiationInformationError(
                            InitiationInformationWritingError::ValueTooLong(info.value().len()),
                        ),
                    )
                }
            },
            _ => Ok(()),
        }
    }

    /// Number of octets that the reason takes on the wire.
    pub fn len(&self) -> (r: usize)
        requires
            reason_wf(self@),
            encode_reason(self@).len() <= usize::MAX,
        ensures
            r == encode_reason(self@).len(),
    {
        proof {
            lemma_be_bytes_len(self@.1 as nat, 2);
            lemma_encode_info_len(self@.3);
        }
        1 + match self {
            PeerDownNotificationReason::LocalSystemClosedNotificationPduFollows(v) => v.len(),
            PeerDownNotificationReason::LocalSystemClosedFsmEventFollows(_) => 2,
            PeerDownNotificationReason::RemoteSystemClosedNotificationPduFollows(v) => v.len(),
            PeerDownNotificationReason::RemoteSystemClosedNoData => 0,
            PeerDownNotificationReason::PeerDeConfigured => 0,
            PeerDownNotificationReason::LocalSystemClosedTlvDataFollows(i) => i.len(),
            PeerDownNotificationReason::Experimental251(v) => v.len(),
            PeerDownNotificationReason::Experimental252(v) => v.len(),
            PeerDownNotificationReason::Experimental253(v) => v.len(),
            PeerDownNotificationReason::Experimental254(v) => v.len(),
        }
    }

    /// Appends the reason to `out`; fails, writing nothing, when its TLV is too long.
    pub fn write(&self, out: &mut Vec<u8>) -> (r: Result<(), PeerDownNotificationReasonWritingError>)
        ensures
            r.is_ok() == reason_wf(self@),
            r.is_ok() ==> final(out)@ == old(out)@ + encode_reason(self@),
            r.is_err() ==> final(out)@ == old(out)@,
    {
        if let Err(e) = self.validate() {
            return Err(e);
        }
        out.push(self.get_type());
        let ghost mid = out@;
        match self {
            PeerDownNotificationReason::LocalSystemClosedNotificationPduFollows(v)
            | PeerDownNotificationReason::RemoteSystemClosedNotificationPduFollows(v)
            | PeerDownNotificationReason::Experimental251(v)
            | PeerDownNotificationReason::Experimental252(v)
            | PeerDownNotificationReason::Experimental253(v)
            | PeerDownNotificationReason::Experimental254(v) => {
                extend_bytes(out, v);
            },
            PeerDownNotificationReason::LocalSystemClosedFsmEventFollows(e) => {
                push_be(out, *e as u128, 2);
            },
            PeerDownNotificationReason::RemoteSystemClosedNoData
            | PeerDownNotificationReason::PeerDeConfigured => {
                assert(out@ =~= mid + Seq::<u8>::empty());
            },
            PeerDownNotificationReason::LocalSystemClosedTlvDataFollows(i) => {
                let _ = i.write(out);
            },
        }
        assert(final(out)@ =~= old(out)@ + encode_reason(self@));
        Ok(())
    }

    /// Decodes the reason that fills the octets from `pos` up to `end`.
    pub fn from_wire(b: &[u8], pos: usize, end: usize) -> (r: Result<
        PeerDownNotificationReason,
        BmpMessageParsingError,
    >)
        requires
            pos <= end <= b@.len(),
        ensures
            parse_reason(b@.subrange(pos as int, end as int)) == (match r {
                Ok(x) => Ok(x@),
                Err(e) => Err(e),
            }),
    {
        let ghost s = b@.subrange(pos as int, end as int);
        if pos == end {
            return Err(BmpMessageParsingError::Truncated);
        }
        let code = b[pos];
        let p = pos + 1;
        proof {
            assert(s.skip(1) =~= b@.subrange(p as int, end as int));
        }
        match code {
            1 => Ok(
                PeerDownNotificationReason::LocalSystemClosedNotificationPduFollows(
                    copy_range(b, p, end),
                ),
            ),
            3 => Ok(
                PeerDownNotificationReason::RemoteSystemClosedNotificationPduFollows(
                    copy_range(b, p, end),
                ),
            ),
            251 => Ok(PeerDownNotificationReason::Experimental251(copy_range(b, p, end))),
            252 => Ok(PeerDownNotificationReason::Experimental252(copy_range(b, p, end))),
            253 => Ok(PeerDownNotificationReason::Experimental253(copy_range(b, p, end))),
            254 => Ok(PeerDownNotificationReason::Experimental254(copy_range(b, p, end))),
            2 => {
                if end - p != 2 {
                    Err(BmpMessageParsingError::InvalidReasonPayload(code))
                } else {
                    let e = read_be(b, p, 2);
                    proof {
                        lemma_pow256_facts();
                        lemma_be_value_bound(b@.subrange(p as int, p + 2));
                    }
                    Ok(PeerDownNotificationReason::LocalSystemClosedFsmEventFollows(e as u16))
                }
            },
            4 | 5 => {
                if end != p {
                    Err(BmpMessageParsingError::InvalidReasonPayload(code))
                } else if code == 4 {
                    Ok(PeerDownNotificationReason::RemoteSystemClosedNoData)
                } else {
                    Ok(PeerDownNotificationReason::PeerDeConfigured)
                }
            },
            6 => match InitiationInformation::from_wire(b, p, end) {
                Err(e) => Err(e),
                Ok((info, n)) => {
                    if n != end - p {
                        Err(BmpMessageParsingError::InvalidReasonPayload(code))
                    } else {
                        Ok(PeerDownNotificationReason::LocalSystemClosedTlvDataFollows(info))
                    }
                },
            },
            _ => Err(BmpMessageParsingError::UndefinedPeerDownReason(code)),
        }
    }
}

/// Largest body that keeps a message within its 32-bit length field.
pub const MAX_BODY_LEN: usize = 0xffff_fff9;

/// A route monitoring message: a peer header and the BGP UPDATE octets that follow it.
#[derive(Clone, Debug, PartialEq, Eq)]
pub struct RouteMonitoringMessage {
    pub peer_header: PeerHeader,
    pub updates: Vec<u8>,
}

impl View for RouteMonitoringMessage {
    type V = BmpMessageView;

    open spec fn view(&self) -> BmpMessageView {
        BmpMessageView::RouteMonitoring { peer_header: self.peer_header, updates: self.updates@ }
    }
}

impl RouteMonitoringMessage {
    /// Number of octets that the body takes on the wire.
    pub fn len(&self) -> (r: usize)
        requires
            42 + self.updates@.len() <= usize::MAX,
        ensures
            r == encode_body(self@).len(),
    {
        proof {
            self.peer_header.lemma_encode_len();
        }
        self.peer_header.len() + self.updates.len()
    }

    /// Appends the body to `out`.
    pub fn write(&self, out: &mut Vec<u8>)
        ensures
            final(out)@ == old(out)@ + encode_body(self@),
    {
        self.peer_header.write(out);
        extend_bytes(out, &self.updates);
        assert(final(out)@ =~= old(out)@ + encode_body(self@));
    }
}

/// A peer down notification: the peer header and the reason.
#[derive(Clone, Debug, PartialEq, Eq)]
pub struct PeerDownNotificationMessage {
    pub peer_header: PeerHeader,
    pub reason: PeerDownNotificationReason,
}

impl View for PeerDownNotificationMessage {
    type V = BmpMessageView;

    open spec fn view(&self) -> BmpMessageView {
        BmpMessageView::PeerDownNotification {
            peer_header: self.peer_header,
            reason: self.reason@,
        }
    }
}

impl PeerDownNotificationMessage {
    /// Number of octets that the body takes on the wire.
    pub fn len(&self) -> (r: usize)
        requires
            parts_wf(self@),
            encode_body(self@).len() <= usize::MAX,
        ensures
            r == encode_body(self@).len(),
    {
        proof {
            self.peer_header.lemma_encode_len();
        }
        self.peer_header.len() + self.reason.len()
    }

    /// Appends the body to `out`; fails, writing nothing, when the reason cannot be encoded.
    pub fn write(&self, out: &mut Vec<u8>) -> (r: Result<
        (),
        PeerDownNotificationMessageWritingError,
    >)
        ensures
            r.is_ok() == parts_wf(self@),
            r.is_ok() ==> final(out)@ == old(out)@ + encode_body(self@),
            r.is_err() ==> final(out)@ == old(out)@,
    {
        if let Err(e) = self.reason.validate() {
            return Err(PeerDownNotificationMessageWritingError::PeerDownNotificationReasonError(e));
        }
        self.peer_header.write(out);
        let _ = self.reason.write(out);
        assert(final(out)@ =~= old(out)@ + encode_body(self@));
        Ok(())
    }
}

/// A peer up notification: the peer header, the local end of the session and
/// the OPEN messages that each side sent.
#[derive(Clone, Debug, PartialEq, Eq)]
pub struct PeerUpNotificationMessage {
    pub peer_header: PeerHeader,
    pub local_address: u128,
    pub local_port: u16,
    pub remote_port: u16,
    pub sent_message: BgpOpenMessage,
    pub received_message: BgpOpenMessage,
    pub information: Vec<InitiationInformation>,
}

impl View for PeerUpNotificationMessage {
    type V = BmpMessageView;

    open spec fn view(&self) -> BmpMessageView {
        BmpMessageView::PeerUpNotification {
            peer_header: self.peer_header,
            local_address: self.local_address,
            local_port: self.local_port,
            remote_port: self.remote_port,
            sent: self.sent_message@,
            received: self.received_message@,
            information: infos_view(self.information@),
        }
    }
}

impl PeerUpNotificationMessage {
    /// Checks that every part fits its length fields.
    pub fn validate(&self) -> (r: Result<(), PeerUpNotificationMessageWritingError>)
        ensures
            r.is_ok() == parts_wf(self@),
    {
        if !self.sent_message.is_valid() || !self.received_message.is_valid() {
            return Err(PeerUpNotificationMessageWritingError::BgpOpenTooLong);
        }
        let mut i: usize = 0;
        while i < self.information.len()
            invariant
                i <= self.information@.len(),
                forall|k: int| 0 <= k < i ==> info_wf(#[trigger] infos_view(self.information@)[k]),
            decreases self.information@.len() - i,
        {
            if !self.information[i].is_valid() {
                assert(infos_view(self.information@)[i as int] == self.information@[i as int]@);
                let v = self.information[i].value();
                return Err(
                    PeerUpNotificationMessageWritingError::InitiationInformationError(
                        InitiationInformationWritingError::ValueTooLong(v.len()),
                    ),
                );
            }
            i += 1;
        }
        Ok(())
    }

    /// Number of octets that the body takes on the wire.
    pub fn len(&self) -> (r: usize)
        requires
            parts_wf(self@),
            encode_body(self@).len() <= 0xffff_ffff,
        ensures
            r == encode_body(self@).len(),
    {
        let n = infos_len_checked(&self.information);
        proof {
            self.peer_header.lemma_encode_len();
            lemma_encode_open_len(self.sent_message@);
            lemma_encode_open_len(self.received_message@);
            lemma_encode_infos_len(infos_view(self.information@));
            lemma_be_bytes_len(self.local_address as nat, 16);
            lemma_be_bytes_len(self.local_port as nat, 2);
            lemma_be_bytes_len(self.remote_port as nat, 2);
        }
        let infos = match n {
            Some(n) => n as usize,
            None => 0,
        };
        self.peer_header.len() + 20 + self.sent_message.len() + self.received_message.len() + infos
    }

    /// Appends the body to `out`; fails, writing nothing, when a part is too long.
    pub fn write(&self, out: &mut Vec<u8>) -> (r: Result<(), PeerUpNotificationMessageWritingError>)
        ensures
            r.is_ok() == parts_wf(self@),
            r.is_ok() ==> final(out)@ == old(out)@ + encode_body(self@),
            r.is_err() ==> final(out)@ == old(out)@,
    {
        if let Err(e) = self.validate() {
            return Err(e);
        }
        self.peer_header.write(out);
        push_be(out, self.local_address, 16);
        push_be(out, self.local_port as u128, 2);
        push_be(out, self.remote_port as u128, 2);
        self.sent_message.write(out);
        self.received_message.write(out);
        let _ = write_infos(&self.information, out);
        assert(final(out)@ =~= old(out)@ + encode_body(self@));
        Ok(())
    }
}

/// An initiation message: a sequence of information TLVs.
#[derive(Clone, Debug, PartialEq, Eq)]
pub struct InitiationMessage {
    pub information: Vec<InitiationInformation>,
}

impl View for InitiationMessage {
    type V = BmpMessageView;

    open spec fn view(&self) -> BmpMessageView {
        BmpMessageView::Initiation { information: infos_view(self.information@) }
    }
}

impl InitiationMessage {
    /// Number of octets that the body takes on the wire.
    pub fn len(&self) -> (r: usize)
        requires
            encode_body(self@).len() <= 0xffff_ffff,
        ensures
            r == encode_body(self@).len(),
    {
        proof {
            lemma_encode_infos_len(infos_view(self.information@));
        }
        match infos_len_checked(&self.information) {
            Some(n) => n as usize,
            None => 0,
        }
    }

    /// Appends the body to `out`; fails, writing nothing, when a TLV is too long.
    pub fn write(&self, out: &mut Vec<u8>) -> (r: Result<(), InitiationMessageWritingError>)
        ensures
            r.is_ok() == parts_wf(self@),
            r.is_ok() ==> final(out)@ == old(out)@ + encode_body(self@),
            r.is_err() ==> final(out)@ == old(out)@,
    {
        match write_infos(&self.information, out) {
            Ok(()) => Ok(()),
            Err(e) => Err(InitiationMessageWritingError::InitiationInformationError(e)),
        }
    }
}

/// A termination message: the peer header and a sequence of information TLVs.
#[derive(Clone, Debug, PartialEq, Eq)]
pub struct TerminationMessage {
    pub peer_header: PeerHeader,
    pub information: Vec<InitiationInformation>,
}

impl View for TerminationMessage {
    type V = BmpMessageView;

    open spec fn view(&self) -> BmpMessageView {
        BmpMessageView::Termination {
            peer_header: self.peer_header,
            information: infos_view(self.information@),
        }
    }
}

impl TerminationMessage {
    /// Number of octets that the body takes on the wire.
    pub fn len(&self) -> (r: usize)
        requires
            encode_body(self@).len() <= 0xffff_ffff,
        ensures
            r == encode_body(self@).len(),
    {
        proof {
            self.peer_header.lemma_encode_len();
            lemma_encode_infos_len(infos_view(self.information@));
        }
        let n = match infos_len_checked(&self.information) {
            Some(n) => n as usize,
            None => 0,
        };
        self.peer_header.len() + n
    }

    /// Appends the body to `out`; fails, writing nothing, when a TLV is too long.
    pub fn write(&self, out: &mut Vec<u8>) -> (r: Result<(), InitiationInformationWritingError>)
        ensures
            r.is_ok() == parts_wf(self@),
            r.is_ok() ==> final(out)@ == old(out)@ + encode_body(self@),
            r.is_err() ==> final(out)@ == old(out)@,
    {
        let ghost start = out@;
        let mut tlvs: Vec<u8> = Vec::new();
        match write_infos(&self.information, &mut tlvs) {
            Err(e) => Err(e),
            Ok(()) => {
                self.peer_header.write(out);
                extend_bytes(out, &tlvs);
                assert(final(out)@ =~= old(out)@ + encode_body(self@));
                Ok(())
            },
        }
    }
}

/// Whether `e` is the error that the part of a message of `m`'s kind reports.
pub open spec fn write_error_of_kind(m: BmpMessageView, e: BmpMessageWritingError) -> bool {
    match m {
        BmpMessageView::PeerDownNotification { .. } => e is PeerDownNotificationMessageError,
        BmpMessageView::PeerUpNotification { .. } => e is PeerUpNotificationMessageError,
        BmpMessageView::Initiation { .. } => e is InitiationMessageError,
        BmpMessageView::Termination { .. } => e is TerminationInformationError,
        _ => false,
    }
}

/// A monitoring message of any kind this library encodes and decodes.
#[derive(Clone, Debug, PartialEq, Eq)]
pub enum BmpMessage {
    RouteMonitoring(RouteMonitoringMessage),
    PeerDownNotification(PeerDownNotificationMessage),
    PeerUpNotification(PeerUpNotificationMessage),
    Initiation(InitiationMessage),
    Termination(TerminationMessage),
    Experimental251(Vec<u8>),
    Experimental252(Vec<u8>),
    Experimental253(Vec<u8>),
    Experimental254(Vec<u8>),
}

impl View for BmpMessage {
    type V = BmpMessageView;

    open spec fn view(&self) -> BmpMessageView {
        match self {
            BmpMessage::RouteMonitoring(m) => m@,
            BmpMessage::PeerDownNotification(m) => m@,
            BmpMessage::PeerUpNotification(m) => m@,
            BmpMessage::Initiation(m) => m@,
            BmpMessage::Termination(m) => m@,
            BmpMessage::Experimental251(v) => BmpMessageView::Experimental { kind: 251, data: v@ },
            BmpMessage::Experimental252(v) => BmpMessageView::Experimental { kind: 252, data: v@ },
            BmpMessage::Experimental253(v) => BmpMessageView::Experimental { kind: 253, data: v@ },
            BmpMessage::Experimental254(v) => BmpMessageView::Experimental { kind: 254, data: v@ },
        }
    }
}

impl BmpMessage {
    /// The message type code.
    pub fn get_type(&self) -> (r: u8)
        ensures
            r == msg_kind(self@),
    {
        match self {
            BmpMessage::RouteMonitoring(_) => 0,
            BmpMessage::PeerDownNotification(_) => 2,
            BmpMessage::PeerUpNotification(_) => 3,
            BmpMessage::Initiation(_) => 4,
            BmpMessage::Termination(_) => 5,
            BmpMessage::Experimental251(_) => 251,
            BmpMessage::Experimental252(_) => 252,
            BmpMessage::Experimental253(_) => 253,
            BmpMessage::Experimental254(_) => 254,
        }
    }

    /// Checks that every part fits its own length fields.
    pub fn validate_parts(&self) -> (r: Result<(), BmpMessageWritingError>)
        ensures
            r.is_ok() == parts_wf(self@),
            r matches Err(e) ==> write_error_of_kind(self@, e),
    {
        match self {
            BmpMessage::PeerDownNotification(m) => match m.reason.validate() {
                Ok(()) => Ok(()),
                Err(e) => Err(
                    BmpMessageWritingError::PeerDownNotificationMessageError(
                        PeerDownNotificationMessageWritingError::PeerDownNotificationReasonError(e),
                    ),
                ),
            },
            BmpMessage::PeerUpNotification(m) => match m.validate() {
                Ok(()) => Ok(()),
                Err(e) => Err(BmpMessageWritingError::PeerUpNotificationMessageError(e)),
            },
            BmpMessage::Initiation(m) => match validate_infos(&m.information) {
                Ok(()) => Ok(()),
                Err(e) => Err(
                    BmpMessageWritingError::InitiationMessageError(
                        InitiationMessageWritingError::InitiationInformationError(e),
                    ),
                ),
            },
            BmpMessage::Termination(m) => match validate_infos(&m.information) {
                Ok(()) => Ok(()),
                Err(e) => Err(BmpMessageWritingError::TerminationInformationError(e)),
            },
            _ => Ok(()),
        }
    }

    /// The octets of the body, when the whole message fits its 32-bit length field.
    pub fn body_len_checked(&self) -> (r: Option<usize>)
        requires
            parts_wf(self@),
        ensures
            r.is_some() == msg_wf(self@),
            r matches Some(n) ==> n == encode_body(self@).len(),
    {
        match self {
            BmpMessage::RouteMonitoring(m) => {
                proof {
                    m.peer_header.lemma_encode_len();
                }
                if m.updates.len() > MAX_BODY_LEN - PEER_HEADER_LEN {
                    None
                } else {
                    Some(m.len())
                }
            },
            BmpMessage::PeerDownNotification(m) => {
                proof {
                    m.peer_header.lemma_encode_len();
                    lemma_be_bytes_len(m.reason@.1 as nat, 2);
                    lemma_encode_info_len(m.reason@.3);
                }
                let data_len = match &m.reason {
                    PeerDownNotificationReason::LocalSystemClosedNotificationPduFollows(v)
                    | PeerDownNotificationReason::RemoteSystemClosedNotificationPduFollows(v)
                    | PeerDownNotificationReason::Experimental251(v)
                    | PeerDownNotificationReason::Experimental252(v)
                    | PeerDownNotificationReason::Experimental253(v)
                    | PeerDownNotificationReason::Experimental254(v) => v.len(),
                    _ => 0,
                };
                if data_len > MAX_BODY_LEN - PEER_HEADER_LEN - 1 {
                    None
                } else {
                    Some(m.len())
                }
            },
            BmpMessage::PeerUpNotification(m) => {
                let n = infos_len_checked(&m.information);
                proof {
                    m.peer_header.lemma_encode_len();
                    lemma_encode_open_len(m.sent_message@);
                    lemma_encode_open_len(m.received_message@);
                    lemma_encode_infos_len(infos_view(m.information@));
                    lemma_be_bytes_len(m.local_address as nat, 16);
                    lemma_be_bytes_len(m.local_port as nat, 2);
                    lemma_be_bytes_len(m.remote_port as nat, 2);
                }
                match n {
                    None => None,
                    Some(n) => {
                        if n > (MAX_BODY_LEN - 62 - 2 * 284) as u64 {
                            let fixed = 62 + m.sent_message.len() + m.received_message.len();
                            if n > (MAX_BODY_LEN - fixed) as u64 {
                                None
                            } else {
                                Some(m.len())
                            }
                        } else {
                            Some(m.len())
                        }
                    },
                }
            },
            BmpMessage::Initiation(m) => {
                proof {
                    lemma_encode_infos_len(infos_view(m.information@));
                }
                match infos_len_checked(&m.information) {
                    None => None,
                    Some(n) => if n > MAX_BODY_LEN as u64 {
                        None
                    } else {
                        Some(n as usize)
                    },
                }
            },
            BmpMessage::Termination(m) => {
                proof {
                    m.peer_header.lemma_encode_len();
                    lemma_encode_infos_len(infos_view(m.information@));
                }
                match infos_len_checked(&m.information) {
                    None => None,
                    Some(n) => if n > (MAX_BODY_LEN - PEER_HEADER_LEN) as u64 {
                        None
                    } else {
                        Some(PEER_HEADER_LEN + n as usize)
                    },
                }
            },
            BmpMessage::Experimental251(v)
            | BmpMessage::Experimental252(v)
            | BmpMessage::Experimental253(v)
            | BmpMessage::Experimental254(v) => {
                if v.len() > MAX_BODY_LEN {
                    None
                } else {
                    Some(v.len())
                }
            },
        }
    }

    /// Number of octets that the message takes on the wire, common header included.
    pub fn len(&self) -> (r: usize)
        requires
            msg_wf(self@),
        ensures
            r == msg_len(self@),
    {
        match self.body_len_checked() {
            Some(n) => BMP_COMMON_HEADER_LEN + n,
            None => 0,
        }
    }

    /// Appends the whole message to `out`: version, length, type and body.
    ///
    /// Fails, writing nothing, when a part or the whole does not fit its length field.
    pub fn write(&self, out: &mut Vec<u8>) -> (r: Result<(), BmpMessageWritingError>)
        ensures
            r.is_ok() == msg_wf(self@),
            r.is_ok() ==> final(out)@ == old(out)@ + encode_msg(self@),
            r.is_err() ==> final(out)@ == old(out)@,
            r == Err::<(), _>(BmpMessageWritingError::MessageTooLong) <==> (parts_wf(self@)
                && !msg_wf(self@)),
            !parts_wf(self@) ==> (r matches Err(e) && write_error_of_kind(self@, e)),
    {
        if let Err(e) = self.validate_parts() {
            return Err(e);
        }
        let body_len = match self.body_len_checked() {
            None => return Err(BmpMessageWritingError::MessageTooLong),
            Some(n) => n,
        };
        out.push(BMP_VERSION);
        push_be(out, (BMP_COMMON_HEADER_LEN + body_len) as u128, 4);
        out.push(self.get_type());
        let ghost mid = out@;
        match self {
            BmpMessage::RouteMonitoring(m) => {
                m.write(out);
            },
            BmpMessage::PeerDownNotification(m) => {
                let _ = m.write(out);
            },
            BmpMessage::PeerUpNotification(m) => {
                let _ = m.write(out);
            },
            BmpMessage::Initiation(m) => {
                let _ = m.write(out);
            },
            BmpMessage::Termination(m) => {
                let _ = m.write(out);
            },
            BmpMessage::Experimental251(v)
            | BmpMessage::Experimental252(v)
            | BmpMessage::Experimental253(v)
            | BmpMessage::Experimental254(v) => {
                extend_bytes(out, v);
            },
        }
        assert(final(out)@ =~= old(out)@ + encode_msg(self@));
        Ok(())
    }
}

/// The view of a decoding result.
pub open spec fn msg_result_view(r: Result<BmpMessage, BmpMessageParsingError>) -> Result<
    BmpMessageView,
    BmpMessageParsingError,
> {
    match r {
        Ok(m) => Ok(m@),
        Err(e) => Err(e),
    }
}

impl BmpMessage {
    /// Decodes the message that fills the frame `b` exactly.
    pub fn from_wire(b: &[u8]) -> (r: Result<BmpMessage, BmpMessageParsingError>)
        ensures
            msg_result_view(r) == parse_msg(b@),
    {
        let end = b.len();
        if end < BMP_COMMON_HEADER_LEN {
            return Err(BmpMessageParsingError::Truncated);
        }
        if b[0] != BMP_VERSION {
            return Err(BmpMessageParsingError::UndefinedBmpVersion(b[0]));
        }
        let len = read_be(b, 1, 4);
        proof {
            lemma_pow256_facts();
            lemma_be_value_bound(b@.subrange(1, 5));
        }
        if len != end as u128 {
            return Err(BmpMessageParsingError::InvalidMessageLength(len as u32));
        }
        let kind = b[5];
        let ghost body = b@.skip(6);
        assert(body =~= b@.subrange(6, end as int));
        if kind == 4 {
            return match parse_infos_exec(b, 6, end) {
                Err(e) => Err(e),
                Ok(information) => Ok(BmpMessage::Initiation(InitiationMessage { information })),
            };
        }
        if 251 <= kind && kind <= 254 {
            let data = copy_range(b, 6, end);
            return Ok(
                if kind == 251 {
                    BmpMessage::Experimental251(data)
                } else if kind == 252 {
                    BmpMessage::Experimental252(data)
                } else if kind == 253 {
                    BmpMessage::Experimental253(data)
                } else {
                    BmpMessage::Experimental254(data)
                },
            );
        }
        if !(kind == 0 || kind == 2 || kind == 3 || kind == 5) {
            return Err(BmpMessageParsingError::UndefinedMessageType(kind));
        }
        if end - 6 < PEER_HEADER_LEN {
            return Err(BmpMessageParsingError::Truncated);
        }
        let peer_header = match PeerHeader::from_wire(b, 6) {
            None => return Err(BmpMessageParsingError::UndefinedPeerType(b[6])),
            Some(h) => h,
        };
        let p: usize = 6 + PEER_HEADER_LEN;
        proof {
            assert(body.skip(42) =~= b@.subrange(p as int, end as int));
        }
        let r = Self::from_wire_after_header(b, kind, peer_header, p);
        r
    }

    fn from_wire_after_header(b: &[u8], kind: u8, peer_header: PeerHeader, p: usize) -> (r: Result<
        BmpMessage,
        BmpMessageParsingError,
    >)
        requires
            p <= b@.len(),
            kind == 0 || kind == 2 || kind == 3 || kind == 5,
        ensures
            msg_result_view(r) == parse_after_header(
                kind,
                peer_header,
                b@.subrange(p as int, b@.len() as int),
            ),
    {
        let end = b.len();
        if kind == 0 {
            let updates = copy_range(b, p, end);
            Ok(BmpMessage::RouteMonitoring(RouteMonitoringMessage { peer_header, updates }))
        } else if kind == 2 {
            match PeerDownNotificationReason::from_wire(b, p, end) {
                Err(e) => Err(e),
                Ok(reason) => Ok(
                    BmpMessage::PeerDownNotification(
                        PeerDownNotificationMessage { peer_header, reason },
                    ),
                ),
            }
        } else if kind == 5 {
            match parse_infos_exec(b, p, end) {
                Err(e) => Err(e),
                Ok(information) => Ok(
                    BmpMessage::Termination(TerminationMessage { peer_header, information }),
                ),
            }
        } else {
            Self::peer_up_from_wire(b, peer_header, p)
        }
    }

    fn peer_up_from_wire(b: &[u8], peer_header: PeerHeader, p: usize) -> (r: Result<
        BmpMessage,
        BmpMessageParsingError,
    >)
        requires
            p <= b@.len(),
        ensures
            msg_result_view(r) == parse_peer_up_rest(
                peer_header,
                b@.subrange(p as int, b@.len() as int),
            ),
    {
        let end = b.len();
        let ghost rest = b@.subrange(p as int, end as int);
        if end - p < 20 {
            return Err(BmpMessageParsingError::Truncated);
        }
        let local_address = read_be(b, p, 16);
        let local_port = read_be(b, p + 16, 2);
        let remote_port = read_be(b, p + 18, 2);
        proof {
            lemma_pow256_facts();
            lemma_be_value_bound(b@.subrange(p + 16, p + 18));
            lemma_be_value_bound(b@.subrange(p + 18, p + 20));
            assert(rest.subrange(0, 16) =~= b@.subrange(p as int, p + 16));
            assert(rest.subrange(16, 18) =~= b@.subrange(p + 16, p + 18));
            assert(rest.subrange(18, 20) =~= b@.subrange(p + 18, p + 20));
            assert(rest.skip(20) =~= b@.subrange(p + 20, end as int));
        }
        let q = p + 20;
        let (sent_message, n1) = match BgpOpenMessage::from_wire(b, q, end) {
            Err(e) => return Err(e),
            Ok(x) => x,
        };
        proof {
            assert(rest.skip(20 + n1 as int) =~= b@.subrange(q + n1, end as int));
        }
        let (received_message, n2) = match BgpOpenMessage::from_wire(b, q + n1, end) {
            Err(e) => return Err(e),
            Ok(x) => x,
        };
        proof {
            assert(rest.skip(20 + n1 as int + n2 as int) =~= b@.subrange(q + n1 + n2, end as int));
        }
        let information = match parse_infos_exec(b, q + n1 + n2, end) {
            Err(e) => return Err(e),
            Ok(l) => l,
        };
        Ok(
            BmpMessage::PeerUpNotification(
                PeerUpNotificationMessage {
                    peer_header,
                    local_address,
                    local_port: local_port as u16,
                    remote_port: remote_port as u16,
                    sent_message,
                    received_message,
                    information,
                },
            ),
        )
    }
}

} // verus!
