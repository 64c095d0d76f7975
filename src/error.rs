//! Errors of decoding and encoding monitoring messages.
use vstd::prelude::*;

verus! {

/// Why the octets of a monitoring message could not be decoded.
#[derive(Clone, Copy, Debug, PartialEq, Eq, Structural)]
pub enum BmpMessageParsingError {
    /// The version octet names no version that this library speaks.
    UndefinedBmpVersion(u8),
    /// The length field disagrees with the octets of the frame.
    InvalidMessageLength(u32),
    /// The message type octet is not one that this library decodes.
    UndefinedMessageType(u8),
    /// The peer type octet is not a known peer type.
    UndefinedPeerType(u8),
    /// The type of an information TLV is not a known one.
    UndefinedInformationType(u16),
    /// The reason octet of a peer down notification is not a known one.
    UndefinedPeerDownReason(u8),
    /// The payload of a peer down reason does not have the length its reason requires.
    InvalidReasonPayload(u8),
    /// An embedded BGP OPEN message is malformed.
    InvalidBgpOpen,
    /// A field runs past the end of its enclosing frame.
    Truncated,
}

/// Why an information TLV could not be encoded.
#[derive(Clone, Copy, Debug, PartialEq, Eq, Structural)]
pub enum InitiationInformationWritingError {
    /// The value has more octets than its 16-bit length field can state.
    ValueTooLong(usize),
}

/// Why an initiation message could not be encoded.
#[derive(Clone, Copy, Debug, PartialEq, Eq, Structural)]
pub enum InitiationMessageWritingError {
    InitiationInformationError(InitiationInformationWritingError),
}

} // verus!

verus! {

/// Why a peer down reason could not be encoded.
#[derive(Clone, Copy, Debug, PartialEq, Eq, Structural)]
pub enum PeerDownNotificationReasonWritingError {
    InitiationInformationError(InitiationInformationWritingError),
}

/// Why a peer down notification could not be encoded.
#[derive(Clone, Copy, Debug, PartialEq, Eq, Structural)]
pub enum PeerDownNotificationMessageWritingError {
    PeerDownNotificationReasonError(PeerDownNotificationReasonWritingError),
}

/// Why a peer up notification could not be encoded.
#[derive(Clone, Copy, Debug, PartialEq, Eq, Structural)]
pub enum PeerUpNotificationMessageWritingError {
    /// A BGP OPEN message has parameters that do not fit their one-octet lengths.
    BgpOpenTooLong,
    InitiationInformationError(InitiationInformationWritingError),
}

/// Why a monitoring message could not be encoded.
#[derive(Clone, Copy, Debug, PartialEq, Eq, Structural)]
pub enum BmpMessageWritingError {
    /// The message has more octets than its 32-bit length field can state.
    MessageTooLong,
    TerminationInformationError(InitiationInformationWritingError),
    InitiationMessageError(InitiationMessageWritingError),
    PeerUpNotificationMessageError(PeerUpNotificationMessageWritingError),
    PeerDownNotificationMessageError(PeerDownNotificationMessageWritingError),
}

} // verus!
