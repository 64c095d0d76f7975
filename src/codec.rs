//! The stream codec: splits a byte stream into monitoring messages and keeps
//! the per-session context that later messages need.
use vstd::prelude::*;

use bytes::BytesMut;

use crate::bgp::{
    caps_len, encode_caps, encode_open, lemma_encode_caps_len, lemma_encode_open_len, open_len,
};
use crate::bmp::{
    encode_body, encode_msg, encode_reason, lemma_encode_msg_len, lemma_msg_round_trip, msg_len, msg_wf,
    parse_msg, BmpMessageView, BMP_VERSION,
};
use crate::tlv::{encode_infos, infos_len, lemma_encode_infos_len};
use crate::context::{
    context_of, find_key, key_of, keys_unique, lemma_store_domain, lemma_store_lookup,
    lemma_store_remove, lemma_store_set, store_view, BgpParsingContext, ContextView, PeerKey,
};
use crate::error::{BmpMessageParsingError, BmpMessageWritingError};
use crate::message::BmpMessage;
use crate::wire::{
    be_bytes, be_value, copy_range, lemma_be_bytes_len, lemma_be_round_trip, lemma_be_value_bound,
    lemma_pow256_facts, read_be,
};

verus! {

/// Min length for a valid BMP message: 1-octet version and 4-octet length.
pub const BMP_MESSAGE_MIN_LENGTH: usize = 5;

#[verifier::external_type_specification]
#[verifier::external_body]
pub struct ExBytesMut(bytes::BytesMut);

/// The octets that a buffer holds.
pub uninterp spec fn buffered(b: BytesMut) -> Seq<u8>;

/// Relies on `BytesMut`'s `Deref<Target = [u8]>`: the slice of the octets held.
#[verifier::external_body]
fn buf_octets(b: &BytesMut) -> (r: &[u8])
    ensures
        r@ == buffered(*b),
{
    &b[..]
}

/// Relies on `<BytesMut as bytes::Buf>::advance`: drops the first `n` octets
/// (it panics past the end, which `requires` rules out).
#[verifier::external_body]
fn buf_advance(b: &mut BytesMut, n: usize)
    requires
        n <= buffered(*old(b)).len(),
    ensures
        buffered(*final(b)) == buffered(*old(b)).skip(n as int),
{
    bytes::Buf::advance(b, n)
}

/// Relies on `BytesMut::extend_from_slice`: appends the octets of `s`.
#[verifier::external_body]
fn buf_extend(b: &mut BytesMut, s: &[u8])
    ensures
        buffered(*final(b)) == buffered(*old(b)) + s@,
{
    b.extend_from_slice(s)
}

/// Why the decoder could not produce a message.
#[derive(Clone, Debug, PartialEq, Eq)]
pub enum BmpCodecDecoderError {
    /// The frame ended before a field inside it; the frame's length field was wrong.
    Incomplete(Option<usize>),
    /// The frame's octets are not a message.
    BmpMessageParsingError(BmpMessageParsingError),
}

/// The codec's error for an error of the message decoder.
pub open spec fn decoder_error(e: BmpMessageParsingError) -> BmpCodecDecoderError {
    if e == BmpMessageParsingError::Truncated {
        BmpCodecDecoderError::Incomplete(None)
    } else {
        BmpCodecDecoderError::BmpMessageParsingError(e)
    }
}

/// What one call of the decoder does: its result, the octets it consumes and
/// whether a frame is in progress afterwards.
pub struct FrameOutcome {
    pub result: Result<Option<BmpMessageView>, BmpCodecDecoderError>,
    pub consumed: nat,
    pub in_message: bool,
}

/// The outcome of one decoder call on the buffered octets `s`.
pub open spec fn frame_step(in_message: bool, s: Seq<u8>) -> FrameOutcome {
    if s.len() < 5 {
        FrameOutcome { result: Ok(None), consumed: 0, in_message }
    } else if s[0] != BMP_VERSION {
        FrameOutcome {
            result: Err(
                BmpCodecDecoderError::BmpMessageParsingError(
                    BmpMessageParsingError::UndefinedBmpVersion(s[0]),
                ),
            ),
            consumed: 1,
            in_message,
        }
    } else {
        let len = be_value(s.subrange(1, 5));
        if s.len() < len {
            FrameOutcome { result: Ok(None), consumed: 0, in_message: true }
        } else if len < 6 {
            FrameOutcome {
                result: Err(
                    BmpCodecDecoderError::BmpMessageParsingError(
                        BmpMessageParsingError::InvalidMessageLength(len as u32),
                    ),
                ),
                consumed: if len < 5 {
                    5
                } else {
                    len
                },
                in_message: false,
            }
        } else {
            match parse_msg(s.take(len as int)) {
                Ok(m) => FrameOutcome { result: Ok(Some(m)), consumed: len, in_message: false },
                Err(e) => FrameOutcome {
                    result: Err(decoder_error(e)),
                    consumed: len,
                    in_message: false,
                },
            }
        }
    }
}

/// The key under which the remote side's OPEN is kept: the peer's key with
/// the identifier that its OPEN gave.
pub open spec fn remote_key(h: crate::peer::PeerHeader, bgp_id: u32) -> PeerKey {
    PeerKey { bgp_id, ..key_of(h) }
}

/// How decoding `m` changes the contexts: a peer down or termination removes
/// the session's context, a peer up replaces the context of each side with
/// what that side offered, and other messages leave them as they are.
pub open spec fn ctx_update(store: Map<PeerKey, ContextView>, m: BmpMessageView) -> Map<
    PeerKey,
    ContextView,
> {
    match m {
        BmpMessageView::PeerDownNotification { peer_header, .. } => store.remove(
            key_of(peer_header),
        ),
        BmpMessageView::Termination { peer_header, .. } => store.remove(key_of(peer_header)),
        BmpMessageView::PeerUpNotification { peer_header, sent, received, .. } => store.insert(
            key_of(peer_header),
            context_of(sent.caps),
        ).insert(remote_key(peer_header, received.bgp_id), context_of(received.caps)),
        _ => store,
    }
}

/// The view of a decoder result.
pub open spec fn decode_result_view(r: Result<Option<BmpMessage>, BmpCodecDecoderError>) -> Result<
    Option<BmpMessageView>,
    BmpCodecDecoderError,
> {
    match r {
        Ok(Some(m)) => Ok(Some(m@)),
        Ok(None) => Ok(None),
        Err(e) => Err(e),
    }
}

/// Encoder and decoder of monitoring messages over one byte stream.
#[derive(Debug)]
pub struct BmpCodec {
    /// Whether the decoder has seen the header of a frame that is not complete yet.
    in_message: bool,
    ctx: Vec<(PeerKey, BgpParsingContext)>,
}

impl BmpCodec {
    /// The codec's invariant: one context per session.
    pub closed spec fn wf(&self) -> bool {
        keys_unique(self.ctx@)
    }

    /// Whether a frame is in progress.
    pub closed spec fn in_message(&self) -> bool {
        self.in_message
    }

    /// The context of each session.
    pub closed spec fn contexts(&self) -> Map<PeerKey, ContextView> {
        store_view(self.ctx@)
    }

    /// A codec with no frame in progress and no contexts.
    pub fn new() -> (r: BmpCodec)
        ensures
            r.wf(),
            !r.in_message(),
            r.contexts() == Map::<PeerKey, ContextView>::empty(),
    {
        BmpCodec { in_message: false, ctx: Vec::new() }
    }

    /// Whether a context is kept for `key`.
    pub fn contains_key(&self, key: &PeerKey) -> (r: bool)
        ensures
            r == self.contexts().contains_key(*key),
    {
        proof {
            lemma_store_domain(self.ctx@, *key);
        }
        find_key(&self.ctx, key).is_some()
    }

    /// The context kept for `key`, if any.
    pub fn context(&self, key: &PeerKey) -> (r: Option<&BgpParsingContext>)
        requires
            self.wf(),
        ensures
            r is None == !self.contexts().contains_key(*key),
            r matches Some(c) ==> c@ == self.contexts()[*key],
    {
        proof {
            lemma_store_domain(self.ctx@, *key);
        }
        match find_key(&self.ctx, key) {
            None => None,
            Some(i) => {
                proof {
                    lemma_store_lookup(self.ctx@, i as int);
                }
                Some(&self.ctx[i].1)
            },
        }
    }

    /// Replaces the context of `key` with `c` wholesale.
    fn replace(&mut self, key: PeerKey, c: BgpParsingContext)
        requires
            old(self).wf(),
        ensures
            final(self).wf(),
            final(self).contexts() == old(self).contexts().insert(key, c@),
            final(self).in_message() == old(self).in_message(),
    {
        match find_key(&self.ctx, &key) {
            Some(i) => {
                proof {
                    lemma_store_set(self.ctx@, i as int, c);
                }
                self.ctx.set(i, (key, c));
            },
            None => {
                self.ctx.push((key, c));
                proof {
                    assert(self.ctx@.drop_last() =~= old(self).ctx@);
                }
            },
        }
    }

    /// Removes the context of `key`, if any.
    fn remove(&mut self, key: &PeerKey)
        requires
            old(self).wf(),
        ensures
            final(self).wf(),
            final(self).contexts() == old(self).contexts().remove(*key),
            final(self).in_message() == old(self).in_message(),
    {
        proof {
            lemma_store_domain(self.ctx@, *key);
        }
        match find_key(&self.ctx, key) {
            Some(i) => {
                proof {
                    lemma_store_remove(self.ctx@, i as int);
                }
                self.ctx.remove(i);
            },
            None => {
                assert(self.contexts().remove(*key) =~= self.contexts());
            },
        }
    }

    /// Updates the contexts from a decoded message: a peer down or termination
    /// removes the session's context; a peer up replaces the context of each side
    /// with the ADD-PATH and Multiple Labels capabilities that side offered.
    pub fn update_parsing_ctx(&mut self, msg: &BmpMessage)
        requires
            old(self).wf(),
        ensures
            final(self).wf(),
            final(self).contexts() == ctx_update(old(self).contexts(), msg@),
            final(self).in_message() == old(self).in_message(),
    {
        match msg {
            BmpMessage::PeerDownNotification(peer_down) => {
                let peer_key = PeerKey::from_peer_header(&peer_down.peer_header);
                self.remove(&peer_key);
            },
            BmpMessage::Termination(termination) => {
                let peer_key = PeerKey::from_peer_header(&termination.peer_header);
                self.remove(&peer_key);
            },
            BmpMessage::PeerUpNotification(peer_up) => {
                let sent = BgpParsingContext::from_capabilities(
                    &peer_up.sent_message.capabilities,
                );
                let peer_key = PeerKey::from_peer_header(&peer_up.peer_header);
                self.replace(peer_key, sent);
                let received = BgpParsingContext::from_capabilities(
                    &peer_up.received_message.capabilities,
                );
                let h = &peer_up.peer_header;
                let remote = PeerKey::new(
                    h.address,
                    h.peer_type,
                    h.distinguisher,
                    h.peer_as,
                    peer_up.received_message.bgp_id,
                );
                self.replace(remote, received);
            },
            _ => {},
        }
    }

    /// Decodes the next message of the stream in `buf`.
    ///
    /// Returns `Ok(None)` and consumes nothing while a whole frame is not yet
    /// buffered. A wrong version octet consumes one octet; a frame that is not a
    /// message consumes the frame, and at least the five octets of its header.
    pub fn decode(&mut self, buf: &mut BytesMut) -> (r: Result<
        Option<BmpMessage>,
        BmpCodecDecoderError,
    >)
        requires
            old(self).wf(),
        ensures
            ({
                let o = frame_step(old(self).in_message(), buffered(*old(buf)));
                &&& decode_result_view(r) == o.result
                &&& buffered(*final(buf)) == buffered(*old(buf)).skip(o.consumed as int)
                &&& final(self).in_message() == o.in_message
                &&& final(self).contexts() == match r {
                    Ok(Some(m)) => ctx_update(old(self).contexts(), m@),
                    _ => old(self).contexts(),
                }
            }),
            final(self).wf(),
    {
        let s = buf_octets(buf);
        let n = s.len();
        if n < BMP_MESSAGE_MIN_LENGTH {
            return Ok(None);
        }
        let version = s[0];
        if version != BMP_VERSION {
            buf_advance(buf, 1);
            return Err(
                BmpCodecDecoderError::BmpMessageParsingError(
                    BmpMessageParsingError::UndefinedBmpVersion(version),
                ),
            );
        }
        let length = read_be(s, 1, 4);
        proof {
            lemma_pow256_facts();
            lemma_be_value_bound(s@.subrange(1, 5));
        }
        if (n as u128) < length {
            self.in_message = true;
            return Ok(None);
        }
        self.in_message = false;
        let length = length as usize;
        if length < 6 {
            let skip = if length < BMP_MESSAGE_MIN_LENGTH {
                BMP_MESSAGE_MIN_LENGTH
            } else {
                length
            };
            buf_advance(buf, skip);
            return Err(
                BmpCodecDecoderError::BmpMessageParsingError(
                    BmpMessageParsingError::InvalidMessageLength(length as u32),
                ),
            );
        }
        let frame = copy_range(s, 0, length);
        assert(frame@ =~= s@.take(length as int));
        match BmpMessage::from_wire(frame.as_slice()) {
            Ok(msg) => {
                self.update_parsing_ctx(&msg);
                buf_advance(buf, length);
                Ok(Some(msg))
            },
            Err(e) => {
                buf_advance(buf, length);
                match e {
                    BmpMessageParsingError::Truncated => Err(
                        BmpCodecDecoderError::Incomplete(None),
                    ),
                    _ => Err(BmpCodecDecoderError::BmpMessageParsingError(e)),
                }
            },
        }
    }

    /// Appends the octets of `msg` to `dst`; fails, appending nothing, when a part
    /// of the message does not fit its length field.
    pub fn encode(&mut self, msg: BmpMessage, dst: &mut BytesMut) -> (r: Result<
        (),
        BmpMessageWritingError,
    >)
        ensures
            r.is_ok() == msg_wf(msg@),
            r.is_ok() ==> buffered(*final(dst)) == buffered(*old(dst)) + encode_msg(msg@),
            r.is_err() ==> buffered(*final(dst)) == buffered(*old(dst)),
            *final(self) == *old(self),
    {
        let mut out: Vec<u8> = Vec::new();
        match msg.write(&mut out) {
            Err(e) => Err(e),
            Ok(()) => {
                assert(out@ =~= Seq::<u8>::empty() + encode_msg(msg@));
                buf_extend(dst, out.as_slice());
                Ok(())
            },
        }
    }
}

impl Default for BmpCodec {
    fn default() -> (r: BmpCodec)
        ensures
            r.wf(),
            !r.in_message(),
            r.contexts() == Map::<PeerKey, ContextView>::empty(),
    {
        BmpCodec::new()
    }
}

/// Decoding the octets of a well-formed message, with anything after them in the
/// buffer, gives the message back and consumes exactly its octets.
pub proof fn lemma_decode_encode(m: BmpMessageView, rest: Seq<u8>, in_message: bool)
    requires
        msg_wf(m),
    ensures
        frame_step(in_message, encode_msg(m) + rest) == (FrameOutcome {
            result: Ok(Some(m)),
            consumed: msg_len(m),
            in_message: false,
        }),
{
    let s = encode_msg(m) + rest;
    lemma_encode_msg_len(m);
    lemma_be_bytes_len(msg_len(m), 4);
    lemma_pow256_facts();
    lemma_be_round_trip(msg_len(m), 4);
    assert(s.subrange(1, 5) =~= be_bytes(msg_len(m), 4));
    assert(s.take(msg_len(m) as int) =~= encode_msg(m));
    lemma_msg_round_trip(m);
}

/// The length of a message is the number of octets its encoding takes, and so
/// is the length of each container inside it.
pub proof fn lemma_len_consistency(m: BmpMessageView)
    ensures
        encode_msg(m).len() == msg_len(m),
        msg_len(m) == 6 + encode_body(m).len(),
        match m {
            BmpMessageView::RouteMonitoring { peer_header, updates } => encode_body(m).len() == 42
                + updates.len(),
            BmpMessageView::PeerDownNotification { reason, .. } => encode_body(m).len() == 42
                + encode_reason(reason).len(),
            BmpMessageView::PeerUpNotification { sent, received, information, .. } => {
                &&& encode_open(sent).len() == open_len(sent)
                &&& encode_open(received).len() == open_len(received)
                &&& encode_caps(sent.caps).len() == caps_len(sent.caps)
                &&& encode_caps(received.caps).len() == caps_len(received.caps)
                &&& encode_infos(information).len() == infos_len(information)
                &&& encode_body(m).len() == 62 + open_len(sent) + open_len(received) + infos_len(
                    information,
                )
            },
            BmpMessageView::Initiation { information } => encode_body(m).len() == infos_len(
                information,
            ),
            BmpMessageView::Termination { information, .. } => encode_body(m).len() == 42
                + infos_len(information),
            BmpMessageView::Experimental { data, .. } => encode_body(m).len() == data.len(),
        },
{
    lemma_encode_msg_len(m);
    match m {
        BmpMessageView::RouteMonitoring { peer_header, .. } => {
            peer_header.lemma_encode_len();
        },
        BmpMessageView::PeerDownNotification { peer_header, .. } => {
            peer_header.lemma_encode_len();
        },
        BmpMessageView::PeerUpNotification {
            peer_header,
            local_address,
            local_port,
            remote_port,
            sent,
            received,
            information,
        } => {
            peer_header.lemma_encode_len();
            lemma_be_bytes_len(local_address as nat, 16);
            lemma_be_bytes_len(local_port as nat, 2);
            lemma_be_bytes_len(remote_port as nat, 2);
            lemma_encode_open_len(sent);
            lemma_encode_open_len(received);
            lemma_encode_caps_len(sent.caps);
            lemma_encode_caps_len(received.caps);
            lemma_encode_infos_len(information);
        },
        BmpMessageView::Initiation { information } => {
            lemma_encode_infos_len(information);
        },
        BmpMessageView::Termination { peer_header, information } => {
            peer_header.lemma_encode_len();
            lemma_encode_infos_len(information);
        },
        BmpMessageView::Experimental { .. } => {},
    }
}

/// Every proper prefix of a well-formed message's octets makes the decoder
/// wait: it returns no message and consumes nothing.
pub proof fn lemma_partial_buffer(m: BmpMessageView, k: nat, in_message: bool)
    requires
        msg_wf(m),
        k < msg_len(m),
    ensures
        frame_step(in_message, encode_msg(m).take(k as int)).result == Ok::<
            Option<BmpMessageView>,
            BmpCodecDecoderError,
        >(None),
        frame_step(in_message, encode_msg(m).take(k as int)).consumed == 0,
{
    let s = encode_msg(m).take(k as int);
    lemma_encode_msg_len(m);
    if k >= 5 {
        lemma_be_bytes_len(msg_len(m), 4);
        lemma_pow256_facts();
        lemma_be_round_trip(msg_len(m), 4);
        assert(s.subrange(1, 5) =~= be_bytes(msg_len(m), 4));
    }
}

/// A buffer of at least five octets that does not start with the version
/// octet gives exactly one version error and loses exactly that octet.
pub proof fn lemma_unknown_version(s: Seq<u8>, in_message: bool)
    requires
        s.len() >= 5,
        s[0] != BMP_VERSION,
    ensures
        frame_step(in_message, s).result == Err::<Option<BmpMessageView>, _>(
            BmpCodecDecoderError::BmpMessageParsingError(
                BmpMessageParsingError::UndefinedBmpVersion(s[0]),
            ),
        ),
        frame_step(in_message, s).consumed == 1,
        s.skip(frame_step(in_message, s).consumed as int) == s.skip(1),
{
}

/// A negotiation for a session makes its context exactly what was offered (the
/// remote side's offer where both sides share the key); a peer down or a
/// termination for it removes it; and a second negotiation replaces the first
/// rather than merging with it.
pub proof fn lemma_context_lifecycle(
    store: Map<PeerKey, ContextView>,
    up: BmpMessageView,
    up2: BmpMessageView,
    down: BmpMessageView,
)
    requires
        up is PeerUpNotification,
        up2 is PeerUpNotification,
        up->PeerUpNotification_peer_header == up2->PeerUpNotification_peer_header,
        up->PeerUpNotification_received.bgp_id == up2->PeerUpNotification_received.bgp_id,
        down is PeerDownNotification || down is Termination,
        key_of(
            match down {
                BmpMessageView::PeerDownNotification { peer_header, .. } => peer_header,
                BmpMessageView::Termination { peer_header, .. } => peer_header,
                _ => up->PeerUpNotification_peer_header,
            },
        ) == key_of(up->PeerUpNotification_peer_header),
    ensures
        ({
            let h = up->PeerUpNotification_peer_header;
            let k = key_of(h);
            let rk = remote_key(h, up->PeerUpNotification_received.bgp_id);
            let after = ctx_update(store, up);
            &&& after.contains_key(k)
            &&& after[k] == if rk == k {
                context_of(up->PeerUpNotification_received.caps)
            } else {
                context_of(up->PeerUpNotification_sent.caps)
            }
            &&& after.contains_key(rk)
            &&& after[rk] == context_of(up->PeerUpNotification_received.caps)
            &&& !ctx_update(after, down).contains_key(k)
            &&& ctx_update(after, up2)[k] == ctx_update(store, up2)[k]
            &&& ctx_update(after, up2)[rk] == ctx_update(store, up2)[rk]
        }),
{
}

} // verus!
