use bytes::BytesMut;
use telemetry_codec::bgp::{BgpCapability, BgpOpenMessage};
use telemetry_codec::codec::{BmpCodec, BmpCodecDecoderError};
use telemetry_codec::context::{get_caps, BgpParsingContext, PeerKey};
use telemetry_codec::error::{
    BmpMessageParsingError, BmpMessageWritingError, InitiationInformationWritingError,
    InitiationMessageWritingError, PeerUpNotificationMessageWritingError,
};
use telemetry_codec::message::{
    BmpMessage, InitiationMessage, PeerDownNotificationMessage, PeerDownNotificationReason,
    PeerUpNotificationMessage, RouteMonitoringMessage, TerminationMessage,
};
use telemetry_codec::peer::{compute_peer_flags_value, BmpPeerType, PeerHeader};
use telemetry_codec::tlv::InitiationInformation;

fn encoded(msg: &BmpMessage) -> BytesMut {
    let mut codec = BmpCodec::default();
    let mut buf = BytesMut::new();
    codec.encode(msg.clone(), &mut buf).unwrap();
    buf
}

fn peer_header() -> PeerHeader {
    PeerHeader {
        peer_type: BmpPeerType::GlobalInstancePeer {
            ipv6: true,
            post_policy: false,
            asn2: false,
            adj_rib_out: false,
        },
        distinguisher: 0,
        address: 0xfc00_0000_0000_0000_0000_0000_0000_0001,
        peer_as: 64512,
        bgp_id: 0x0a00_0001,
        timestamp_secs: 1664821826,
        timestamp_micros: 645593,
    }
}

fn open(bgp_id: u32, capabilities: Vec<BgpCapability>) -> BgpOpenMessage {
    BgpOpenMessage { my_as: 64512, hold_time: 180, bgp_id, capabilities }
}

fn peer_up_with(caps: Vec<BgpCapability>) -> BmpMessage {
    BmpMessage::PeerUpNotification(PeerUpNotificationMessage {
        peer_header: peer_header(),
        local_address: 0xfc00_0000_0000_0000_0000_0000_0000_0003,
        local_port: 179,
        remote_port: 29834,
        sent_message: open(0x0a00_0003, caps.clone()),
        received_message: open(0x0a00_0001, caps),
        information: vec![],
    })
}

/// Multiprotocol IPv4 MPLS VPN, four-octet AS 64512, and Extended Next Hop
/// Encoding of IPv4 unicast, multicast and MPLS VPN over IPv6.
fn negotiation_caps() -> Vec<BgpCapability> {
    vec![
        BgpCapability { code: 1, value: vec![0, 1, 0, 128] },
        BgpCapability { code: 65, value: vec![0, 0, 0xfc, 0] },
        BgpCapability {
            code: 5,
            value: vec![0, 1, 0, 1, 0, 2, 0, 1, 0, 2, 0, 2, 0, 1, 0, 128, 0, 2],
        },
    ]
}

/// As `negotiation_caps`, with ADD-PATH on IPv4 unicast and Multiple Labels on
/// IPv4 labeled unicast.
fn peer_up() -> BmpMessage {
    let mut caps = negotiation_caps();
    caps.push(BgpCapability { code: 69, value: vec![0, 1, 1, 3] });
    caps.push(BgpCapability { code: 8, value: vec![0, 1, 4, 2] });
    peer_up_with(caps)
}

fn initiation() -> BmpMessage {
    BmpMessage::Initiation(InitiationMessage {
        information: vec![
            InitiationInformation::SystemDescription(b"test11".to_vec()),
            InitiationInformation::SystemName(b"PE2".to_vec()),
        ],
    })
}

#[test]
fn test_codec() {
    let msg = initiation();
    let mut code = BmpCodec::default();
    let mut buf = BytesMut::new();
    let mut empty_buf = BytesMut::new();
    let mut error_buf = BytesMut::from(&[0xffu8, 0x00u8, 0x00u8, 0x00u8, 0x01u8, 0xffu8][..]);

    code.encode(msg.clone(), &mut buf).unwrap();
    let decode = code.decode(&mut buf);
    let decode_empty = code.decode(&mut empty_buf);
    let decode_error = code.decode(&mut error_buf);

    assert!(decode.is_ok());
    assert_eq!(decode.unwrap(), Some(msg));
    assert!(decode_empty.is_ok());
    assert_eq!(decode_empty.unwrap(), None);
    assert!(decode_error.is_err());
}

#[test]
fn test_peer_key_add_remove() {
    let peer_header = peer_header();
    let peer_up = peer_up_with(negotiation_caps());
    let peer_down = BmpMessage::PeerDownNotification(PeerDownNotificationMessage {
        peer_header,
        reason: PeerDownNotificationReason::LocalSystemClosedFsmEventFollows(2),
    });
    let terminate = BmpMessage::Termination(TerminationMessage {
        peer_header,
        information: vec![InitiationInformation::String(b"test".to_vec())],
    });

    let mut codec = BmpCodec::default();
    let peer_key = PeerKey::from_peer_header(&peer_header);
    assert!(!codec.contains_key(&peer_key));

    codec.update_parsing_ctx(&peer_up);
    assert!(codec.contains_key(&peer_key));

    codec.update_parsing_ctx(&peer_down);
    assert!(!codec.contains_key(&peer_key));

    codec.update_parsing_ctx(&peer_up);
    assert!(codec.contains_key(&peer_key));

    codec.update_parsing_ctx(&terminate);
    assert!(!codec.contains_key(&peer_key));
}

#[test]
fn initiation_octets_are_exact() {
    let buf = encoded(&initiation());
    let expected: Vec<u8> = vec![
        3, 0, 0, 0, 23, 4, 0, 1, 0, 6, b't', b'e', b's', b't', b'1', b'1', 0, 2, 0, 3, b'P',
        b'E', b'2',
    ];
    assert_eq!(&buf[..], &expected[..]);
    assert_eq!(initiation().len(), 23);
}

#[test]
fn length_matches_octets_for_every_kind() {
    let msgs = vec![
        initiation(),
        peer_up(),
        BmpMessage::PeerDownNotification(PeerDownNotificationMessage {
            peer_header: peer_header(),
            reason: PeerDownNotificationReason::LocalSystemClosedTlvDataFollows(
                InitiationInformation::AdminLabel(b"x".to_vec()),
            ),
        }),
        BmpMessage::Termination(TerminationMessage { peer_header: peer_header(), information: vec![] }),
        BmpMessage::RouteMonitoring(RouteMonitoringMessage {
            peer_header: peer_header(),
            updates: vec![1, 2, 3],
        }),
        BmpMessage::Experimental252(vec![9, 9]),
    ];
    for m in msgs {
        assert_eq!(encoded(&m).len(), m.len());
    }
}

#[test]
fn round_trip_every_kind() {
    let mut msgs = vec![initiation(), peer_up()];
    let reasons = vec![
        PeerDownNotificationReason::LocalSystemClosedNotificationPduFollows(vec![0xff; 21]),
        PeerDownNotificationReason::LocalSystemClosedFsmEventFollows(7),
        PeerDownNotificationReason::RemoteSystemClosedNotificationPduFollows(vec![1, 2]),
        PeerDownNotificationReason::RemoteSystemClosedNoData,
        PeerDownNotificationReason::PeerDeConfigured,
        PeerDownNotificationReason::LocalSystemClosedTlvDataFollows(InitiationInformation::VrfTableName(
            b"red".to_vec(),
        )),
        PeerDownNotificationReason::Experimental254(vec![]),
    ];
    for reason in reasons {
        msgs.push(BmpMessage::PeerDownNotification(PeerDownNotificationMessage {
            peer_header: peer_header(),
            reason,
        }));
    }
    msgs.push(BmpMessage::Termination(TerminationMessage {
        peer_header: peer_header(),
        information: vec![InitiationInformation::Experimental65533(vec![5])],
    }));
    msgs.push(BmpMessage::RouteMonitoring(RouteMonitoringMessage {
        peer_header: PeerHeader { peer_type: BmpPeerType::LocRibInstancePeer { filtered: true }, ..peer_header() },
        updates: vec![0xff; 19],
    }));
    msgs.push(BmpMessage::Experimental251(vec![1, 2, 3, 4]));
    for m in msgs {
        let mut buf = encoded(&m);
        let mut codec = BmpCodec::default();
        assert_eq!(codec.decode(&mut buf), Ok(Some(m)));
        assert!(buf.is_empty());
    }
}

#[test]
fn partial_buffer_waits_until_complete() {
    let msg = peer_up();
    let full = encoded(&msg);
    for k in 0..full.len() {
        let mut codec = BmpCodec::default();
        let mut buf = BytesMut::from(&full[..k]);
        assert_eq!(codec.decode(&mut buf), Ok(None));
        assert_eq!(buf.len(), k);
        buf.extend_from_slice(&full[k..]);
        assert_eq!(codec.decode(&mut buf), Ok(Some(msg.clone())));
        assert!(buf.is_empty());
    }
}

#[test]
fn unknown_version_skips_one_octet() {
    let msg = initiation();
    let mut buf = BytesMut::from(&[0x07u8][..]);
    buf.extend_from_slice(&encoded(&msg)[..]);
    let before = buf.len();
    let mut codec = BmpCodec::default();
    assert_eq!(
        codec.decode(&mut buf),
        Err(BmpCodecDecoderError::BmpMessageParsingError(BmpMessageParsingError::UndefinedBmpVersion(7)))
    );
    assert_eq!(buf.len(), before - 1);
    assert_eq!(codec.decode(&mut buf), Ok(Some(msg)));
}

#[test]
fn two_frames_in_one_buffer() {
    let mut buf = encoded(&initiation());
    buf.extend_from_slice(&encoded(&peer_up())[..]);
    let mut codec = BmpCodec::default();
    assert_eq!(codec.decode(&mut buf), Ok(Some(initiation())));
    assert_eq!(codec.decode(&mut buf), Ok(Some(peer_up())));
    assert_eq!(codec.decode(&mut buf), Ok(None));
}

#[test]
fn short_length_field_skips_header() {
    let mut buf = BytesMut::from(&[3u8, 0, 0, 0, 2, 4, 4][..]);
    let mut codec = BmpCodec::default();
    assert_eq!(
        codec.decode(&mut buf),
        Err(BmpCodecDecoderError::BmpMessageParsingError(BmpMessageParsingError::InvalidMessageLength(2)))
    );
    assert_eq!(buf.len(), 2);
}

#[test]
fn malformed_frame_skips_frame() {
    // Message type 9 is not defined.
    let mut buf = BytesMut::from(&[3u8, 0, 0, 0, 7, 9, 0, 3, 0][..]);
    let mut codec = BmpCodec::default();
    assert_eq!(
        codec.decode(&mut buf),
        Err(BmpCodecDecoderError::BmpMessageParsingError(BmpMessageParsingError::UndefinedMessageType(9)))
    );
    assert_eq!(&buf[..], &[3u8, 0][..]);
}

#[test]
fn truncated_field_inside_frame_is_incomplete() {
    // An initiation TLV that declares 9 value octets in a frame holding 1.
    let mut buf = BytesMut::from(&[3u8, 0, 0, 0, 11, 4, 0, 1, 0, 9, b'x'][..]);
    let mut codec = BmpCodec::default();
    assert_eq!(codec.decode(&mut buf), Err(BmpCodecDecoderError::Incomplete(None)));
    assert!(buf.is_empty());
}

#[test]
fn decoding_errors_name_the_field() {
    let cases: Vec<(Vec<u8>, BmpMessageParsingError)> = vec![
        (vec![3, 0, 0, 0, 10, 4, 0, 9, 0, 0], BmpMessageParsingError::UndefinedInformationType(9)),
        ({
            let mut v = vec![3, 0, 0, 0, 49, 2, 7, 0];
            v.extend_from_slice(&[0u8; 40]);
            v.push(4);
            v
        }, BmpMessageParsingError::UndefinedPeerType(7)),
        ({
            let mut v = vec![3, 0, 0, 0, 49, 2, 0, 0];
            v.extend_from_slice(&[0u8; 40]);
            v.push(9);
            v
        }, BmpMessageParsingError::UndefinedPeerDownReason(9)),
        ({
            let mut v = vec![3, 0, 0, 0, 50, 2, 0, 0];
            v.extend_from_slice(&[0u8; 40]);
            v.extend_from_slice(&[4, 1]);
            v
        }, BmpMessageParsingError::InvalidReasonPayload(4)),
        ({
            let mut v = vec![3, 0, 0, 0, 97, 3, 0, 0];
            v.extend_from_slice(&[0u8; 60]);
            v.extend_from_slice(&[0u8; 29]);
            v
        }, BmpMessageParsingError::InvalidBgpOpen),
    ];
    for (bytes, err) in cases {
        let mut buf = BytesMut::from(&bytes[..]);
        let mut codec = BmpCodec::default();
        assert_eq!(codec.decode(&mut buf), Err(BmpCodecDecoderError::BmpMessageParsingError(err)));
        assert!(buf.is_empty());
    }
}

#[test]
fn writing_errors() {
    let long = BmpMessage::Initiation(InitiationMessage {
        information: vec![InitiationInformation::String(vec![0u8; 70000])],
    });
    let mut codec = BmpCodec::default();
    let mut buf = BytesMut::new();
    assert_eq!(
        codec.encode(long, &mut buf),
        Err(BmpMessageWritingError::InitiationMessageError(
            InitiationMessageWritingError::InitiationInformationError(
                InitiationInformationWritingError::ValueTooLong(70000)
            )
        ))
    );
    assert!(buf.is_empty());
    let mut up = peer_up();
    if let BmpMessage::PeerUpNotification(m) = &mut up {
        m.sent_message.capabilities = vec![BgpCapability { code: 2, value: vec![0u8; 254] }];
    }
    assert_eq!(
        codec.encode(up, &mut buf),
        Err(BmpMessageWritingError::PeerUpNotificationMessageError(
            PeerUpNotificationMessageWritingError::BgpOpenTooLong
        ))
    );
    assert!(buf.is_empty());
}

#[test]
fn peer_flags_values() {
    assert_eq!(compute_peer_flags_value(false, false, false, false), 0);
    assert_eq!(compute_peer_flags_value(true, false, false, false), 0x80);
    assert_eq!(compute_peer_flags_value(false, true, false, true), 0x50);
    assert_eq!(compute_peer_flags_value(true, true, true, true), 0xf0);
}

#[test]
fn capabilities_give_context() {
    let caps = vec![
        BgpCapability { code: 69, value: vec![0, 1, 1, 1, 0, 2, 1, 2] },
        BgpCapability { code: 8, value: vec![0, 1, 4, 3] },
        BgpCapability { code: 69, value: vec![0, 2, 1, 3] },
    ];
    let (add_path, labels) = get_caps(&caps);
    assert_eq!(add_path, vec![(0x101, true), (0x201, false), (0x201, true)]);
    assert_eq!(labels, vec![(0x104, 3)]);
    let ctx = BgpParsingContext::from_capabilities(&caps);
    assert!(ctx.add_path_receive(0x101));
    assert!(ctx.add_path_receive(0x201));
    assert!(!ctx.add_path_receive(0x301));
    assert_eq!(ctx.multiple_labels_count(0x104), Some(3));
    assert_eq!(ctx.multiple_labels_count(0x101), None);
}

#[test]
fn renegotiation_replaces_context() {
    let mut codec = BmpCodec::default();
    codec.update_parsing_ctx(&peer_up());
    let key = PeerKey::from_peer_header(&peer_header());
    assert!(codec.context(&key).unwrap().add_path_receive(0x101));
    let mut up2 = peer_up();
    if let BmpMessage::PeerUpNotification(m) = &mut up2 {
        m.received_message.capabilities = vec![BgpCapability { code: 69, value: vec![0, 2, 1, 1] }];
    }
    codec.update_parsing_ctx(&up2);
    let ctx = codec.context(&key).unwrap();
    assert!(!ctx.add_path_receive(0x101));
    assert!(ctx.add_path_receive(0x201));
    assert_eq!(ctx.multiple_labels_count(0x104), None);
}

#[test]
fn decode_updates_context() {
    let mut codec = BmpCodec::default();
    let mut buf = encoded(&peer_up());
    codec.decode(&mut buf).unwrap();
    let key = PeerKey::from_peer_header(&peer_header());
    let ctx = codec.context(&key).unwrap();
    assert!(ctx.add_path_receive(0x101));
    assert_eq!(ctx.multiple_labels_count(0x104), Some(2));
    let sent_key = PeerKey { bgp_id: 0x0a00_0003, ..key };
    assert!(!codec.contains_key(&sent_key));
}
