use telemetry_codec::ipfix::{
    FieldParsingError, FieldSpecifier, Flow, FlowParsingError, IpfixHeader, IpfixHeaderParsingError,
    IpfixMessageParsingError, SetParsingError, SetPayload, TemplateRecord, TemplateRecordParsingError,
    TemplateStore,
};

const TEMPLATE_SET: [u8; 16] = [0, 2, 0, 16, 1, 0, 0, 2, 0, 8, 0, 4, 0, 7, 0, 2];
const DATA_SET: [u8; 18] = [1, 0, 0, 18, 10, 0, 0, 1, 0, 80, 10, 0, 0, 2, 1, 187, 0, 0];

#[test]
fn data_set_needs_its_template() {
    let mut store = TemplateStore::new();
    assert_eq!(
        store.decode_set(7, &DATA_SET, 0, DATA_SET.len()),
        Err(SetParsingError::FieldSpecifierIsNotDefined)
    );

    let (set, n) = store.decode_set(7, &TEMPLATE_SET, 0, TEMPLATE_SET.len()).unwrap();
    assert_eq!(n, 16);
    let fields = vec![
        FieldSpecifier { enterprise: false, pen: 0, code: 8, length: 4 },
        FieldSpecifier { enterprise: false, pen: 0, code: 7, length: 2 },
    ];
    assert_eq!(set.payload, SetPayload::Template(vec![TemplateRecord { id: 256, fields: fields.clone() }]));
    assert_eq!(store.get(7, 256), Some(&fields));
    assert_eq!(store.get(8, 256), None);

    let (set, n) = store.decode_set(7, &DATA_SET, 0, DATA_SET.len()).unwrap();
    assert_eq!(n, 18);
    assert_eq!(set.id, 256);
    assert_eq!(
        set.payload,
        SetPayload::Data(vec![
            Flow { values: vec![vec![10, 0, 0, 1], vec![0, 80]] },
            Flow { values: vec![vec![10, 0, 0, 2], vec![1, 187]] },
        ])
    );

    // Another observation domain has not announced the template.
    assert_eq!(
        store.decode_set(8, &DATA_SET, 0, DATA_SET.len()),
        Err(SetParsingError::FieldSpecifierIsNotDefined)
    );
}

#[test]
fn template_announced_again_replaces() {
    let mut store = TemplateStore::new();
    store.decode_set(1, &TEMPLATE_SET, 0, TEMPLATE_SET.len()).unwrap();
    let again: [u8; 12] = [0, 2, 0, 12, 1, 0, 0, 1, 0, 4, 0, 1];
    store.decode_set(1, &again, 0, again.len()).unwrap();
    assert_eq!(store.get(1, 256), Some(&vec![FieldSpecifier { enterprise: false, pen: 0, code: 4, length: 1 }]));
}

#[test]
fn enterprise_field_is_opaque() {
    let b = [0x80u8, 0x05, 0, 3, 0, 0, 0x12, 0x34];
    assert_eq!(
        FieldSpecifier::from_wire(&b, 0, b.len()),
        Ok((FieldSpecifier { enterprise: true, pen: 0x1234, code: 5, length: 3 }, 8))
    );
}

#[test]
fn enterprise_bit_decides_type_space() {
    // Enterprise bit set, enterprise number zero, a code the standard table lacks.
    let b = [0x80u8, 0x03, 0x00, 0x04, 0x00, 0x00, 0x00, 0x00];
    assert_eq!(
        FieldSpecifier::from_wire(&b, 0, b.len()),
        Ok((FieldSpecifier { enterprise: true, pen: 0, code: 3, length: 4 }, 8))
    );
    // The same code without the bit is looked up in the standard table.
    let standard = [0x00u8, 0x03, 0x00, 0x04];
    assert_eq!(
        FieldSpecifier::from_wire(&standard, 0, 4),
        Err(FieldParsingError::UndefinedInformationElement(3))
    );
}

#[test]
fn field_errors() {
    let unknown = [0x03u8, 0xe7, 0, 4];
    assert_eq!(
        FieldSpecifier::from_wire(&unknown, 0, 4),
        Err(FieldParsingError::UndefinedInformationElement(999))
    );
    let bad_len = [0u8, 8, 0, 2];
    assert_eq!(FieldSpecifier::from_wire(&bad_len, 0, 4), Err(FieldParsingError::InvalidLength(2)));
    let short = [0x80u8, 1, 0, 4, 0];
    assert_eq!(FieldSpecifier::from_wire(&short, 0, 5), Err(FieldParsingError::Truncated));
}

#[test]
fn template_id_checked_before_count() {
    let b = [0u8, 1, 0];
    assert_eq!(
        TemplateRecord::from_wire(&b, 0, 3),
        Err(TemplateRecordParsingError::InvalidTemplateId(1))
    );
    let valid_id_only = [1u8, 0, 0];
    assert_eq!(TemplateRecord::from_wire(&valid_id_only, 0, 3), Err(TemplateRecordParsingError::Truncated));
}

#[test]
fn template_errors() {
    let low_id = [0u8, 5, 0, 0];
    assert_eq!(
        TemplateRecord::from_wire(&low_id, 0, 4),
        Err(TemplateRecordParsingError::InvalidTemplateId(5))
    );
    let bad_field = [1u8, 0, 0, 1, 0, 8, 0, 2];
    assert_eq!(
        TemplateRecord::from_wire(&bad_field, 0, 8),
        Err(TemplateRecordParsingError::FieldError(FieldParsingError::InvalidLength(2)))
    );
}

#[test]
fn set_errors() {
    let mut store = TemplateStore::new();
    let bad_id = [0u8, 7, 0, 4];
    assert_eq!(store.decode_set(0, &bad_id, 0, 4), Err(SetParsingError::InvalidSetId(7)));
    let bad_len = [0u8, 2, 0, 3];
    assert_eq!(store.decode_set(0, &bad_len, 0, 4), Err(SetParsingError::InvalidLength(3)));
    let long = [0u8, 2, 0, 9, 0];
    assert_eq!(store.decode_set(0, &long, 0, 5), Err(SetParsingError::Truncated));
}

#[test]
fn flow_needs_whole_record() {
    let fields = vec![FieldSpecifier { enterprise: false, pen: 0, code: 8, length: 4 }];
    let b = [1u8, 2, 3];
    assert_eq!(Flow::from_wire(&b, 0, 3, &fields), Err(FlowParsingError::Truncated));
}

#[test]
fn header_fields() {
    let b = [0u8, 10, 0, 16, 0x63, 0x3b, 0x0e, 0x42, 0, 0, 0, 5, 0, 0, 0, 7];
    assert_eq!(
        IpfixHeader::from_wire(&b),
        Ok((IpfixHeader { export_time: 1664814658, sequence_number: 5, observation_domain_id: 7 }, 16))
    );
    let v9 = [0u8, 9, 0, 16];
    assert_eq!(IpfixHeader::from_wire(&v9), Err(IpfixHeaderParsingError::UnsupportedVersion(9)));
    let short_len = [0u8, 10, 0, 8];
    assert_eq!(IpfixHeader::from_wire(&short_len), Err(IpfixHeaderParsingError::InvalidLength(8)));
}

#[test]
fn message_announces_then_uses_template() {
    let mut msg: Vec<u8> = vec![0, 10, 0, 50, 0, 0, 0, 1, 0, 0, 0, 2, 0, 0, 0, 9];
    msg.extend_from_slice(&TEMPLATE_SET);
    msg.extend_from_slice(&DATA_SET);
    let mut store = TemplateStore::new();
    let (header, sets) = store.decode_message(&msg).unwrap();
    assert_eq!(header, IpfixHeader { export_time: 1, sequence_number: 2, observation_domain_id: 9 });
    assert_eq!(sets.len(), 2);
    assert_eq!(
        sets[1].payload,
        SetPayload::Data(vec![
            Flow { values: vec![vec![10, 0, 0, 1], vec![0, 80]] },
            Flow { values: vec![vec![10, 0, 0, 2], vec![1, 187]] },
        ])
    );
    assert!(store.get(9, 256).is_some());

    let mut data_only: Vec<u8> = vec![0, 10, 0, 34, 0, 0, 0, 1, 0, 0, 0, 3, 0, 0, 0, 4];
    data_only.extend_from_slice(&DATA_SET);
    assert_eq!(
        store.decode_message(&data_only),
        Err(IpfixMessageParsingError::SetError(SetParsingError::FieldSpecifierIsNotDefined))
    );
    let mut short = data_only.clone();
    short.truncate(20);
    assert_eq!(store.decode_message(&short), Err(IpfixMessageParsingError::Truncated));
}
