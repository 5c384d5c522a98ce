use ordinals::inscriptions::{
    parse_inscriptions, parse_inscriptions_with_width, parse_little_endian_uint,
    pointer_from_u64, take_n, DecodeError, Event, Field, InscriptionBuilder, State,
    PUSHDATA4_LENGTH_BYTES,
};
use ordinals::pb::Inscription;

fn plain(id: &str, content_type: Option<&str>, content: &str) -> Inscription {
    Inscription {
        id: id.to_string(),
        content_type: content_type.map(|s| s.to_string()),
        pointer: None,
        parent: None,
        metadata: None,
        metaprotocol: None,
        content_encoding: None,
        content: content.to_string(),
    }
}

/// An envelope with the marker `ord`, the given header bytes and the given
/// content pushes, closed by the end of the conditional.
fn envelope(header: &[u8], pushes: &[u8]) -> Vec<u8> {
    let mut script = vec![0x00, 0x63, 0x03, 0x6f, 0x72, 0x64];
    script.extend_from_slice(header);
    script.push(0x00);
    script.extend_from_slice(pushes);
    script.push(0x68);
    script
}

#[test]
fn test_inscription_parsing_1() {
    let bytes = hex::decode("020000000001014f6864054ab62b8f117864e3da82860c9228e08f991b18c230639e46b5867b0a0000000000fdffffff0222020000000000001600147b1af8377c5dead9eb248dfd1abb1beaee4f01cc73050000000000001600148bb6a9b6377fcfa3c795463e626572bdfb6a04170340831e5c34cda94e19ac8555f872b51bb33befb3e90010280d8875f24a4a2db298ed24ff7e8c62aefe143427ce3d6d09724aaef12dac7f0ec960603ae51a622763812068907e44b6ebd5e4c74479650cd5c6069c4858764b8e679b6c8a9995a8f69d07ac0063036f7264010118746578742f706c61696e3b636861727365743d7574662d38003b7b2270223a226272632d3230222c226f70223a227472616e73666572222c227469636b223a22504c5858222c22616d74223a22363736373030227d6821c13483067951fefc4cc8dd18b855bf4b3e8079fb6f6b7ec319ee6eeacfc678a29300000000")
        .expect("hex");

    let inscriptions = parse_inscriptions("ABC".into(), bytes);

    assert_eq!(
        inscriptions,
        Ok(vec![
            Inscription {
                id: "ABCi0".into(),
                content_type: Some("text/plain;charset=utf-8".into()),
                pointer: None,
                parent: None,
                metadata: None,
                metaprotocol: None,
                content_encoding: None,
                content: "{\"p\":\"brc-20\",\"op\":\"transfer\",\"tick\":\"PLXX\",\"amt\":\"676700\"}".into()
            }
        ])
    )
}

#[test]
fn little_endian_one() {
    assert_eq!(parse_little_endian_uint(vec![0x01, 0x00, 0x00, 0x00]), 1);
}

#[test]
fn little_endian_empty_is_zero() {
    assert_eq!(parse_little_endian_uint(vec![]), 0);
}

#[test]
fn little_endian_two_bytes() {
    assert_eq!(parse_little_endian_uint(vec![0xFF, 0xFF]), 65535);
}

#[test]
fn little_endian_orders_bytes_from_the_low_end() {
    assert_eq!(parse_little_endian_uint(vec![0x34, 0x12]), 0x1234);
    assert_eq!(
        parse_little_endian_uint(vec![0x08, 0x07, 0x06, 0x05, 0x04, 0x03, 0x02, 0x01]),
        0x0102_0304_0506_0708
    );
}

#[test]
fn little_endian_eight_bytes_fill_the_width() {
    assert_eq!(parse_little_endian_uint(vec![0xFF; 8]), u64::MAX);
}

#[test]
fn little_endian_ignores_bytes_after_the_eighth() {
    assert_eq!(
        parse_little_endian_uint(vec![0x01, 0, 0, 0, 0, 0, 0, 0, 0xAA, 0xBB]),
        1
    );
}

#[test]
fn pointer_wraps_into_the_signed_range() {
    assert_eq!(pointer_from_u64(0), 0);
    assert_eq!(pointer_from_u64(i64::MAX as u64), i64::MAX);
    assert_eq!(pointer_from_u64(1u64 << 63), i64::MIN);
    assert_eq!(pointer_from_u64(u64::MAX), -1);
}

#[test]
fn take_n_copies_or_refuses() {
    let bytes = vec![1u8, 2, 3, 4, 5];
    assert_eq!(take_n(&bytes, 1, 3), Some(vec![2, 3, 4]));
    assert_eq!(take_n(&bytes, 5, 0), Some(vec![]));
    assert_eq!(take_n(&bytes, 3, 3), None);
    assert_eq!(take_n(&bytes, 0, usize::MAX), None);
}

#[test]
fn field_codes_map_one_to_one() {
    let all = [
        (1u8, Field::ContentType),
        (2, Field::Pointer),
        (3, Field::Parent),
        (5, Field::Metadata),
        (7, Field::MetaProtocol),
        (9, Field::ContentEncoding),
    ];
    for (code, field) in all {
        assert_eq!(Field::from_code(code), Some(field));
        assert_eq!(field.code(), code);
    }
    for code in [0u8, 4, 6, 8, 10, 0xff] {
        assert_eq!(Field::from_code(code), None);
    }
}

#[test]
fn bytes_to_fetch_is_two_only_while_scanning() {
    assert_eq!(State::Scanning.bytes_to_fetch(), 2);
    assert_eq!(State::Envelope.bytes_to_fetch(), 1);
    assert_eq!(State::Inscription.bytes_to_fetch(), 1);
    assert_eq!(State::NotInscription.bytes_to_fetch(), 1);
    assert_eq!(State::Field(Field::Pointer).bytes_to_fetch(), 1);
    assert_eq!(State::Content.bytes_to_fetch(), 1);
}

#[test]
fn builder_sets_each_field() {
    let mut builder = InscriptionBuilder::new("Ti0".to_string());
    builder.content_type("a/b".to_string());
    builder.pointer(-7);
    builder.parent("p".to_string());
    builder.metadata("m".to_string());
    builder.metaprotocol("mp".to_string());
    builder.content_encoding("br".to_string());
    builder.append_content("one".to_string());
    builder.append_content("two".to_string());
    assert_eq!(
        builder.build(),
        Inscription {
            id: "Ti0".to_string(),
            content_type: Some("a/b".to_string()),
            pointer: Some(-7),
            parent: Some("p".to_string()),
            metadata: Some("m".to_string()),
            metaprotocol: Some("mp".to_string()),
            content_encoding: Some("br".to_string()),
            content: "onetwo".to_string(),
        }
    );
}

#[test]
fn new_builder_is_empty() {
    assert_eq!(
        InscriptionBuilder::new("Xi3".to_string()).build(),
        plain("Xi3", None, "")
    );
}

#[test]
fn empty_script_has_no_inscriptions() {
    assert_eq!(parse_inscriptions("T".into(), vec![]), Ok(vec![]));
}

#[test]
fn script_without_envelope_has_no_inscriptions() {
    assert_eq!(
        parse_inscriptions("T".into(), vec![0x51, 0x52, 0x53, 0x68, 0x01]),
        Ok(vec![])
    );
}

#[test]
fn envelope_is_found_only_at_an_even_offset() {
    let mut script = vec![0xac];
    script.extend(envelope(&[], &[0x01, b'x']));
    assert_eq!(parse_inscriptions("T".into(), script.clone()), Ok(vec![]));
    script.insert(0, 0xac);
    assert_eq!(
        parse_inscriptions("T".into(), script),
        Ok(vec![plain("Ti0", None, "x")])
    );
}

#[test]
fn envelope_with_another_marker_is_skipped() {
    let script = vec![0x00, 0x63, 0x03, b'a', b'b', b'c', 0x01, 0x04, 0x51, 0x68];
    assert_eq!(parse_inscriptions("T".into(), script), Ok(vec![]));
}

#[test]
fn envelope_with_another_marker_may_stay_open() {
    let script = vec![0x00, 0x63, 0x02, b'o', b'r', 0x51, 0x52];
    assert_eq!(parse_inscriptions("T".into(), script), Ok(vec![]));
}

#[test]
fn inscription_after_a_skipped_envelope_is_found() {
    let mut script = vec![0x00, 0x63, 0x03, b'x', b'y', b'z', 0x68];
    script.extend(envelope(&[], &[0x02, b'h', b'i']));
    assert_eq!(
        parse_inscriptions("T".into(), script),
        Ok(vec![plain("Ti0", None, "hi")])
    );
}

#[test]
fn unknown_field_code_is_an_error() {
    let script = vec![0x00, 0x63, 0x03, 0x6f, 0x72, 0x64, 0x01, 0x04, 0x00, 0x68];
    assert_eq!(
        parse_inscriptions("T".into(), script),
        Err(DecodeError::UnknownFieldCode)
    );
}

#[test]
fn field_prefix_at_the_end_is_malformed() {
    let script = vec![0x00, 0x63, 0x03, 0x6f, 0x72, 0x64, 0x01];
    assert_eq!(
        parse_inscriptions("T".into(), script),
        Err(DecodeError::MalformedEnvelope)
    );
}

#[test]
fn truncated_marker_is_malformed() {
    assert_eq!(
        parse_inscriptions("T".into(), vec![0x00, 0x63, 0x03, 0x6f, 0x72]),
        Err(DecodeError::MalformedEnvelope)
    );
}

#[test]
fn truncated_field_is_malformed() {
    let script = vec![0x00, 0x63, 0x03, 0x6f, 0x72, 0x64, 0x01, 0x01, 0x05, b'a'];
    assert_eq!(
        parse_inscriptions("T".into(), script),
        Err(DecodeError::MalformedEnvelope)
    );
}

#[test]
fn truncated_chunk_is_malformed() {
    let script = vec![0x00, 0x63, 0x03, 0x6f, 0x72, 0x64, 0x00, 0x04, b'a', b'b'];
    assert_eq!(
        parse_inscriptions("T".into(), script),
        Err(DecodeError::MalformedEnvelope)
    );
}

#[test]
fn truncated_push_length_is_malformed() {
    let script = vec![0x00, 0x63, 0x03, 0x6f, 0x72, 0x64, 0x00, 0x4d, 0x01];
    assert_eq!(
        parse_inscriptions("T".into(), script),
        Err(DecodeError::MalformedEnvelope)
    );
}

#[test]
fn content_type_must_be_utf8() {
    let script = envelope(&[0x01, 0x01, 0x02, 0xff, 0xfe], &[]);
    assert_eq!(
        parse_inscriptions("T".into(), script),
        Err(DecodeError::MalformedEnvelope)
    );
}

#[test]
fn input_that_ends_in_the_header_is_incomplete() {
    let script = vec![0x00, 0x63, 0x03, 0x6f, 0x72, 0x64];
    assert_eq!(
        parse_inscriptions("T".into(), script),
        Err(DecodeError::IncompleteParse)
    );
}

#[test]
fn input_that_ends_in_the_content_is_incomplete() {
    let script = vec![0x00, 0x63, 0x03, 0x6f, 0x72, 0x64, 0x00, 0x01, b'a'];
    assert_eq!(
        parse_inscriptions("T".into(), script),
        Err(DecodeError::IncompleteParse)
    );
}

#[test]
fn input_that_ends_before_the_marker_is_incomplete() {
    assert_eq!(
        parse_inscriptions("T".into(), vec![0x00, 0x63]),
        Err(DecodeError::IncompleteParse)
    );
}

#[test]
fn input_that_ends_before_a_field_value_is_incomplete() {
    let script = vec![0x00, 0x63, 0x03, 0x6f, 0x72, 0x64, 0x01, 0x02];
    assert_eq!(
        parse_inscriptions("T".into(), script),
        Err(DecodeError::IncompleteParse)
    );
}

#[test]
fn all_header_fields_are_read() {
    let header = [
        0x01, 0x01, 0x03, b'a', b'/', b'b', // content type
        0x01, 0x02, 0x02, 0x34, 0x12, // pointer
        0x01, 0x03, 0x02, b'p', b'q', // parent
        0x01, 0x05, 0x02, 0xff, 0x0a, // metadata, not UTF-8
        0x01, 0x07, 0x03, b'b', b'r', b'c', // metaprotocol
        0x01, 0x09, 0x02, b'b', b'r', // content encoding
    ];
    let script = envelope(&header, &[0x03, b'a', b'b', b'c']);
    assert_eq!(
        parse_inscriptions("TX".into(), script),
        Ok(vec![Inscription {
            id: "TXi0".to_string(),
            content_type: Some("a/b".to_string()),
            pointer: Some(0x1234),
            parent: Some("pq".to_string()),
            metadata: Some("ff0a".to_string()),
            metaprotocol: Some("brc".to_string()),
            content_encoding: Some("br".to_string()),
            content: "abc".to_string(),
        }])
    );
}

#[test]
fn pointer_of_eight_high_bytes_is_negative() {
    let mut header = vec![0x01, 0x02, 0x08];
    header.extend([0xff; 8]);
    let script = envelope(&header, &[]);
    let found = parse_inscriptions("T".into(), script).unwrap();
    assert_eq!(found.len(), 1);
    assert_eq!(found[0].pointer, Some(-1));
}

#[test]
fn empty_pointer_is_zero() {
    let script = envelope(&[0x01, 0x02, 0x00], &[]);
    let found = parse_inscriptions("T".into(), script).unwrap();
    assert_eq!(found[0].pointer, Some(0));
}

#[test]
fn unknown_header_byte_is_passed_over() {
    let script = envelope(&[0x51, 0x01, 0x01, 0x01, b'x'], &[]);
    assert_eq!(
        parse_inscriptions("T".into(), script),
        Ok(vec![plain("Ti0", Some("x"), "")])
    );
}

#[test]
fn chunks_are_joined_in_order() {
    let script = envelope(&[], &[0x02, b'a', b'b', 0x00, 0x01, b'c']);
    assert_eq!(
        parse_inscriptions("T".into(), script),
        Ok(vec![plain("Ti0", None, "abc")])
    );
}

#[test]
fn chunk_that_is_not_utf8_is_shown_in_lowercase_hex() {
    let script = envelope(&[], &[0x03, 0xff, 0x00, 0xAB]);
    assert_eq!(
        parse_inscriptions("T".into(), script),
        Ok(vec![plain("Ti0", None, "ff00ab")])
    );
}

#[test]
fn each_chunk_is_shown_on_its_own() {
    let script = envelope(&[], &[0x01, b'a', 0x01, 0xc3, 0x01, 0xa9]);
    assert_eq!(
        parse_inscriptions("T".into(), script),
        Ok(vec![plain("Ti0", None, "ac3a9")])
    );
}

#[test]
fn multibyte_utf8_chunk_is_text() {
    let script = envelope(&[], &[0x02, 0xc3, 0xa9]);
    assert_eq!(
        parse_inscriptions("T".into(), script),
        Ok(vec![plain("Ti0", None, "\u{e9}")])
    );
}

#[test]
fn largest_direct_push() {
    let mut pushes = vec![0x4b];
    pushes.extend([b'z'; 0x4b]);
    let script = envelope(&[], &pushes);
    assert_eq!(
        parse_inscriptions("T".into(), script),
        Ok(vec![plain("Ti0", None, &"z".repeat(0x4b))])
    );
}

#[test]
fn pushdata1_reads_a_one_byte_length() {
    let mut pushes = vec![0x4c, 0x50];
    pushes.extend([b'q'; 0x50]);
    let script = envelope(&[], &pushes);
    assert_eq!(
        parse_inscriptions("T".into(), script),
        Ok(vec![plain("Ti0", None, &"q".repeat(0x50))])
    );
}

#[test]
fn pushdata2_reads_a_two_byte_length() {
    let mut pushes = vec![0x4d, 0x04, 0x01];
    pushes.extend([b'w'; 0x104]);
    let script = envelope(&[], &pushes);
    assert_eq!(
        parse_inscriptions("T".into(), script),
        Ok(vec![plain("Ti0", None, &"w".repeat(0x104))])
    );
}

#[test]
fn pushdata4_reads_three_length_bytes_unless_told_otherwise() {
    assert_eq!(PUSHDATA4_LENGTH_BYTES, 3);
    let script = envelope(&[], &[0x4e, 0x02, 0x00, 0x00, b'o', b'k']);
    assert_eq!(
        parse_inscriptions("T".into(), script.clone()),
        Ok(vec![plain("Ti0", None, "ok")])
    );
    assert_eq!(
        parse_inscriptions_with_width("T".into(), script, 3),
        Ok(vec![plain("Ti0", None, "ok")])
    );
}

#[test]
fn pushdata4_with_the_four_byte_length_of_the_script_rules() {
    let script = envelope(&[], &[0x4e, 0x02, 0x00, 0x00, 0x00, b'o', b'k']);
    assert_eq!(
        parse_inscriptions_with_width("T".into(), script.clone(), 4),
        Ok(vec![plain("Ti0", None, "ok")])
    );
    // With three length bytes the fourth belongs to the chunk.
    assert_eq!(
        parse_inscriptions("T".into(), script),
        Ok(vec![plain("Ti0", None, "\u{0}o")])
    );
    let other = envelope(&[], &[0x4e, 0x01, 0x00, 0x00, 0x00, b'o', 0x68]);
    assert_eq!(
        parse_inscriptions_with_width("T".into(), other.clone(), 4),
        Ok(vec![plain("Ti0", None, "o")])
    );
    assert_eq!(
        parse_inscriptions("T".into(), other),
        Ok(vec![plain("Ti0", None, "\u{0}")])
    );
}

#[test]
fn pushdata4_width_beyond_the_input_is_malformed() {
    let script = envelope(&[], &[0x4e, 0x01, 0x00]);
    assert_eq!(
        parse_inscriptions_with_width("T".into(), script.clone(), 9),
        Err(DecodeError::MalformedEnvelope)
    );
    assert_eq!(
        parse_inscriptions_with_width("T".into(), script, usize::MAX),
        Err(DecodeError::MalformedEnvelope)
    );
}

#[test]
fn pushdata4_width_zero_pushes_nothing() {
    let script = envelope(&[], &[0x4e, 0x01, b'a']);
    assert_eq!(
        parse_inscriptions_with_width("T".into(), script, 0),
        Ok(vec![plain("Ti0", None, "a")])
    );
}

#[test]
fn byte_that_is_no_push_is_passed_over_in_the_content() {
    let script = envelope(&[], &[0x51, 0xff, 0x01, b'a', 0x4f]);
    assert_eq!(
        parse_inscriptions("T".into(), script),
        Ok(vec![plain("Ti0", None, "a")])
    );
}

#[test]
fn envelopes_are_numbered_in_order() {
    let mut script = envelope(&[], &[0x01, b'a']);
    if script.len() % 2 == 1 {
        script.push(0x51);
    }
    script.extend(envelope(&[0x01, 0x01, 0x01, b't'], &[0x01, b'b']));
    assert_eq!(
        parse_inscriptions("ABC".into(), script),
        Ok(vec![plain("ABCi0", None, "a"), plain("ABCi1", Some("t"), "b")])
    );
}

#[test]
fn index_is_written_in_decimal() {
    let mut script = Vec::new();
    for _ in 0..12 {
        let one = envelope(&[], &[0x01, b'a']);
        assert_eq!(one.len() % 2, 0);
        script.extend(one);
    }
    let found = parse_inscriptions("tx".into(), script).unwrap();
    assert_eq!(found.len(), 12);
    assert_eq!(found[0].id, "txi0");
    assert_eq!(found[9].id, "txi9");
    assert_eq!(found[10].id, "txi10");
    assert_eq!(found[11].id, "txi11");
}

#[test]
fn header_does_not_leak_into_the_next_inscription() {
    let mut script = envelope(&[0x01, 0x01, 0x01, b't'], &[0x01, b'a']);
    assert_eq!(script.len() % 2, 0);
    script.extend(envelope(&[], &[0x01, b'b']));
    assert_eq!(
        parse_inscriptions("T".into(), script),
        Ok(vec![plain("Ti0", Some("t"), "a"), plain("Ti1", None, "b")])
    );
}

#[test]
fn decoding_twice_gives_the_same() {
    let header = [0x01, 0x01, 0x03, b'a', b'/', b'b', 0x01, 0x05, 0x01, 0xff];
    let script = envelope(&header, &[0x03, b'a', 0xff, b'c']);
    let first = parse_inscriptions("T".into(), script.clone());
    let second = parse_inscriptions("T".into(), script.clone());
    assert_eq!(first, second);
    assert!(first.is_ok());
    let broken = vec![0x00, 0x63, 0x03, 0x6f, 0x72, 0x64, 0x01, 0x04];
    assert_eq!(
        parse_inscriptions("T".into(), broken.clone()),
        parse_inscriptions("T".into(), broken)
    );
}

#[test]
fn next_state_steps_through_an_envelope() {
    let script = envelope(&[0x01, 0x02, 0x01, 0x07], &[0x01, b'a']);
    let mut builder = InscriptionBuilder::new("Ti0".to_string());
    let mut state = State::Scanning;
    let mut pos = 0;
    let mut seen = vec![];
    while pos < script.len() {
        let (next, at, event) = state.next_state(&script, pos, 3).unwrap();
        seen.push((next, at, event.clone()));
        builder.apply(event);
        state = next;
        pos = at;
    }
    assert_eq!(
        seen,
        vec![
            (State::Envelope, 2, Event::Nothing),
            (State::Inscription, 6, Event::Nothing),
            (State::Field(Field::Pointer), 8, Event::Nothing),
            (State::Inscription, 10, Event::Pointer(7)),
            (State::Content, 11, Event::Nothing),
            (State::Content, 13, Event::Content("a".to_string())),
            (State::Scanning, 14, Event::Finished),
        ]
    );
    let built = builder.build();
    assert_eq!(built.pointer, Some(7));
    assert_eq!(built.content, "a");
}

#[test]
fn single_byte_left_while_scanning_is_read() {
    assert_eq!(
        State::Scanning.next_state(&vec![0x00], 0, 3),
        Ok((State::Scanning, 1, Event::Nothing))
    );
}

#[test]
fn step_does_not_depend_on_what_was_found() {
    let script = vec![0x03, 0xe2, 0x82, 0xac, 0x02, 0xff, 0xff];
    assert_eq!(
        State::Content.next_state(&script, 0, 3),
        Ok((State::Content, 4, Event::Content("\u{20ac}".to_string())))
    );
    assert_eq!(
        State::Field(Field::Metadata).next_state(&script, 4, 3),
        Ok((State::Inscription, 7, Event::Metadata("ffff".to_string())))
    );
    assert_eq!(
        State::Field(Field::ContentType).next_state(&script, 4, 3),
        Err(DecodeError::MalformedEnvelope)
    );
    assert_eq!(
        State::Field(Field::Pointer).next_state(&script, 4, 3),
        Ok((State::Inscription, 7, Event::Pointer(65535)))
    );
    assert_eq!(
        State::Envelope.next_state(&script, 0, 3),
        Ok((State::NotInscription, 4, Event::Nothing))
    );
    assert_eq!(
        State::NotInscription.next_state(&script, 0, 3),
        Ok((State::NotInscription, 1, Event::Nothing))
    );
}

#[test]
fn events_change_the_field_they_name() {
    let mut builder = InscriptionBuilder::new("Ti0".to_string());
    builder.apply(Event::Nothing);
    builder.apply(Event::Finished);
    assert_eq!(builder.build(), plain("Ti0", None, ""));
    let mut builder = InscriptionBuilder::new("Ti0".to_string());
    builder.apply(Event::ContentType("c".to_string()));
    builder.apply(Event::Pointer(1));
    builder.apply(Event::Parent("p".to_string()));
    builder.apply(Event::Metadata("m".to_string()));
    builder.apply(Event::MetaProtocol("mp".to_string()));
    builder.apply(Event::ContentEncoding("ce".to_string()));
    builder.apply(Event::Content("a".to_string()));
    builder.apply(Event::Content("b".to_string()));
    assert_eq!(
        builder.build(),
        Inscription {
            id: "Ti0".to_string(),
            content_type: Some("c".to_string()),
            pointer: Some(1),
            parent: Some("p".to_string()),
            metadata: Some("m".to_string()),
            metaprotocol: Some("mp".to_string()),
            content_encoding: Some("ce".to_string()),
            content: "ab".to_string(),
        }
    );
}
