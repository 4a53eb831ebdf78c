use fasder::asn1_type::{
    check_consistency, is_sorted_after, AnyDecoder, BitStringDecoder, BooleanDecoder, Decoder,
    IntegerDecoder, NullDecoder, ObjectIdentifierDecoder, SequenceDecoder,
};
use fasder::decoder::{decode_asn1_spec_value, read_tlv, DecodeStep, Header};
use fasder::error::{decimal, DecodeError, ErrorKind};
use fasder::schema::{
    find_entry, tag_map_near_position, Asn1Type, NamedType, SchemaNode, DECODER_TYPE_ANY,
    DECODER_TYPE_BOOLEAN, DECODER_TYPE_CHOICE, DECODER_TYPE_INTEGER, DECODER_TYPE_OCTETSTRING,
    DECODER_TYPE_SEQUENCE, DECODER_TYPE_SEQUENCEOF,
};
use fasder::tag::{
    Asn1Tag, Tag, TagSet, CLASS_MASK, CLASS_UNIVERSAL, FORMAT_CONSTRUCTED, FORMAT_MASK,
    FORMAT_SIMPLE, TAG_ID_MASK,
};
use fasder::value::{arcs_equal, octets_equal, values_equal, IntegerValue, Value};
use fasder::{
    decode_der, decode_der_rec, decode_explicit, get_chosen_spec, NativeHelperModule,
    NESTED_EXPLICIT_TAG_LIMIT,
};

fn simple(name: &str, type_id: u8, number: u32) -> Asn1Type {
    Asn1Type::new(name, type_id, TagSet::new(vec![Tag::new(0x00, 0x00, number)]))
}

fn small(value: u8) -> Value {
    Value::Integer(IntegerValue { negative: false, magnitude: vec![value] })
}

#[test]
fn identifier_octet_parts() {
    let tag = Asn1Tag::new(0xA3);
    assert_eq!(tag.tag_id(), 3);
    assert_eq!(tag.class(), 0x80);
    assert_eq!(tag.format(), FORMAT_CONSTRUCTED);
    let tag = Asn1Tag::new(0x02);
    assert_eq!(tag.tag_id(), 2);
    assert_eq!(tag.class(), CLASS_UNIVERSAL);
    assert_eq!(tag.format(), FORMAT_SIMPLE);
    let tag = Asn1Tag::new(0xFF);
    assert_eq!(tag.tag_id(), 31);
    assert_eq!(tag.class(), 0xC0);
    assert_eq!(tag.format(), 0x20);
}

#[test]
fn identifier_octet_parts_make_up_the_octet() {
    for raw in 0u8..=0xFF {
        let tag = Asn1Tag::new(raw);
        assert_eq!(tag.class() + tag.format() + tag.tag_id(), raw);
        assert_eq!(tag.class(), raw & CLASS_MASK);
        assert_eq!(tag.format(), raw & FORMAT_MASK);
        assert_eq!(tag.tag_id(), raw & TAG_ID_MASK);
        assert_eq!(u8::from(tag), raw);
        assert_eq!(u8::from(Asn1Tag::from(raw)), raw);
    }
}

#[test]
fn module_makes_tags_and_chains() {
    let module = NativeHelperModule::new();
    let tag = module.create_pyasn1_tag(Asn1Tag::new(0x61));
    assert_eq!(tag, Tag::new(0x40, 0x20, 1));
    let chain = module.create_pyasn1_tagset(&tag);
    assert_eq!(chain.len(), 1);
    assert_eq!(chain.get(0), tag);
}

#[test]
fn chains_match_by_class_and_number() {
    let sent = TagSet::new(vec![Tag::new(0x80, 0x20, 0)]);
    let declared = TagSet::new(vec![Tag::new(0x80, 0x00, 0)]);
    assert!(sent.matches(&declared));
    assert!(Tag::new(0x80, 0x20, 0).names_same_type(&Tag::new(0x80, 0x00, 0)));
    assert!(!sent.matches(&TagSet::new(vec![Tag::new(0x80, 0x20, 1)])));
    assert!(!sent.matches(&TagSet::new(vec![Tag::new(0x40, 0x20, 0)])));
    assert!(!sent.matches(&TagSet::new(vec![])));
    assert!(!sent.matches(&sent.prepend(Tag::new(0x00, 0x00, 2))));
    assert!(TagSet::new(vec![]).matches(&TagSet::new(vec![])));
}

#[test]
fn prepend_puts_the_tag_in_front() {
    let outer = TagSet::new(vec![Tag::new(0x80, 0x20, 1), Tag::new(0x80, 0x20, 0)]);
    let chain = outer.prepend(Tag::new(0x00, 0x00, 2));
    assert_eq!(chain.len(), 3);
    assert_eq!(chain.get(0), Tag::new(0x00, 0x00, 2));
    assert_eq!(chain.get(1), Tag::new(0x80, 0x20, 1));
    assert_eq!(chain.get(2), Tag::new(0x80, 0x20, 0));
    let copy = chain.duplicate();
    assert_eq!(copy.len(), 3);
    assert!(copy.matches(&chain));
    assert_eq!(outer.len(), 2);
}

#[test]
fn read_tlv_hands_out_the_first_tlv() {
    let buffer = [0x04, 0x02, 0xAA, 0xBB, 0x05, 0x00];
    let (header, tlv) = read_tlv(&buffer, 7).unwrap();
    assert_eq!(header, Header { length: 2, encoded_len: 2 });
    assert_eq!(tlv, &[0x04, 0x02, 0xAA, 0xBB]);
    let mut long = vec![0x04, 0x81, 0x80];
    long.extend(std::iter::repeat(0).take(0x80));
    let (header, tlv) = read_tlv(&long, 0).unwrap();
    assert_eq!(header, Header { length: 0x80, encoded_len: 3 });
    assert_eq!(tlv.len(), 0x83);
}

#[test]
fn read_tlv_failures_carry_the_offset() {
    let error = read_tlv(&[0x04, 0x02, 0xAA], 9).unwrap_err();
    assert_eq!(error.kind, ErrorKind::TlvRead);
    assert_eq!(error.offset, 9);
    assert_eq!(error.schema_name, "");
    assert_eq!(error.description, "ASN.1 DER message is incomplete: expected 4, actual 3 at DER byte 0");
    let error = read_tlv(&[0x04, 0x80], 3).unwrap_err();
    assert_eq!(error.kind, ErrorKind::HeaderRead);
    assert_eq!(error.offset, 3);
    assert_eq!(error.description, "indefinite length disallowed");
    let error = read_tlv(&[0x04, 0x81, 0x7F], 0).unwrap_err();
    assert_eq!(error.kind, ErrorKind::HeaderRead);
    let error = read_tlv(&[0x21, 0x00], 0).unwrap_err();
    assert_eq!(error.kind, ErrorKind::HeaderRead);
    assert_eq!(error.description, "unknown/unsupported ASN.1 DER tag: 0x21");
}

fn step_over<'a>(
    substrate: &'a [u8],
    node: SchemaNode<'a>,
    tags: &'a TagSet,
    offset: usize,
) -> DecodeStep<'a> {
    let (header, _) = read_tlv(substrate, offset).unwrap();
    DecodeStep::new(NativeHelperModule::new(), substrate, header, node, tags, offset)
}

#[test]
fn step_hands_out_its_parts() {
    let ty = simple("OctetString", DECODER_TYPE_OCTETSTRING, 4);
    let tags = TagSet::new(vec![Tag::new(0x00, 0x00, 4)]);
    let buffer = [0x04, 0x02, 0xAA, 0xBB];
    let step = step_over(&buffer, SchemaNode::Type(&ty), &tags, 5);
    assert_eq!(step.substrate(), &buffer);
    assert_eq!(step.header(), Header { length: 2, encoded_len: 2 });
    assert_eq!(step.header_len(), 2);
    assert_eq!(step.value_substrate_len(), 2);
    assert_eq!(step.value_substrate(), &[0xAA, 0xBB]);
    assert_eq!(step.offset(), 5);
    assert_eq!(step.tag().tag_id(), 4);
    assert_eq!(step.tag_set().len(), 1);
    assert!(matches!(step.asn1_spec(), SchemaNode::Type(_)));
    let _ = step.module();
    let error = step.create_error(ErrorKind::InvalidFormat, "Invalid OCTET STRING value format");
    assert_eq!(
        error,
        DecodeError {
            kind: ErrorKind::InvalidFormat,
            offset: 5,
            schema_name: "OctetString".to_string(),
            description: "Invalid OCTET STRING value format".to_string(),
        }
    );
    assert_eq!(SchemaNode::Type(&ty).node_name(), "OctetString");
}

#[test]
fn failure_against_a_map_names_the_map() {
    let entries = vec![NamedType::optional(simple("Integer", DECODER_TYPE_INTEGER, 2))];
    let node = tag_map_near_position(&entries, 0);
    assert_eq!(node.node_name(), "TagMap");
    let error = decode_der_rec(
        NativeHelperModule::new(),
        &[0x01, 0x01, 0x00],
        Some(node),
        None,
        4,
    )
    .unwrap_err();
    assert_eq!(error.kind, ErrorKind::SpecMismatch);
    assert_eq!(error.schema_name, "TagMap");
    assert_eq!(error.offset, 4);
}

#[test]
fn decoders_run_phase_by_phase() {
    let ty = simple("Boolean", DECODER_TYPE_BOOLEAN, 1);
    let tags = TagSet::new(vec![Tag::new(0x00, 0x00, 1)]);
    let buffer = [0x01, 0x01, 0xFF];
    let decoder = BooleanDecoder::new(step_over(&buffer, SchemaNode::Type(&ty), &tags, 0));
    assert_eq!(decoder.verify_raw(), Ok(()));
    let value = decoder.decode().unwrap();
    assert_eq!(value, Value::Boolean(true));
    assert_eq!(decoder.verify_decoded(&value), Ok(()));

    let ty = simple("Integer", DECODER_TYPE_INTEGER, 2);
    let tags = TagSet::new(vec![Tag::new(0x00, 0x00, 2)]);
    let buffer = [0x02, 0x02, 0x01, 0x00];
    let step = step_over(&buffer, SchemaNode::Type(&ty), &tags, 0);
    let decoder = IntegerDecoder::new(step, "INTEGER");
    assert_eq!(decoder.verify_raw(), Ok(()));
    assert_eq!(
        decoder.decode(),
        Ok(Value::Integer(IntegerValue { negative: false, magnitude: vec![1, 0] }))
    );
    assert_eq!(decode_asn1_spec_value(step), decoder.decode());

    let buffer = [0x05, 0x01, 0x00];
    let tags = TagSet::new(vec![Tag::new(0x00, 0x00, 5)]);
    let decoder = NullDecoder::new(step_over(&buffer, SchemaNode::Type(&ty), &tags, 0));
    assert_eq!(decoder.verify_raw().unwrap_err().kind, ErrorKind::InvalidLength(1));
}

#[test]
fn named_bit_check_looks_at_the_last_used_bit() {
    let ty = simple("BitString", 3, 3).with_named_bits();
    let tags = TagSet::new(vec![Tag::new(0x00, 0x00, 3)]);
    let buffer = [0x03, 0x02, 0x03, 0x08];
    let decoder = BitStringDecoder::new(step_over(&buffer, SchemaNode::Type(&ty), &tags, 0));
    assert_eq!(decoder.check_named_bit_string(3, 0x08), Ok(()));
    assert_eq!(
        decoder.check_named_bit_string(3, 0x10).unwrap_err().kind,
        ErrorKind::TrailingZeroBit
    );
    assert_eq!(decoder.check_named_bit_string(0, 0x01), Ok(()));
    assert_eq!(decoder.check_named_bit_string(7, 0x80), Ok(()));
    assert!(decoder.check_named_bit_string(7, 0x7F).is_err());
    assert_eq!(decoder.verify_raw(), Ok(()));
}

#[test]
fn object_identifier_finish_takes_either_outcome() {
    let ty = simple("ObjectIdentifier", 6, 6);
    let tags = TagSet::new(vec![Tag::new(0x00, 0x00, 6)]);
    let buffer = [0x06, 0x03, 0x2A, 0x03, 0x04];
    let decoder =
        ObjectIdentifierDecoder::new(step_over(&buffer, SchemaNode::Type(&ty), &tags, 2));
    assert_eq!(decoder.finish(Ok(vec![1, 2, 3])), Ok(Value::ObjectIdentifier(vec![1, 2, 3])));
    let error = decoder.finish(Err("bad arc".to_string())).unwrap_err();
    assert_eq!(error.kind, ErrorKind::MalformedOid);
    assert_eq!(error.description, "bad arc");
    assert_eq!(error.offset, 2);
    assert_eq!(decoder.decode(), Ok(Value::ObjectIdentifier(vec![1, 2, 3, 4])));
}

#[test]
fn any_against_a_map_is_tagged_where_the_map_has_its_tags() {
    let entries = vec![NamedType::required(simple("Integer", DECODER_TYPE_INTEGER, 2))];
    let node = SchemaNode::TagMap { entries: &entries, start: 0, end: 1 };
    let buffer = [0x02, 0x01, 0x05];
    let tags = TagSet::new(vec![Tag::new(0x00, 0x00, 2)]);
    let decoder = AnyDecoder::new(step_over(&buffer, node, &tags, 0));
    assert_eq!(decoder.decode(), Ok(Value::Any(vec![0x05])));
    let other = TagSet::new(vec![Tag::new(0x00, 0x00, 4)]);
    let decoder = AnyDecoder::new(step_over(&buffer, node, &other, 0));
    assert_eq!(decoder.decode(), Ok(Value::Any(vec![0x02, 0x01, 0x05])));
}

#[test]
fn sequence_decoder_helpers() {
    let components = vec![
        NamedType::required(simple("Integer", DECODER_TYPE_INTEGER, 2)),
        NamedType::defaulted(simple("Boolean", DECODER_TYPE_BOOLEAN, 1), Value::Boolean(false)),
        NamedType::optional(simple("OctetString", DECODER_TYPE_OCTETSTRING, 4)),
        NamedType::required(simple("Integer", DECODER_TYPE_INTEGER, 2)),
        NamedType::optional(simple("Boolean", DECODER_TYPE_BOOLEAN, 1)),
    ];
    let ty = Asn1Type::new(
        "Sequence",
        DECODER_TYPE_SEQUENCE,
        TagSet::new(vec![Tag::new(0x00, 0x20, 16)]),
    );
    let tags = TagSet::new(vec![Tag::new(0x00, 0x20, 16)]);
    let buffer = [0x30, 0x00];
    let decoder = SequenceDecoder::new(step_over(&buffer, SchemaNode::Type(&ty), &tags, 0));
    assert!(decoder.get_named_type_at_index(&components, 4).is_ok());
    assert_eq!(
        decoder.get_named_type_at_index(&components, 5).unwrap_err().kind,
        ErrorKind::ExcessiveComponents
    );
    assert!(matches!(
        decoder.get_component_type_for_index(&components, &components[0], false, 0),
        SchemaNode::Type(_)
    ));
    assert!(matches!(
        decoder.get_component_type_for_index(&components, &components[1], true, 1),
        SchemaNode::TagMap { start: 1, end: 4, .. }
    ));
    assert!(matches!(
        decoder.get_component_type_for_index(&components, &components[4], true, 4),
        SchemaNode::TagMap { start: 4, end: 5, .. }
    ));
    assert!(decoder
        .check_decoded_for_default_value(&components[1], &Value::Boolean(false))
        .is_some());
    assert!(decoder
        .check_decoded_for_default_value(&components[1], &Value::Boolean(true))
        .is_none());
    assert!(decoder
        .check_decoded_for_default_value(&components[0], &Value::Boolean(false))
        .is_none());
    assert!(!components[0].optional_or_defaulted());
    assert!(components[1].optional_or_defaulted());
    assert!(components[2].optional_or_defaulted());
}

#[test]
fn window_near_a_position_ends_behind_the_first_required() {
    let components = vec![
        NamedType::optional(simple("A", DECODER_TYPE_INTEGER, 2)),
        NamedType::optional(simple("B", DECODER_TYPE_BOOLEAN, 1)),
        NamedType::required(simple("C", DECODER_TYPE_OCTETSTRING, 4)),
        NamedType::optional(simple("D", DECODER_TYPE_INTEGER, 2)),
    ];
    assert!(matches!(
        tag_map_near_position(&components, 0),
        SchemaNode::TagMap { start: 0, end: 3, .. }
    ));
    assert!(matches!(
        tag_map_near_position(&components, 2),
        SchemaNode::TagMap { start: 2, end: 3, .. }
    ));
    assert!(matches!(
        tag_map_near_position(&components, 3),
        SchemaNode::TagMap { start: 3, end: 4, .. }
    ));
}

#[test]
fn lookup_prefers_listed_tags_to_a_catch_all() {
    let entries = vec![
        NamedType::optional(Asn1Type::new("Any", DECODER_TYPE_ANY, TagSet::new(vec![]))),
        NamedType::optional(simple("Integer", DECODER_TYPE_INTEGER, 2)),
        NamedType::optional(simple("Other", DECODER_TYPE_INTEGER, 2)),
    ];
    let integer = TagSet::new(vec![Tag::new(0x00, 0x00, 2)]);
    let boolean = TagSet::new(vec![Tag::new(0x00, 0x00, 1)]);
    assert_eq!(find_entry(&entries, &integer, 0, 3), Some(1));
    assert_eq!(find_entry(&entries, &boolean, 0, 3), Some(0));
    assert_eq!(find_entry(&entries, &boolean, 1, 3), None);
    assert_eq!(find_entry(&entries, &integer, 2, 3), Some(2));
    assert_eq!(find_entry(&entries, &integer, 2, 2), None);
}

#[test]
fn types_list_their_tags() {
    let integer = simple("Integer", DECODER_TYPE_INTEGER, 2);
    let tags = TagSet::new(vec![Tag::new(0x00, 0x00, 2)]);
    let other = TagSet::new(vec![Tag::new(0x00, 0x00, 1)]);
    assert!(integer.holds_key(&tags));
    assert!(!integer.holds_key(&other));
    assert!(!integer.holds_default());
    assert!(integer.takes(&tags));
    assert!(!integer.takes(&other));
    let any = Asn1Type::new("Any", DECODER_TYPE_ANY, TagSet::new(vec![]));
    assert!(!any.holds_key(&tags));
    assert!(any.holds_default());
    assert!(any.takes(&tags));
    let choice = Asn1Type::new("Choice", DECODER_TYPE_CHOICE, TagSet::new(vec![]))
        .with_components(vec![NamedType::required(integer)]);
    assert!(choice.holds_key(&tags));
    assert!(!choice.holds_key(&other));
    assert!(!choice.holds_default());
    let wide = Asn1Type::new("Choice", DECODER_TYPE_CHOICE, TagSet::new(vec![]))
        .with_components(vec![NamedType::required(any)]);
    assert!(wide.holds_default());
    assert!(wide.takes(&other));
}

#[test]
fn chosen_spec_of_a_type_and_of_a_map() {
    let module = NativeHelperModule::new();
    let integer = simple("Integer", DECODER_TYPE_INTEGER, 2);
    let tags = TagSet::new(vec![Tag::new(0x00, 0x00, 2)]);
    let other = TagSet::new(vec![Tag::new(0x00, 0x00, 1)]);
    let (position, chosen) = get_chosen_spec(&module, &SchemaNode::Type(&integer), &tags).unwrap();
    assert_eq!(position, 0);
    assert_eq!(chosen.name, "Integer");
    assert!(get_chosen_spec(&module, &SchemaNode::Type(&integer), &other).is_none());
    let entries = vec![
        NamedType::optional(simple("Boolean", DECODER_TYPE_BOOLEAN, 1)),
        NamedType::optional(simple("Integer", DECODER_TYPE_INTEGER, 2)),
    ];
    let node = SchemaNode::TagMap { entries: &entries, start: 0, end: 2 };
    let (position, chosen) = get_chosen_spec(&module, &node, &tags).unwrap();
    assert_eq!(position, 1);
    assert_eq!(chosen.name, "Integer");
    let octets = TagSet::new(vec![Tag::new(0x00, 0x00, 4)]);
    assert!(get_chosen_spec(&module, &node, &octets).is_none());
}

#[test]
fn explicit_layer_is_peeled_once() {
    let tagged = Asn1Type::new(
        "Version",
        DECODER_TYPE_INTEGER,
        TagSet::new(vec![Tag::new(0x00, 0x00, 2), Tag::new(0x80, 0x20, 0)]),
    );
    let buffer = [0xA0, 0x03, 0x02, 0x01, 0x02];
    let tags = TagSet::new(vec![Tag::new(0x80, 0x20, 0)]);
    let step = step_over(&buffer, SchemaNode::Type(&tagged), &tags, 10);
    assert_eq!(decode_explicit(step), Ok((small(2), 0)));
    let bad = [0xA0, 0x03, 0x02, 0x01];
    let error = decode_der(&bad, &tagged).unwrap_err();
    assert_eq!(error.kind, ErrorKind::TlvRead);
    let inner_bad = [0xA0, 0x03, 0x02, 0x02, 0x02];
    let error = decode_der(&inner_bad, &tagged).unwrap_err();
    assert_eq!(error.kind, ErrorKind::TlvRead);
    assert_eq!(error.offset, 2);
    assert_eq!(NESTED_EXPLICIT_TAG_LIMIT, 4);
}

#[test]
fn consistency_counts_components() {
    let ty = Asn1Type::new(
        "SequenceOf",
        DECODER_TYPE_SEQUENCEOF,
        TagSet::new(vec![Tag::new(0x00, 0x20, 16)]),
    )
    .with_size(1, 2);
    let tags = TagSet::new(vec![Tag::new(0x00, 0x20, 16)]);
    let buffer = [0x30, 0x00];
    let step = step_over(&buffer, SchemaNode::Type(&ty), &tags, 0);
    assert!(check_consistency(&step, &Value::SequenceOf(vec![])).is_err());
    assert!(check_consistency(&step, &Value::SequenceOf(vec![small(1)])).is_ok());
    assert!(check_consistency(&step, &Value::SetOf(vec![small(1), small(2)])).is_ok());
    assert!(check_consistency(&step, &Value::SetOf(vec![small(1), small(2), small(3)])).is_err());
    assert!(check_consistency(&step, &Value::Sequence(vec![None, Some(small(1)), None])).is_ok());
    assert!(check_consistency(&step, &Value::Sequence(vec![None, None])).is_err());
    assert!(check_consistency(&step, &Value::Null).is_err());
    let free = simple("Integer", DECODER_TYPE_INTEGER, 2);
    let step = step_over(&buffer, SchemaNode::Type(&free), &tags, 0);
    assert!(check_consistency(&step, &Value::SequenceOf(vec![])).is_ok());
}

#[test]
fn sorting_is_octet_by_octet() {
    assert!(is_sorted_after(&[2], &[1]));
    assert!(!is_sorted_after(&[1], &[2]));
    assert!(!is_sorted_after(&[1], &[1]));
    assert!(is_sorted_after(&[1, 0], &[1]));
    assert!(!is_sorted_after(&[1], &[1, 0]));
    assert!(is_sorted_after(&[2], &[1, 9, 9]));
    assert!(!is_sorted_after(&[], &[]));
    assert!(is_sorted_after(&[0], &[]));
    assert!(!is_sorted_after(&[1, 2, 3], &[1, 2, 4]));
    assert!(is_sorted_after(&[1, 2, 4], &[1, 2, 3]));
    assert_eq!(is_sorted_after(&[0x80], &[0x7F]), [0x80u8].as_slice() > [0x7Fu8].as_slice());
}

#[test]
fn values_are_equal_part_by_part() {
    assert!(values_equal(&small(5), &small(5)));
    assert!(!values_equal(&small(5), &small(6)));
    assert!(!values_equal(&small(5), &Value::Boolean(true)));
    assert!(!values_equal(
        &small(5),
        &Value::Integer(IntegerValue { negative: true, magnitude: vec![5] })
    ));
    assert!(values_equal(&Value::Null, &Value::Null));
    assert!(!values_equal(&Value::OctetString(vec![1]), &Value::CharacterString(vec![1])));
    assert!(!values_equal(&Value::OctetString(vec![1]), &Value::Any(vec![1])));
    assert!(values_equal(
        &Value::BitString { padding: 1, octets: vec![2] },
        &Value::BitString { padding: 1, octets: vec![2] }
    ));
    assert!(!values_equal(
        &Value::BitString { padding: 1, octets: vec![2] },
        &Value::BitString { padding: 0, octets: vec![2] }
    ));
    assert!(values_equal(
        &Value::Sequence(vec![Some(small(1)), None]),
        &Value::Sequence(vec![Some(small(1)), None])
    ));
    assert!(!values_equal(
        &Value::Sequence(vec![Some(small(1)), None]),
        &Value::Sequence(vec![None, Some(small(1))])
    ));
    assert!(!values_equal(
        &Value::Sequence(vec![Some(small(1))]),
        &Value::Sequence(vec![Some(small(1)), None])
    ));
    assert!(!values_equal(&Value::SequenceOf(vec![small(1)]), &Value::SetOf(vec![small(1)])));
    assert!(values_equal(
        &Value::SetOf(vec![small(1), small(2)]),
        &Value::SetOf(vec![small(1), small(2)])
    ));
    assert!(!values_equal(
        &Value::SetOf(vec![small(1), small(2)]),
        &Value::SetOf(vec![small(2), small(1)])
    ));
    assert!(values_equal(
        &Value::Choice { position: 1, value: Box::new(small(1)) },
        &Value::Choice { position: 1, value: Box::new(small(1)) }
    ));
    assert!(!values_equal(
        &Value::Choice { position: 1, value: Box::new(small(1)) },
        &Value::Choice { position: 0, value: Box::new(small(1)) }
    ));
    assert!(values_equal(
        &Value::ObjectIdentifier(vec![1, 2, 3]),
        &Value::ObjectIdentifier(vec![1, 2, 3])
    ));
    assert!(octets_equal(&[1, 2], &[1, 2]));
    assert!(!octets_equal(&[1, 2], &[1]));
    assert!(arcs_equal(&[1, 2], &[1, 2]));
    assert!(!arcs_equal(&[1, 2], &[1, 3]));
}

#[test]
fn numbers_in_decimal_writing() {
    assert_eq!(decimal(0), "0");
    assert_eq!(decimal(9), "9");
    assert_eq!(decimal(10), "10");
    assert_eq!(decimal(1234567890), "1234567890");
    assert_eq!(decimal(usize::MAX), usize::MAX.to_string());
}

#[test]
fn failures_say_what_went_wrong() {
    let boolean = simple("Boolean", DECODER_TYPE_BOOLEAN, 1);
    let error = decode_der(&[0x01, 0x01, 0x01], &boolean).unwrap_err();
    assert_eq!(error.description, "Non-canonical BOOLEAN encoding");
    assert_eq!(
        error.message(),
        "Error decoding \"Boolean\" TLV near substrate offset 0: Non-canonical BOOLEAN encoding"
    );
    let error = decode_der(&[0x01, 0x01, 0x00, 0x00, 0x00], &boolean).unwrap_err();
    assert_eq!(error.message(), "2 trailing octet(s) after TLV near substrate offset 0");
    let error = decode_der(&[0x01, 0x80], &boolean).unwrap_err();
    assert_eq!(
        error.message(),
        "Error reading TLV header near substrate offset 0: indefinite length disallowed"
    );
    let error = decode_der(&[0x01, 0x02, 0x00], &boolean).unwrap_err();
    assert_eq!(
        error.message(),
        "Error reading TLV near substrate offset 0: ASN.1 DER message is incomplete: expected 4, actual 3 at DER byte 0"
    );
    let error = decode_der(&[0x01, 0x02, 0x00, 0x00], &boolean).unwrap_err();
    assert_eq!(
        error.message(),
        "Error decoding \"Boolean\" TLV near substrate offset 0: Invalid BOOLEAN value length of 2 octets"
    );
    let integer = simple("Integer", DECODER_TYPE_INTEGER, 2);
    let error = decode_der(&[0x02, 0x02, 0x00, 0x01], &integer).unwrap_err();
    assert!(error.message().ends_with(": Non-minimal INTEGER encoding"));
    let bare = Asn1Type::new(
        "SequenceOf",
        DECODER_TYPE_SEQUENCEOF,
        TagSet::new(vec![Tag::new(0x00, 0x20, 16)]),
    );
    let error = decode_der(&[0x30, 0x02, 0x05, 0x00], &bare).unwrap_err();
    assert_eq!(error.message(), "No ASN.1 specification near substrate offset 2");
    let unknown = simple("Real", 9, 9);
    let error = decode_der(&[0x09, 0x00], &unknown).unwrap_err();
    assert_eq!(
        error.message(),
        "Error decoding \"Real\" TLV near substrate offset 0: ASN.1 specification with type ID of 9 is not supported"
    );
    let plain = DecodeError::plain(ErrorKind::TrailingOctets(12), 34);
    assert_eq!(plain.message(), "12 trailing octet(s) after TLV near substrate offset 34");
    let made = DecodeError::new(
        ErrorKind::OutOfOrder(3),
        7,
        "SetOf".to_string(),
        fasder::error::out_of_order(3),
    );
    assert_eq!(
        made.message(),
        "Error decoding \"SetOf\" TLV near substrate offset 7: Out of order component at index 3"
    );
    assert_eq!(fasder::error::printable("x"), "Error decoding PRINTABLESTRING: x");
    assert_eq!(
        fasder::error::trailer_length(9),
        "Invalid trailer length of 9 bits in BIT STRING"
    );
    assert_eq!(fasder::error::invalid_format("SET"), "Invalid SET value format");
    assert_eq!(fasder::error::under_run("INTEGER"), "Substrate under-run in INTEGER value");
    assert_eq!(fasder::error::non_minimal("ENUMERATED"), "Non-minimal ENUMERATED encoding");
    assert_eq!(
        fasder::error::boolean_length(300),
        "Invalid BOOLEAN value length of 300 octets"
    );
    assert_eq!(
        fasder::error::unsupported(200),
        "ASN.1 specification with type ID of 200 is not supported"
    );
    assert_eq!(
        fasder::error::size_description(0, 1, 64),
        "Value of 0 components is outside the bounds 1..64"
    );
}
