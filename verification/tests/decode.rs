use fasder::decode_der;
use fasder::error::ErrorKind;
use fasder::schema::{
    Asn1Type, NamedType, DECODER_TYPE_ANY, DECODER_TYPE_BITSTRING, DECODER_TYPE_BOOLEAN,
    DECODER_TYPE_CHOICE, DECODER_TYPE_ENUMERATED, DECODER_TYPE_IA5STRING, DECODER_TYPE_INTEGER,
    DECODER_TYPE_NULL, DECODER_TYPE_OBJECTIDENTIFIER, DECODER_TYPE_OCTETSTRING,
    DECODER_TYPE_PRINTABLESTRING, DECODER_TYPE_SEQUENCE, DECODER_TYPE_SEQUENCEOF,
    DECODER_TYPE_SETOF, DECODER_TYPE_UTF8STRING,
};
use fasder::tag::{Tag, TagSet};
use fasder::value::{IntegerValue, Value};

fn universal(type_id: u8, name: &str, format: u8, number: u32) -> Asn1Type {
    Asn1Type::new(name, type_id, TagSet::new(vec![Tag::new(0x00, format, number)]))
}

fn boolean() -> Asn1Type {
    universal(DECODER_TYPE_BOOLEAN, "Boolean", 0x00, 1)
}

fn integer() -> Asn1Type {
    universal(DECODER_TYPE_INTEGER, "Integer", 0x00, 2)
}

fn bit_string() -> Asn1Type {
    universal(DECODER_TYPE_BITSTRING, "BitString", 0x00, 3)
}

fn octet_string() -> Asn1Type {
    universal(DECODER_TYPE_OCTETSTRING, "OctetString", 0x00, 4)
}

fn null() -> Asn1Type {
    universal(DECODER_TYPE_NULL, "Null", 0x00, 5)
}

fn object_identifier() -> Asn1Type {
    universal(DECODER_TYPE_OBJECTIDENTIFIER, "ObjectIdentifier", 0x00, 6)
}

fn sequence(components: Vec<NamedType>) -> Asn1Type {
    universal(DECODER_TYPE_SEQUENCE, "Sequence", 0x20, 16).with_components(components)
}

fn sequence_of(element: Asn1Type) -> Asn1Type {
    universal(DECODER_TYPE_SEQUENCEOF, "SequenceOf", 0x20, 16).with_element(element)
}

fn set_of(element: Asn1Type) -> Asn1Type {
    universal(DECODER_TYPE_SETOF, "SetOf", 0x20, 17).with_element(element)
}

fn open_choice(alternatives: Vec<NamedType>) -> Asn1Type {
    Asn1Type::new("Choice", DECODER_TYPE_CHOICE, TagSet::new(vec![])).with_components(alternatives)
}

fn open_any() -> Asn1Type {
    Asn1Type::new("Any", DECODER_TYPE_ANY, TagSet::new(vec![]))
}

fn positive(magnitude: &[u8]) -> Value {
    Value::Integer(IntegerValue { negative: false, magnitude: magnitude.to_vec() })
}

fn negative(magnitude: &[u8]) -> Value {
    Value::Integer(IntegerValue { negative: true, magnitude: magnitude.to_vec() })
}

fn kind_of(buffer: &[u8], schema: &Asn1Type) -> ErrorKind {
    decode_der(buffer, schema).unwrap_err().kind
}

#[test]
fn boolean_zero_octet_is_false() {
    assert_eq!(decode_der(&[0x01, 0x01, 0x00], &boolean()), Ok(Value::Boolean(false)));
}

#[test]
fn boolean_full_octet_is_true() {
    assert_eq!(decode_der(&[0x01, 0x01, 0xFF], &boolean()), Ok(Value::Boolean(true)));
}

#[test]
fn boolean_other_octet_is_non_canonical() {
    let error = decode_der(&[0x01, 0x01, 0x01], &boolean()).unwrap_err();
    assert_eq!(error.kind, ErrorKind::NonCanonical);
    assert_eq!(error.offset, 0);
    assert_eq!(error.schema_name, "Boolean");
    for octet in 1u8..0xFF {
        assert_eq!(kind_of(&[0x01, 0x01, octet], &boolean()), ErrorKind::NonCanonical);
    }
}

#[test]
fn boolean_of_two_octets_has_invalid_length() {
    assert_eq!(kind_of(&[0x01, 0x02, 0x00, 0x00], &boolean()), ErrorKind::InvalidLength(2));
    assert_eq!(kind_of(&[0x01, 0x00], &boolean()), ErrorKind::InvalidLength(0));
}

#[test]
fn boolean_sent_as_constructed_has_invalid_format() {
    let implicit = Asn1Type::new(
        "Flag",
        DECODER_TYPE_BOOLEAN,
        TagSet::new(vec![Tag::new(0x80, 0x00, 0)]),
    );
    assert_eq!(decode_der(&[0x80, 0x01, 0xFF], &implicit), Ok(Value::Boolean(true)));
    assert_eq!(kind_of(&[0xA0, 0x01, 0xFF], &implicit), ErrorKind::InvalidFormat);
}

#[test]
fn integer_zero() {
    assert_eq!(decode_der(&[0x02, 0x01, 0x00], &integer()), Ok(positive(&[0])));
}

#[test]
fn integer_with_needless_zero_octet_is_non_minimal() {
    let error = decode_der(&[0x02, 0x02, 0x00, 0x00], &integer()).unwrap_err();
    assert_eq!(error.kind, ErrorKind::NonMinimal);
    assert_eq!(error.offset, 0);
    assert_eq!(kind_of(&[0x02, 0x02, 0x00, 0x7F], &integer()), ErrorKind::NonMinimal);
    assert_eq!(kind_of(&[0x02, 0x02, 0xFF, 0x80], &integer()), ErrorKind::NonMinimal);
    assert_eq!(kind_of(&[0x02, 0x02, 0xFF, 0xFF], &integer()), ErrorKind::NonMinimal);
}

#[test]
fn integer_with_needed_zero_octet_is_255() {
    assert_eq!(decode_der(&[0x02, 0x02, 0x00, 0xFF], &integer()), Ok(positive(&[0xFF])));
    assert_eq!(decode_der(&[0x02, 0x02, 0x00, 0x80], &integer()), Ok(positive(&[0x80])));
}

#[test]
fn integer_negative_values() {
    assert_eq!(decode_der(&[0x02, 0x01, 0xFF], &integer()), Ok(negative(&[1])));
    assert_eq!(decode_der(&[0x02, 0x01, 0x80], &integer()), Ok(negative(&[0x80])));
    assert_eq!(decode_der(&[0x02, 0x02, 0xFF, 0x7F], &integer()), Ok(negative(&[0x81])));
    assert_eq!(decode_der(&[0x02, 0x02, 0x80, 0x00], &integer()), Ok(negative(&[0x80, 0x00])));
}

#[test]
fn integer_agrees_with_big_integers() {
    let cases: [i64; 9] = [0, 1, 127, 128, 255, 256, -1, -129, 0x0123_4567_89AB_CDEF];
    for case in cases {
        let big = num_bigint::BigInt::from(case);
        let content = big.to_signed_bytes_be();
        let mut buffer = vec![0x02, content.len() as u8];
        buffer.extend_from_slice(&content);
        let (sign, magnitude) = big.to_bytes_be();
        let expected = Value::Integer(IntegerValue {
            negative: sign == num_bigint::Sign::Minus,
            magnitude,
        });
        assert_eq!(decode_der(&buffer, &integer()), Ok(expected));
    }
}

#[test]
fn integer_without_octets_is_under_run() {
    assert_eq!(kind_of(&[0x02, 0x00], &integer()), ErrorKind::UnderRun);
}

#[test]
fn enumerated_decodes_as_integer() {
    let enumerated = universal(DECODER_TYPE_ENUMERATED, "Enumerated", 0x00, 10);
    assert_eq!(decode_der(&[0x0A, 0x01, 0x03], &enumerated), Ok(positive(&[3])));
    assert_eq!(kind_of(&[0x0A, 0x02, 0x00, 0x03], &enumerated), ErrorKind::NonMinimal);
}

#[test]
fn bit_string_keeps_padding_and_octets() {
    assert_eq!(
        decode_der(&[0x03, 0x03, 0x04, 0xAB, 0xC0], &bit_string()),
        Ok(Value::BitString { padding: 4, octets: vec![0xAB, 0xC0] })
    );
    assert_eq!(
        decode_der(&[0x03, 0x01, 0x00], &bit_string()),
        Ok(Value::BitString { padding: 0, octets: vec![] })
    );
}

#[test]
fn bit_string_rules() {
    assert_eq!(kind_of(&[0x03, 0x00], &bit_string()), ErrorKind::UnderRun);
    assert_eq!(
        kind_of(&[0x03, 0x02, 0x08, 0x00], &bit_string()),
        ErrorKind::InvalidTrailerLength(8)
    );
    assert_eq!(kind_of(&[0x03, 0x01, 0x01], &bit_string()), ErrorKind::InvalidTrailerLength(1));
    assert_eq!(kind_of(&[0x03, 0x02, 0x04, 0xA8], &bit_string()), ErrorKind::NonZeroTrailer);
    assert_eq!(
        decode_der(&[0x03, 0x02, 0x04, 0xA0], &bit_string()),
        Ok(Value::BitString { padding: 4, octets: vec![0xA0] })
    );
}

#[test]
fn bit_string_of_named_bits_ends_in_a_one() {
    let named = bit_string().with_named_bits();
    assert_eq!(kind_of(&[0x03, 0x02, 0x04, 0xA0], &named), ErrorKind::TrailingZeroBit);
    assert_eq!(
        decode_der(&[0x03, 0x02, 0x04, 0xB0], &named),
        Ok(Value::BitString { padding: 4, octets: vec![0xB0] })
    );
    assert_eq!(
        decode_der(&[0x03, 0x02, 0x00, 0x01], &named),
        Ok(Value::BitString { padding: 0, octets: vec![0x01] })
    );
    assert_eq!(kind_of(&[0x03, 0x02, 0x00, 0x02], &named), ErrorKind::TrailingZeroBit);
}

#[test]
fn octet_string_is_its_octets() {
    assert_eq!(
        decode_der(&[0x04, 0x03, 1, 2, 3], &octet_string()),
        Ok(Value::OctetString(vec![1, 2, 3]))
    );
    assert_eq!(decode_der(&[0x04, 0x00], &octet_string()), Ok(Value::OctetString(vec![])));
}

#[test]
fn null_has_no_octets() {
    assert_eq!(decode_der(&[0x05, 0x00], &null()), Ok(Value::Null));
    assert_eq!(kind_of(&[0x05, 0x01, 0x00], &null()), ErrorKind::InvalidLength(1));
}

#[test]
fn object_identifier_arcs() {
    let buffer = [0x06, 0x06, 0x2A, 0x86, 0x48, 0x86, 0xF7, 0x0D];
    assert_eq!(
        decode_der(&buffer, &object_identifier()),
        Ok(Value::ObjectIdentifier(vec![1, 2, 840, 113549]))
    );
}

#[test]
fn object_identifier_with_open_arc_is_malformed() {
    let error = decode_der(&[0x06, 0x03, 0x2A, 0x86, 0x88], &object_identifier()).unwrap_err();
    assert_eq!(error.kind, ErrorKind::MalformedOid);
    assert_eq!(error.description, "OID contains arc with invalid base 128 encoding");
    assert_eq!(error.schema_name, "ObjectIdentifier");
}

#[test]
fn character_string_is_its_octets() {
    let utf8 = universal(DECODER_TYPE_UTF8STRING, "UTF8String", 0x00, 12);
    assert_eq!(
        decode_der(&[0x0C, 0x02, 0x68, 0x69], &utf8),
        Ok(Value::CharacterString(vec![0x68, 0x69]))
    );
    let ia5 = universal(DECODER_TYPE_IA5STRING, "IA5String", 0x00, 22);
    assert_eq!(
        decode_der(&[0x16, 0x01, 0x40], &ia5),
        Ok(Value::CharacterString(vec![0x40]))
    );
}

#[test]
fn printable_string_keeps_to_its_characters() {
    let printable = universal(DECODER_TYPE_PRINTABLESTRING, "PrintableString", 0x00, 19);
    assert_eq!(
        decode_der(&[0x13, 0x04, b'A', b'z', b'9', b'?'], &printable),
        Ok(Value::CharacterString(vec![b'A', b'z', b'9', b'?']))
    );
    let error = decode_der(&[0x13, 0x02, b'A', b'@'], &printable).unwrap_err();
    assert_eq!(error.kind, ErrorKind::NotPrintable);
    assert_eq!(
        error.description,
        "Error decoding PRINTABLESTRING: malformed ASN.1 DER value for PrintableString"
    );
    for octet in [b'*', b'_', b'&', b'!', 0x00, 0x80, b';', b'<', b'>', b'[', b'`', b'{'] {
        assert_eq!(kind_of(&[0x13, 0x01, octet], &printable), ErrorKind::NotPrintable);
    }
    for octet in [b' ', b'\'', b'(', b')', b'+', b',', b'-', b'.', b'/', b':', b'=', b'?'] {
        assert!(decode_der(&[0x13, 0x01, octet], &printable).is_ok());
    }
}

#[test]
fn set_of_in_descending_order_is_out_of_order() {
    let buffer = [0x31, 0x06, 0x02, 0x01, 0x05, 0x02, 0x01, 0x01];
    let error = decode_der(&buffer, &set_of(integer())).unwrap_err();
    assert_eq!(error.kind, ErrorKind::OutOfOrder(1));
    assert_eq!(error.offset, 0);
}

#[test]
fn set_of_in_ascending_order_keeps_encoded_order() {
    let buffer = [0x31, 0x06, 0x02, 0x01, 0x01, 0x02, 0x01, 0x05];
    assert_eq!(
        decode_der(&buffer, &set_of(integer())),
        Ok(Value::SetOf(vec![positive(&[1]), positive(&[5])]))
    );
}

#[test]
fn set_of_takes_equal_neighbours_and_sorts_prefixes_first() {
    let equal = [0x31, 0x06, 0x02, 0x01, 0x01, 0x02, 0x01, 0x01];
    assert!(decode_der(&equal, &set_of(integer())).is_ok());
    let shorter_first = [0x31, 0x07, 0x04, 0x01, 0x09, 0x04, 0x02, 0x00, 0x00];
    assert!(decode_der(&shorter_first, &set_of(octet_string())).is_ok());
    let longer_first = [0x31, 0x07, 0x04, 0x02, 0x00, 0x00, 0x04, 0x01, 0x09];
    assert_eq!(kind_of(&longer_first, &set_of(octet_string())), ErrorKind::OutOfOrder(1));
    let third = [0x31, 0x09, 0x02, 0x01, 0x01, 0x02, 0x01, 0x05, 0x02, 0x01, 0x02];
    assert_eq!(kind_of(&third, &set_of(integer())), ErrorKind::OutOfOrder(2));
}

#[test]
fn sequence_of_keeps_any_order() {
    let buffer = [0x30, 0x06, 0x02, 0x01, 0x05, 0x02, 0x01, 0x01];
    assert_eq!(
        decode_der(&buffer, &sequence_of(integer())),
        Ok(Value::SequenceOf(vec![positive(&[5]), positive(&[1])]))
    );
    assert_eq!(decode_der(&[0x30, 0x00], &sequence_of(integer())), Ok(Value::SequenceOf(vec![])));
}

#[test]
fn sequence_of_without_element_type_has_no_specification() {
    let bare = universal(DECODER_TYPE_SEQUENCEOF, "SequenceOf", 0x20, 16);
    let error = decode_der(&[0x30, 0x03, 0x02, 0x01, 0x05], &bare).unwrap_err();
    assert_eq!(error.kind, ErrorKind::NoSpecification);
    assert_eq!(error.offset, 2);
    assert_eq!(error.schema_name, "");
}

#[test]
fn sequence_skips_absent_optional_component() {
    let schema = sequence(vec![
        NamedType::required(integer()),
        NamedType::optional(boolean()),
        NamedType::required(octet_string()),
    ]);
    let buffer = [0x30, 0x06, 0x02, 0x01, 0x07, 0x04, 0x01, 0xAA];
    assert_eq!(
        decode_der(&buffer, &schema),
        Ok(Value::Sequence(vec![
            Some(positive(&[7])),
            None,
            Some(Value::OctetString(vec![0xAA])),
        ]))
    );
    let full = [0x30, 0x09, 0x02, 0x01, 0x07, 0x01, 0x01, 0xFF, 0x04, 0x01, 0xAA];
    assert_eq!(
        decode_der(&full, &schema),
        Ok(Value::Sequence(vec![
            Some(positive(&[7])),
            Some(Value::Boolean(true)),
            Some(Value::OctetString(vec![0xAA])),
        ]))
    );
}

#[test]
fn sequence_without_required_component_is_missing_it() {
    let schema = sequence(vec![
        NamedType::required(integer()),
        NamedType::optional(boolean()),
        NamedType::required(octet_string()),
    ]);
    assert_eq!(kind_of(&[0x30, 0x03, 0x02, 0x01, 0x07], &schema), ErrorKind::MissingRequired);
    assert_eq!(kind_of(&[0x30, 0x00], &schema), ErrorKind::MissingRequired);
}

#[test]
fn sequence_with_a_component_too_many_is_excessive() {
    let schema = sequence(vec![NamedType::required(integer())]);
    let buffer = [0x30, 0x06, 0x02, 0x01, 0x07, 0x02, 0x01, 0x08];
    let error = decode_der(&buffer, &schema).unwrap_err();
    assert_eq!(error.kind, ErrorKind::ExcessiveComponents);
    assert_eq!(error.schema_name, "Sequence");
}

#[test]
fn sequence_with_explicit_default_fails() {
    let schema = sequence(vec![
        NamedType::defaulted(integer(), positive(&[5])),
        NamedType::required(boolean()),
    ]);
    let with_default = [0x30, 0x06, 0x02, 0x01, 0x05, 0x01, 0x01, 0xFF];
    assert_eq!(kind_of(&with_default, &schema), ErrorKind::ExplicitDefault);
    let with_other = [0x30, 0x06, 0x02, 0x01, 0x06, 0x01, 0x01, 0xFF];
    assert_eq!(
        decode_der(&with_other, &schema),
        Ok(Value::Sequence(vec![Some(positive(&[6])), Some(Value::Boolean(true))]))
    );
    let without = [0x30, 0x03, 0x01, 0x01, 0xFF];
    assert_eq!(
        decode_der(&without, &schema),
        Ok(Value::Sequence(vec![None, Some(Value::Boolean(true))]))
    );
}

#[test]
fn sequence_with_component_of_other_type_does_not_match() {
    let schema = sequence(vec![NamedType::required(integer())]);
    let error = decode_der(&[0x30, 0x03, 0x01, 0x01, 0xFF], &schema).unwrap_err();
    assert_eq!(error.kind, ErrorKind::SpecMismatch);
    assert_eq!(error.offset, 2);
    assert_eq!(error.schema_name, "Integer");
}

#[test]
fn sequence_sent_as_primitive_has_invalid_format() {
    let implicit = Asn1Type::new(
        "Pair",
        DECODER_TYPE_SEQUENCE,
        TagSet::new(vec![Tag::new(0x80, 0x20, 1)]),
    );
    assert_eq!(kind_of(&[0x81, 0x00], &implicit), ErrorKind::InvalidFormat);
    assert_eq!(decode_der(&[0xA1, 0x00], &implicit), Ok(Value::Sequence(vec![])));
}

#[test]
fn nested_failure_reports_its_own_offset() {
    let schema = sequence(vec![
        NamedType::required(integer()),
        NamedType::required(sequence_of(boolean())),
    ]);
    let buffer = [0x30, 0x0B, 0x02, 0x01, 0x07, 0x30, 0x06, 0x01, 0x01, 0x00, 0x01, 0x01, 0x02];
    let error = decode_der(&buffer, &schema).unwrap_err();
    assert_eq!(error.kind, ErrorKind::NonCanonical);
    assert_eq!(error.offset, 10);
}

#[test]
fn size_bounds_make_an_aggregate_inconsistent() {
    let schema = sequence_of(integer()).with_size(1, 2);
    assert_eq!(kind_of(&[0x30, 0x00], &schema), ErrorKind::Inconsistent);
    assert!(decode_der(&[0x30, 0x03, 0x02, 0x01, 0x01], &schema).is_ok());
    let three = [0x30, 0x09, 0x02, 0x01, 0x01, 0x02, 0x01, 0x02, 0x02, 0x01, 0x03];
    assert_eq!(kind_of(&three, &schema), ErrorKind::Inconsistent);
    let record = sequence(vec![NamedType::optional(integer()), NamedType::optional(boolean())])
        .with_size(1, 1);
    assert_eq!(kind_of(&[0x30, 0x00], &record), ErrorKind::Inconsistent);
    assert!(decode_der(&[0x30, 0x03, 0x01, 0x01, 0x00], &record).is_ok());
    assert_eq!(
        kind_of(&[0x30, 0x06, 0x02, 0x01, 0x01, 0x01, 0x01, 0x00], &record),
        ErrorKind::Inconsistent
    );
}

fn wrapped(depth: usize) -> (Vec<u8>, Asn1Type) {
    let mut buffer: Vec<u8> = vec![0x02, 0x01, 0x05];
    let mut tags = vec![Tag::new(0x00, 0x00, 2)];
    for layer in 0..depth {
        let mut outer = vec![0xA0 + layer as u8, buffer.len() as u8];
        outer.extend_from_slice(&buffer);
        buffer = outer;
        tags.push(Tag::new(0x80, 0x20, layer as u32));
    }
    (buffer, Asn1Type::new("Wrapped", DECODER_TYPE_INTEGER, TagSet::new(tags)))
}

#[test]
fn explicit_tags_up_to_the_limit_are_peeled() {
    for layers in 0..=4 {
        let (buffer, schema) = wrapped(layers);
        assert_eq!(decode_der(&buffer, &schema), Ok(positive(&[5])));
    }
    let four_layers = [0xA0, 0x09, 0xA1, 0x07, 0xA2, 0x05, 0xA3, 0x03, 0x02, 0x01, 0x00];
    let schema = Asn1Type::new(
        "Wrapped",
        DECODER_TYPE_INTEGER,
        TagSet::new(vec![
            Tag::new(0x00, 0x00, 2),
            Tag::new(0x80, 0x20, 3),
            Tag::new(0x80, 0x20, 2),
            Tag::new(0x80, 0x20, 1),
            Tag::new(0x80, 0x20, 0),
        ]),
    );
    assert_eq!(decode_der(&four_layers, &schema), Ok(positive(&[0])));
}

#[test]
fn explicit_tags_beyond_the_limit_fail() {
    let (buffer, schema) = wrapped(5);
    let error = decode_der(&buffer, &schema).unwrap_err();
    assert_eq!(error.kind, ErrorKind::NestedExplicitTagLimit);
    assert_eq!(error.offset, 8);
    let (deeper, schema) = wrapped(6);
    assert_eq!(kind_of(&deeper, &schema), ErrorKind::NestedExplicitTagLimit);
}

#[test]
fn primitive_or_universal_layer_is_not_peeled() {
    let (_, schema) = wrapped(1);
    assert_eq!(kind_of(&[0x80, 0x03, 0x02, 0x01, 0x05], &schema), ErrorKind::SpecMismatch);
    assert_eq!(kind_of(&[0x30, 0x03, 0x02, 0x01, 0x05], &schema), ErrorKind::SpecMismatch);
    assert_eq!(kind_of(&[0x04, 0x01, 0x05], &schema), ErrorKind::SpecMismatch);
}

#[test]
fn trailing_octets_are_counted() {
    let error = decode_der(&[0x01, 0x01, 0x00, 0x00], &boolean()).unwrap_err();
    assert_eq!(error.kind, ErrorKind::TrailingOctets(1));
    assert_eq!(error.offset, 0);
    assert_eq!(
        kind_of(&[0x05, 0x00, 0x01, 0x02, 0x03], &null()),
        ErrorKind::TrailingOctets(3)
    );
}

#[test]
fn malformed_header_fails_to_read() {
    let error = decode_der(&[], &boolean()).unwrap_err();
    assert_eq!(error.kind, ErrorKind::HeaderRead);
    assert!(!error.description.is_empty());
    assert_eq!(kind_of(&[0x01], &boolean()), ErrorKind::HeaderRead);
    assert_eq!(kind_of(&[0x01, 0x80, 0x00, 0x00], &boolean()), ErrorKind::HeaderRead);
    assert_eq!(kind_of(&[0x01, 0x81, 0x01, 0x00], &boolean()), ErrorKind::HeaderRead);
    assert_eq!(kind_of(&[0x1F, 0x01, 0x00], &boolean()), ErrorKind::HeaderRead);
}

#[test]
fn short_buffer_fails_to_read_tlv() {
    let error = decode_der(&[0x04, 0x05, 0x01, 0x02], &octet_string()).unwrap_err();
    assert_eq!(error.kind, ErrorKind::TlvRead);
    assert_eq!(error.offset, 0);
    assert!(!error.description.is_empty());
}

#[test]
fn unknown_family_is_unsupported() {
    let real = Asn1Type::new("Real", 9, TagSet::new(vec![Tag::new(0x00, 0x00, 9)]));
    let error = decode_der(&[0x09, 0x01, 0x00], &real).unwrap_err();
    assert_eq!(error.kind, ErrorKind::UnsupportedType(9));
    assert_eq!(error.schema_name, "Real");
}

#[test]
fn long_form_length_is_read() {
    let mut buffer = vec![0x04, 0x81, 0x80];
    buffer.extend(std::iter::repeat(0x5A).take(128));
    assert_eq!(decode_der(&buffer, &octet_string()), Ok(Value::OctetString(vec![0x5A; 128])));
    let mut longer = vec![0x04, 0x82, 0x01, 0x00];
    longer.extend(std::iter::repeat(0x5A).take(256));
    assert_eq!(decode_der(&longer, &octet_string()), Ok(Value::OctetString(vec![0x5A; 256])));
}

#[test]
fn open_choice_takes_the_alternative_by_its_tag() {
    let schema = open_choice(vec![
        NamedType::required(integer()),
        NamedType::required(boolean()),
    ]);
    assert_eq!(
        decode_der(&[0x01, 0x01, 0xFF], &schema),
        Ok(Value::Choice { position: 1, value: Box::new(Value::Boolean(true)) })
    );
    assert_eq!(
        decode_der(&[0x02, 0x01, 0x09], &schema),
        Ok(Value::Choice { position: 0, value: Box::new(positive(&[9])) })
    );
    assert_eq!(kind_of(&[0x04, 0x01, 0x09], &schema), ErrorKind::SpecMismatch);
}

#[test]
fn tagged_choice_holds_the_alternative_in_its_value() {
    let schema = Asn1Type::new(
        "Choice",
        DECODER_TYPE_CHOICE,
        TagSet::new(vec![Tag::new(0x80, 0x20, 3)]),
    )
    .with_components(vec![NamedType::required(integer()), NamedType::required(boolean())]);
    assert_eq!(
        decode_der(&[0xA3, 0x03, 0x01, 0x01, 0x00], &schema),
        Ok(Value::Choice { position: 1, value: Box::new(Value::Boolean(false)) })
    );
}

#[test]
fn nested_open_choice_is_resolved_through_its_alternatives() {
    let inner = open_choice(vec![
        NamedType::required(boolean()),
        NamedType::required(octet_string()),
    ]);
    let schema = open_choice(vec![NamedType::required(integer()), NamedType::required(inner)]);
    assert_eq!(
        decode_der(&[0x04, 0x01, 0x07], &schema),
        Ok(Value::Choice {
            position: 1,
            value: Box::new(Value::Choice {
                position: 1,
                value: Box::new(Value::OctetString(vec![7])),
            }),
        })
    );
}

#[test]
fn choice_as_sequence_component() {
    let time = open_choice(vec![NamedType::required(integer()), NamedType::required(boolean())]);
    let schema = sequence(vec![
        NamedType::optional(octet_string()),
        NamedType::required(time),
    ]);
    assert_eq!(
        decode_der(&[0x30, 0x03, 0x01, 0x01, 0xFF], &schema),
        Ok(Value::Sequence(vec![
            None,
            Some(Value::Choice { position: 1, value: Box::new(Value::Boolean(true)) }),
        ]))
    );
}

#[test]
fn open_any_keeps_the_whole_tlv() {
    assert_eq!(
        decode_der(&[0x02, 0x01, 0x05], &open_any()),
        Ok(Value::Any(vec![0x02, 0x01, 0x05]))
    );
    assert_eq!(
        decode_der(&[0x30, 0x03, 0x02, 0x01, 0x05], &open_any()),
        Ok(Value::Any(vec![0x30, 0x03, 0x02, 0x01, 0x05]))
    );
}

#[test]
fn tagged_any_keeps_the_value_under_its_tag() {
    let tagged = Asn1Type::new("Any", DECODER_TYPE_ANY, TagSet::new(vec![Tag::new(0x80, 0x20, 0)]));
    assert_eq!(
        decode_der(&[0xA0, 0x03, 0x02, 0x01, 0x05], &tagged),
        Ok(Value::Any(vec![0x02, 0x01, 0x05]))
    );
    assert_eq!(
        decode_der(&[0x02, 0x01, 0x05], &tagged),
        Ok(Value::Any(vec![0x02, 0x01, 0x05]))
    );
}

#[test]
fn any_after_optional_components_takes_what_they_do_not() {
    let schema = sequence(vec![
        NamedType::optional(integer()),
        NamedType::optional(open_any()),
    ]);
    assert_eq!(
        decode_der(&[0x30, 0x03, 0x01, 0x01, 0xFF], &schema),
        Ok(Value::Sequence(vec![None, Some(Value::Any(vec![0x01, 0x01, 0xFF]))]))
    );
    assert_eq!(
        decode_der(&[0x30, 0x03, 0x02, 0x01, 0x01], &schema),
        Ok(Value::Sequence(vec![Some(positive(&[1])), None]))
    );
}

#[test]
fn explicitly_tagged_optional_component() {
    let tagged = Asn1Type::new(
        "Version",
        DECODER_TYPE_INTEGER,
        TagSet::new(vec![Tag::new(0x00, 0x00, 2), Tag::new(0x80, 0x20, 0)]),
    );
    let schema = sequence(vec![NamedType::optional(tagged), NamedType::required(integer())]);
    let both = [0x30, 0x08, 0xA0, 0x03, 0x02, 0x01, 0x02, 0x02, 0x01, 0x09];
    assert_eq!(
        decode_der(&both, &schema),
        Ok(Value::Sequence(vec![Some(positive(&[2])), Some(positive(&[9]))]))
    );
    let second_only = [0x30, 0x03, 0x02, 0x01, 0x09];
    assert_eq!(
        decode_der(&second_only, &schema),
        Ok(Value::Sequence(vec![None, Some(positive(&[9]))]))
    );
}

#[test]
fn decode_is_repeatable() {
    let schema = sequence(vec![
        NamedType::required(integer()),
        NamedType::optional(boolean()),
        NamedType::required(sequence_of(octet_string())),
    ]);
    let buffer = vec![0x30, 0x08, 0x02, 0x01, 0x07, 0x30, 0x03, 0x04, 0x01, 0xAA];
    let kept = buffer.clone();
    let first = decode_der(&buffer, &schema);
    let second = decode_der(&buffer, &schema);
    assert!(first.is_ok());
    assert_eq!(first, second);
    assert_eq!(buffer, kept);
    let bad = vec![0x30, 0x03, 0x02, 0x01];
    assert_eq!(decode_der(&bad, &schema), decode_der(&bad, &schema));
}

#[test]
fn failures_of_each_family_name_the_family() {
    let described =
        |buffer: &[u8], schema: &Asn1Type| decode_der(buffer, schema).unwrap_err().description;
    let context = |type_id: u8, name: &str| {
        Asn1Type::new(name, type_id, TagSet::new(vec![Tag::new(0x80, 0x00, 0)]))
    };
    let sent = [0xA0, 0x00];
    assert_eq!(described(&sent, &context(DECODER_TYPE_BOOLEAN, "B")), "Invalid BOOLEAN value format");
    assert_eq!(described(&sent, &context(DECODER_TYPE_INTEGER, "I")), "Invalid INTEGER value format");
    assert_eq!(
        described(&sent, &context(DECODER_TYPE_ENUMERATED, "E")),
        "Invalid ENUMERATED value format"
    );
    assert_eq!(
        described(&sent, &context(DECODER_TYPE_BITSTRING, "S")),
        "Invalid BIT STRING value format"
    );
    assert_eq!(
        described(&sent, &context(DECODER_TYPE_OCTETSTRING, "O")),
        "Invalid OCTET STRING value format"
    );
    assert_eq!(described(&sent, &context(DECODER_TYPE_NULL, "N")), "Invalid NULL value format");
    assert_eq!(
        described(&sent, &context(DECODER_TYPE_OBJECTIDENTIFIER, "D")),
        "Invalid OBJECT IDENTIFIER value format"
    );
    assert_eq!(
        described(&sent, &context(DECODER_TYPE_UTF8STRING, "U")),
        "Invalid UTF8STRING value format"
    );
    assert_eq!(
        described(&sent, &context(DECODER_TYPE_IA5STRING, "A")),
        "Invalid IA5STRING value format"
    );
    assert_eq!(
        described(&sent, &context(DECODER_TYPE_PRINTABLESTRING, "P")),
        "Invalid PRINTABLESTRING value format"
    );
    let sent = [0x80, 0x00];
    assert_eq!(
        described(&sent, &context(DECODER_TYPE_SEQUENCE, "Q")),
        "Invalid SEQUENCE value format"
    );
    assert_eq!(
        described(&sent, &context(DECODER_TYPE_SEQUENCEOF, "F")),
        "Invalid SEQUENCE value format"
    );
    assert_eq!(described(&sent, &context(DECODER_TYPE_SETOF, "T")), "Invalid SET value format");
    assert_eq!(
        described(&sent, &context(DECODER_TYPE_INTEGER, "I")),
        "Substrate under-run in INTEGER value"
    );
    assert_eq!(
        described(&sent, &context(DECODER_TYPE_BITSTRING, "S")),
        "Substrate under-run in BIT STRING"
    );
    assert_eq!(
        described(&[0x80, 0x01, 0x00], &context(DECODER_TYPE_NULL, "N")),
        "Invalid NULL value length"
    );
    assert_eq!(
        described(&[0x80, 0x02, 0xFF, 0x80], &context(DECODER_TYPE_ENUMERATED, "E")),
        "Non-minimal ENUMERATED encoding"
    );
    assert_eq!(
        described(&[0x31, 0x06, 0x02, 0x01, 0x05, 0x02, 0x01, 0x01], &set_of(integer())),
        "Out of order component at index 1"
    );
    let (buffer, schema) = wrapped(5);
    assert_eq!(described(&buffer, &schema), "Exceeded limit on nested explicit tags");
    assert_eq!(
        described(&[0x04, 0x00], &integer()),
        "Substrate does not match ASN.1 specification"
    );
    assert_eq!(
        described(&[0x30, 0x00], &sequence_of(integer()).with_size(1, 5)),
        "Value of 0 components is outside the bounds 1..5"
    );
}

#[test]
fn buffer_beyond_the_parser_limit_fails_to_read() {
    let buffer = vec![0u8; fasder::decoder::MAX_SUBSTRATE_LEN + 1];
    let error = decode_der(&buffer, &boolean()).unwrap_err();
    assert_eq!(error.kind, ErrorKind::HeaderRead);
    assert_eq!(error.offset, 0);
    assert_eq!(error.description, "integer overflow");
    let error = fasder::decoder::read_tlv(&buffer, 3).unwrap_err();
    assert_eq!(error.kind, ErrorKind::HeaderRead);
    assert_eq!(error.offset, 3);
}
