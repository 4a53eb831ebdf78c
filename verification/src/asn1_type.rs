//! The decoders of the type families. Each checks the raw octets of a TLV
//! against the rules of its type, then yields the value, then checks the
//! value against the schema.

use crate::decoder::{
    decode_asn1_spec_value, read_tlv, DecodeStep, StepView, MAX_SUBSTRATE_LEN,
};
use crate::error::{
    boolean_length, boolean_length_text, invalid_format, invalid_format_text, non_minimal,
    non_minimal_text, out_of_order, printable, printable_text, size_description, trailer_length,
    trailer_length_text, under_run, under_run_text, verdict_is, DecodeError, ErrorKind, ErrorView,
};
use crate::model::{
    alternatives_node, any_decoded, choice_decoded, component_node, consistency,
    element_node, elements_walk, empty_slots, required_present, sequence_decoded, sequence_walk,
    sorts_after, step_as,
};
use crate::schema::{
    find_entry, lemma_lookup_in_window, lemma_near_end, lemma_types_depth,
    tag_map_near_position, Asn1Type, NamedType, SchemaNode,
};
use crate::tag::FORMAT_SIMPLE;
use crate::value::{
    count_present, elements_view, integer_view, lemma_aggregate_views,
    outcome_is, slots_view, twos_complement, values_equal, IntegerValue, Value, ValueView,
};
use crate::{decode_der_rec, decode_explicit, get_chosen_spec};
use vstd::prelude::*;
use vstd::slice::{slice_subrange, slice_to_vec};

verus! {

/// The three phases of decoding one TLV as a value of one type family.
pub trait Decoder {
    /// Whether the decoder holds a step that it can work on.
    spec fn wf(&self) -> bool;

    /// Whether the raw octets keep the rules of the type.
    spec fn raw_verdict(&self) -> Result<(), ErrorView>;

    /// The value that the octets stand for.
    spec fn decoded(&self) -> Result<ValueView, ErrorView>;

    /// Whether `value` keeps the constraints of the schema.
    spec fn decoded_verdict(&self, value: ValueView) -> Result<(), ErrorView>;

    fn verify_raw(&self) -> (r: Result<(), DecodeError>)
        requires
            self.wf(),
        ensures
            verdict_is(r, self.raw_verdict()),
    ;

    fn decode(&self) -> (r: Result<Value, DecodeError>)
        requires
            self.wf(),
            self.raw_verdict() is Ok,
        ensures
            outcome_is(r, self.decoded()),
    ;

    fn verify_decoded(&self, asn1_value: &Value) -> (r: Result<(), DecodeError>)
        requires
            self.wf(),
        ensures
            verdict_is(r, self.decoded_verdict(asn1_value@)),
    ;
}

/// The verdict on a type, named `label`, that must be sent as primitive.
pub open spec fn primitive_verdict(step: StepView, label: Seq<char>) -> Result<(), ErrorView> {
    if step.is_primitive() {
        Ok(())
    } else {
        Err(step.error(ErrorKind::InvalidFormat, invalid_format_text(label)))
    }
}

/// The verdict on a type, named `label`, that must be sent as constructed.
pub open spec fn constructed_verdict(step: StepView, label: Seq<char>) -> Result<(), ErrorView> {
    if step.is_primitive() {
        Err(step.error(ErrorKind::InvalidFormat, invalid_format_text(label)))
    } else {
        Ok(())
    }
}

fn check_primitive(step: &DecodeStep, label: &str) -> (r: Result<(), DecodeError>)
    requires
        step.wf(),
    ensures
        verdict_is(r, primitive_verdict(step@, label@)),
{
    if step.tag().format() != FORMAT_SIMPLE {
        Err(step.create_error(ErrorKind::InvalidFormat, invalid_format(label).as_str()))
    } else {
        Ok(())
    }
}

fn check_constructed(step: &DecodeStep, label: &str) -> (r: Result<(), DecodeError>)
    requires
        step.wf(),
    ensures
        verdict_is(r, constructed_verdict(step@, label@)),
{
    if step.tag().format() == FORMAT_SIMPLE {
        Err(step.create_error(ErrorKind::InvalidFormat, invalid_format(label).as_str()))
    } else {
        Ok(())
    }
}

/// The rules of a BOOLEAN: primitive, one octet, which is `0x00` or `0xFF`.
pub open spec fn boolean_verdict(step: StepView) -> Result<(), ErrorView> {
    if !step.is_primitive() {
        Err(step.error(ErrorKind::InvalidFormat, invalid_format_text("BOOLEAN"@)))
    } else if step.value().len() != 1 {
        Err(
            step.error(
                ErrorKind::InvalidLength(step.header.length),
                boolean_length_text(step.header.length),
            ),
        )
    } else if step.value()[0] != 0x00 && step.value()[0] != 0xFF {
        Err(step.error(ErrorKind::NonCanonical, "Non-canonical BOOLEAN encoding"@))
    } else {
        Ok(())
    }
}

pub struct BooleanDecoder<'a> {
    pub step: DecodeStep<'a>,
}

impl<'a> BooleanDecoder<'a> {
    pub fn new(step: DecodeStep<'a>) -> (decoder: Self)
        ensures
            decoder.step == step,
    {
        Self { step }
    }
}

impl<'a> Decoder for BooleanDecoder<'a> {
    open spec fn wf(&self) -> bool {
        self.step.wf()
    }

    open spec fn raw_verdict(&self) -> Result<(), ErrorView> {
        boolean_verdict(self.step@)
    }

    open spec fn decoded(&self) -> Result<ValueView, ErrorView> {
        Ok(ValueView::Boolean(self.step@.value()[0] != 0))
    }

    open spec fn decoded_verdict(&self, value: ValueView) -> Result<(), ErrorView> {
        Ok(())
    }

    fn verify_raw(&self) -> (r: Result<(), DecodeError>) {
        match check_primitive(&self.step, "BOOLEAN") {
            Err(e) => {
                return Err(e);
            },
            Ok(_) => (),
        };
        let length: usize = self.step.value_substrate_len();
        if length == 1 {
            let value = self.step.value_substrate();
            if value[0] != 0 && value[0] != 0xFF {
                Err(
                    self.step.create_error(
                        ErrorKind::NonCanonical,
                        "Non-canonical BOOLEAN encoding",
                    ),
                )
            } else {
                Ok(())
            }
        } else {
            Err(
                self.step.create_error(
                    ErrorKind::InvalidLength(length),
                    boolean_length(length).as_str(),
                ),
            )
        }
    }

    fn decode(&self) -> (r: Result<Value, DecodeError>) {
        let value = self.step.value_substrate();
        Ok(Value::Boolean(value[0] != 0))
    }

    fn verify_decoded(&self, asn1_value: &Value) -> (r: Result<(), DecodeError>) {
        Ok(())
    }
}

/// The rules of an INTEGER or an ENUMERATED: primitive, at least one
/// octet, and no leading octet that the sign does not need.
pub open spec fn integer_verdict(step: StepView, label: Seq<char>) -> Result<(), ErrorView> {
    let value = step.value();
    if !step.is_primitive() {
        Err(step.error(ErrorKind::InvalidFormat, invalid_format_text(label)))
    } else if value.len() == 0 {
        Err(step.error(ErrorKind::UnderRun, under_run_text(label)))
    } else if value.len() >= 2 && ((value[0] == 0x00 && value[1] < 0x80) || (value[0] == 0xFF
        && value[1] >= 0x80)) {
        Err(step.error(ErrorKind::NonMinimal, non_minimal_text(label)))
    } else {
        Ok(())
    }
}

/// `num_bigint::BigInt::from_signed_bytes_be`, with the result taken apart
/// by `BigInt::to_bytes_be`.
///
/// The first reads big-endian octets as a number in two's complement. The
/// second gives the sign of a number and its magnitude in big-endian octets
/// without a leading zero octet, zero being one zero octet with no sign.
#[verifier::external_body]
fn from_signed_bytes_be(digits: &[u8]) -> (r: IntegerValue)
    ensures
        r@ == integer_view(twos_complement(digits@)),
{
    let (sign, magnitude) = num_bigint::BigInt::from_signed_bytes_be(digits).to_bytes_be();
    let negative = match sign {
        num_bigint::Sign::Minus => true,
        num_bigint::Sign::NoSign => false,
        num_bigint::Sign::Plus => false,
    };
    IntegerValue { negative, magnitude }
}

pub struct IntegerDecoder<'a> {
    pub step: DecodeStep<'a>,
    /// The name of the family in what failures say.
    pub label: &'static str,
}

impl<'a> IntegerDecoder<'a> {
    pub fn new(step: DecodeStep<'a>, label: &'static str) -> (decoder: Self)
        ensures
            decoder.step == step,
            decoder.label == label,
    {
        Self { step, label }
    }
}

impl<'a> Decoder for IntegerDecoder<'a> {
    open spec fn wf(&self) -> bool {
        self.step.wf()
    }

    open spec fn raw_verdict(&self) -> Result<(), ErrorView> {
        integer_verdict(self.step@, self.label@)
    }

    open spec fn decoded(&self) -> Result<ValueView, ErrorView> {
        Ok(integer_view(twos_complement(self.step@.value())))
    }

    open spec fn decoded_verdict(&self, value: ValueView) -> Result<(), ErrorView> {
        Ok(())
    }

    fn verify_raw(&self) -> (r: Result<(), DecodeError>) {
        match check_primitive(&self.step, self.label) {
            Err(e) => {
                return Err(e);
            },
            Ok(_) => (),
        };
        let value = self.step.value_substrate();
        if value.len() == 0 {
            return Err(
                self.step.create_error(ErrorKind::UnderRun, under_run(self.label).as_str()),
            );
        } else if value.len() >= 2 {
            let first: u8 = value[0];
            let second: u8 = value[1];
            assert((second & 0x80 == 0) == (second < 0x80)) by (bit_vector);
            if (first == 0 && second & 0x80 == 0) || (first == 0xFF && second & 0x80 != 0) {
                return Err(
                    self.step.create_error(
                        ErrorKind::NonMinimal,
                        non_minimal(self.label).as_str(),
                    ),
                );
            }
        }
        Ok(())
    }

    fn decode(&self) -> (r: Result<Value, DecodeError>) {
        Ok(Value::Integer(from_signed_bytes_be(self.step.value_substrate())))
    }

    fn verify_decoded(&self, asn1_value: &Value) -> (r: Result<(), DecodeError>) {
        Ok(())
    }
}

/// The bits of `last` that a BIT STRING with `count` unused bits leaves unused.
pub open spec fn unused_bits(last: u8, count: u8) -> u8 {
    last & (((1u8 << count) - 1) as u8)
}

/// The lowest bit of `last` that a BIT STRING with `count` unused bits uses.
pub open spec fn last_used_bit(last: u8, count: u8) -> u8 {
    last & (1u8 << count)
}

/// The rules of a BIT STRING: primitive; a first octet that counts the
/// unused bits of the last, at most seven, and none where no octet follows;
/// unused bits that are zero; and, where the bits are named, a last used
/// bit that is one.
pub open spec fn bit_string_verdict(step: StepView) -> Result<(), ErrorView> {
    let value = step.value();
    if !step.is_primitive() {
        Err(step.error(ErrorKind::InvalidFormat, invalid_format_text("BIT STRING"@)))
    } else if value.len() == 0 {
        Err(step.error(ErrorKind::UnderRun, "Substrate under-run in BIT STRING"@))
    } else if value[0] > 7 || (value.len() == 1 && value[0] != 0) {
        Err(step.error(ErrorKind::InvalidTrailerLength(value[0]), trailer_length_text(value[0])))
    } else if value.len() >= 2 && unused_bits(value[value.len() - 1], value[0]) != 0 {
        Err(step.error(ErrorKind::NonZeroTrailer, "Non-zero trailer value in BIT STRING"@))
    } else if value.len() >= 2 && step.ty().named_bits && last_used_bit(
        value[value.len() - 1],
        value[0],
    ) == 0 {
        Err(step.error(ErrorKind::TrailingZeroBit, "Trailing zero bit in named BIT STRING"@))
    } else {
        Ok(())
    }
}

pub struct BitStringDecoder<'a> {
    pub step: DecodeStep<'a>,
}

impl<'a> BitStringDecoder<'a> {
    pub fn new(step: DecodeStep<'a>) -> (decoder: Self)
        ensures
            decoder.step == step,
    {
        Self { step }
    }

    /// Whether a BIT STRING of named bits ends in a used bit that is one.
    pub fn check_named_bit_string(&self, trailer_bit_count: u8, last_octet: u8) -> (r: Result<
        (),
        DecodeError,
    >)
        requires
            trailer_bit_count <= 7,
        ensures
            verdict_is(
                r,
                if last_used_bit(last_octet, trailer_bit_count) == 0 {
                    Err(
                        self.step@.error(
                            ErrorKind::TrailingZeroBit,
                            "Trailing zero bit in named BIT STRING"@,
                        ),
                    )
                } else {
                    Ok(())
                },
            ),
    {
        let last_value_bit_mask: u8 = 1u8 << trailer_bit_count;
        if last_value_bit_mask & last_octet == 0 {
            assert(last_value_bit_mask & last_octet == last_octet & last_value_bit_mask)
                by (bit_vector);
            Err(
                self.step.create_error(
                    ErrorKind::TrailingZeroBit,
                    "Trailing zero bit in named BIT STRING",
                ),
            )
        } else {
            assert(last_value_bit_mask & last_octet == last_octet & last_value_bit_mask)
                by (bit_vector);
            Ok(())
        }
    }
}

impl<'a> Decoder for BitStringDecoder<'a> {
    open spec fn wf(&self) -> bool {
        self.step.wf() && self.step.asn1_spec is Type
    }

    open spec fn raw_verdict(&self) -> Result<(), ErrorView> {
        bit_string_verdict(self.step@)
    }

    open spec fn decoded(&self) -> Result<ValueView, ErrorView> {
        Ok(
            ValueView::BitString {
                padding: self.step@.value()[0],
                octets: self.step@.value().subrange(1, self.step@.value().len() as int),
            },
        )
    }

    open spec fn decoded_verdict(&self, value: ValueView) -> Result<(), ErrorView> {
        Ok(())
    }

    fn verify_raw(&self) -> (r: Result<(), DecodeError>) {
        match check_primitive(&self.step, "BIT STRING") {
            Err(e) => {
                return Err(e);
            },
            Ok(_) => (),
        };
        let value = self.step.value_substrate();
        let value_len: usize = value.len();
        if value_len == 0 {
            return Err(
                self.step.create_error(ErrorKind::UnderRun, "Substrate under-run in BIT STRING"),
            );
        }
        let trailer_bit_count: u8 = value[0];
        if trailer_bit_count > 7 || (value_len == 1 && trailer_bit_count != 0) {
            return Err(
                self.step.create_error(
                    ErrorKind::InvalidTrailerLength(trailer_bit_count),
                    trailer_length(trailer_bit_count).as_str(),
                ),
            );
        }
        if value_len >= 2 {
            let last_octet: u8 = value[value_len - 1];
            assert(1 <= (1u8 << trailer_bit_count)) by (bit_vector)
                requires
                    trailer_bit_count <= 7,
            ;
            let mask: u8 = (1u8 << trailer_bit_count) - 1;
            let trailer_bits: u8 = last_octet & mask;
            if trailer_bits != 0 {
                return Err(
                    self.step.create_error(
                        ErrorKind::NonZeroTrailer,
                        "Non-zero trailer value in BIT STRING",
                    ),
                );
            }
            let named: bool = match self.step.asn1_spec() {
                SchemaNode::Type(ty) => ty.named_bits,
                SchemaNode::TagMap { .. } => false,
            };
            if named {
                return self.check_named_bit_string(trailer_bit_count, last_octet);
            }
        }
        Ok(())
    }

    fn decode(&self) -> (r: Result<Value, DecodeError>) {
        let value = self.step.value_substrate();
        let octets = slice_to_vec(slice_subrange(value, 1, value.len()));
        Ok(Value::BitString { padding: value[0], octets })
    }

    fn verify_decoded(&self, asn1_value: &Value) -> (r: Result<(), DecodeError>) {
        Ok(())
    }
}

pub struct OctetStringDecoder<'a> {
    pub step: DecodeStep<'a>,
}

impl<'a> OctetStringDecoder<'a> {
    pub fn new(step: DecodeStep<'a>) -> (decoder: Self)
        ensures
            decoder.step == step,
    {
        Self { step }
    }
}

impl<'a> Decoder for OctetStringDecoder<'a> {
    open spec fn wf(&self) -> bool {
        self.step.wf()
    }

    open spec fn raw_verdict(&self) -> Result<(), ErrorView> {
        primitive_verdict(self.step@, "OCTET STRING"@)
    }

    open spec fn decoded(&self) -> Result<ValueView, ErrorView> {
        Ok(ValueView::OctetString(self.step@.value()))
    }

    open spec fn decoded_verdict(&self, value: ValueView) -> Result<(), ErrorView> {
        Ok(())
    }

    fn verify_raw(&self) -> (r: Result<(), DecodeError>) {
        check_primitive(&self.step, "OCTET STRING")
    }

    fn decode(&self) -> (r: Result<Value, DecodeError>) {
        Ok(Value::OctetString(slice_to_vec(self.step.value_substrate())))
    }

    fn verify_decoded(&self, asn1_value: &Value) -> (r: Result<(), DecodeError>) {
        Ok(())
    }
}

/// The rules of a NULL: primitive, and no octets.
pub open spec fn null_verdict(step: StepView) -> Result<(), ErrorView> {
    if !step.is_primitive() {
        Err(step.error(ErrorKind::InvalidFormat, invalid_format_text("NULL"@)))
    } else if step.header.length != 0 {
        Err(step.error(ErrorKind::InvalidLength(step.header.length), "Invalid NULL value length"@))
    } else {
        Ok(())
    }
}

pub struct NullDecoder<'a> {
    pub step: DecodeStep<'a>,
}

impl<'a> NullDecoder<'a> {
    pub fn new(step: DecodeStep<'a>) -> (decoder: Self)
        ensures
            decoder.step == step,
    {
        Self { step }
    }
}

impl<'a> Decoder for NullDecoder<'a> {
    open spec fn wf(&self) -> bool {
        self.step.wf()
    }

    open spec fn raw_verdict(&self) -> Result<(), ErrorView> {
        null_verdict(self.step@)
    }

    open spec fn decoded(&self) -> Result<ValueView, ErrorView> {
        Ok(ValueView::Null)
    }

    open spec fn decoded_verdict(&self, value: ValueView) -> Result<(), ErrorView> {
        Ok(())
    }

    fn verify_raw(&self) -> (r: Result<(), DecodeError>) {
        match check_primitive(&self.step, "NULL") {
            Err(e) => {
                return Err(e);
            },
            Ok(_) => (),
        };
        let length: usize = self.step.value_substrate_len();
        if length == 0 {
            Ok(())
        } else {
            Err(
                self.step.create_error(
                    ErrorKind::InvalidLength(length),
                    "Invalid NULL value length",
                ),
            )
        }
    }

    fn decode(&self) -> (r: Result<Value, DecodeError>) {
        Ok(Value::Null)
    }

    fn verify_decoded(&self, asn1_value: &Value) -> (r: Result<(), DecodeError>) {
        Ok(())
    }
}

/// What the parser of object identifiers makes of `octets`: the arcs, or
/// the parser's message.
pub uninterp spec fn der_oid_arcs(octets: Seq<u8>) -> Result<Seq<u32>, Seq<char>>;

/// `der::asn1::ObjectIdentifier::from_bytes`, with the arcs of the result
/// handed out by `ObjectIdentifier::arcs`.
///
/// The arcs, or the message of the failure, are a function of the octets.
#[verifier::external_body]
fn oid_arcs(octets: &[u8]) -> (r: Result<Vec<u32>, String>)
    ensures
        match r {
            Ok(arcs) => der_oid_arcs(octets@) == Ok::<Seq<u32>, Seq<char>>(arcs@),
            Err(text) => der_oid_arcs(octets@) == Err::<Seq<u32>, Seq<char>>(text@),
        },
{
    match der::asn1::ObjectIdentifier::from_bytes(octets) {
        Ok(oid) => Ok(itertools::Itertools::collect_vec(oid.arcs())),
        Err(e) => Err(e.to_string()),
    }
}

/// The value of an OBJECT IDENTIFIER with the given parse of its octets.
pub open spec fn object_identifier_outcome(
    step: StepView,
    parsed: Result<Seq<u32>, Seq<char>>,
) -> Result<ValueView, ErrorView> {
    match parsed {
        Ok(arcs) => Ok(ValueView::ObjectIdentifier(arcs)),
        Err(text) => Err(step.error(ErrorKind::MalformedOid, text)),
    }
}

pub struct ObjectIdentifierDecoder<'a> {
    pub step: DecodeStep<'a>,
}

impl<'a> ObjectIdentifierDecoder<'a> {
    pub fn new(step: DecodeStep<'a>) -> (decoder: Self)
        ensures
            decoder.step == step,
    {
        Self { step }
    }

    /// The value of the OBJECT IDENTIFIER, given what the parser made of its octets.
    pub fn finish(&self, parsed: Result<Vec<u32>, String>) -> (r: Result<Value, DecodeError>)
        ensures
            outcome_is(
                r,
                object_identifier_outcome(
                    self.step@,
                    match parsed {
                        Ok(arcs) => Ok(arcs@),
                        Err(text) => Err(text@),
                    },
                ),
            ),
    {
        match parsed {
            Ok(arcs) => Ok(Value::ObjectIdentifier(arcs)),
            Err(text) => Err(self.step.create_error(ErrorKind::MalformedOid, text.as_str())),
        }
    }
}

impl<'a> Decoder for ObjectIdentifierDecoder<'a> {
    open spec fn wf(&self) -> bool {
        self.step.wf()
    }

    open spec fn raw_verdict(&self) -> Result<(), ErrorView> {
        primitive_verdict(self.step@, "OBJECT IDENTIFIER"@)
    }

    open spec fn decoded(&self) -> Result<ValueView, ErrorView> {
        object_identifier_outcome(self.step@, der_oid_arcs(self.step@.value()))
    }

    open spec fn decoded_verdict(&self, value: ValueView) -> Result<(), ErrorView> {
        Ok(())
    }

    fn verify_raw(&self) -> (r: Result<(), DecodeError>) {
        check_primitive(&self.step, "OBJECT IDENTIFIER")
    }

    fn decode(&self) -> (r: Result<Value, DecodeError>) {
        self.finish(oid_arcs(self.step.value_substrate()))
    }

    fn verify_decoded(&self, asn1_value: &Value) -> (r: Result<(), DecodeError>) {
        Ok(())
    }
}

pub struct CharacterStringDecoder<'a> {
    pub step: DecodeStep<'a>,
    /// The name of the family in what failures say.
    pub label: &'static str,
}

impl<'a> CharacterStringDecoder<'a> {
    pub fn new(step: DecodeStep<'a>, label: &'static str) -> (decoder: Self)
        ensures
            decoder.step == step,
            decoder.label == label,
    {
        Self { step, label }
    }
}

impl<'a> Decoder for CharacterStringDecoder<'a> {
    open spec fn wf(&self) -> bool {
        self.step.wf()
    }

    open spec fn raw_verdict(&self) -> Result<(), ErrorView> {
        primitive_verdict(self.step@, self.label@)
    }

    open spec fn decoded(&self) -> Result<ValueView, ErrorView> {
        Ok(ValueView::CharacterString(self.step@.value()))
    }

    open spec fn decoded_verdict(&self, value: ValueView) -> Result<(), ErrorView> {
        Ok(())
    }

    fn verify_raw(&self) -> (r: Result<(), DecodeError>) {
        check_primitive(&self.step, self.label)
    }

    fn decode(&self) -> (r: Result<Value, DecodeError>) {
        Ok(Value::CharacterString(slice_to_vec(self.step.value_substrate())))
    }

    fn verify_decoded(&self, asn1_value: &Value) -> (r: Result<(), DecodeError>) {
        Ok(())
    }
}

/// Whether an octet is a character of a PrintableString: a letter, a
/// digit, a space, or one of `'()+,-./:=?`.
pub open spec fn is_printable(c: u8) -> bool {
    ||| 0x41 <= c <= 0x5A
    ||| 0x61 <= c <= 0x7A
    ||| 0x30 <= c <= 0x39
    ||| c == 0x20
    ||| 0x27 <= c <= 0x29
    ||| 0x2B <= c <= 0x2F
    ||| c == 0x3A
    ||| c == 0x3D
    ||| c == 0x3F
}

/// Whether every octet is a character of a PrintableString.
pub open spec fn all_printable(octets: Seq<u8>) -> bool {
    forall|i: int| 0 <= i < octets.len() ==> is_printable(#[trigger] octets[i])
}

/// What the check of a PrintableString says of one that it refuses.
pub open spec fn not_printable_text() -> Seq<char> {
    "malformed ASN.1 DER value for PrintableString"@
}

/// `der::asn1::PrintableStringRef::new`.
///
/// It accepts octets within the parser's limit if and only if each is a
/// letter, a digit, a space or one of `'()+,-./:=?`; what it says of any
/// others is always the same.
#[verifier::external_body]
fn printable_string(octets: &[u8]) -> (r: Result<(), String>)
    requires
        octets@.len() <= MAX_SUBSTRATE_LEN,
    ensures
        match r {
            Ok(_) => all_printable(octets@),
            Err(text) => !all_printable(octets@) && text@ == not_printable_text(),
        },
{
    match der::asn1::PrintableStringRef::new(octets) {
        Ok(_) => Ok(()),
        Err(e) => Err(e.to_string()),
    }
}

/// The rules of a PrintableString: primitive, and no character outside its set.
pub open spec fn printable_string_verdict(step: StepView) -> Result<(), ErrorView> {
    if !step.is_primitive() {
        Err(step.error(ErrorKind::InvalidFormat, invalid_format_text("PRINTABLESTRING"@)))
    } else if !all_printable(step.value()) {
        Err(step.error(ErrorKind::NotPrintable, printable_text(not_printable_text())))
    } else {
        Ok(())
    }
}

pub struct PrintableStringDecoder<'a> {
    pub step: DecodeStep<'a>,
}

impl<'a> PrintableStringDecoder<'a> {
    pub fn new(step: DecodeStep<'a>) -> (decoder: Self)
        ensures
            decoder.step == step,
    {
        Self { step }
    }
}

impl<'a> Decoder for PrintableStringDecoder<'a> {
    open spec fn wf(&self) -> bool {
        self.step.wf()
    }

    open spec fn raw_verdict(&self) -> Result<(), ErrorView> {
        printable_string_verdict(self.step@)
    }

    open spec fn decoded(&self) -> Result<ValueView, ErrorView> {
        Ok(ValueView::CharacterString(self.step@.value()))
    }

    open spec fn decoded_verdict(&self, value: ValueView) -> Result<(), ErrorView> {
        Ok(())
    }

    fn verify_raw(&self) -> (r: Result<(), DecodeError>) {
        match check_primitive(&self.step, "PRINTABLESTRING") {
            Err(e) => {
                return Err(e);
            },
            Ok(_) => (),
        };
        match printable_string(self.step.value_substrate()) {
            Ok(_) => Ok(()),
            Err(text) => Err(
                self.step.create_error(ErrorKind::NotPrintable, printable(text.as_str()).as_str()),
            ),
        }
    }

    fn decode(&self) -> (r: Result<Value, DecodeError>) {
        Ok(Value::CharacterString(slice_to_vec(self.step.value_substrate())))
    }

    fn verify_decoded(&self, asn1_value: &Value) -> (r: Result<(), DecodeError>) {
        Ok(())
    }
}

/// Whether `asn1_value` keeps the bounds that the type of `step` sets on
/// the number of components of an aggregate.
pub fn check_consistency(step: &DecodeStep, asn1_value: &Value) -> (r: Result<(), DecodeError>)
    requires
        step.asn1_spec is Type,
    ensures
        verdict_is(r, consistency(step@, asn1_value@)),
{
    let size = match step.asn1_spec() {
        SchemaNode::Type(ty) => ty.size,
        SchemaNode::TagMap { .. } => vstd::pervasive::unreached(),
    };
    let range = match size {
        None => {
            return Ok(());
        },
        Some(range) => range,
    };
    proof {
        lemma_aggregate_views(*asn1_value);
    }
    let count: usize = match asn1_value {
        Value::Sequence(slots) => {
            let mut present: usize = 0;
            let mut i: usize = 0;
            while i < slots.len()
                invariant
                    i <= slots@.len(),
                    present <= i,
                    present == count_present(slots_view(slots@).subrange(0, i as int)),
                decreases slots@.len() - i,
            {
                assert(slots_view(slots@).subrange(0, i + 1).drop_last() == slots_view(
                    slots@,
                ).subrange(0, i as int));
                if slots[i].is_some() {
                    present += 1;
                }
                i += 1;
            }
            assert(slots_view(slots@).subrange(0, i as int) == slots_view(slots@));
            present
        },
        Value::SequenceOf(elements) => elements.len(),
        Value::SetOf(elements) => elements.len(),
        _ => 0,
    };
    if range.min <= count && count <= range.max {
        Ok(())
    } else {
        Err(
            step.create_error(
                ErrorKind::Inconsistent,
                size_description(count, range.min, range.max).as_str(),
            ),
        )
    }
}

pub struct SequenceDecoder<'a> {
    pub step: DecodeStep<'a>,
}

impl<'a> SequenceDecoder<'a> {
    pub fn new(step: DecodeStep<'a>) -> (decoder: Self)
        ensures
            decoder.step == step,
    {
        Self { step }
    }

    /// The component at `index`; a SEQUENCE has no TLV beyond its last component.
    pub fn get_named_type_at_index<'b>(&self, named_types: &'b Vec<NamedType>, index: usize) -> (r:
        Result<&'b NamedType, DecodeError>)
        ensures
            match r {
                Ok(named_type) => index < named_types@.len() && *named_type
                    == named_types@[index as int],
                Err(e) => index >= named_types@.len() && e@ == self.step@.error(
                    ErrorKind::ExcessiveComponents,
                    "Excessive components detected"@,
                ),
            },
    {
        if index < named_types.len() {
            Ok(&named_types[index])
        } else {
            Err(
                self.step.create_error(
                    ErrorKind::ExcessiveComponents,
                    "Excessive components detected",
                ),
            )
        }
    }

    /// The node that the TLV for the component at `index` is held against.
    pub fn get_component_type_for_index<'b>(
        &self,
        named_types: &'b Vec<NamedType>,
        named_type: &'b NamedType,
        is_optional_or_defaulted: bool,
        index: usize,
    ) -> (node: SchemaNode<'b>)
        requires
            index < named_types@.len(),
            *named_type == named_types@[index as int],
            is_optional_or_defaulted == !named_type.is_required(),
        ensures
            node == component_node(named_types, index as int),
            node.wf(),
    {
        if is_optional_or_defaulted {
            tag_map_near_position(named_types, index)
        } else {
            SchemaNode::Type(&named_type.asn1_object)
        }
    }

    /// The failure of a value that is sent although it is the default of its component.
    pub fn check_decoded_for_default_value(&self, named_type: &NamedType, decoded: &Value) -> (r:
        Option<DecodeError>)
        ensures
            match r {
                Some(e) => e@ == self.step@.error(
                    ErrorKind::ExplicitDefault,
                    "Explicitly encoded default value"@,
                ) && (
                named_type.default matches Some(default) && decoded@ == default@),
                None => !(named_type.default matches Some(default) && decoded@ == default@),
            },
    {
        match &named_type.default {
            Some(default) => {
                if values_equal(decoded, default) {
                    return Some(
                        self.step.create_error(
                            ErrorKind::ExplicitDefault,
                            "Explicitly encoded default value",
                        ),
                    );
                }
            },
            None => {},
        }
        None
    }
}

impl<'a> Decoder for SequenceDecoder<'a> {
    open spec fn wf(&self) -> bool {
        self.step.wf() && self.step.asn1_spec is Type
    }

    open spec fn raw_verdict(&self) -> Result<(), ErrorView> {
        constructed_verdict(self.step@, "SEQUENCE"@)
    }

    open spec fn decoded(&self) -> Result<ValueView, ErrorView> {
        sequence_decoded(self.step@)
    }

    open spec fn decoded_verdict(&self, value: ValueView) -> Result<(), ErrorView> {
        consistency(self.step@, value)
    }

    fn verify_raw(&self) -> (r: Result<(), DecodeError>) {
        check_constructed(&self.step, "SEQUENCE")
    }

    fn decode(&self) -> (r: Result<Value, DecodeError>)
        decreases self.step.substrate@.len(), self.step@.ty().depth(), 1nat,
    {
        let ty: &Asn1Type = match self.step.asn1_spec() {
            SchemaNode::Type(ty) => ty,
            SchemaNode::TagMap { .. } => vstd::pervasive::unreached(),
        };
        let named_types: &Vec<NamedType> = &ty.components;
        let count: usize = named_types.len();
        let mut slots: Vec<Option<Value>> = Vec::new();
        let mut filled: usize = 0;
        while filled < count
            invariant
                filled <= count,
                slots@.len() == filled,
                forall|j: int| 0 <= j < filled ==> slots@[j] is None,
            decreases count - filled,
        {
            slots.push(None);
            filled += 1;
        }
        assert(slots_view(slots@) =~= empty_slots(count as nat));
        let value = self.step.value_substrate();
        let value_len: usize = self.step.value_substrate_len();
        let mut index: usize = 0;
        let mut relative_offset: usize = 0;
        while relative_offset < value_len
            invariant
                self.step.wf(),
                self.step.asn1_spec == SchemaNode::Type(ty),
                named_types == &ty.components,
                count == named_types@.len(),
                value@ == self.step@.value(),
                value_len == self.step.header.length,
                relative_offset <= value_len,
                slots@.len() == count,
                sequence_walk(self.step@, 0, 0, empty_slots(count as nat)) == sequence_walk(
                    self.step@,
                    index as nat,
                    relative_offset as nat,
                    slots_view(slots@),
                ),
            decreases value_len - relative_offset,
        {
            let offset_from_parent_tlv: usize = self.step.offset() + self.step.header_len()
                + relative_offset;
            let named_type = match self.get_named_type_at_index(named_types, index) {
                Ok(n) => n,
                Err(e) => {
                    return Err(e);
                },
            };
            let is_optional_or_defaulted: bool = named_type.optional_or_defaulted();
            let component_type = self.get_component_type_for_index(
                named_types,
                named_type,
                is_optional_or_defaulted,
                index,
            );
            let rest = slice_subrange(value, relative_offset, value.len());
            let (_, tlv) = match read_tlv(rest, offset_from_parent_tlv) {
                Ok(header_and_tlv) => header_and_tlv,
                Err(e) => {
                    return Err(e);
                },
            };
            proof {
                lemma_near_end(named_types@, index as int);
                if !named_type.is_required() {
                    lemma_types_depth(named_types@, index as int);
                }
            }
            let (decoded, position) = match decode_der_rec(
                self.step.module(),
                tlv,
                Some(component_type),
                None,
                offset_from_parent_tlv,
            ) {
                Ok(d) => d,
                Err(e) => {
                    return Err(e);
                },
            };
            match self.check_decoded_for_default_value(named_type, &decoded) {
                Some(e) => {
                    return Err(e);
                },
                None => (),
            };
            if is_optional_or_defaulted {
                index = position;
            }
            let ghost before = slots_view(slots@);
            slots.set(index, Some(decoded));
            assert(slots_view(slots@) =~= before.update(index as int, Some(decoded@)));
            index += 1;
            relative_offset += tlv.len();
        }
        let mut checked: usize = 0;
        while checked < count
            invariant
                checked <= count,
                self.step.asn1_spec == SchemaNode::Type(ty),
                named_types == &ty.components,
                count == named_types@.len(),
                slots@.len() == count,
                sequence_walk(self.step@, 0, 0, empty_slots(count as nat)) == Ok::<
                    Seq<Option<ValueView>>,
                    ErrorView,
                >(slots_view(slots@)),
                forall|j: int|
                    0 <= j < checked && (#[trigger] named_types@[j]).is_required() ==> slots@[j]
                        is Some,
            decreases count - checked,
        {
            if !named_types[checked].optional_or_defaulted() && slots[checked].is_none() {
                assert(slots_view(slots@)[checked as int] is None);
                assert(named_types@[checked as int].is_required());
                assert(!required_present(named_types@, slots_view(slots@)));
                return Err(
                    self.step.create_error(
                        ErrorKind::MissingRequired,
                        "Missing required components",
                    ),
                );
            }
            checked += 1;
        }
        assert(required_present(named_types@, slots_view(slots@))) by {
            assert forall|i: int|
                0 <= i < named_types@.len() && (#[trigger] named_types@[i]).is_required() implies i
                < slots_view(slots@).len() && slots_view(slots@)[i] is Some by {
                assert(slots@[i] is Some);
            }
        }
        let asn1_object = Value::Sequence(slots);
        proof {
            lemma_aggregate_views(asn1_object);
        }
        Ok(asn1_object)
    }

    fn verify_decoded(&self, asn1_value: &Value) -> (r: Result<(), DecodeError>) {
        check_consistency(&self.step, asn1_value)
    }
}

/// Whether `a` sorts after `b`, octet by octet, a proper prefix sorting first.
pub fn is_sorted_after(a: &[u8], b: &[u8]) -> (after: bool)
    ensures
        after == sorts_after(a@, b@),
{
    let mut i: usize = 0;
    while i < a.len() && i < b.len()
        invariant
            i <= a@.len(),
            i <= b@.len(),
            a@.subrange(0, i as int) == b@.subrange(0, i as int),
        decreases a@.len() - i,
    {
        if a[i] != b[i] {
            if a[i] > b[i] {
                return true;
            }
            assert forall|j: int| 0 <= j <= b@.len() && j <= a@.len() && #[trigger] a@.subrange(
                0,
                j,
            ) == b@.subrange(0, j) implies !(if j == b@.len() {
                j < a@.len()
            } else {
                j < a@.len() && a@[j] > b@[j]
            }) by {
                if j > i {
                    assert(a@.subrange(0, j)[i as int] == b@.subrange(0, j)[i as int]);
                } else if j < i {
                    assert(a@.subrange(0, i as int)[j] == b@.subrange(0, i as int)[j]);
                }
            }
            return false;
        }
        assert(a@.subrange(0, i + 1) =~= a@.subrange(0, i as int).push(a@[i as int]));
        assert(b@.subrange(0, i + 1) =~= b@.subrange(0, i as int).push(b@[i as int]));
        i += 1;
    }
    if a.len() > b.len() {
        true
    } else {
        assert forall|j: int| 0 <= j <= b@.len() && j <= a@.len() && #[trigger] a@.subrange(
            0,
            j,
        ) == b@.subrange(0, j) implies !(if j == b@.len() {
            j < a@.len()
        } else {
            j < a@.len() && a@[j] > b@[j]
        }) by {
            if j < a@.len() {
                assert(a@.subrange(0, i as int)[j] == b@.subrange(0, i as int)[j]);
            }
        }
        false
    }
}

pub struct SequenceOfDecoder<'a> {
    pub step: DecodeStep<'a>,
}

impl<'a> SequenceOfDecoder<'a> {
    pub fn new(step: DecodeStep<'a>) -> (decoder: Self)
        ensures
            decoder.step == step,
    {
        Self { step }
    }
}

/// The node that the elements of a SEQUENCE OF or a SET OF are held against.
fn element_type<'a>(ty: &'a Asn1Type) -> (node: Option<SchemaNode<'a>>)
    ensures
        node == element_node(*ty),
        node matches Some(n) ==> n.wf(),
{
    match &ty.element {
        Some(element) => Some(SchemaNode::Type(&**element)),
        None => None,
    }
}

impl<'a> Decoder for SequenceOfDecoder<'a> {
    open spec fn wf(&self) -> bool {
        self.step.wf() && self.step.asn1_spec is Type
    }

    open spec fn raw_verdict(&self) -> Result<(), ErrorView> {
        constructed_verdict(self.step@, "SEQUENCE"@)
    }

    open spec fn decoded(&self) -> Result<ValueView, ErrorView> {
        match elements_walk(self.step@, false, 0, None, Seq::empty()) {
            Ok(elements) => Ok(ValueView::SequenceOf(elements)),
            Err(e) => Err(e),
        }
    }

    open spec fn decoded_verdict(&self, value: ValueView) -> Result<(), ErrorView> {
        consistency(self.step@, value)
    }

    fn verify_raw(&self) -> (r: Result<(), DecodeError>) {
        check_constructed(&self.step, "SEQUENCE")
    }

    fn decode(&self) -> (r: Result<Value, DecodeError>)
        decreases self.step.substrate@.len(), self.step@.ty().depth(), 1nat,
    {
        let ty: &Asn1Type = match self.step.asn1_spec() {
            SchemaNode::Type(ty) => ty,
            SchemaNode::TagMap { .. } => vstd::pervasive::unreached(),
        };
        let component_type = element_type(ty);
        let mut elements: Vec<Value> = Vec::new();
        let value = self.step.value_substrate();
        let value_len: usize = self.step.value_substrate_len();
        let mut relative_offset: usize = 0;
        let ghost mut last: Option<Seq<u8>> = None;
        assert(elements_view(elements@) =~= Seq::empty());
        while relative_offset < value_len
            invariant
                self.step.wf(),
                self.step.asn1_spec == SchemaNode::Type(ty),
                component_type == element_node(*ty),
                component_type matches Some(n) ==> n.wf(),
                value@ == self.step@.value(),
                value_len == self.step.header.length,
                relative_offset <= value_len,
                elements_walk(self.step@, false, 0, None, Seq::empty()) == elements_walk(
                    self.step@,
                    false,
                    relative_offset as nat,
                    last,
                    elements_view(elements@),
                ),
            decreases value_len - relative_offset,
        {
            let offset_from_parent_tlv: usize = self.step.offset() + self.step.header_len()
                + relative_offset;
            let rest = slice_subrange(value, relative_offset, value.len());
            let (_, tlv) = match read_tlv(rest, offset_from_parent_tlv) {
                Ok(header_and_tlv) => header_and_tlv,
                Err(e) => {
                    return Err(e);
                },
            };
            let (decoded, _) = match decode_der_rec(
                self.step.module(),
                tlv,
                component_type,
                None,
                offset_from_parent_tlv,
            ) {
                Ok(d) => d,
                Err(e) => {
                    return Err(e);
                },
            };
            let ghost before = elements_view(elements@);
            elements.push(decoded);
            assert(elements_view(elements@) =~= before.push(decoded@));
            proof {
                last = Some(tlv@);
            }
            relative_offset += tlv.len();
        }
        let asn1_object = Value::SequenceOf(elements);
        proof {
            lemma_aggregate_views(asn1_object);
        }
        Ok(asn1_object)
    }

    fn verify_decoded(&self, asn1_value: &Value) -> (r: Result<(), DecodeError>) {
        check_consistency(&self.step, asn1_value)
    }
}

pub struct SetOfDecoder<'a> {
    pub step: DecodeStep<'a>,
}

impl<'a> SetOfDecoder<'a> {
    pub fn new(step: DecodeStep<'a>) -> (decoder: Self)
        ensures
            decoder.step == step,
    {
        Self { step }
    }
}

/// The TLV before, where there is one, as contracts speak of it.
pub open spec fn last_view(last: Option<&[u8]>) -> Option<Seq<u8>> {
    match last {
        Some(tlv) => Some(tlv@),
        None => None,
    }
}

impl<'a> Decoder for SetOfDecoder<'a> {
    open spec fn wf(&self) -> bool {
        self.step.wf() && self.step.asn1_spec is Type
    }

    open spec fn raw_verdict(&self) -> Result<(), ErrorView> {
        constructed_verdict(self.step@, "SET"@)
    }

    open spec fn decoded(&self) -> Result<ValueView, ErrorView> {
        match elements_walk(self.step@, true, 0, None, Seq::empty()) {
            Ok(elements) => Ok(ValueView::SetOf(elements)),
            Err(e) => Err(e),
        }
    }

    open spec fn decoded_verdict(&self, value: ValueView) -> Result<(), ErrorView> {
        consistency(self.step@, value)
    }

    fn verify_raw(&self) -> (r: Result<(), DecodeError>) {
        check_constructed(&self.step, "SET")
    }

    fn decode(&self) -> (r: Result<Value, DecodeError>)
        decreases self.step.substrate@.len(), self.step@.ty().depth(), 1nat,
    {
        let ty: &Asn1Type = match self.step.asn1_spec() {
            SchemaNode::Type(ty) => ty,
            SchemaNode::TagMap { .. } => vstd::pervasive::unreached(),
        };
        let component_type = element_type(ty);
        let mut elements: Vec<Value> = Vec::new();
        let value = self.step.value_substrate();
        let value_len: usize = self.step.value_substrate_len();
        let mut relative_offset: usize = 0;
        let mut last_tlv: Option<&[u8]> = None;
        assert(elements_view(elements@) =~= Seq::empty());
        while relative_offset < value_len
            invariant
                self.step.wf(),
                self.step.asn1_spec == SchemaNode::Type(ty),
                component_type == element_node(*ty),
                component_type matches Some(n) ==> n.wf(),
                value@ == self.step@.value(),
                value_len == self.step.header.length,
                relative_offset <= value_len,
                elements_walk(self.step@, true, 0, None, Seq::empty()) == elements_walk(
                    self.step@,
                    true,
                    relative_offset as nat,
                    last_view(last_tlv),
                    elements_view(elements@),
                ),
            decreases value_len - relative_offset,
        {
            let offset_from_parent_tlv: usize = self.step.offset() + self.step.header_len()
                + relative_offset;
            let rest = slice_subrange(value, relative_offset, value.len());
            let (_, tlv) = match read_tlv(rest, offset_from_parent_tlv) {
                Ok(header_and_tlv) => header_and_tlv,
                Err(e) => {
                    return Err(e);
                },
            };
            match last_tlv {
                Some(before) => {
                    if is_sorted_after(before, tlv) {
                        return Err(
                            self.step.create_error(
                                ErrorKind::OutOfOrder(elements.len()),
                                out_of_order(elements.len()).as_str(),
                            ),
                        );
                    }
                },
                None => {},
            };
            let ghost seen = last_view(last_tlv);
            last_tlv = Some(tlv);
            let (decoded, _) = match decode_der_rec(
                self.step.module(),
                tlv,
                component_type,
                None,
                offset_from_parent_tlv,
            ) {
                Ok(d) => d,
                Err(e) => {
                    return Err(e);
                },
            };
            let ghost before = elements_view(elements@);
            elements.push(decoded);
            assert(elements_view(elements@) =~= before.push(decoded@));
            relative_offset += tlv.len();
        }
        let asn1_object = Value::SetOf(elements);
        proof {
            lemma_aggregate_views(asn1_object);
        }
        Ok(asn1_object)
    }

    fn verify_decoded(&self, asn1_value: &Value) -> (r: Result<(), DecodeError>) {
        check_consistency(&self.step, asn1_value)
    }
}

pub struct AnyDecoder<'a> {
    pub step: DecodeStep<'a>,
}

impl<'a> AnyDecoder<'a> {
    pub fn new(step: DecodeStep<'a>) -> (decoder: Self)
        ensures
            decoder.step == step,
    {
        Self { step }
    }
}

impl<'a> Decoder for AnyDecoder<'a> {
    open spec fn wf(&self) -> bool {
        self.step.wf()
    }

    open spec fn raw_verdict(&self) -> Result<(), ErrorView> {
        Ok(())
    }

    open spec fn decoded(&self) -> Result<ValueView, ErrorView> {
        any_decoded(self.step@)
    }

    open spec fn decoded_verdict(&self, value: ValueView) -> Result<(), ErrorView> {
        Ok(())
    }

    fn verify_raw(&self) -> (r: Result<(), DecodeError>) {
        Ok(())
    }

    fn decode(&self) -> (r: Result<Value, DecodeError>) {
        let is_untagged: bool = match self.step.asn1_spec() {
            SchemaNode::TagMap { entries, start, end } => find_entry(
                entries,
                self.step.tag_set(),
                start,
                end,
            ).is_none(),
            SchemaNode::Type(ty) => !self.step.tag_set().matches(&ty.tag_set),
        };
        let substrate = if is_untagged {
            self.step.substrate()
        } else {
            self.step.value_substrate()
        };
        Ok(Value::Any(slice_to_vec(substrate)))
    }

    fn verify_decoded(&self, asn1_value: &Value) -> (r: Result<(), DecodeError>) {
        Ok(())
    }
}

pub struct ChoiceDecoder<'a> {
    pub step: DecodeStep<'a>,
}

impl<'a> ChoiceDecoder<'a> {
    pub fn new(step: DecodeStep<'a>) -> (decoder: Self)
        ensures
            decoder.step == step,
    {
        Self { step }
    }
}

impl<'a> Decoder for ChoiceDecoder<'a> {
    open spec fn wf(&self) -> bool {
        self.step.wf() && self.step.asn1_spec is Type
    }

    open spec fn raw_verdict(&self) -> Result<(), ErrorView> {
        Ok(())
    }

    open spec fn decoded(&self) -> Result<ValueView, ErrorView> {
        choice_decoded(self.step@)
    }

    open spec fn decoded_verdict(&self, value: ValueView) -> Result<(), ErrorView> {
        Ok(())
    }

    fn verify_raw(&self) -> (r: Result<(), DecodeError>) {
        Ok(())
    }

    fn decode(&self) -> (r: Result<Value, DecodeError>)
        decreases self.step.substrate@.len(), self.step@.ty().depth(), 1nat,
    {
        let ty: &Asn1Type = match self.step.asn1_spec() {
            SchemaNode::Type(ty) => ty,
            SchemaNode::TagMap { .. } => vstd::pervasive::unreached(),
        };
        let alternatives: &Vec<NamedType> = &ty.components;
        let component_tag_map = SchemaNode::TagMap {
            entries: alternatives,
            start: 0,
            end: alternatives.len(),
        };
        assert(component_tag_map == alternatives_node(alternatives));
        if ty.tag_set.matches(self.step.tag_set()) {
            let inner_offset: usize = self.step.header_len() + self.step.offset();
            match decode_der_rec(
                self.step.module(),
                self.step.value_substrate(),
                Some(component_tag_map),
                None,
                inner_offset,
            ) {
                Ok((decoded, position)) => Ok(
                    Value::Choice { position, value: Box::new(decoded) },
                ),
                Err(e) => Err(e),
            }
        } else {
            match get_chosen_spec(&self.step.module(), &component_tag_map, self.step.tag_set()) {
                None => match decode_explicit(self.step) {
                    Ok((decoded, _)) => Ok(decoded),
                    Err(e) => Err(e),
                },
                Some((position, chosen_spec)) => {
                    let new_step = DecodeStep::new(
                        self.step.module(),
                        self.step.substrate(),
                        self.step.header(),
                        SchemaNode::Type(chosen_spec),
                        self.step.tag_set(),
                        self.step.offset(),
                    );
                    proof {
                        lemma_lookup_in_window(
                            alternatives@,
                            self.step.tag_set@,
                            0,
                            alternatives@.len() as int,
                        );
                        lemma_types_depth(alternatives@, position as int);
                        assert(new_step@ == step_as(self.step@, chosen_spec));
                    }
                    match decode_asn1_spec_value(new_step) {
                        Ok(decoded) => Ok(Value::Choice { position, value: Box::new(decoded) }),
                        Err(e) => Err(e),
                    }
                },
            }
        }
    }

    fn verify_decoded(&self, asn1_value: &Value) -> (r: Result<(), DecodeError>) {
        Ok(())
    }
}

} // verus!
