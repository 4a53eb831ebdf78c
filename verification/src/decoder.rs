//! Reading one TLV, and the step of a decode: a TLV with the schema node
//! that it is held against.

use crate::asn1_type::{
    AnyDecoder, BitStringDecoder, BooleanDecoder, CharacterStringDecoder, ChoiceDecoder, Decoder,
    IntegerDecoder, NullDecoder, ObjectIdentifierDecoder, OctetStringDecoder,
    PrintableStringDecoder, SequenceDecoder, SequenceOfDecoder, SetOfDecoder,
};
use crate::error::{unsupported, DecodeError, ErrorKind, ErrorView};
use crate::model::{in_phases, integer_label_text, spec_decode_value, string_label_text};
use crate::schema::{
    Asn1Type, SchemaNode, DECODER_TYPE_ANY, DECODER_TYPE_BITSTRING, DECODER_TYPE_BMPSTRING,
    DECODER_TYPE_BOOLEAN, DECODER_TYPE_CHOICE, DECODER_TYPE_ENUMERATED,
    DECODER_TYPE_GENERALIZEDTIME, DECODER_TYPE_GRAPHICSTRING, DECODER_TYPE_IA5STRING,
    DECODER_TYPE_INTEGER, DECODER_TYPE_NULL, DECODER_TYPE_NUMERICSTRING,
    DECODER_TYPE_OBJECTIDENTIFIER, DECODER_TYPE_OCTETSTRING, DECODER_TYPE_PRINTABLESTRING,
    DECODER_TYPE_SEQUENCE, DECODER_TYPE_SEQUENCEOF, DECODER_TYPE_SETOF,
    DECODER_TYPE_TELETEXSTRING, DECODER_TYPE_UNIVERSALSTRING, DECODER_TYPE_UTCTIME,
    DECODER_TYPE_UTF8STRING, DECODER_TYPE_VIDEOTEXSTRING, DECODER_TYPE_VISIBLESTRING,
};
use crate::tag::{Asn1Tag, Tag, TagSet};
use crate::value::{outcome_is, unsigned_value, Value, ValueView};
use crate::NativeHelperModule;
use der::Reader;
use vstd::prelude::*;
use vstd::slice::slice_subrange;

verus! {

/// The longest buffer that the TLV parser takes.
pub const MAX_SUBSTRATE_LEN: usize = 0xfff_ffff;

/// The tag and length octets of a TLV, by what they say.
#[derive(Clone, Copy, Debug, PartialEq, Eq, Structural)]
pub struct Header {
    /// How many octets the value has.
    pub length: usize,
    /// How many octets the header itself has.
    pub encoded_len: usize,
}

/// What the TLV parser makes of the header at the start of `substrate`:
/// the length of the header and that of the value, or the parser's message,
/// which for a buffer beyond the parser's limit is its refusal of the buffer.
pub uninterp spec fn der_peek_header(substrate: Seq<u8>) -> Result<(nat, nat), Seq<char>>;

/// The TLV parser's message where `substrate` does not hold a whole TLV.
pub uninterp spec fn der_tlv_error(substrate: Seq<u8>) -> Seq<char>;

/// How many octets the shortest encoding of a length takes.
pub open spec fn length_octets(length: nat) -> nat {
    if length < 0x80 {
        1
    } else if length < 0x100 {
        2
    } else if length < 0x1_0000 {
        3
    } else if length < 0x100_0000 {
        4
    } else {
        5
    }
}

/// Whether the octets behind the tag octet of `substrate` hold `length` in
/// the shortest definite form: one octet below `0x80` that is the length,
/// or an octet that counts the octets behind it, `0x80` added, and those
/// octets with the length in big-endian order and no more of them than the
/// length needs.
pub open spec fn length_in_shortest_form(substrate: Seq<u8>, length: nat) -> bool {
    let count = length_octets(length);
    &&& substrate.len() >= 1 + count
    &&& if length < 0x80 {
        substrate[1] == length
    } else {
        &&& substrate[1] == 0x80 + (count - 1)
        &&& unsigned_value(substrate.subrange(2, (1 + count) as int)) == length
    }
}

/// `der::SliceReader::new` over `substrate` and `der::Reader::peek_header`
/// on it, with the length of the header taken from `der::Encode::encoded_len`.
///
/// The parser's answer is a function of the octets, named `der_peek_header`;
/// where the reader refuses the buffer, the answer is its refusal. Of a
/// header that is accepted this states what the source shows: the buffer is
/// within the parser's limit, the tag is one octet and the length stands in
/// its shortest definite form, so the header is as long as that form makes
/// it, it lies within the buffer, and the length is within the parser's limit.
#[verifier::external_body]
fn peek_header(substrate: &[u8]) -> (r: Result<Header, String>)
    ensures
        match r {
            Ok(h) => der_peek_header(substrate@) == Ok::<(nat, nat), Seq<char>>(
                (h.encoded_len as nat, h.length as nat),
            ) && h.encoded_len == 1 + length_octets(h.length as nat) && h.encoded_len
                <= substrate@.len() <= MAX_SUBSTRATE_LEN && h.length <= MAX_SUBSTRATE_LEN
                && length_in_shortest_form(substrate@, h.length as nat),
            Err(text) => der_peek_header(substrate@) == Err::<(nat, nat), Seq<char>>(text@),
        },
{
    match der::SliceReader::new(substrate) {
        Err(e) => Err(e.to_string()),
        Ok(reader) => match reader.peek_header() {
            Ok(h) => Ok(
                Header {
                    length: usize::try_from(h.length).unwrap(),
                    encoded_len: usize::try_from(der::Encode::encoded_len(&h).unwrap()).unwrap(),
                },
            ),
            Err(e) => Err(e.to_string()),
        },
    }
}

/// `der::SliceReader::new` over `substrate` and `der::Reader::tlv_bytes` on it.
///
/// It hands out the octets of the first TLV where the header is accepted and
/// the buffer holds as many octets as the header and the value take; else it
/// fails, with a message that is a function of the octets.
#[verifier::external_body]
fn tlv_bytes<'a>(substrate: &'a [u8]) -> (r: Result<&'a [u8], String>)
    ensures
        match r {
            Ok(tlv) => der_peek_header(substrate@) matches Ok((encoded_len, length))
                && encoded_len + length <= substrate@.len() && tlv@ == substrate@.subrange(
                0,
                (encoded_len + length) as int,
            ),
            Err(text) => text@ == der_tlv_error(substrate@) && (der_peek_header(
                substrate@,
            ) matches Ok((encoded_len, length)) ==> encoded_len + length > substrate@.len()),
        },
{
    match der::SliceReader::new(substrate) {
        Err(e) => Err(e.to_string()),
        Ok(mut reader) => match reader.tlv_bytes() {
            Ok(tlv) => Ok(tlv),
            Err(e) => Err(e.to_string()),
        },
    }
}

/// The first TLV of `substrate`: its header and its octets, header and value.
///
/// It is there where the parser accepts the header, whose length stands in
/// the shortest definite form, and the buffer, which is within the parser's
/// limit, holds all that the header claims.
pub open spec fn spec_read_tlv(substrate: Seq<u8>, offset: usize) -> Result<
    (Header, Seq<u8>),
    ErrorView,
> {
    match der_peek_header(substrate) {
        Err(text) => Err(
            ErrorView {
                kind: ErrorKind::HeaderRead,
                offset,
                schema_name: Seq::empty(),
                description: text,
            },
        ),
        Ok((encoded_len, length)) => if encoded_len == 1 + length_octets(length)
            && length_in_shortest_form(substrate, length) && encoded_len + length
            <= substrate.len() <= MAX_SUBSTRATE_LEN {
            Ok(
                (
                    Header { length: length as usize, encoded_len: encoded_len as usize },
                    substrate.subrange(0, (encoded_len + length) as int),
                ),
            )
        } else {
            Err(
                ErrorView {
                    kind: ErrorKind::TlvRead,
                    offset,
                    schema_name: Seq::empty(),
                    description: der_tlv_error(substrate),
                },
            )
        },
    }
}

/// Reads the TLV at the start of `substrate`, which lies at `offset` in the buffer.
pub fn read_tlv<'a>(substrate: &'a [u8], offset: usize) -> (r: Result<
    (Header, &'a [u8]),
    DecodeError,
>)
    ensures
        match r {
            Ok((header, tlv)) => spec_read_tlv(substrate@, offset) == Ok::<
                (Header, Seq<u8>),
                ErrorView,
            >((header, tlv@)),
            Err(e) => spec_read_tlv(substrate@, offset) == Err::<(Header, Seq<u8>), ErrorView>(e@),
        },
{
    let header = match peek_header(substrate) {
        Err(text) => {
            return Err(DecodeError::new(ErrorKind::HeaderRead, offset, String::new(), text));
        },
        Ok(h) => h,
    };
    let tlv_octets = match tlv_bytes(substrate) {
        Err(text) => {
            return Err(DecodeError::new(ErrorKind::TlvRead, offset, String::new(), text));
        },
        Ok(tlv) => tlv,
    };
    Ok((header, tlv_octets))
}

/// What holds of every TLV that is read: it starts the buffer, and it is as
/// long as its header and its value together.
pub proof fn lemma_read_tlv(substrate: Seq<u8>, offset: usize)
    ensures
        spec_read_tlv(substrate, offset) matches Ok((header, tlv)) ==> {
            &&& 2 <= header.encoded_len <= 6
            &&& tlv.len() == header.encoded_len + header.length
            &&& tlv.len() <= substrate.len()
            &&& tlv == substrate.subrange(0, tlv.len() as int)
        },
        spec_read_tlv(substrate, offset) matches Err(e) ==> e.offset == offset && (e.kind
            == ErrorKind::HeaderRead || e.kind == ErrorKind::TlvRead),
{
}

/// No TLV of indefinite length is read: a length octet of `0x80` fails.
pub proof fn lemma_indefinite_length_is_refused(substrate: Seq<u8>, offset: usize)
    requires
        substrate.len() >= 2,
        substrate[1] == 0x80,
    ensures
        spec_read_tlv(substrate, offset) is Err,
{
}

/// A TLV in the short form is read with the length that its length octet holds.
pub proof fn lemma_short_form_length(substrate: Seq<u8>, offset: usize)
    requires
        substrate.len() >= 2,
        substrate[1] < 0x80,
    ensures
        spec_read_tlv(substrate, offset) matches Ok((header, tlv)) ==> header == (Header {
            length: substrate[1] as usize,
            encoded_len: 2,
        }) && tlv == substrate.subrange(0, 2 + substrate[1]),
{
}

/// A TLV in the long form is read with the length that its length octets
/// hold, and only where no shorter form holds that length: the first length
/// octet counts at most four octets behind it, and as many as the
/// shortest form of the length has.
pub proof fn lemma_long_form_length(substrate: Seq<u8>, offset: usize)
    requires
        substrate.len() >= 2,
        substrate[1] > 0x80,
    ensures
        spec_read_tlv(substrate, offset) matches Ok((header, tlv)) ==> {
            let count = (substrate[1] - 0x80) as int;
            &&& 1 <= count <= 4
            &&& header.encoded_len == 2 + count
            &&& header.length == unsigned_value(substrate.subrange(2, 2 + count))
            &&& length_octets(header.length as nat) == 1 + count
            &&& header.length >= 0x80
        },
{
}

/// One step of a decode: a TLV, the schema node that it is held against,
/// the chain of tags in front of its value, and where it lies in the buffer.
#[derive(Clone, Copy, Debug)]
pub struct DecodeStep<'a> {
    pub module: NativeHelperModule,
    /// The octets of the TLV, header and value.
    pub substrate: &'a [u8],
    pub header: Header,
    pub asn1_spec: SchemaNode<'a>,
    /// The tag of the TLV, then those of the explicit layers around it.
    pub tag_set: &'a TagSet,
    /// Offset in the buffer of the first octet of the TLV.
    pub offset: usize,
}

/// A step, as contracts speak of it.
pub struct StepView<'a> {
    pub substrate: Seq<u8>,
    pub header: Header,
    pub asn1_spec: SchemaNode<'a>,
    pub tag_set: Seq<Tag>,
    pub offset: usize,
}

impl<'a> View for DecodeStep<'a> {
    type V = StepView<'a>;

    open spec fn view(&self) -> StepView<'a> {
        StepView {
            substrate: self.substrate@,
            header: self.header,
            asn1_spec: self.asn1_spec,
            tag_set: self.tag_set@,
            offset: self.offset,
        }
    }
}

impl<'a> StepView<'a> {
    /// Whether the parts of the step fit together: the substrate is one
    /// TLV, as long as its header says, within the parser's limit and
    /// within the buffer, and the chain of tags is not empty.
    pub open spec fn wf(self) -> bool {
        &&& 1 <= self.header.encoded_len
        &&& self.header.encoded_len + self.header.length == self.substrate.len()
        &&& self.substrate.len() <= MAX_SUBSTRATE_LEN
        &&& self.offset + self.substrate.len() <= usize::MAX
        &&& self.asn1_spec.wf()
        &&& 1 <= self.tag_set.len()
    }

    /// The octets of the value.
    pub open spec fn value(self) -> Seq<u8> {
        self.substrate.subrange(self.header.encoded_len as int, self.substrate.len() as int)
    }

    /// Whether the identifier octet says that the value is primitive.
    pub open spec fn is_primitive(self) -> bool {
        self.substrate[0] & crate::tag::FORMAT_MASK == crate::tag::FORMAT_SIMPLE
    }

    /// The type that the step decodes as, where its node is a type.
    pub open spec fn ty(self) -> Asn1Type {
        match self.asn1_spec {
            SchemaNode::Type(ty) => *ty,
            SchemaNode::TagMap { .. } => arbitrary(),
        }
    }

    /// The failure of the step by `kind`, which says `description`.
    pub open spec fn error(self, kind: ErrorKind, description: Seq<char>) -> ErrorView {
        ErrorView { kind, offset: self.offset, schema_name: self.asn1_spec.name(), description }
    }
}

impl<'a> DecodeStep<'a> {
    /// Whether the parts of the step fit together.
    pub open spec fn wf(&self) -> bool {
        self@.wf()
    }

    pub fn new(
        module: NativeHelperModule,
        substrate: &'a [u8],
        header: Header,
        asn1_spec: SchemaNode<'a>,
        tag_set: &'a TagSet,
        offset: usize,
    ) -> (step: Self)
        ensures
            step == (DecodeStep { module, substrate, header, asn1_spec, tag_set, offset }),
    {
        Self { module, substrate, header, asn1_spec, tag_set, offset }
    }

    pub fn module(&self) -> (module: NativeHelperModule)
        ensures
            module == self.module,
    {
        self.module
    }

    pub fn substrate(&self) -> (substrate: &'a [u8])
        ensures
            substrate == self.substrate,
    {
        self.substrate
    }

    pub fn header(&self) -> (header: Header)
        ensures
            header == self.header,
    {
        self.header
    }

    pub fn header_len(&self) -> (len: usize)
        ensures
            len == self.header.encoded_len,
    {
        self.header.encoded_len
    }

    pub fn tag(&self) -> (tag: Asn1Tag)
        requires
            self.substrate@.len() >= 1,
        ensures
            tag@ == self.substrate@[0],
    {
        Asn1Tag::new(self.substrate[0])
    }

    pub fn asn1_spec(&self) -> (node: SchemaNode<'a>)
        ensures
            node == self.asn1_spec,
    {
        self.asn1_spec
    }

    pub fn tag_set(&self) -> (tags: &'a TagSet)
        ensures
            tags == self.tag_set,
    {
        self.tag_set
    }

    pub fn value_substrate_len(&self) -> (len: usize)
        ensures
            len == self.header.length,
    {
        self.header.length
    }

    pub fn value_substrate(&self) -> (value: &'a [u8])
        requires
            self.header.encoded_len <= self.substrate@.len(),
        ensures
            value@ == self@.value(),
    {
        slice_subrange(self.substrate, self.header.encoded_len, self.substrate.len())
    }

    pub fn offset(&self) -> (offset: usize)
        ensures
            offset == self.offset,
    {
        self.offset
    }

    /// The failure of the step by `kind`, which says `description`.
    pub fn create_error(&self, kind: ErrorKind, description: &str) -> (error: DecodeError)
        ensures
            error@ == self@.error(kind, description@),
    {
        DecodeError::new(kind, self.offset, self.asn1_spec.node_name(), description.to_owned())
    }
}

/// Runs the three phases of a decoder in turn, up to the first that fails.
fn run_phases<D: Decoder>(decoder: &D) -> (r: Result<Value, DecodeError>)
    requires
        decoder.wf(),
    ensures
        outcome_is(
            r,
            in_phases(
                decoder.raw_verdict(),
                decoder.decoded(),
                |v: ValueView| decoder.decoded_verdict(v),
            ),
        ),
{
    match decoder.verify_raw() {
        Err(e) => {
            return Err(e);
        },
        Ok(_) => (),
    };
    match decoder.decode() {
        Err(e) => Err(e),
        Ok(decoded) => match decoder.verify_decoded(&decoded) {
            Err(e) => Err(e),
            Ok(_) => Ok(decoded),
        },
    }
}

/// The name of a family of integers in what failures say.
fn integer_label(type_id: u8) -> (label: &'static str)
    ensures
        label@ == integer_label_text(type_id),
{
    if type_id == DECODER_TYPE_ENUMERATED {
        "ENUMERATED"
    } else {
        "INTEGER"
    }
}

/// The name of a family of character strings or times in what failures say.
fn string_label(type_id: u8) -> (label: &'static str)
    ensures
        label@ == string_label_text(type_id),
{
    if type_id == DECODER_TYPE_UTF8STRING {
        "UTF8STRING"
    } else if type_id == DECODER_TYPE_NUMERICSTRING {
        "NUMERICSTRING"
    } else if type_id == DECODER_TYPE_TELETEXSTRING {
        "TELETEXSTRING"
    } else if type_id == DECODER_TYPE_VIDEOTEXSTRING {
        "VIDEOTEXSTRING"
    } else if type_id == DECODER_TYPE_IA5STRING {
        "IA5STRING"
    } else if type_id == DECODER_TYPE_UTCTIME {
        "UTCTIME"
    } else if type_id == DECODER_TYPE_GENERALIZEDTIME {
        "GENERALIZEDTIME"
    } else if type_id == DECODER_TYPE_GRAPHICSTRING {
        "GRAPHICSTRING"
    } else if type_id == DECODER_TYPE_VISIBLESTRING {
        "VISIBLESTRING"
    } else if type_id == DECODER_TYPE_UNIVERSALSTRING {
        "UNIVERSALSTRING"
    } else {
        "BMPSTRING"
    }
}

/// Decodes the TLV of `step` as a value of the type of the step, with the
/// decoder of the family of the type.
pub fn decode_asn1_spec_value(step: DecodeStep) -> (r: Result<Value, DecodeError>)
    requires
        step.wf(),
        step.asn1_spec is Type,
    ensures
        outcome_is(r, spec_decode_value(step@)),
    decreases step.substrate@.len(), step@.ty().depth(), 2nat,
{
    let type_id: u8 = match step.asn1_spec() {
        SchemaNode::Type(ty) => ty.type_id,
        SchemaNode::TagMap { .. } => vstd::pervasive::unreached(),
    };
    if type_id == DECODER_TYPE_BOOLEAN {
        run_phases(&BooleanDecoder::new(step))
    } else if type_id == DECODER_TYPE_INTEGER || type_id == DECODER_TYPE_ENUMERATED {
        run_phases(&IntegerDecoder::new(step, integer_label(type_id)))
    } else if type_id == DECODER_TYPE_BITSTRING {
        run_phases(&BitStringDecoder::new(step))
    } else if type_id == DECODER_TYPE_OCTETSTRING {
        run_phases(&OctetStringDecoder::new(step))
    } else if type_id == DECODER_TYPE_NULL {
        run_phases(&NullDecoder::new(step))
    } else if type_id == DECODER_TYPE_OBJECTIDENTIFIER {
        run_phases(&ObjectIdentifierDecoder::new(step))
    } else if type_id == DECODER_TYPE_PRINTABLESTRING {
        run_phases(&PrintableStringDecoder::new(step))
    } else if type_id == DECODER_TYPE_UTF8STRING || type_id == DECODER_TYPE_NUMERICSTRING
        || type_id == DECODER_TYPE_TELETEXSTRING || type_id == DECODER_TYPE_VIDEOTEXSTRING
        || type_id == DECODER_TYPE_IA5STRING || type_id == DECODER_TYPE_UTCTIME || type_id
        == DECODER_TYPE_GENERALIZEDTIME || type_id == DECODER_TYPE_GRAPHICSTRING || type_id
        == DECODER_TYPE_VISIBLESTRING || type_id == DECODER_TYPE_UNIVERSALSTRING || type_id
        == DECODER_TYPE_BMPSTRING {
        run_phases(&CharacterStringDecoder::new(step, string_label(type_id)))
    } else if type_id == DECODER_TYPE_SEQUENCE {
        // The decoders that come back to this function run their phases here:
        // through the bound of `run_phases` the recursion could not be measured.
        let decoder = SequenceDecoder::new(step);
        match decoder.verify_raw() {
            Err(e) => {
                return Err(e);
            },
            Ok(_) => (),
        };
        match decoder.decode() {
            Err(e) => Err(e),
            Ok(decoded) => match decoder.verify_decoded(&decoded) {
                Err(e) => Err(e),
                Ok(_) => Ok(decoded),
            },
        }
    } else if type_id == DECODER_TYPE_SEQUENCEOF {
        let decoder = SequenceOfDecoder::new(step);
        match decoder.verify_raw() {
            Err(e) => {
                return Err(e);
            },
            Ok(_) => (),
        };
        match decoder.decode() {
            Err(e) => Err(e),
            Ok(decoded) => match decoder.verify_decoded(&decoded) {
                Err(e) => Err(e),
                Ok(_) => Ok(decoded),
            },
        }
    } else if type_id == DECODER_TYPE_SETOF {
        let decoder = SetOfDecoder::new(step);
        match decoder.verify_raw() {
            Err(e) => {
                return Err(e);
            },
            Ok(_) => (),
        };
        match decoder.decode() {
            Err(e) => Err(e),
            Ok(decoded) => match decoder.verify_decoded(&decoded) {
                Err(e) => Err(e),
                Ok(_) => Ok(decoded),
            },
        }
    } else if type_id == DECODER_TYPE_ANY {
        run_phases(&AnyDecoder::new(step))
    } else if type_id == DECODER_TYPE_CHOICE {
        let decoder = ChoiceDecoder::new(step);
        match decoder.verify_raw() {
            Err(e) => {
                return Err(e);
            },
            Ok(_) => (),
        };
        match decoder.decode() {
            Err(e) => Err(e),
            Ok(decoded) => match decoder.verify_decoded(&decoded) {
                Err(e) => Err(e),
                Ok(_) => Ok(decoded),
            },
        }
    } else {
        Err(step.create_error(ErrorKind::UnsupportedType(type_id), unsupported(type_id).as_str()))
    }
}

} // verus!
