//! What a decode yields, as a function of the octets and the schema.
//!
//! The functions here say, for every buffer and every schema node, which
//! value or which failure the decoder owes. They walk the encoding as the
//! encoding is built: a TLV, the chain of tags in front of it, the type that
//! the schema has for those tags, and the TLVs nested in its value.

use crate::asn1_type::{
    bit_string_verdict, boolean_verdict, constructed_verdict, der_oid_arcs, integer_verdict,
    null_verdict, object_identifier_outcome, primitive_verdict, printable_string_verdict,
};
use crate::decoder::{spec_read_tlv, StepView};
use crate::error::{
    out_of_order_text, plain_error, size_text, unsupported_text, ErrorKind, ErrorView,
};
use crate::schema::{
    lemma_lookup_in_window, lemma_types_depth, lookup, near_end, Asn1Type, NamedType,
    SchemaNode, DECODER_TYPE_ANY, DECODER_TYPE_BITSTRING, DECODER_TYPE_BMPSTRING,
    DECODER_TYPE_BOOLEAN, DECODER_TYPE_CHOICE, DECODER_TYPE_ENUMERATED,
    DECODER_TYPE_GENERALIZEDTIME, DECODER_TYPE_GRAPHICSTRING, DECODER_TYPE_IA5STRING,
    DECODER_TYPE_INTEGER, DECODER_TYPE_NULL, DECODER_TYPE_NUMERICSTRING,
    DECODER_TYPE_OBJECTIDENTIFIER, DECODER_TYPE_OCTETSTRING, DECODER_TYPE_PRINTABLESTRING,
    DECODER_TYPE_SEQUENCE, DECODER_TYPE_SEQUENCEOF, DECODER_TYPE_SETOF,
    DECODER_TYPE_TELETEXSTRING, DECODER_TYPE_UNIVERSALSTRING, DECODER_TYPE_UTCTIME,
    DECODER_TYPE_UTF8STRING, DECODER_TYPE_VIDEOTEXSTRING, DECODER_TYPE_VISIBLESTRING,
};
use crate::tag::{tag_of_octet, tags_match, Tag, CLASS_UNIVERSAL, FORMAT_CONSTRUCTED};
use crate::value::{count_present, integer_view, twos_complement, ValueView};
use crate::NESTED_EXPLICIT_TAG_LIMIT;
use vstd::prelude::*;

verus! {

/// The chain of tags in front of the value of a TLV: its own tag, then
/// those of the explicit layers that were peeled to reach it.
pub open spec fn tag_set_of(substrate: Seq<u8>, inherited: Option<Seq<Tag>>) -> Seq<Tag> {
    match inherited {
        Some(outer) => seq![tag_of_octet(substrate[0])] + outer,
        None => seq![tag_of_octet(substrate[0])],
    }
}

/// Whether `a` sorts after `b`, octet by octet, a proper prefix sorting first.
pub open spec fn sorts_after(a: Seq<u8>, b: Seq<u8>) -> bool {
    exists|i: int|
        0 <= i <= b.len() && i <= a.len() && #[trigger] a.subrange(0, i) == b.subrange(0, i) && (
        if i == b.len() {
            i < a.len()
        } else {
            i < a.len() && a[i] > b[i]
        })
}

/// How many components a value holds.
pub open spec fn component_count(value: ValueView) -> nat {
    match value {
        ValueView::Sequence(slots) => count_present(slots),
        ValueView::SequenceOf(elements) => elements.len(),
        ValueView::SetOf(elements) => elements.len(),
        _ => 0,
    }
}

/// Whether an aggregate keeps the bounds that its type sets on the number
/// of its components.
pub open spec fn consistency(step: StepView, value: ValueView) -> Result<(), ErrorView> {
    match step.ty().size {
        Some(range) => if range.min <= component_count(value) <= range.max {
            Ok(())
        } else {
            Err(
                step.error(
                    ErrorKind::Inconsistent,
                    size_text(component_count(value) as usize, range.min, range.max),
                ),
            )
        },
        None => Ok(()),
    }
}

/// The outcome of the phases in turn: the first failure, or the value.
pub open spec fn in_phases(
    raw: Result<(), ErrorView>,
    decoded: Result<ValueView, ErrorView>,
    checked: spec_fn(ValueView) -> Result<(), ErrorView>,
) -> Result<ValueView, ErrorView> {
    match raw {
        Err(e) => Err(e),
        Ok(_) => match decoded {
            Err(e) => Err(e),
            Ok(value) => match checked(value) {
                Err(e) => Err(e),
                Ok(_) => Ok(value),
            },
        },
    }
}

/// The step that holds the same TLV against the type `ty`.
pub open spec fn step_as<'a>(step: StepView<'a>, ty: &'a Asn1Type) -> StepView<'a> {
    StepView {
        substrate: step.substrate,
        header: step.header,
        asn1_spec: SchemaNode::Type(ty),
        tag_set: step.tag_set,
        offset: step.offset,
    }
}

/// Where the octets of the value of a step start in the buffer.
pub open spec fn value_offset(step: StepView) -> usize {
    (step.offset + step.header.encoded_len) as usize
}

/// What the buffer `substrate`, which lies at `offset`, decodes to against
/// `node`, with `inherited` the tags of the explicit layers already peeled:
/// the value, and the position of the entry of a map that it was decoded as.
///
/// The buffer must hold one TLV and nothing after it. The tags of the TLV
/// pick the type from the node; where the node has none for them, the TLV
/// is taken for an explicit layer and peeled.
pub open spec fn spec_decode_der_rec(
    substrate: Seq<u8>,
    node: Option<SchemaNode>,
    inherited: Option<Seq<Tag>>,
    offset: usize,
) -> Result<(ValueView, usize), ErrorView>
    decreases substrate.len(),
        match node {
            Some(n) => n.depth(),
            None => 0,
        },
        3nat,
        0nat,
{
    match node {
        None => Err(plain_error(ErrorKind::NoSpecification, offset)),
        Some(node) => match spec_read_tlv(substrate, offset) {
            Err(e) => Err(e),
            Ok((header, tlv)) => if substrate.len() != tlv.len() {
                Err(
                    plain_error(
                        ErrorKind::TrailingOctets((substrate.len() - tlv.len()) as usize),
                        offset,
                    ),
                )
            } else {
                let tags = tag_set_of(substrate, inherited);
                let step = StepView { substrate, header, asn1_spec: node, tag_set: tags, offset };
                match node.chosen(tags) {
                    None => spec_decode_explicit(step),
                    Some((position, ty)) => {
                        proof {
                            match node {
                                SchemaNode::Type(_) => {},
                                SchemaNode::TagMap { entries, start, end } => {
                                    lemma_lookup_in_window(
                                        entries@,
                                        tags,
                                        start as int,
                                        end as int,
                                    );
                                    if node.wf() {
                                        lemma_types_depth(entries@, position as int);
                                    }
                                },
                            }
                        }
                        if node.wf() {
                            match spec_decode_value(step_as(step, &ty)) {
                                Ok(value) => Ok((value, position)),
                                Err(e) => Err(e),
                            }
                        } else {
                            Err(step.error(ErrorKind::SpecMismatch, mismatch_text()))
                        }
                    },
                }
            },
        },
    }
}

/// What a TLV that the schema has no type for decodes to, as an explicit
/// layer: its value, decoded against the same node with the tag of the layer
/// added to the chain.
///
/// The layer must be constructed and not of the universal class, and the
/// chain, the tag of the layer among its tags, must be no longer than the limit.
pub open spec fn spec_decode_explicit(step: StepView) -> Result<(ValueView, usize), ErrorView>
    decreases step.substrate.len(), 0nat, 0nat, 0nat,
{
    if step.tag_set.len() > NESTED_EXPLICIT_TAG_LIMIT {
        Err(step.error(ErrorKind::NestedExplicitTagLimit, explicit_limit_text()))
    } else if step.tag_set[0].tag_format == FORMAT_CONSTRUCTED && step.tag_set[0].tag_class
        != CLASS_UNIVERSAL && 1 <= step.header.encoded_len <= step.substrate.len() {
        spec_decode_der_rec(
            step.value(),
            Some(step.asn1_spec),
            Some(step.tag_set),
            value_offset(step),
        )
    } else {
        Err(step.error(ErrorKind::SpecMismatch, mismatch_text()))
    }
}

/// What the TLV of a step decodes to as a value of the type of the step:
/// the rules of the type on the raw octets, then the value, then the
/// constraints of the schema on the value.
pub open spec fn spec_decode_value(step: StepView) -> Result<ValueView, ErrorView>
    decreases step.substrate.len(), step.ty().depth(), 2nat, 0nat,
{
    let id = step.ty().type_id;
    if id == DECODER_TYPE_BOOLEAN {
        in_phases(
            boolean_verdict(step),
            Ok(ValueView::Boolean(step.value()[0] != 0)),
            |v: ValueView| Ok(()),
        )
    } else if id == DECODER_TYPE_INTEGER || id == DECODER_TYPE_ENUMERATED {
        in_phases(
            integer_verdict(step, integer_label_text(id)),
            Ok(integer_view(twos_complement(step.value()))),
            |v: ValueView| Ok(()),
        )
    } else if id == DECODER_TYPE_BITSTRING {
        in_phases(
            bit_string_verdict(step),
            Ok(
                ValueView::BitString {
                    padding: step.value()[0],
                    octets: step.value().subrange(1, step.value().len() as int),
                },
            ),
            |v: ValueView| Ok(()),
        )
    } else if id == DECODER_TYPE_OCTETSTRING {
        in_phases(
            primitive_verdict(step, "OCTET STRING"@),
            Ok(ValueView::OctetString(step.value())),
            |v: ValueView| Ok(()),
        )
    } else if id == DECODER_TYPE_NULL {
        in_phases(null_verdict(step), Ok(ValueView::Null), |v: ValueView| Ok(()))
    } else if id == DECODER_TYPE_OBJECTIDENTIFIER {
        in_phases(
            primitive_verdict(step, "OBJECT IDENTIFIER"@),
            object_identifier_outcome(step, der_oid_arcs(step.value())),
            |v: ValueView| Ok(()),
        )
    } else if id == DECODER_TYPE_PRINTABLESTRING {
        in_phases(
            printable_string_verdict(step),
            Ok(ValueView::CharacterString(step.value())),
            |v: ValueView| Ok(()),
        )
    } else if is_character_string(id) {
        in_phases(
            primitive_verdict(step, string_label_text(id)),
            Ok(ValueView::CharacterString(step.value())),
            |v: ValueView| Ok(()),
        )
    } else if id == DECODER_TYPE_SEQUENCE {
        in_phases(
            constructed_verdict(step, "SEQUENCE"@),
            sequence_decoded(step),
            |v: ValueView| consistency(step, v),
        )
    } else if id == DECODER_TYPE_SEQUENCEOF {
        in_phases(
            constructed_verdict(step, "SEQUENCE"@),
            match elements_walk(step, false, 0, None, Seq::empty()) {
                Ok(elements) => Ok(ValueView::SequenceOf(elements)),
                Err(e) => Err(e),
            },
            |v: ValueView| consistency(step, v),
        )
    } else if id == DECODER_TYPE_SETOF {
        in_phases(
            constructed_verdict(step, "SET"@),
            match elements_walk(step, true, 0, None, Seq::empty()) {
                Ok(elements) => Ok(ValueView::SetOf(elements)),
                Err(e) => Err(e),
            },
            |v: ValueView| consistency(step, v),
        )
    } else if id == DECODER_TYPE_ANY {
        in_phases(Ok(()), any_decoded(step), |v: ValueView| Ok(()))
    } else if id == DECODER_TYPE_CHOICE {
        in_phases(Ok(()), choice_decoded(step), |v: ValueView| Ok(()))
    } else {
        Err(step.error(ErrorKind::UnsupportedType(id), unsupported_text(id)))
    }
}

/// What is said where the chain of tags has reached the limit.
pub open spec fn explicit_limit_text() -> Seq<char> {
    "Exceeded limit on nested explicit tags"@
}

/// What is said where the schema has no type for the tags of a TLV.
pub open spec fn mismatch_text() -> Seq<char> {
    "Substrate does not match ASN.1 specification"@
}

/// The name of a family of integers in what failures say.
pub open spec fn integer_label_text(id: u8) -> Seq<char> {
    if id == DECODER_TYPE_ENUMERATED {
        "ENUMERATED"@
    } else {
        "INTEGER"@
    }
}

/// The name of a family of character strings or times in what failures say.
pub open spec fn string_label_text(id: u8) -> Seq<char> {
    if id == DECODER_TYPE_UTF8STRING {
        "UTF8STRING"@
    } else if id == DECODER_TYPE_NUMERICSTRING {
        "NUMERICSTRING"@
    } else if id == DECODER_TYPE_TELETEXSTRING {
        "TELETEXSTRING"@
    } else if id == DECODER_TYPE_VIDEOTEXSTRING {
        "VIDEOTEXSTRING"@
    } else if id == DECODER_TYPE_IA5STRING {
        "IA5STRING"@
    } else if id == DECODER_TYPE_UTCTIME {
        "UTCTIME"@
    } else if id == DECODER_TYPE_GENERALIZEDTIME {
        "GENERALIZEDTIME"@
    } else if id == DECODER_TYPE_GRAPHICSTRING {
        "GRAPHICSTRING"@
    } else if id == DECODER_TYPE_VISIBLESTRING {
        "VISIBLESTRING"@
    } else if id == DECODER_TYPE_UNIVERSALSTRING {
        "UNIVERSALSTRING"@
    } else {
        "BMPSTRING"@
    }
}

/// Whether a type family is a character string or a time, which decode to
/// their octets.
pub open spec fn is_character_string(id: u8) -> bool {
    ||| id == DECODER_TYPE_UTF8STRING
    ||| id == DECODER_TYPE_NUMERICSTRING
    ||| id == DECODER_TYPE_TELETEXSTRING
    ||| id == DECODER_TYPE_VIDEOTEXSTRING
    ||| id == DECODER_TYPE_IA5STRING
    ||| id == DECODER_TYPE_UTCTIME
    ||| id == DECODER_TYPE_GENERALIZEDTIME
    ||| id == DECODER_TYPE_GRAPHICSTRING
    ||| id == DECODER_TYPE_VISIBLESTRING
    ||| id == DECODER_TYPE_UNIVERSALSTRING
    ||| id == DECODER_TYPE_BMPSTRING
}

/// Whether every component that may not be left out has its slot filled.
pub open spec fn required_present(
    components: Seq<NamedType>,
    slots: Seq<Option<ValueView>>,
) -> bool {
    forall|i: int|
        0 <= i < components.len() && (#[trigger] components[i]).is_required() ==> i < slots.len()
            && slots[i] is Some
}

/// The slots of a SEQUENCE before any component is read.
pub open spec fn empty_slots(count: nat) -> Seq<Option<ValueView>> {
    Seq::new(count, |i: int| None::<ValueView>)
}

/// What the TLV of a step decodes to as a SEQUENCE: the components found
/// by walking its value, if none that is required is missing.
pub open spec fn sequence_decoded(step: StepView) -> Result<ValueView, ErrorView>
    decreases step.substrate.len(), step.ty().depth(), 1nat, step.header.length + 1,
{
    match sequence_walk(step, 0, 0, empty_slots(step.ty().components@.len())) {
        Err(e) => Err(e),
        Ok(slots) => if required_present(step.ty().components@, slots) {
            Ok(ValueView::Sequence(slots))
        } else {
            Err(step.error(ErrorKind::MissingRequired, "Missing required components"@))
        },
    }
}

/// The node that the TLV for the component at `index` is held against: the
/// type of the component where it may not be left out, else the map of the
/// components that may stand there.
pub open spec fn component_node<'a>(components: &'a Vec<NamedType>, index: int) -> SchemaNode<'a> {
    if components@[index].is_required() {
        SchemaNode::Type(&components@[index].asn1_object)
    } else {
        SchemaNode::TagMap {
            entries: components,
            start: index as usize,
            end: near_end(components@, index) as usize,
        }
    }
}

/// The slots of a SEQUENCE after the walk over its value from the octet
/// `rel` on, with `index` the next component due and `slots` what was found
/// so far.
///
/// Each TLV is decoded as the component due, or, where that one may be left
/// out, as the component that its tags pick among those that may stand
/// there; the walk goes on behind that component. A TLV beyond the last
/// component fails, and so does a value equal to the default of the
/// component that was due.
pub open spec fn sequence_walk(
    step: StepView,
    index: nat,
    rel: nat,
    slots: Seq<Option<ValueView>>,
) -> Result<Seq<Option<ValueView>>, ErrorView>
    decreases step.substrate.len(), step.ty().depth(), 1nat, step.header.length - rel,
{
    let components = step.ty().components;
    if rel >= step.header.length || !step.wf() {
        Ok(slots)
    } else if index >= components@.len() {
        Err(step.error(ErrorKind::ExcessiveComponents, "Excessive components detected"@))
    } else {
        let named = components@[index as int];
        let offset = (value_offset(step) + rel) as usize;
        let rest = step.value().subrange(rel as int, step.value().len() as int);
        match spec_read_tlv(rest, offset) {
            Err(e) => Err(e),
            Ok((_, tlv)) => match spec_decode_der_rec(
                tlv,
                Some(component_node(&components, index as int)),
                None,
                offset,
            ) {
                Err(e) => Err(e),
                Ok((decoded, position)) => if named.default matches Some(default) && decoded
                    == default@ {
                    Err(step.error(ErrorKind::ExplicitDefault, "Explicitly encoded default value"@))
                } else {
                    let at = if named.is_required() {
                        index
                    } else {
                        position as nat
                    };
                    sequence_walk(step, at + 1, rel + tlv.len(), slots.update(at as int, Some(decoded)))
                },
            },
        }
    }
}

/// The elements of a SEQUENCE OF or a SET OF after the walk over its value
/// from the octet `rel` on, with `elements` what was found so far and
/// `last` the TLV before.
///
/// Each TLV is decoded as the type of the elements. In a SET OF, which is
/// `ordered`, a TLV that sorts before the one in front of it fails.
pub open spec fn elements_walk(
    step: StepView,
    ordered: bool,
    rel: nat,
    last: Option<Seq<u8>>,
    elements: Seq<ValueView>,
) -> Result<Seq<ValueView>, ErrorView>
    decreases step.substrate.len(), step.ty().depth(), 1nat, step.header.length - rel,
{
    if rel >= step.header.length || !step.wf() {
        Ok(elements)
    } else {
        let offset = (value_offset(step) + rel) as usize;
        let rest = step.value().subrange(rel as int, step.value().len() as int);
        match spec_read_tlv(rest, offset) {
            Err(e) => Err(e),
            Ok((_, tlv)) => if ordered && (last matches Some(before) && sorts_after(before, tlv)) {
                Err(
                    step.error(
                        ErrorKind::OutOfOrder(elements.len() as usize),
                        out_of_order_text(elements.len() as usize),
                    ),
                )
            } else {
                match spec_decode_der_rec(tlv, element_node(step.ty()), None, offset) {
                    Err(e) => Err(e),
                    Ok((decoded, _)) => elements_walk(
                        step,
                        ordered,
                        rel + tlv.len(),
                        Some(tlv),
                        elements.push(decoded),
                    ),
                }
            },
        }
    }
}

/// The node that the elements of a SEQUENCE OF or a SET OF are held against.
pub open spec fn element_node(ty: Asn1Type) -> Option<SchemaNode<'static>> {
    match ty.element {
        Some(element) => Some(SchemaNode::Type(&*element)),
        None => None,
    }
}

/// The map from tags to the alternatives of a CHOICE.
pub open spec fn alternatives_node<'a>(alternatives: &'a Vec<NamedType>) -> SchemaNode<'a> {
    SchemaNode::TagMap { entries: alternatives, start: 0, end: alternatives@.len() as usize }
}

/// What the TLV of a step decodes to as a CHOICE.
///
/// Under the tags of the CHOICE itself, the value of the TLV holds the
/// alternative. Else the TLV is the alternative that its tags pick; where
/// they pick none, it is taken for an explicit layer.
pub open spec fn choice_decoded(step: StepView) -> Result<ValueView, ErrorView>
    decreases step.substrate.len(), step.ty().depth(), 1nat, 0nat,
{
    let alternatives = step.ty().components;
    if !step.wf() {
        Err(step.error(ErrorKind::SpecMismatch, mismatch_text()))
    } else if tags_match(step.ty().tag_set@, step.tag_set) {
        match spec_decode_der_rec(
            step.value(),
            Some(alternatives_node(&alternatives)),
            None,
            value_offset(step),
        ) {
            Ok((decoded, position)) => Ok(
                ValueView::Choice { position, value: Box::new(decoded) },
            ),
            Err(e) => Err(e),
        }
    } else {
        match lookup(alternatives@, step.tag_set, 0, alternatives@.len() as int) {
            None => match spec_decode_explicit(step) {
                Ok((decoded, _)) => Ok(decoded),
                Err(e) => Err(e),
            },
            Some(k) => {
                proof {
                    lemma_lookup_in_window(
                        alternatives@,
                        step.tag_set,
                        0,
                        alternatives@.len() as int,
                    );
                    lemma_types_depth(alternatives@, k);
                }
                match spec_decode_value(step_as(step, &alternatives@[k].asn1_object)) {
                    Ok(decoded) => Ok(
                        ValueView::Choice { position: k as usize, value: Box::new(decoded) },
                    ),
                    Err(e) => Err(e),
                }
            },
        }
    }
}

/// Whether the tags of a step are not those that its node expects of an ANY.
pub open spec fn any_is_untagged(step: StepView) -> bool {
    match step.asn1_spec {
        SchemaNode::TagMap { entries, start, end } => lookup(
            entries@,
            step.tag_set,
            start as int,
            end as int,
        ) is None,
        SchemaNode::Type(ty) => !tags_match(step.tag_set, ty.tag_set@),
    }
}

/// What the TLV of a step decodes to as an ANY: the octets of the whole
/// TLV where its tags are not those of the ANY, else those of its value.
pub open spec fn any_decoded(step: StepView) -> Result<ValueView, ErrorView> {
    Ok(
        ValueView::Any(
            if any_is_untagged(step) {
                step.substrate
            } else {
                step.value()
            },
        ),
    )
}

/// What a buffer decodes to against a type of the schema.
pub open spec fn spec_decode_der(substrate: Seq<u8>, asn1_spec: &Asn1Type) -> Result<
    ValueView,
    ErrorView,
> {
    match spec_decode_der_rec(substrate, Some(SchemaNode::Type(asn1_spec)), None, 0) {
        Ok((value, _)) => Ok(value),
        Err(e) => Err(e),
    }
}

} // verus!
