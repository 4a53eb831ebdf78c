//! A type-directed decoder for DER, the canonical encoding of ASN.1 values.
//!
//! A decode takes a byte buffer and a schema and yields a tree of typed
//! values, or the first violation of the encoding rules that it meets.

pub mod asn1_type;
pub mod decoder;
pub mod error;
pub mod laws;
pub mod model;
pub mod schema;
pub mod tag;
pub mod value;

use crate::decoder::{decode_asn1_spec_value, read_tlv, DecodeStep};
use crate::error::{DecodeError, ErrorKind, ErrorView};
use crate::model::{
    spec_decode_der, spec_decode_der_rec, spec_decode_explicit, step_as, tag_set_of,
};
use crate::schema::{
    find_entry, lemma_lookup_in_window, lemma_types_depth, Asn1Type, SchemaNode,
};
use crate::tag::{
    tag_of_octet, Asn1Tag, Tag, TagSet, CLASS_UNIVERSAL, FORMAT_CONSTRUCTED,
};
use crate::value::{outcome_is, Value, ValueView};
use vstd::prelude::*;

verus! {

/// How many explicit tags may be nested around a value: a layer is peeled
/// while the chain of tags, its own among them, is no longer than this.
pub const NESTED_EXPLICIT_TAG_LIMIT: usize = 4;

/// The maker of the tags and chains of tags that a decode compares with those of the schema.
#[derive(Clone, Copy, Debug)]
pub struct NativeHelperModule {}

impl NativeHelperModule {
    pub fn new() -> (module: Self) {
        NativeHelperModule {}
    }

    /// The tag that an identifier octet stands for.
    pub fn create_pyasn1_tag(&self, tag: Asn1Tag) -> (made: Tag)
        ensures
            made == tag_of_octet(tag@),
    {
        let id: u8 = tag.tag_id();
        Tag::new(tag.class(), tag.format(), id as u32)
    }

    /// The chain of one tag.
    pub fn create_pyasn1_tagset(&self, pyasn1_tag: &Tag) -> (made: TagSet)
        ensures
            made@ == seq![*pyasn1_tag],
    {
        let mut tags: Vec<Tag> = Vec::new();
        tags.push(*pyasn1_tag);
        TagSet::new(tags)
    }
}

/// The chain of tags, where there is one, as contracts speak of it.
pub open spec fn inherited_view(tag_set: Option<&TagSet>) -> Option<Seq<Tag>> {
    match tag_set {
        Some(tags) => Some(tags@),
        None => None,
    }
}

/// Whether a decode ended as `model` says: with its value and the position
/// of its entry where it has a value, and with its failure where it fails.
pub open spec fn located_outcome_is(
    r: Result<(Value, usize), DecodeError>,
    model: Result<(ValueView, usize), ErrorView>,
) -> bool {
    match r {
        Ok((v, position)) => model == Ok::<(ValueView, usize), ErrorView>((v@, position)),
        Err(e) => model == Err::<(ValueView, usize), ErrorView>(e@),
    }
}

/// Whether `position` is one that a decode against `node` can report: that
/// of an entry of the map, or 0 for a single type.
pub open spec fn position_in(node: SchemaNode, position: usize) -> bool {
    match node {
        SchemaNode::TagMap { start, end, .. } => start <= position < end,
        SchemaNode::Type(_) => position == 0,
    }
}

/// The type of `asn1_spec` that a value under `substrate_tag_set` is
/// decoded as, with the position of its entry in a map; `None` where the
/// node has no type for the tags.
pub fn get_chosen_spec<'a>(
    m: &NativeHelperModule,
    asn1_spec: &SchemaNode<'a>,
    substrate_tag_set: &TagSet,
) -> (chosen: Option<(usize, &'a Asn1Type)>)
    requires
        asn1_spec.wf(),
    ensures
        match chosen {
            Some((position, ty)) => asn1_spec.chosen(substrate_tag_set@) == Some((position, *ty))
                && position_in(*asn1_spec, position),
            None => asn1_spec.chosen(substrate_tag_set@) is None,
        },
{
    match *asn1_spec {
        SchemaNode::TagMap { entries, start, end } => {
            proof {
                lemma_lookup_in_window(entries@, substrate_tag_set@, start as int, end as int);
            }
            match find_entry(entries, substrate_tag_set, start, end) {
                None => None,
                Some(k) => Some((k, &entries[k].asn1_object)),
            }
        },
        SchemaNode::Type(ty) => {
            if substrate_tag_set.matches(&ty.tag_set) || ty.takes(substrate_tag_set) {
                Some((0, ty))
            } else {
                None
            }
        },
    }
}

/// Peels the explicit layer that the TLV of `step` is taken for, and
/// decodes its value against the same node.
pub fn decode_explicit(step: DecodeStep) -> (r: Result<(Value, usize), DecodeError>)
    requires
        step.wf(),
    ensures
        located_outcome_is(r, spec_decode_explicit(step@)),
        r matches Ok((_, position)) ==> position_in(step.asn1_spec, position),
    decreases step.substrate@.len(), 0nat, 0nat,
{
    if step.tag_set().len() > NESTED_EXPLICIT_TAG_LIMIT {
        return Err(
            step.create_error(
                ErrorKind::NestedExplicitTagLimit,
                "Exceeded limit on nested explicit tags",
            ),
        );
    }
    let first_tag = step.tag_set().get(0);
    if first_tag.tag_format == FORMAT_CONSTRUCTED && first_tag.tag_class != CLASS_UNIVERSAL {
        let new_offset: usize = step.offset() + step.header_len();
        decode_der_rec(
            step.module(),
            step.value_substrate(),
            Some(step.asn1_spec()),
            Some(step.tag_set()),
            new_offset,
        )
    } else {
        Err(
            step.create_error(
                ErrorKind::SpecMismatch,
                "Substrate does not match ASN.1 specification",
            ),
        )
    }
}

/// Decodes the one TLV that `substrate` holds against `asn1_spec`.
///
/// `tag_set` holds the tags of the explicit layers already peeled, and
/// `offset` is where `substrate` lies in the buffer.
pub fn decode_der_rec<'a>(
    m: NativeHelperModule,
    substrate: &'a [u8],
    asn1_spec: Option<SchemaNode<'a>>,
    tag_set: Option<&TagSet>,
    offset: usize,
) -> (r: Result<(Value, usize), DecodeError>)
    requires
        offset + substrate@.len() <= usize::MAX,
        asn1_spec matches Some(node) ==> node.wf(),
    ensures
        located_outcome_is(
            r,
            spec_decode_der_rec(substrate@, asn1_spec, inherited_view(tag_set), offset),
        ),
        r matches Ok((_, position)) ==> asn1_spec matches Some(node) && position_in(
            node,
            position,
        ),
    decreases substrate@.len(),
        match asn1_spec {
            Some(n) => n.depth(),
            None => 0,
        },
        3nat,
{
    let node = match asn1_spec {
        None => {
            return Err(DecodeError::plain(ErrorKind::NoSpecification, offset));
        },
        Some(node) => node,
    };
    let (header, tlv_octets) = match read_tlv(substrate, offset) {
        Ok(header_and_octets) => header_and_octets,
        Err(e) => {
            return Err(e);
        },
    };
    if substrate.len() != tlv_octets.len() {
        return Err(
            DecodeError::plain(
                ErrorKind::TrailingOctets(substrate.len() - tlv_octets.len()),
                offset,
            ),
        );
    }
    let substrate_tag = m.create_pyasn1_tag(Asn1Tag::new(substrate[0]));
    let new_tag_set = match tag_set {
        Some(outer) => outer.prepend(substrate_tag),
        None => m.create_pyasn1_tagset(&substrate_tag),
    };
    assert(new_tag_set@ == tag_set_of(substrate@, inherited_view(tag_set)));
    match get_chosen_spec(&m, &node, &new_tag_set) {
        None => decode_explicit(DecodeStep::new(m, substrate, header, node, &new_tag_set, offset)),
        Some((position, chosen_spec)) => {
            let step = DecodeStep::new(
                m,
                substrate,
                header,
                SchemaNode::Type(chosen_spec),
                &new_tag_set,
                offset,
            );
            proof {
                match node {
                    SchemaNode::Type(_) => {},
                    SchemaNode::TagMap { entries, start, end } => {
                        lemma_lookup_in_window(entries@, new_tag_set@, start as int, end as int);
                        lemma_types_depth(entries@, position as int);
                    },
                }
                assert(chosen_spec.depth() <= node.depth());
                assert(step@.ty() == *chosen_spec);
                assert(step@ == step_as(
                    (DecodeStep {
                        module: m,
                        substrate,
                        header,
                        asn1_spec: node,
                        tag_set: &new_tag_set,
                        offset,
                    })@,
                    chosen_spec,
                ));
            }
            match decode_asn1_spec_value(step) {
                Ok(decoded) => Ok((decoded, position)),
                Err(e) => Err(e),
            }
        },
    }
}

/// Decodes `substrate` as a value of the type `asn1_spec`. A buffer that
/// does not hold one TLV and nothing after it fails, and so does one
/// beyond the limit of the TLV parser.
pub fn decode_der(substrate: &[u8], asn1_spec: &Asn1Type) -> (r: Result<Value, DecodeError>)
    ensures
        outcome_is(r, spec_decode_der(substrate@, asn1_spec)),
{
    let native_module = NativeHelperModule::new();
    assert(substrate@.len() == substrate.len());
    match decode_der_rec(native_module, substrate, Some(SchemaNode::Type(asn1_spec)), None, 0) {
        Ok((decoded, _)) => Ok(decoded),
        Err(e) => Err(e),
    }
}

} // verus!
