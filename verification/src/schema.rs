//! The schema that directs a decode: type descriptors, the components of
//! aggregates, and the maps from tags to types that resolve what was sent.

use crate::tag::{tags_match, Tag, TagSet};
use crate::value::Value;
use vstd::prelude::*;

verus! {

pub const DECODER_TYPE_BOOLEAN: u8 = 1;

pub const DECODER_TYPE_INTEGER: u8 = 2;

pub const DECODER_TYPE_BITSTRING: u8 = 3;

pub const DECODER_TYPE_OCTETSTRING: u8 = 4;

pub const DECODER_TYPE_NULL: u8 = 5;

pub const DECODER_TYPE_OBJECTIDENTIFIER: u8 = 6;

pub const DECODER_TYPE_ENUMERATED: u8 = 10;

pub const DECODER_TYPE_UTF8STRING: u8 = 12;

pub const DECODER_TYPE_SEQUENCE: u8 = 16;

pub const DECODER_TYPE_SETOF: u8 = 17;

pub const DECODER_TYPE_NUMERICSTRING: u8 = 18;

pub const DECODER_TYPE_PRINTABLESTRING: u8 = 19;

pub const DECODER_TYPE_TELETEXSTRING: u8 = 20;

pub const DECODER_TYPE_VIDEOTEXSTRING: u8 = 21;

pub const DECODER_TYPE_IA5STRING: u8 = 22;

pub const DECODER_TYPE_UTCTIME: u8 = 23;

pub const DECODER_TYPE_GENERALIZEDTIME: u8 = 24;

pub const DECODER_TYPE_GRAPHICSTRING: u8 = 25;

pub const DECODER_TYPE_VISIBLESTRING: u8 = 26;

pub const DECODER_TYPE_UNIVERSALSTRING: u8 = 28;

pub const DECODER_TYPE_BMPSTRING: u8 = 30;

pub const DECODER_TYPE_SEQUENCEOF: u8 = 32;

pub const DECODER_TYPE_ANY: u8 = 98;

pub const DECODER_TYPE_CHOICE: u8 = 99;

/// Bounds on how many components an aggregate may hold.
#[derive(Clone, Copy, Debug, PartialEq, Eq, Structural)]
pub struct SizeRange {
    pub min: usize,
    pub max: usize,
}

/// A component of a SEQUENCE, or an alternative of a CHOICE.
#[derive(Debug)]
pub struct NamedType {
    /// The type of the component.
    pub asn1_object: Asn1Type,
    pub is_optional: bool,
    /// The value that an absent component stands for, where it has one.
    pub default: Option<Value>,
}

/// A type of the schema.
#[derive(Debug)]
pub struct Asn1Type {
    /// The name under which failures report the type.
    pub name: String,
    /// The family of the type: one of the `DECODER_TYPE_` constants.
    pub type_id: u8,
    /// The tags in front of a value of the type, the innermost first; empty
    /// for a CHOICE or an ANY without a tag of its own.
    pub tag_set: TagSet,
    /// Whether a BIT STRING names its bits.
    pub named_bits: bool,
    /// The components of a SEQUENCE, or the alternatives of a CHOICE.
    pub components: Vec<NamedType>,
    /// The type of the elements of a SEQUENCE OF or a SET OF.
    pub element: Option<Box<Asn1Type>>,
    /// How many components a value of an aggregate type may hold.
    pub size: Option<SizeRange>,
}

impl NamedType {
    /// A component that may not be left out.
    pub fn required(asn1_object: Asn1Type) -> (named: Self)
        ensures
            named.asn1_object == asn1_object,
            named.is_required(),
    {
        NamedType { asn1_object, is_optional: false, default: None }
    }

    /// A component that may be left out.
    pub fn optional(asn1_object: Asn1Type) -> (named: Self)
        ensures
            named.asn1_object == asn1_object,
            named.is_optional,
            named.default is None,
    {
        NamedType { asn1_object, is_optional: true, default: None }
    }

    /// A component that stands for `default` where it is left out.
    pub fn defaulted(asn1_object: Asn1Type, default: Value) -> (named: Self)
        ensures
            named.asn1_object == asn1_object,
            !named.is_optional,
            named.default == Some(default),
    {
        NamedType { asn1_object, is_optional: false, default: Some(default) }
    }

    pub open spec fn is_defaulted(&self) -> bool {
        self.default is Some
    }

    /// Whether the component may not be left out.
    pub open spec fn is_required(&self) -> bool {
        !self.is_optional && !self.is_defaulted()
    }

    pub fn optional_or_defaulted(&self) -> (loose: bool)
        ensures
            loose == !self.is_required(),
    {
        self.is_optional || self.default.is_some()
    }
}

impl Asn1Type {
    /// A type of the family `type_id` under the tags `tag_set`, without
    /// components, elements, named bits or bounds.
    pub fn new(name: &str, type_id: u8, tag_set: TagSet) -> (ty: Self)
        ensures
            ty.name@ == name@,
            ty.type_id == type_id,
            ty.tag_set == tag_set,
            !ty.named_bits,
            ty.components@.len() == 0,
            ty.element is None,
            ty.size is None,
    {
        Asn1Type {
            name: name.to_owned(),
            type_id,
            tag_set,
            named_bits: false,
            components: Vec::new(),
            element: None,
            size: None,
        }
    }

    /// The type with `components` as the components of a SEQUENCE or the
    /// alternatives of a CHOICE.
    pub fn with_components(self, components: Vec<NamedType>) -> (ty: Self)
        ensures
            ty == (Asn1Type { components, ..self }),
    {
        Asn1Type { components, ..self }
    }

    /// The type with `element` as the type of the elements of a SEQUENCE OF
    /// or a SET OF.
    pub fn with_element(self, element: Asn1Type) -> (ty: Self)
        ensures
            ty == (Asn1Type { element: Some(Box::new(element)), ..self }),
    {
        Asn1Type { element: Some(Box::new(element)), ..self }
    }

    /// The type with bounds on the number of components of its values.
    pub fn with_size(self, min: usize, max: usize) -> (ty: Self)
        ensures
            ty == (Asn1Type { size: Some(SizeRange { min, max }), ..self }),
    {
        Asn1Type { size: Some(SizeRange { min, max }), ..self }
    }

    /// The type as a BIT STRING whose bits are named.
    pub fn with_named_bits(self) -> (ty: Self)
        ensures
            ty == (Asn1Type { named_bits: true, ..self }),
    {
        Asn1Type { named_bits: true, ..self }
    }

    /// Whether the type is a CHOICE without a tag of its own, which is sent
    /// under the tags of its alternative.
    pub open spec fn is_open_choice(&self) -> bool {
        self.type_id == DECODER_TYPE_CHOICE && self.tag_set@.len() == 0
    }

    /// Whether `tags` is among the chains of tags that the type lists as its own.
    pub open spec fn has_key(&self, tags: Seq<Tag>) -> bool
        decreases self,
    {
        if self.is_open_choice() {
            exists|k: int|
                0 <= k < self.components@.len() && (#[trigger] self.components@[k]).asn1_object.has_key(
                    tags,
                )
        } else {
            tags_match(tags, self.tag_set@)
        }
    }

    /// Whether the type takes a value under any tags: an ANY does, and so
    /// does an open CHOICE with such an alternative.
    pub open spec fn has_default(&self) -> bool
        decreases self,
    {
        if self.type_id == DECODER_TYPE_ANY {
            true
        } else if self.is_open_choice() {
            exists|k: int|
                0 <= k < self.components@.len() && (
                #[trigger] self.components@[k]).asn1_object.has_default()
        } else {
            false
        }
    }

    /// Whether a value under `tags` can be of the type.
    pub open spec fn accepts(&self, tags: Seq<Tag>) -> bool {
        self.has_key(tags) || self.has_default()
    }

    /// How deep alternatives are nested in the type.
    pub open spec fn depth(&self) -> nat
        decreases self,
    {
        1 + types_depth(self.components@)
    }
}

/// The depth of the deepest type in `list`.
pub open spec fn types_depth(list: Seq<NamedType>) -> nat
    decreases list,
{
    if list.len() == 0 {
        0
    } else {
        let last = list[list.len() - 1].asn1_object.depth();
        let rest = types_depth(list.subrange(0, list.len() - 1));
        if last > rest {
            last
        } else {
            rest
        }
    }
}

/// No type in a list is deeper than the list.
pub proof fn lemma_types_depth(list: Seq<NamedType>, k: int)
    requires
        0 <= k < list.len(),
    ensures
        list[k].asn1_object.depth() <= types_depth(list),
    decreases list.len(),
{
    let rest = list.subrange(0, list.len() - 1);
    if k < list.len() - 1 {
        lemma_types_depth(rest, k);
        assert(rest[k] == list[k]);
    }
}

/// The first entry of `list` from `start` up to `end` that lists `tags` as its own.
pub open spec fn first_key(list: Seq<NamedType>, tags: Seq<Tag>, start: int, end: int) -> Option<
    int,
>
    decreases end - start,
{
    if start >= end {
        None
    } else if list[start].asn1_object.has_key(tags) {
        Some(start)
    } else {
        first_key(list, tags, start + 1, end)
    }
}

/// The first entry of `list` from `start` up to `end` that takes a value under any tags.
pub open spec fn first_default(list: Seq<NamedType>, start: int, end: int) -> Option<int>
    decreases end - start,
{
    if start >= end {
        None
    } else if list[start].asn1_object.has_default() {
        Some(start)
    } else {
        first_default(list, start + 1, end)
    }
}

/// The entry of `list` from `start` up to `end` that a value under `tags`
/// belongs to: the first that lists the tags as its own, or else the first
/// that takes any tags.
pub open spec fn lookup(list: Seq<NamedType>, tags: Seq<Tag>, start: int, end: int) -> Option<int> {
    match first_key(list, tags, start, end) {
        Some(k) => Some(k),
        None => first_default(list, start, end),
    }
}

/// The end of the run of components that may stand at `index`: the
/// component at `index`, and while those before it may be left out, the next.
pub open spec fn near_end(list: Seq<NamedType>, index: int) -> int
    decreases list.len() - index,
{
    if index >= list.len() {
        list.len() as int
    } else if list[index].is_required() {
        index + 1
    } else {
        near_end(list, index + 1)
    }
}

/// What `lookup` finds lies in the window that it was given.
pub proof fn lemma_lookup_in_window(list: Seq<NamedType>, tags: Seq<Tag>, start: int, end: int)
    ensures
        first_key(list, tags, start, end) matches Some(k) ==> start <= k < end
            && list[k].asn1_object.has_key(tags),
        first_default(list, start, end) matches Some(k) ==> start <= k < end
            && list[k].asn1_object.has_default(),
        lookup(list, tags, start, end) matches Some(k) ==> start <= k < end
            && list[k].asn1_object.accepts(tags),
        lookup(list, tags, start, end) is None ==> forall|k: int|
            start <= k < end ==> !(#[trigger] list[k]).asn1_object.accepts(tags),
    decreases end - start,
{
    if start < end {
        lemma_lookup_in_window(list, tags, start + 1, end);
        if lookup(list, tags, start, end) is None {
            assert forall|k: int| start <= k < end implies !(#[trigger] list[k]).asn1_object.accepts(
                tags,
            ) by {
                if k > start {
                    assert(lookup(list, tags, start + 1, end) is None);
                }
            }
        }
    }
}

/// The run of components that may stand at `index` starts there and ends in the list.
pub proof fn lemma_near_end(list: Seq<NamedType>, index: int)
    requires
        0 <= index < list.len(),
    ensures
        index < near_end(list, index) <= list.len(),
    decreases list.len() - index,
{
    if !list[index].is_required() {
        if index + 1 < list.len() {
            lemma_near_end(list, index + 1);
        } else {
            assert(near_end(list, index + 1) == list.len());
        }
    }
}

/// What a decode step holds a TLV against: one type, or a map from tags to
/// the types in a run of components.
#[derive(Clone, Copy, Debug)]
pub enum SchemaNode<'a> {
    Type(&'a Asn1Type),
    /// The components of `entries` from `start` up to `end`.
    TagMap { entries: &'a Vec<NamedType>, start: usize, end: usize },
}

impl<'a> SchemaNode<'a> {
    pub open spec fn wf(self) -> bool {
        match self {
            SchemaNode::Type(_) => true,
            SchemaNode::TagMap { entries, start, end } => start <= end <= entries@.len(),
        }
    }

    /// The name under which failures report the node.
    pub open spec fn name(self) -> Seq<char> {
        match self {
            SchemaNode::Type(ty) => ty.name@,
            SchemaNode::TagMap { .. } => "TagMap"@,
        }
    }

    /// How deep alternatives are nested below the node.
    pub open spec fn depth(self) -> nat {
        match self {
            SchemaNode::Type(ty) => ty.depth(),
            SchemaNode::TagMap { entries, .. } => 1 + types_depth(entries@),
        }
    }

    /// The type that a value under `tags` is decoded as, with the position
    /// of its entry in a map (0 for a single type); `None` where the node
    /// has no type for the tags.
    pub open spec fn chosen(self, tags: Seq<Tag>) -> Option<(usize, Asn1Type)> {
        match self {
            SchemaNode::Type(ty) => if tags_match(tags, ty.tag_set@) || ty.accepts(tags) {
                Some((0usize, *ty))
            } else {
                None
            },
            SchemaNode::TagMap { entries, start, end } => match lookup(
                entries@,
                tags,
                start as int,
                end as int,
            ) {
                Some(k) => Some((k as usize, entries@[k].asn1_object)),
                None => None,
            },
        }
    }
}

impl<'a> SchemaNode<'a> {
    /// The name under which failures report the node.
    pub fn node_name(&self) -> (name: String)
        ensures
            name@ == self.name(),
    {
        match self {
            SchemaNode::Type(ty) => ty.name.clone(),
            SchemaNode::TagMap { .. } => "TagMap".to_owned(),
        }
    }
}

impl Asn1Type {
    /// Whether `tags` is among the chains of tags that the type lists as its own.
    pub fn holds_key(&self, tags: &TagSet) -> (held: bool)
        ensures
            held == self.has_key(tags@),
        decreases self,
    {
        if self.type_id == DECODER_TYPE_CHOICE && self.tag_set.len() == 0 {
            let mut k: usize = 0;
            while k < self.components.len()
                invariant
                    k <= self.components@.len(),
                    self.is_open_choice(),
                    forall|j: int|
                        0 <= j < k ==> !(#[trigger] self.components@[j]).asn1_object.has_key(tags@),
                decreases self.components@.len() - k,
            {
                if self.components[k].asn1_object.holds_key(tags) {
                    return true;
                }
                k += 1;
            }
            false
        } else {
            tags.matches(&self.tag_set)
        }
    }

    /// Whether the type takes a value under any tags.
    pub fn holds_default(&self) -> (held: bool)
        ensures
            held == self.has_default(),
        decreases self,
    {
        if self.type_id == DECODER_TYPE_ANY {
            true
        } else if self.type_id == DECODER_TYPE_CHOICE && self.tag_set.len() == 0 {
            let mut k: usize = 0;
            while k < self.components.len()
                invariant
                    k <= self.components@.len(),
                    self.is_open_choice(),
                    self.type_id != DECODER_TYPE_ANY,
                    forall|j: int|
                        0 <= j < k ==> !(#[trigger] self.components@[j]).asn1_object.has_default(),
                decreases self.components@.len() - k,
            {
                if self.components[k].asn1_object.holds_default() {
                    return true;
                }
                k += 1;
            }
            false
        } else {
            false
        }
    }

    /// Whether a value under `tags` can be of the type.
    pub fn takes(&self, tags: &TagSet) -> (taken: bool)
        ensures
            taken == self.accepts(tags@),
    {
        self.holds_key(tags) || self.holds_default()
    }
}

/// The entry of `entries` from `start` up to `end` that a value under `tags` belongs to.
pub fn find_entry(entries: &Vec<NamedType>, tags: &TagSet, start: usize, end: usize) -> (found:
    Option<usize>)
    requires
        start <= end <= entries@.len(),
    ensures
        match found {
            Some(k) => lookup(entries@, tags@, start as int, end as int) == Some(k as int),
            None => lookup(entries@, tags@, start as int, end as int) is None,
        },
{
    let mut k: usize = start;
    while k < end
        invariant
            start <= k <= end <= entries@.len(),
            first_key(entries@, tags@, start as int, end as int) == first_key(
                entries@,
                tags@,
                k as int,
                end as int,
            ),
        decreases end - k,
    {
        if entries[k].asn1_object.holds_key(tags) {
            return Some(k);
        }
        k += 1;
    }
    let mut d: usize = start;
    while d < end
        invariant
            start <= d <= end <= entries@.len(),
            first_key(entries@, tags@, start as int, end as int) is None,
            first_default(entries@, start as int, end as int) == first_default(
                entries@,
                d as int,
                end as int,
            ),
        decreases end - d,
    {
        if entries[d].asn1_object.holds_default() {
            return Some(d);
        }
        d += 1;
    }
    None
}

/// The map from tags to types for the run of components that may stand at `index`.
pub fn tag_map_near_position<'a>(entries: &'a Vec<NamedType>, index: usize) -> (node: SchemaNode<
    'a,
>)
    requires
        index < entries@.len(),
    ensures
        node == (SchemaNode::TagMap {
            entries,
            start: index,
            end: near_end(entries@, index as int) as usize,
        }),
        node.wf(),
{
    let mut end: usize = index;
    while end < entries.len() && entries[end].optional_or_defaulted()
        invariant
            index <= end <= entries@.len(),
            near_end(entries@, index as int) == near_end(entries@, end as int),
        decreases entries@.len() - end,
    {
        end += 1;
    }
    if end < entries.len() {
        end += 1;
    }
    proof {
        lemma_near_end(entries@, index as int);
    }
    SchemaNode::TagMap { entries, start: index, end }
}

} // verus!
