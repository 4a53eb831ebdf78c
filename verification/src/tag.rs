//! The identifier octet of a TLV, and the tags and tag sets built from it.

use vstd::prelude::*;

verus! {

/// Bits of the identifier octet that hold the tag class.
pub const CLASS_MASK: u8 = 0xC0;

/// The universal class.
pub const CLASS_UNIVERSAL: u8 = 0x00;

/// Bit of the identifier octet that holds the encoding format.
pub const FORMAT_MASK: u8 = 0x20;

/// The constructed format: the value is a series of nested TLVs.
pub const FORMAT_CONSTRUCTED: u8 = 0x20;

/// The primitive format: the value is a plain run of octets.
pub const FORMAT_SIMPLE: u8 = 0x00;

/// Bits of the identifier octet that hold the tag number.
pub const TAG_ID_MASK: u8 = 0x1F;

/// The leading identifier octet of a TLV.
#[derive(Copy, Clone, Debug)]
pub struct Asn1Tag {
    raw: u8,
}

impl View for Asn1Tag {
    type V = u8;

    closed spec fn view(&self) -> u8 {
        self.raw
    }
}

impl Asn1Tag {
    pub fn new(raw: u8) -> (tag: Self)
        ensures
            tag@ == raw,
    {
        Self { raw }
    }

    /// The tag number: the low five bits of the octet.
    pub fn tag_id(&self) -> (id: u8)
        ensures
            id == self@ & TAG_ID_MASK,
            id == self@ % 32,
    {
        let raw: u8 = self.raw;
        assert(raw & 0x1F == raw % 32) by (bit_vector);
        self.raw & TAG_ID_MASK
    }

    /// The tag class, in place: one of `0x00`, `0x40`, `0x80`, `0xC0`.
    pub fn class(&self) -> (class: u8)
        ensures
            class == self@ & CLASS_MASK,
            class == (self@ / 64) * 64,
    {
        let raw: u8 = self.raw;
        assert(raw & 0xC0 == (raw / 64) * 64) by (bit_vector);
        self.raw & CLASS_MASK
    }

    /// The encoding format, in place: `FORMAT_SIMPLE` or `FORMAT_CONSTRUCTED`.
    pub fn format(&self) -> (format: u8)
        ensures
            format == self@ & FORMAT_MASK,
            format == ((self@ / 32) % 2) * 32,
    {
        let raw: u8 = self.raw;
        assert(raw & 0x20 == ((raw / 32) % 2) * 32) by (bit_vector);
        self.raw & FORMAT_MASK
    }
}

impl vstd::std_specs::convert::FromSpecImpl<Asn1Tag> for u8 {
    open spec fn obeys_from_spec() -> bool {
        true
    }

    open spec fn from_spec(value: Asn1Tag) -> u8 {
        value@
    }
}

impl From<Asn1Tag> for u8 {
    fn from(value: Asn1Tag) -> (octet: u8) {
        value.raw
    }
}

impl vstd::std_specs::convert::FromSpecImpl<u8> for Asn1Tag {
    open spec fn obeys_from_spec() -> bool {
        true
    }

    closed spec fn from_spec(value: u8) -> Asn1Tag {
        Asn1Tag { raw: value }
    }
}

impl From<u8> for Asn1Tag {
    fn from(value: u8) -> (tag: Asn1Tag)
        ensures
            tag@ == value,
    {
        Asn1Tag { raw: value }
    }
}

/// A tag: class, encoding format and number.
///
/// The class and the format are held in place, as the identifier octet holds
/// them: `0x00`, `0x40`, `0x80` or `0xC0`, and `0x00` or `0x20`.
#[derive(Copy, Clone, Debug, PartialEq, Eq, Structural)]
pub struct Tag {
    pub tag_class: u8,
    pub tag_format: u8,
    pub tag_id: u32,
}

impl Tag {
    pub fn new(tag_class: u8, tag_format: u8, tag_id: u32) -> (tag: Self)
        ensures
            tag == (Tag { tag_class, tag_format, tag_id }),
    {
        Tag { tag_class, tag_format, tag_id }
    }

    /// Whether two tags name the same type: the class and the number decide,
    /// the format does not.
    pub open spec fn same_type(self, other: Tag) -> bool {
        self.tag_class == other.tag_class && self.tag_id == other.tag_id
    }

    pub fn names_same_type(&self, other: &Tag) -> (same: bool)
        ensures
            same == self.same_type(*other),
    {
        self.tag_class == other.tag_class && self.tag_id == other.tag_id
    }
}

/// The tag that an identifier octet stands for.
pub open spec fn tag_of_octet(raw: u8) -> Tag {
    Tag { tag_class: raw & CLASS_MASK, tag_format: raw & FORMAT_MASK, tag_id: (raw & TAG_ID_MASK) as u32 }
}

/// Whether two chains of tags have the same length and name the same type at
/// each place.
pub open spec fn tags_match(a: Seq<Tag>, b: Seq<Tag>) -> bool {
    &&& a.len() == b.len()
    &&& forall|i: int| 0 <= i < a.len() ==> (#[trigger] a[i]).same_type(b[i])
}

/// The chain of tags in front of a value, the innermost first.
///
/// A value under explicit tags carries one tag per layer; any other value
/// carries one tag.
#[derive(Debug)]
pub struct TagSet {
    tags: Vec<Tag>,
}

impl View for TagSet {
    type V = Seq<Tag>;

    closed spec fn view(&self) -> Seq<Tag> {
        self.tags@
    }
}

impl TagSet {
    pub fn new(tags: Vec<Tag>) -> (set: Self)
        ensures
            set@ == tags@,
    {
        TagSet { tags }
    }

    pub fn len(&self) -> (len: usize)
        ensures
            len == self@.len(),
    {
        self.tags.len()
    }

    pub fn get(&self, index: usize) -> (tag: Tag)
        requires
            index < self@.len(),
        ensures
            tag == self@[index as int],
    {
        self.tags[index]
    }

    /// The chain that holds `tag` in front of the tags of `self`.
    pub fn prepend(&self, tag: Tag) -> (set: Self)
        ensures
            set@ == seq![tag] + self@,
    {
        let mut tags: Vec<Tag> = Vec::new();
        tags.push(tag);
        let mut i: usize = 0;
        while i < self.tags.len()
            invariant
                i <= self.tags.len(),
                tags@ == seq![tag] + self.tags@.subrange(0, i as int),
            decreases self.tags.len() - i,
        {
            tags.push(self.tags[i]);
            i += 1;
        }
        assert(self.tags@.subrange(0, i as int) == self.tags@);
        TagSet { tags }
    }

    /// A copy of the chain.
    pub fn duplicate(&self) -> (set: Self)
        ensures
            set@ == self@,
    {
        let mut tags: Vec<Tag> = Vec::new();
        let mut i: usize = 0;
        while i < self.tags.len()
            invariant
                i <= self.tags.len(),
                tags@ == self.tags@.subrange(0, i as int),
            decreases self.tags.len() - i,
        {
            tags.push(self.tags[i]);
            i += 1;
        }
        assert(self.tags@.subrange(0, i as int) == self.tags@);
        TagSet { tags }
    }

    /// Whether both chains have the same length and name the same type at
    /// each place.
    pub fn matches(&self, other: &TagSet) -> (same: bool)
        ensures
            same == tags_match(self@, other@),
    {
        if self.tags.len() != other.tags.len() {
            return false;
        }
        let mut i: usize = 0;
        while i < self.tags.len()
            invariant
                i <= self.tags.len(),
                self.tags.len() == other.tags.len(),
                forall|j: int| 0 <= j < i ==> (#[trigger] self.tags@[j]).same_type(other.tags@[j]),
            decreases self.tags.len() - i,
        {
            if !self.tags[i].names_same_type(&other.tags[i]) {
                return false;
            }
            i += 1;
        }
        true
    }
}

/// Matching chains of tags is symmetric and transitive, and every chain
/// matches itself.
pub proof fn lemma_tags_match_equivalence(a: Seq<Tag>, b: Seq<Tag>, c: Seq<Tag>)
    ensures
        tags_match(a, a),
        tags_match(a, b) ==> tags_match(b, a),
        tags_match(a, b) && tags_match(b, c) ==> tags_match(a, c),
{
    if tags_match(a, b) {
        assert forall|i: int| 0 <= i < b.len() implies (#[trigger] b[i]).same_type(a[i]) by {
            assert(a[i].same_type(b[i]));
        }
        if tags_match(b, c) {
            assert forall|i: int| 0 <= i < a.len() implies (#[trigger] a[i]).same_type(c[i]) by {
                assert(a[i].same_type(b[i]));
                assert(b[i].same_type(c[i]));
            }
        }
    }
}

/// The three parts of an identifier octet do not overlap and together make
/// up the octet.
pub proof fn lemma_octet_parts(raw: u8)
    ensures
        raw & CLASS_MASK == 0x00 || raw & CLASS_MASK == 0x40 || raw & CLASS_MASK == 0x80 || raw
            & CLASS_MASK == 0xC0,
        raw & FORMAT_MASK == FORMAT_SIMPLE || raw & FORMAT_MASK == FORMAT_CONSTRUCTED,
        raw & TAG_ID_MASK < 32,
        (raw & CLASS_MASK) + (raw & FORMAT_MASK) + (raw & TAG_ID_MASK) == raw,
{
    assert(raw & 0xC0 == 0x00 || raw & 0xC0 == 0x40 || raw & 0xC0 == 0x80 || raw & 0xC0 == 0xC0)
        by (bit_vector);
    assert(raw & 0x20 == 0x00 || raw & 0x20 == 0x20) by (bit_vector);
    assert(raw & 0x1F < 32) by (bit_vector);
    assert((raw & 0xC0) + (raw & 0x20) + (raw & 0x1F) == raw) by (bit_vector);
}

} // verus!
