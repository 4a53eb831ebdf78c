//! The tree of values that a decode yields.

use crate::error::{DecodeError, ErrorView};
use vstd::prelude::*;

verus! {

/// An integer of any size: a sign and the magnitude in big-endian octets.
#[derive(Debug, PartialEq, Eq)]
pub struct IntegerValue {
    pub negative: bool,
    pub magnitude: Vec<u8>,
}

/// A decoded value.
#[derive(Debug, PartialEq, Eq)]
pub enum Value {
    Boolean(bool),
    /// An INTEGER or an ENUMERATED.
    Integer(IntegerValue),
    /// The octets of a BIT STRING, and how many low bits of the last one are unused.
    BitString { padding: u8, octets: Vec<u8> },
    OctetString(Vec<u8>),
    /// The octets of a character string or of a time, as they were sent.
    CharacterString(Vec<u8>),
    Null,
    /// The arcs of an OBJECT IDENTIFIER.
    ObjectIdentifier(Vec<u32>),
    /// One slot per component of the schema; an absent component leaves its slot empty.
    Sequence(Vec<Option<Value>>),
    /// The elements in the order of the encoding.
    SequenceOf(Vec<Value>),
    /// The elements in the order of the encoding.
    SetOf(Vec<Value>),
    /// The alternative that was sent, by its position in the schema, and its value.
    Choice { position: usize, value: Box<Value> },
    /// The octets of a value of any type.
    Any(Vec<u8>),
}

/// A decoded value, as contracts speak of it.
pub enum ValueView {
    Boolean(bool),
    Integer { negative: bool, magnitude: Seq<u8> },
    BitString { padding: u8, octets: Seq<u8> },
    OctetString(Seq<u8>),
    CharacterString(Seq<u8>),
    Null,
    ObjectIdentifier(Seq<u32>),
    Sequence(Seq<Option<ValueView>>),
    SequenceOf(Seq<ValueView>),
    SetOf(Seq<ValueView>),
    Choice { position: usize, value: Box<ValueView> },
    Any(Seq<u8>),
}

impl View for IntegerValue {
    type V = ValueView;

    open spec fn view(&self) -> ValueView {
        ValueView::Integer { negative: self.negative, magnitude: self.magnitude@ }
    }
}

/// The view of a value: the same tree over sequences.
pub open spec fn value_view(value: Value) -> ValueView
    decreases value,
{
    match value {
        Value::Boolean(b) => ValueView::Boolean(b),
        Value::Integer(i) => i.view(),
        Value::BitString { padding, octets } => ValueView::BitString { padding, octets: octets@ },
        Value::OctetString(octets) => ValueView::OctetString(octets@),
        Value::CharacterString(octets) => ValueView::CharacterString(octets@),
        Value::Null => ValueView::Null,
        Value::ObjectIdentifier(arcs) => ValueView::ObjectIdentifier(arcs@),
        Value::Sequence(slots) => ValueView::Sequence(
            Seq::new(
                slots@.len(),
                |i: int|
                    if 0 <= i < slots@.len() {
                        match slots@[i] {
                            Some(component) => Some(value_view(component)),
                            None => None,
                        }
                    } else {
                        None
                    },
            ),
        ),
        Value::SequenceOf(elements) => ValueView::SequenceOf(
            Seq::new(
                elements@.len(),
                |i: int|
                    if 0 <= i < elements@.len() {
                        value_view(elements@[i])
                    } else {
                        ValueView::Null
                    },
            ),
        ),
        Value::SetOf(elements) => ValueView::SetOf(
            Seq::new(
                elements@.len(),
                |i: int|
                    if 0 <= i < elements@.len() {
                        value_view(elements@[i])
                    } else {
                        ValueView::Null
                    },
            ),
        ),
        Value::Choice { position, value } => ValueView::Choice {
            position,
            value: Box::new(value_view(*value)),
        },
        Value::Any(octets) => ValueView::Any(octets@),
    }
}

impl View for Value {
    type V = ValueView;

    open spec fn view(&self) -> ValueView {
        value_view(*self)
    }
}

/// Whether a decode ended as `model` says: with its value where it has
/// one, and with its failure where it fails.
pub open spec fn outcome_is(r: Result<Value, DecodeError>, model: Result<ValueView, ErrorView>) -> bool {
    match r {
        Ok(v) => model == Ok::<ValueView, ErrorView>(v@),
        Err(e) => model == Err::<ValueView, ErrorView>(e@),
    }
}

/// The number that big-endian octets stand for, read as unsigned.
pub open spec fn unsigned_value(octets: Seq<u8>) -> nat
    decreases octets.len(),
{
    if octets.len() == 0 {
        0
    } else {
        unsigned_value(octets.drop_last()) * 256 + octets.last() as nat
    }
}

/// 256 to the power of `n`.
pub open spec fn pow256(n: nat) -> nat
    decreases n,
{
    if n == 0 {
        1
    } else {
        256 * pow256((n - 1) as nat)
    }
}

/// The number that big-endian octets stand for in two's complement; no
/// octets stand for zero.
pub open spec fn twos_complement(octets: Seq<u8>) -> int {
    if octets.len() == 0 || octets[0] < 0x80 {
        unsigned_value(octets) as int
    } else {
        unsigned_value(octets) - pow256(octets.len())
    }
}

/// The big-endian octets of a number, without a leading zero octet; zero
/// is one zero octet.
pub open spec fn be_magnitude(n: nat) -> Seq<u8>
    decreases n,
{
    if n < 256 {
        seq![n as u8]
    } else {
        be_magnitude(n / 256).push((n % 256) as u8)
    }
}

/// The integer value `n`, as a decode holds it.
pub open spec fn integer_view(n: int) -> ValueView {
    ValueView::Integer {
        negative: n < 0,
        magnitude: be_magnitude(
            (if n < 0 {
                -n
            } else {
                n
            }) as nat,
        ),
    }
}

impl IntegerValue {
    /// The number that the sign and the magnitude stand for.
    pub open spec fn value(&self) -> int {
        if self.negative {
            -(unsigned_value(self.magnitude@) as int)
        } else {
            unsigned_value(self.magnitude@) as int
        }
    }
}

/// The views of the slots of a SEQUENCE.
pub open spec fn slots_view(slots: Seq<Option<Value>>) -> Seq<Option<ValueView>> {
    Seq::new(
        slots.len(),
        |i: int|
            match slots[i] {
                Some(component) => Some(component@),
                None => None,
            },
    )
}

/// The views of the elements of a SEQUENCE OF or a SET OF.
pub open spec fn elements_view(elements: Seq<Value>) -> Seq<ValueView> {
    Seq::new(elements.len(), |i: int| elements[i]@)
}

/// The views of aggregates are the views of their parts.
pub proof fn lemma_aggregate_views(value: Value)
    ensures
        value matches Value::Sequence(slots) ==> value@ == ValueView::Sequence(slots_view(slots@)),
        value matches Value::SequenceOf(elements) ==> value@ == ValueView::SequenceOf(
            elements_view(elements@),
        ),
        value matches Value::SetOf(elements) ==> value@ == ValueView::SetOf(
            elements_view(elements@),
        ),
{
    match value {
        Value::Sequence(slots) => {
            assert(value@->Sequence_0 =~= slots_view(slots@));
        },
        Value::SequenceOf(elements) => {
            assert(value@->SequenceOf_0 =~= elements_view(elements@));
        },
        Value::SetOf(elements) => {
            assert(value@->SetOf_0 =~= elements_view(elements@));
        },
        _ => {},
    }
}

/// How many of the slots are filled.
pub open spec fn count_present(slots: Seq<Option<ValueView>>) -> nat
    decreases slots.len(),
{
    if slots.len() == 0 {
        0
    } else {
        count_present(slots.drop_last()) + if slots.last() is Some {
            1nat
        } else {
            0nat
        }
    }
}

/// Whether two runs of octets are the same.
pub fn octets_equal(a: &[u8], b: &[u8]) -> (same: bool)
    ensures
        same == (a@ == b@),
{
    if a.len() != b.len() {
        return false;
    }
    let mut i: usize = 0;
    while i < a.len()
        invariant
            i <= a@.len(),
            a@.len() == b@.len(),
            forall|j: int| 0 <= j < i ==> a@[j] == b@[j],
        decreases a@.len() - i,
    {
        if a[i] != b[i] {
            return false;
        }
        i += 1;
    }
    assert(a@ =~= b@);
    true
}

/// Whether two runs of arcs are the same.
pub fn arcs_equal(a: &[u32], b: &[u32]) -> (same: bool)
    ensures
        same == (a@ == b@),
{
    if a.len() != b.len() {
        return false;
    }
    let mut i: usize = 0;
    while i < a.len()
        invariant
            i <= a@.len(),
            a@.len() == b@.len(),
            forall|j: int| 0 <= j < i ==> a@[j] == b@[j],
        decreases a@.len() - i,
    {
        if a[i] != b[i] {
            return false;
        }
        i += 1;
    }
    assert(a@ =~= b@);
    true
}

/// Whether two runs of values are the same, value by value.
fn elements_equal(a: &Vec<Value>, b: &Vec<Value>) -> (same: bool)
    ensures
        same == (elements_view(a@) == elements_view(b@)),
    decreases a,
{
    if a.len() != b.len() {
        assert(elements_view(a@).len() != elements_view(b@).len());
        return false;
    }
    let mut i: usize = 0;
    while i < a.len()
        invariant
            i <= a@.len(),
            a@.len() == b@.len(),
            forall|j: int| 0 <= j < i ==> a@[j]@ == b@[j]@,
        decreases a@.len() - i,
    {
        if !values_equal(&a[i], &b[i]) {
            assert(elements_view(a@)[i as int] != elements_view(b@)[i as int]);
            return false;
        }
        i += 1;
    }
    assert(elements_view(a@) =~= elements_view(b@));
    true
}

/// Whether two runs of slots are the same, slot by slot.
fn slots_equal(a: &Vec<Option<Value>>, b: &Vec<Option<Value>>) -> (same: bool)
    ensures
        same == (slots_view(a@) == slots_view(b@)),
    decreases a,
{
    if a.len() != b.len() {
        assert(slots_view(a@).len() != slots_view(b@).len());
        return false;
    }
    let mut i: usize = 0;
    while i < a.len()
        invariant
            i <= a@.len(),
            a@.len() == b@.len(),
            forall|j: int| 0 <= j < i ==> slots_view(a@)[j] == slots_view(b@)[j],
        decreases a@.len() - i,
    {
        let same: bool = match (&a[i], &b[i]) {
            (Some(p), Some(q)) => {
                assert(decreases_to!(a => a@[i as int]->Some_0));
                values_equal(p, q)
            },
            (None, None) => true,
            _ => false,
        };
        if !same {
            assert(slots_view(a@)[i as int] != slots_view(b@)[i as int]);
            return false;
        }
        i += 1;
    }
    assert(slots_view(a@) =~= slots_view(b@));
    true
}

/// Whether two values are the same: the same kind of value, with the same parts.
pub fn values_equal(a: &Value, b: &Value) -> (same: bool)
    ensures
        same == (a@ == b@),
    decreases a,
{
    proof {
        lemma_aggregate_views(*a);
        lemma_aggregate_views(*b);
    }
    match (a, b) {
        (Value::Boolean(x), Value::Boolean(y)) => *x == *y,
        (Value::Integer(x), Value::Integer(y)) => x.negative == y.negative && octets_equal(
            x.magnitude.as_slice(),
            y.magnitude.as_slice(),
        ),
        (
            Value::BitString { padding: p, octets: x },
            Value::BitString { padding: q, octets: y },
        ) => *p == *q && octets_equal(x.as_slice(), y.as_slice()),
        (Value::OctetString(x), Value::OctetString(y)) => octets_equal(x.as_slice(), y.as_slice()),
        (Value::CharacterString(x), Value::CharacterString(y)) => octets_equal(
            x.as_slice(),
            y.as_slice(),
        ),
        (Value::Null, Value::Null) => true,
        (Value::ObjectIdentifier(x), Value::ObjectIdentifier(y)) => arcs_equal(
            x.as_slice(),
            y.as_slice(),
        ),
        (Value::Sequence(x), Value::Sequence(y)) => slots_equal(x, y),
        (Value::SequenceOf(x), Value::SequenceOf(y)) => elements_equal(x, y),
        (Value::SetOf(x), Value::SetOf(y)) => elements_equal(x, y),
        (
            Value::Choice { position: p, value: x },
            Value::Choice { position: q, value: y },
        ) => *p == *q && values_equal(x, y),
        (Value::Any(x), Value::Any(y)) => octets_equal(x.as_slice(), y.as_slice()),
        _ => false,
    }
}

} // verus!
