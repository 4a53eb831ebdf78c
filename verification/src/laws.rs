//! What holds of every decode.

use crate::asn1_type::{boolean_verdict, integer_verdict};
use crate::decoder::{lemma_read_tlv, spec_read_tlv, StepView};
use crate::error::{plain_error, DecodeError, ErrorKind, ErrorView};
use crate::model::{
    component_node, element_node, elements_walk, empty_slots, explicit_limit_text,
    required_present, sequence_decoded, sequence_walk, sorts_after, spec_decode_der,
    spec_decode_der_rec, spec_decode_explicit, step_as, tag_set_of, value_offset,
};
use crate::schema::{
    first_default, first_key, lemma_lookup_in_window, lemma_near_end, lookup, near_end, Asn1Type,
    NamedType, SchemaNode,
};
use crate::tag::{tags_match, Tag, CLASS_UNIVERSAL, FORMAT_CONSTRUCTED};
use crate::value::{
    be_magnitude, integer_view, outcome_is, pow256, twos_complement, unsigned_value, IntegerValue,
    Value, ValueView,
};
use crate::{position_in, NESTED_EXPLICIT_TAG_LIMIT};
use vstd::prelude::*;

verus! {

/// A decode is a function of the buffer and the schema: two decodes of one
/// buffer against one type both yield a value or both fail, and the values,
/// or the failures, are the same.
pub proof fn lemma_decode_is_repeatable(
    substrate: Seq<u8>,
    asn1_spec: &Asn1Type,
    first: Result<Value, DecodeError>,
    second: Result<Value, DecodeError>,
)
    requires
        outcome_is(first, spec_decode_der(substrate, asn1_spec)),
        outcome_is(second, spec_decode_der(substrate, asn1_spec)),
    ensures
        first is Ok <==> second is Ok,
        first matches Ok(a) ==> second matches Ok(b) && a@ == b@,
        first matches Err(a) ==> second matches Err(b) && a@ == b@,
{
}

/// A buffer that goes on after its first TLV fails, and the failure counts
/// the octets after the TLV.
pub proof fn lemma_trailing_octets(substrate: Seq<u8>, asn1_spec: &Asn1Type)
    requires
        spec_read_tlv(substrate, 0) matches Ok((_, tlv)) && tlv.len() < substrate.len(),
    ensures
        spec_read_tlv(substrate, 0) matches Ok((_, tlv)) && spec_decode_der(substrate, asn1_spec)
            == Err::<ValueView, ErrorView>(
            plain_error(ErrorKind::TrailingOctets((substrate.len() - tlv.len()) as usize), 0),
        ),
{
}

/// A buffer whose TLV has indefinite length does not decode: it fails where
/// the TLV is read, at the start of the buffer.
pub proof fn lemma_indefinite_length_never_decodes(substrate: Seq<u8>, asn1_spec: &Asn1Type)
    requires
        substrate.len() >= 2,
        substrate[1] == 0x80,
    ensures
        spec_decode_der(substrate, asn1_spec) matches Err(e) && e.offset == 0 && (e.kind
            == ErrorKind::HeaderRead || e.kind == ErrorKind::TlvRead),
{
    lemma_read_tlv(substrate, 0);
}

/// No explicit layer is peeled under a chain of tags that is longer than the limit.
pub proof fn lemma_explicit_tag_limit(step: StepView)
    requires
        step.tag_set.len() > NESTED_EXPLICIT_TAG_LIMIT,
    ensures
        spec_decode_explicit(step) == Err::<(ValueView, usize), ErrorView>(
            step.error(ErrorKind::NestedExplicitTagLimit, explicit_limit_text()),
        ),
{
}

/// Under a chain of tags within the limit, a layer that is constructed and
/// not of the universal class is peeled: the step ends as the decode of
/// its value against the same node does, with the chain handed on.
pub proof fn lemma_explicit_layer_is_peeled(step: StepView)
    requires
        step.wf(),
        step.tag_set.len() <= NESTED_EXPLICIT_TAG_LIMIT,
        step.tag_set[0].tag_format == FORMAT_CONSTRUCTED,
        step.tag_set[0].tag_class != CLASS_UNIVERSAL,
    ensures
        spec_decode_explicit(step) == spec_decode_der_rec(
            step.value(),
            Some(step.asn1_spec),
            Some(step.tag_set),
            value_offset(step),
        ),
{
}

/// The position that a decode reports is one of the node: that of an
/// entry of the map, or 0 for a single type.
pub proof fn lemma_position_in_node(
    substrate: Seq<u8>,
    node: SchemaNode,
    inherited: Option<Seq<Tag>>,
    offset: usize,
)
    requires
        node.wf(),
    ensures
        spec_decode_der_rec(substrate, Some(node), inherited, offset) matches Ok((_, position))
            ==> position_in(node, position),
    decreases substrate.len(),
{
    match spec_read_tlv(substrate, offset) {
        Err(_) => {},
        Ok((header, tlv)) => {
            if substrate.len() == tlv.len() {
                let tags = tag_set_of(substrate, inherited);
                let step = StepView { substrate, header, asn1_spec: node, tag_set: tags, offset };
                match node.chosen(tags) {
                    None => {
                        if spec_decode_explicit(step) is Ok {
                            lemma_position_in_node(
                                step.value(),
                                node,
                                Some(tags),
                                value_offset(step),
                            );
                        }
                    },
                    Some((position, ty)) => {
                        match node {
                            SchemaNode::Type(_) => {},
                            SchemaNode::TagMap { entries, start, end } => {
                                lemma_lookup_in_window(entries@, tags, start as int, end as int);
                            },
                        }
                    },
                }
            }
        },
    }
}

/// The walk over the value of a SEQUENCE keeps one slot per component.
proof fn lemma_walk_keeps_slots(
    step: StepView,
    index: nat,
    rel: nat,
    slots: Seq<Option<ValueView>>,
)
    requires
        slots.len() == step.ty().components@.len(),
    ensures
        sequence_walk(step, index, rel, slots) matches Ok(found) ==> found.len() == slots.len(),
    decreases step.header.length - rel,
{
    let components = step.ty().components;
    if rel >= step.header.length || !step.wf() {
    } else if index >= components@.len() {
    } else {
        let named = components@[index as int];
        let offset = (value_offset(step) + rel) as usize;
        let rest = step.value().subrange(rel as int, step.value().len() as int);
        let node = component_node(&components, index as int);
        match spec_read_tlv(rest, offset) {
            Err(_) => {},
            Ok((_, tlv)) => {
                lemma_near_end(components@, index as int);
                assert(components@.len() == components.len());
                assert(node.wf());
                lemma_position_in_node(tlv, node, None, offset);
                match spec_decode_der_rec(tlv, Some(node), None, offset) {
                    Err(_) => {},
                    Ok((decoded, position)) => {
                        if named.default matches Some(default) && decoded == default@ {
                        } else {
                            let at = if named.is_required() {
                                index
                            } else {
                                position as nat
                            };
                            lemma_walk_keeps_slots(
                                step,
                                at + 1,
                                rel + tlv.len(),
                                slots.update(at as int, Some(decoded)),
                            );
                        }
                    },
                }
            },
        }
    }
}

/// A SEQUENCE that decodes has one slot per component of its type, and
/// the slot of every component that may not be left out is filled.
pub proof fn lemma_sequence_holds_required(step: StepView)
    ensures
        sequence_decoded(step) matches Ok(value) ==> value matches ValueView::Sequence(slots)
            && slots.len() == step.ty().components@.len() && required_present(
            step.ty().components@,
            slots,
        ),
{
    lemma_walk_keeps_slots(step, 0, 0, empty_slots(step.ty().components@.len()));
}

/// The octets of a magnitude stand for the number that they were made from.
pub proof fn lemma_magnitude_value(n: nat)
    ensures
        unsigned_value(be_magnitude(n)) == n,
        be_magnitude(n).len() >= 1,
    decreases n,
{
    if n < 256 {
        assert(be_magnitude(n).drop_last() =~= Seq::<u8>::empty());
        assert(unsigned_value(be_magnitude(n).drop_last()) == 0);
    } else {
        lemma_magnitude_value(n / 256);
        assert(be_magnitude(n).drop_last() =~= be_magnitude(n / 256));
    }
}

/// The sign and the magnitude that an INTEGER decodes to stand for the
/// number that its octets hold in two's complement.
pub proof fn lemma_integer_value(octets: Seq<u8>, decoded: IntegerValue)
    requires
        decoded@ == integer_view(twos_complement(octets)),
    ensures
        decoded.value() == twos_complement(octets),
{
    let n = twos_complement(octets);
    lemma_magnitude_value(
        (if n < 0 {
            -n
        } else {
            n
        }) as nat,
    );
}

/// A BOOLEAN has one encoding per value: two that keep the rules and
/// decode alike have the same octets.
pub proof fn lemma_boolean_is_canonical(a: StepView, b: StepView)
    requires
        boolean_verdict(a) is Ok,
        boolean_verdict(b) is Ok,
        (a.value()[0] != 0) == (b.value()[0] != 0),
    ensures
        a.value() == b.value(),
{
    assert(a.value() =~= b.value());
}

/// Whether the octets of an integer have no leading octet that the sign
/// does not need.
pub open spec fn is_minimal(octets: Seq<u8>) -> bool {
    &&& octets.len() >= 1
    &&& !(octets.len() >= 2 && ((octets[0] == 0x00 && octets[1] < 0x80) || (octets[0] == 0xFF
        && octets[1] >= 0x80)))
}

proof fn lemma_pow256_grows(a: nat, b: nat)
    requires
        a <= b,
    ensures
        1 <= pow256(a) <= pow256(b),
    decreases b,
{
    if a < b {
        lemma_pow256_grows(a, (b - 1) as nat);
    } else if a > 0 {
        lemma_pow256_grows((a - 1) as nat, (a - 1) as nat);
    }
}

proof fn lemma_unsigned_bound(octets: Seq<u8>)
    ensures
        unsigned_value(octets) < pow256(octets.len()),
    decreases octets.len(),
{
    if octets.len() > 0 {
        lemma_unsigned_bound(octets.drop_last());
    }
}

/// The number that octets stand for, by the first octet and the rest.
proof fn lemma_unsigned_head(octets: Seq<u8>)
    requires
        octets.len() >= 1,
    ensures
        unsigned_value(octets) == octets[0] * pow256((octets.len() - 1) as nat) + unsigned_value(
            octets.drop_first(),
        ),
    decreases octets.len(),
{
    let front = octets.drop_last();
    let rest = octets.drop_first();
    if octets.len() == 1 {
        assert(unsigned_value(front) == 0);
        assert(unsigned_value(rest) == 0);
        assert(pow256(0) == 1);
        assert(octets.last() == octets[0]);
        assert(octets[0] * pow256(0) == octets[0]) by (nonlinear_arith)
            requires
                pow256(0) == 1,
        ;
    } else {
        lemma_unsigned_head(front);
        assert(front.drop_first() =~= rest.drop_last());
        assert(front[0] == octets[0]);
        assert(rest.last() == octets.last());
        let high = pow256((octets.len() - 2) as nat);
        let inner = unsigned_value(rest.drop_last());
        assert(pow256((octets.len() - 1) as nat) == 256 * high);
        assert(unsigned_value(front) == octets[0] * high + inner);
        assert(unsigned_value(rest) == inner * 256 + octets.last());
        assert(unsigned_value(octets) == unsigned_value(front) * 256 + octets.last());
        assert((octets[0] * high + inner) * 256 + octets.last() == octets[0] * (256 * high) + (
        inner * 256 + octets.last())) by (nonlinear_arith);
        assert(octets[0] * pow256((octets.len() - 1) as nat) == octets[0] * (256 * high))
            by (nonlinear_arith)
            requires
                pow256((octets.len() - 1) as nat) == 256 * high,
        ;
    }
}

/// Octets of one length that stand for one number are the same octets.
proof fn lemma_unsigned_is_injective(a: Seq<u8>, b: Seq<u8>)
    requires
        a.len() == b.len(),
        unsigned_value(a) == unsigned_value(b),
    ensures
        a == b,
    decreases a.len(),
{
    if a.len() > 0 {
        lemma_unsigned_is_injective(a.drop_last(), b.drop_last());
        assert(a =~= a.drop_last().push(a.last()));
        assert(b =~= b.drop_last().push(b.last()));
    } else {
        assert(a =~= b);
    }
}

/// Where the number of a minimal encoding lies, by the length of the encoding.
proof fn lemma_minimal_range(octets: Seq<u8>)
    requires
        is_minimal(octets),
    ensures
        octets[0] < 0x80 ==> 0 <= twos_complement(octets) < 128 * pow256(
            (octets.len() - 1) as nat,
        ),
        octets[0] < 0x80 && octets.len() >= 2 ==> 128 * pow256((octets.len() - 2) as nat)
            <= twos_complement(octets),
        octets[0] >= 0x80 ==> -128 * pow256((octets.len() - 1) as nat) <= twos_complement(octets)
            < 0,
        octets[0] >= 0x80 && octets.len() >= 2 ==> twos_complement(octets) < -128 * pow256(
            (octets.len() - 2) as nat,
        ),
        octets[0] >= 0x80 ==> twos_complement(octets) == unsigned_value(octets) - pow256(
            octets.len(),
        ),
        octets[0] < 0x80 ==> twos_complement(octets) == unsigned_value(octets),
{
    let len = octets.len();
    let head = octets[0] as int;
    let rest = octets.drop_first();
    let top = pow256((len - 1) as nat) as int;
    let tail = unsigned_value(rest) as int;
    lemma_unsigned_head(octets);
    lemma_unsigned_bound(rest);
    lemma_pow256_grows(0, (len - 1) as nat);
    assert(pow256(len) == 256 * top);
    assert(unsigned_value(octets) == head * top + tail);
    assert(0 <= tail < top);
    if head < 0x80 {
        assert(head * top + tail < 128 * top) by (nonlinear_arith)
            requires
                0 <= head <= 127,
                0 <= tail < top,
        ;
        assert(0 <= head * top + tail) by (nonlinear_arith)
            requires
                0 <= head,
                0 <= tail,
                0 <= top,
        ;
    } else {
        assert(head * top + tail >= 128 * top) by (nonlinear_arith)
            requires
                head >= 128,
                0 <= tail,
                0 <= top,
        ;
        assert(head * top + tail < 256 * top) by (nonlinear_arith)
            requires
                head <= 255,
                0 <= tail < top,
        ;
    }
    if len >= 2 {
        let second = octets[1] as int;
        let low = pow256((len - 2) as nat) as int;
        let tail2 = unsigned_value(rest.drop_first()) as int;
        lemma_unsigned_head(rest);
        lemma_unsigned_bound(rest.drop_first());
        lemma_pow256_grows(0, (len - 2) as nat);
        assert(rest[0] == octets[1]);
        assert(top == 256 * low);
        assert(tail == second * low + tail2);
        assert(0 <= tail2 < low);
        if head < 0x80 {
            if head >= 1 {
                assert(head * top + tail >= 128 * low) by (nonlinear_arith)
                    requires
                        head >= 1,
                        top == 256 * low,
                        low >= 1,
                        tail >= 0,
                ;
            } else {
                assert(second >= 0x80);
                assert(head * top + tail >= 128 * low) by (nonlinear_arith)
                    requires
                        head == 0,
                        tail == second * low + tail2,
                        second >= 128,
                        low >= 1,
                        tail2 >= 0,
                ;
            }
        } else {
            if head <= 254 {
                assert(head * top + tail - 256 * top < -128 * low) by (nonlinear_arith)
                    requires
                        head <= 254,
                        top == 256 * low,
                        low >= 1,
                        0 <= tail < top,
                ;
            } else {
                assert(second < 0x80);
                assert(head * top + tail - 256 * top < -128 * low) by (nonlinear_arith)
                    requires
                        head == 255,
                        top == 256 * low,
                        low >= 1,
                        tail == second * low + tail2,
                        0 <= second <= 127,
                        0 <= tail2 < low,
                ;
            }
        }
    }
}

/// An integer has one minimal encoding: two runs of octets without a
/// needless leading octet that stand for the same number in two's
/// complement are the same octets.
pub proof fn lemma_integer_is_canonical(a: Seq<u8>, b: Seq<u8>)
    requires
        is_minimal(a),
        is_minimal(b),
        twos_complement(a) == twos_complement(b),
    ensures
        a == b,
{
    lemma_minimal_range(a);
    lemma_minimal_range(b);
    if a.len() < b.len() {
        lemma_pow256_grows((a.len() - 1) as nat, (b.len() - 2) as nat);
        assert(false);
    } else if b.len() < a.len() {
        lemma_pow256_grows((b.len() - 1) as nat, (a.len() - 2) as nat);
        assert(false);
    } else {
        lemma_unsigned_is_injective(a, b);
    }
}

/// The octets that hold a number in two's complement with no octet more
/// than the sign needs.
pub open spec fn integer_octets(n: int) -> Seq<u8>
    decreases
            (if n < 0 {
                -n
            } else {
                n
            }),
{
    if -128 <= n < 128 {
        seq![
            (if n < 0 {
                n + 256
            } else {
                n
            }) as u8,
        ]
    } else {
        integer_octets(n / 256).push((n % 256) as u8)
    }
}

/// One more octet behind octets that stand for a number makes them stand
/// for 256 times the number and the octet.
proof fn lemma_twos_complement_push(octets: Seq<u8>, last: u8)
    requires
        octets.len() >= 1,
    ensures
        twos_complement(octets.push(last)) == twos_complement(octets) * 256 + last,
{
    let longer = octets.push(last);
    assert(longer.drop_last() =~= octets);
    assert(longer.last() == last);
    assert(longer[0] == octets[0]);
    assert(pow256(longer.len()) == 256 * pow256(octets.len()));
    assert(unsigned_value(longer) == unsigned_value(octets) * 256 + last);
}

/// A decode gives back the number that was encoded: the octets made for a
/// number have no needless leading octet, and they stand for that number.
pub proof fn lemma_integer_round_trip(n: int)
    ensures
        is_minimal(integer_octets(n)),
        twos_complement(integer_octets(n)) == n,
        integer_octets(n).len() == 1 <==> -128 <= n < 128,
    decreases
            (if n < 0 {
                -n
            } else {
                n
            }),
{
    let octets = integer_octets(n);
    if -128 <= n < 128 {
        let only = (if n < 0 {
            n + 256
        } else {
            n
        }) as u8;
        assert(octets =~= seq![only]);
        assert(octets.drop_last() =~= Seq::<u8>::empty());
        assert(unsigned_value(octets.drop_last()) == 0);
        assert(unsigned_value(octets) == only);
        assert(pow256(1) == 256) by {
            assert(pow256(0) == 1);
        }
    } else {
        let high = n / 256;
        let low = (n % 256) as u8;
        let front = integer_octets(high);
        lemma_integer_round_trip(high);
        lemma_twos_complement_push(front, low);
        assert(octets == front.push(low));
        assert(octets[0] == front[0]);
        if front.len() >= 2 {
            assert(octets[1] == front[1]);
        } else {
            assert(front.len() == 1);
            assert(octets[1] == low);
            assert(-128 <= high < 128);
            assert(front =~= seq![
                (if high < 0 {
                    high + 256
                } else {
                    high
                }) as u8,
            ]);
        }
    }
}

/// A primitive TLV whose value holds the octets made for a number passes
/// the rules of an INTEGER and decodes to that number.
pub proof fn lemma_integer_decodes_to_its_number(step: StepView, label: Seq<char>, n: int)
    requires
        step.is_primitive(),
        step.value() == integer_octets(n),
    ensures
        integer_verdict(step, label) is Ok,
        integer_view(twos_complement(step.value())) == integer_view(n),
{
    lemma_integer_round_trip(n);
}

/// The rules of an INTEGER take the octets of a value exactly where they
/// are primitive and minimal.
pub proof fn lemma_integer_verdict_is_minimal(step: StepView, label: Seq<char>)
    requires
        step.is_primitive(),
    ensures
        integer_verdict(step, label) is Ok <==> is_minimal(step.value()),
{
}

/// The TLVs that the value of a step holds from the octet `rel` on, up to
/// the first that cannot be read.
pub open spec fn tlvs_from(step: StepView, rel: nat) -> Seq<Seq<u8>>
    decreases step.header.length - rel,
{
    if rel >= step.header.length || !step.wf() {
        Seq::empty()
    } else {
        let offset = (value_offset(step) + rel) as usize;
        let rest = step.value().subrange(rel as int, step.value().len() as int);
        match spec_read_tlv(rest, offset) {
            Err(_) => Seq::empty(),
            Ok((_, tlv)) => seq![tlv] + tlvs_from(step, rel + tlv.len()),
        }
    }
}

/// Whether no run of octets sorts before the one in front of it.
pub open spec fn in_order(runs: Seq<Seq<u8>>) -> bool {
    forall|i: int| 0 < i < runs.len() ==> !sorts_after(#[trigger] runs[i - 1], runs[i])
}

/// The TLV before, where there is one, as a run of TLVs.
pub open spec fn before_run(last: Option<Seq<u8>>) -> Seq<Seq<u8>> {
    match last {
        Some(before) => seq![before],
        None => Seq::empty(),
    }
}

/// A walk over the elements of a SET OF that ends well has read every TLV
/// of the value, one element for each, and found none that sorts before
/// the one in front of it.
pub proof fn lemma_set_of_walk_in_order(
    step: StepView,
    rel: nat,
    last: Option<Seq<u8>>,
    elements: Seq<ValueView>,
)
    ensures
        elements_walk(step, true, rel, last, elements) matches Ok(found) ==> found.len()
            == elements.len() + tlvs_from(step, rel).len() && in_order(
            before_run(last) + tlvs_from(step, rel),
        ),
    decreases step.header.length - rel,
{
    if rel >= step.header.length || !step.wf() {
        assert(before_run(last) + tlvs_from(step, rel) =~= before_run(last));
    } else {
        let offset = (value_offset(step) + rel) as usize;
        let rest = step.value().subrange(rel as int, step.value().len() as int);
        match spec_read_tlv(rest, offset) {
            Err(_) => {},
            Ok((_, tlv)) => {
                if last matches Some(before) && sorts_after(before, tlv) {
                } else {
                    match spec_decode_der_rec(tlv, element_node(step.ty()), None, offset) {
                        Err(_) => {},
                        Ok((decoded, _)) => {
                            let next = rel + tlv.len();
                            lemma_set_of_walk_in_order(
                                step,
                                next,
                                Some(tlv),
                                elements.push(decoded),
                            );
                            if elements_walk(step, true, rel, last, elements) is Ok {
                                let tail = seq![tlv] + tlvs_from(step, next);
                                let whole = before_run(last) + tlvs_from(step, rel);
                                assert(tlvs_from(step, rel) == tail);
                                assert(before_run(Some(tlv)) + tlvs_from(step, next) =~= tail);
                                assert forall|i: int| 0 < i < whole.len() implies !sorts_after(
                                    #[trigger] whole[i - 1],
                                    whole[i],
                                ) by {
                                    match last {
                                        Some(before) => {
                                            if i > 1 {
                                                assert(whole[i - 1] == tail[i - 2]);
                                                assert(whole[i] == tail[i - 1]);
                                            }
                                        },
                                        None => {
                                            assert(whole[i - 1] == tail[i - 1]);
                                            assert(whole[i] == tail[i]);
                                        },
                                    }
                                }
                            }
                        },
                    }
                }
            },
        }
    }
}

/// A SET OF that decodes holds one element for each TLV of its value, in
/// the order of the encoding, and no TLV sorts before the one in front of it.
pub proof fn lemma_set_of_is_in_order(step: StepView)
    ensures
        elements_walk(step, true, 0, None, Seq::empty()) matches Ok(found) ==> found.len()
            == tlvs_from(step, 0).len() && in_order(tlvs_from(step, 0)),
{
    lemma_set_of_walk_in_order(step, 0, None, Seq::empty());
    assert(before_run(None) + tlvs_from(step, 0) =~= tlvs_from(step, 0));
}

/// Whether, at every layer that a decode of `substrate` meets on its way
/// to the entry `k` of a map, no other entry of the window from `start` up
/// to `end` takes the chain of tags.
pub open spec fn only_entry(
    substrate: Seq<u8>,
    inherited: Option<Seq<Tag>>,
    offset: usize,
    entries: &Vec<NamedType>,
    start: int,
    end: int,
    k: int,
) -> bool
    decreases substrate.len(),
{
    match spec_read_tlv(substrate, offset) {
        Err(_) => true,
        Ok((header, tlv)) => {
            let tags = tag_set_of(substrate, inherited);
            let node = SchemaNode::Type(&entries@[k].asn1_object);
            let step = StepView { substrate, header, asn1_spec: node, tag_set: tags, offset };
            &&& forall|j: int|
                start <= j < end && j != k ==> !(#[trigger] entries@[j]).asn1_object.accepts(tags)
            &&& substrate.len() == tlv.len() && node.chosen(tags) is None ==> only_entry(
                step.value(),
                Some(tags),
                value_offset(step),
                entries,
                start,
                end,
                k,
            )
        },
    }
}

proof fn lemma_first_key_only(list: Seq<NamedType>, tags: Seq<Tag>, start: int, end: int, k: int)
    requires
        forall|j: int| start <= j < end && j != k ==> !(#[trigger] list[j]).asn1_object.has_key(tags),
    ensures
        first_key(list, tags, start, end) == if start <= k < end && list[k].asn1_object.has_key(
            tags,
        ) {
            Some(k)
        } else {
            None
        },
    decreases end - start,
{
    if start < end {
        lemma_first_key_only(list, tags, start + 1, end, k);
        if start != k {
            assert(!list[start].asn1_object.has_key(tags));
        }
    }
}

proof fn lemma_first_default_only(list: Seq<NamedType>, start: int, end: int, k: int)
    requires
        forall|j: int| start <= j < end && j != k ==> !(#[trigger] list[j]).asn1_object.has_default(),
    ensures
        first_default(list, start, end) == if start <= k < end && list[k].asn1_object.has_default() {
            Some(k)
        } else {
            None
        },
    decreases end - start,
{
    if start < end {
        lemma_first_default_only(list, start + 1, end, k);
        if start != k {
            assert(!list[start].asn1_object.has_default());
        }
    }
}

/// Where one entry of a window alone takes a chain of tags, the lookup
/// finds that entry; where it does not take the chain either, none.
pub proof fn lemma_lookup_only(list: Seq<NamedType>, tags: Seq<Tag>, start: int, end: int, k: int)
    requires
        start <= k < end,
        forall|j: int| start <= j < end && j != k ==> !(#[trigger] list[j]).asn1_object.accepts(tags),
    ensures
        lookup(list, tags, start, end) == if list[k].asn1_object.accepts(tags) {
            Some(k)
        } else {
            None
        },
{
    assert forall|j: int| start <= j < end && j != k implies !(#[trigger] list[j]).asn1_object.has_key(
        tags,
    ) by {
        assert(!list[j].asn1_object.accepts(tags));
    }
    assert forall|j: int| start <= j < end && j != k implies !(
    #[trigger] list[j]).asn1_object.has_default() by {
        assert(!list[j].asn1_object.accepts(tags));
    }
    lemma_first_key_only(list, tags, start, end, k);
    lemma_first_default_only(list, start, end, k);
}

/// A TLV whose tags are those of one entry of a map alone decodes against
/// the map as it does against the type of that entry, and at its position.
pub proof fn lemma_map_decodes_as_entry(
    substrate: Seq<u8>,
    inherited: Option<Seq<Tag>>,
    offset: usize,
    entries: &Vec<NamedType>,
    start: usize,
    end: usize,
    k: usize,
)
    requires
        start <= k < end <= entries@.len(),
        only_entry(substrate, inherited, offset, entries, start as int, end as int, k as int),
        spec_decode_der_rec(
            substrate,
            Some(SchemaNode::Type(&entries@[k as int].asn1_object)),
            inherited,
            offset,
        ) is Ok,
    ensures
        spec_decode_der_rec(
            substrate,
            Some(SchemaNode::TagMap { entries, start, end }),
            inherited,
            offset,
        ) == Ok::<(ValueView, usize), ErrorView>(
            (
                spec_decode_der_rec(
                    substrate,
                    Some(SchemaNode::Type(&entries@[k as int].asn1_object)),
                    inherited,
                    offset,
                )->Ok_0.0,
                k,
            ),
        ),
    decreases substrate.len(),
{
    let ty = entries@[k as int].asn1_object;
    let single = SchemaNode::Type(&entries@[k as int].asn1_object);
    let map = SchemaNode::TagMap { entries, start, end };
    match spec_read_tlv(substrate, offset) {
        Err(_) => {},
        Ok((header, tlv)) => {
            if substrate.len() == tlv.len() {
                let tags = tag_set_of(substrate, inherited);
                let step_single = StepView {
                    substrate,
                    header,
                    asn1_spec: single,
                    tag_set: tags,
                    offset,
                };
                let step_map = StepView { substrate, header, asn1_spec: map, tag_set: tags, offset };
                lemma_lookup_only(entries@, tags, start as int, end as int, k as int);
                assert(tags.len() >= 1);
                if tags_match(tags, ty.tag_set@) {
                    assert(ty.has_key(tags));
                }
                match single.chosen(tags) {
                    Some((_, chosen_ty)) => {
                        assert(ty.accepts(tags));
                        assert(map.chosen(tags) == Some((k, ty)));
                        assert(step_as(step_single, &ty) == step_as(step_map, &ty));
                    },
                    None => {
                        assert(!ty.accepts(tags));
                        assert(map.chosen(tags) is None);
                        assert(spec_decode_explicit(step_single) is Ok);
                        assert(step_single.value() == step_map.value());
                        lemma_map_decodes_as_entry(
                            step_single.value(),
                            Some(tags),
                            value_offset(step_single),
                            entries,
                            start,
                            end,
                            k,
                        );
                    },
                }
            }
        },
    }
}

/// A SEQUENCE of a required, an optional and a required component, sent
/// with the optional one left out, decodes: the TLV behind the first is
/// taken for the third by its tags, the slot of the second stays empty,
/// and no required component is missing.
///
/// `first` and `third` are the TLVs that the value holds; each decodes as
/// the type of its component, and the tags of `third` are not such that
/// the second component takes them.
#[verifier::rlimit(40)]
#[verifier::spinoff_prover]
pub proof fn lemma_sequence_skips_optional(step: StepView, first: Seq<u8>, third: Seq<u8>)
    requires
        step.wf(),
        step.asn1_spec is Type,
        step.ty().components@.len() == 3,
        step.ty().components@[0].is_required(),
        step.ty().components@[1].is_optional,
        step.ty().components@[1].default is None,
        step.ty().components@[2].is_required(),
        first.len() + third.len() == step.header.length,
        spec_read_tlv(step.value(), value_offset(step)) matches Ok((_, tlv)) && tlv == first,
        spec_read_tlv(
            step.value().subrange(first.len() as int, step.value().len() as int),
            (value_offset(step) + first.len()) as usize,
        ) matches Ok((_, tlv)) && tlv == third,
        spec_decode_der_rec(
            first,
            Some(SchemaNode::Type(&step.ty().components@[0].asn1_object)),
            None,
            value_offset(step),
        ) is Ok,
        spec_decode_der_rec(
            third,
            Some(SchemaNode::Type(&step.ty().components@[2].asn1_object)),
            None,
            (value_offset(step) + first.len()) as usize,
        ) is Ok,
        only_entry(
            third,
            None,
            (value_offset(step) + first.len()) as usize,
            &step.ty().components,
            1,
            3,
            2,
        ),
    ensures
        sequence_decoded(step) == Ok::<ValueView, ErrorView>(
            ValueView::Sequence(
                seq![
                    Some(
                        spec_decode_der_rec(
                            first,
                            Some(SchemaNode::Type(&step.ty().components@[0].asn1_object)),
                            None,
                            value_offset(step),
                        )->Ok_0.0,
                    ),
                    None,
                    Some(
                        spec_decode_der_rec(
                            third,
                            Some(SchemaNode::Type(&step.ty().components@[2].asn1_object)),
                            None,
                            (value_offset(step) + first.len()) as usize,
                        )->Ok_0.0,
                    ),
                ],
            ),
        ),
{
    let components = step.ty().components;
    let value = step.value();
    let offset0 = value_offset(step);
    let offset1 = (value_offset(step) + first.len()) as usize;
    let a = spec_decode_der_rec(
        first,
        Some(SchemaNode::Type(&components@[0].asn1_object)),
        None,
        offset0,
    )->Ok_0.0;
    let c = spec_decode_der_rec(
        third,
        Some(SchemaNode::Type(&components@[2].asn1_object)),
        None,
        offset1,
    )->Ok_0.0;
    let slots0 = empty_slots(3);
    let slots1 = slots0.update(0, Some(a));
    let slots2 = slots1.update(2, Some(c));
    lemma_read_tlv(value, offset0);
    lemma_read_tlv(value.subrange(first.len() as int, value.len() as int), offset1);
    assert(value.len() == step.header.length);
    assert(value.subrange(0, value.len() as int) =~= value);
    assert((value_offset(step) + 0) as usize == offset0);
    // The first component is due and may not be left out.
    assert(component_node(&components, 0) == SchemaNode::Type(&components@[0].asn1_object));
    assert(sequence_walk(step, 0, 0, slots0) == sequence_walk(step, 1, first.len(), slots1));
    // Behind it the second may be left out, so the map of the second and the third is asked.
    assert(near_end(components@, 2) == 3);
    assert(near_end(components@, 1) == 3);
    assert(component_node(&components, 1) == (SchemaNode::TagMap {
        entries: &components,
        start: 1,
        end: 3,
    }));
    lemma_map_decodes_as_entry(third, None, offset1, &components, 1, 3, 2);
    assert(sequence_walk(step, 1, first.len(), slots1) == sequence_walk(
        step,
        3,
        first.len() + third.len(),
        slots2,
    ));
    assert(sequence_walk(step, 3, first.len() + third.len(), slots2) == Ok::<
        Seq<Option<ValueView>>,
        ErrorView,
    >(slots2));
    assert(slots2 =~= seq![Some(a), None, Some(c)]);
    assert(required_present(components@, slots2));
}

} // verus!
