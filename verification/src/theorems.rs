//! What holds of the codec as a whole: encoding and decoding are inverse,
//! no value has two encodings, and a record decodes exactly when it is the
//! record of a claim.

use crate::claim::{claims_view, values_of, ClaimView, EvalClaim};
use crate::field::{
    is_canonical, le_value, lemma_le_value_injective, modulus, FieldElement, REPR_LEN,
};
use crate::serialization::{
    decode_claim, decode_claims, decode_scalar, decode_sequence, encode_claim, encode_claims,
    encode_sequence, lemma_decode_each, lemma_decode_encoded, lemma_visit_prefix, visit_entries,
    DecodeFault, EntryView, FieldName, VisitorView,
};
use vstd::prelude::*;

verus! {

/// Decoding the encoding of a field element gives the element back.
pub proof fn lemma_scalar_roundtrip(fr: FieldElement)
    requires
        fr.wf(),
    ensures
        decode_scalar(fr.repr()) == Ok::<nat, DecodeFault>(fr@),
{
}

/// Bytes of the right width that denote the modulus or more are refused as
/// an invalid encoding, whatever they are; so are bytes of any other width.
pub proof fn lemma_non_canonical_refused(bytes: Seq<u8>)
    requires
        bytes.len() != REPR_LEN || le_value(bytes) >= modulus(),
    ensures
        decode_scalar(bytes) == Err::<nat, DecodeFault>(DecodeFault::InvalidEncoding),
{
}

/// Two byte strings that decode to the same field element are the same
/// string.
pub proof fn lemma_decode_scalar_injective(a: Seq<u8>, b: Seq<u8>)
    requires
        decode_scalar(a) is Ok,
        decode_scalar(a) == decode_scalar(b),
    ensures
        a == b,
{
    lemma_le_value_injective(a, b);
}

/// Decoding the encoding of a sequence of field elements gives the sequence
/// back: as many elements, the same ones, in the same order.
pub proof fn lemma_sequence_roundtrip(elements: Seq<FieldElement>)
    requires
        forall|i: int| 0 <= i < elements.len() ==> (#[trigger] elements[i]).wf(),
    ensures
        decode_sequence(encode_sequence(elements)) == Ok::<Seq<nat>, DecodeFault>(
            values_of(elements),
        ),
{
    let items = encode_sequence(elements);
    assert forall|i: int| 0 <= i < items.len() implies is_canonical(#[trigger] items[i]) by {
        assert(elements[i].wf());
    }
    assert(items.map_values(|bytes: Seq<u8>| le_value(bytes)) =~= values_of(elements));
}

/// Decoding the record of a claim gives the claim back: its point and its
/// value.
pub proof fn lemma_claim_roundtrip(claim: EvalClaim)
    requires
        claim.wf(),
    ensures
        decode_claim(encode_claim(claim)) == Ok::<ClaimView, DecodeFault>(claim@),
{
    lemma_sequence_roundtrip(claim.coordinates());
    lemma_scalar_roundtrip(claim.claimed());
    lemma_decode_encoded(encode_claim(claim), claim@);
}

/// Decoding the records of a list of claims gives the list back: as many
/// claims, each with its point and its value, in the same order.
pub proof fn lemma_claims_roundtrip(claims: Seq<EvalClaim>)
    requires
        forall|i: int| 0 <= i < claims.len() ==> (#[trigger] claims[i]).wf(),
    ensures
        decode_claims(encode_claims(claims)) == Ok::<Seq<ClaimView>, DecodeFault>(
            claims_view(claims),
        ),
{
    let records = encode_claims(claims);
    let views = claims_view(claims);
    assert forall|j: int| 0 <= j < records.len() implies decode_claim(#[trigger] records[j])
        == Ok::<ClaimView, DecodeFault>(views[j]) by {
        lemma_claim_roundtrip(claims[j]);
    }
    lemma_decode_each(records, views, records.len() as int);
    assert(records.take(records.len() as int) =~= records);
    assert(views.take(records.len() as int) =~= views);
}

/// The field that an entry is written under, if a claim has it.
pub open spec fn entry_field(entry: EntryView) -> Option<FieldName> {
    match entry {
        EntryView::Point(_) => Some(FieldName::Point),
        EntryView::Value(_) => Some(FieldName::Value),
        EntryView::Unknown(_) => None,
    }
}

/// Whether the payload of an entry decodes.
pub open spec fn payload_decodes(entry: EntryView) -> bool {
    match entry {
        EntryView::Point(items) => decode_sequence(items) is Ok,
        EntryView::Value(bytes) => decode_scalar(bytes) is Ok,
        EntryView::Unknown(_) => true,
    }
}

/// The record holds the field.
pub open spec fn holds_field(entries: Seq<EntryView>, field: FieldName) -> bool {
    exists|i: int| 0 <= i < entries.len() && entry_field(#[trigger] entries[i]) == Some(field)
}

/// The record holds some field of a claim twice.
pub open spec fn repeats_field(entries: Seq<EntryView>) -> bool {
    exists|i: int, j: int|
        0 <= i < j < entries.len() && entry_field(#[trigger] entries[i]) is Some && entry_field(
            entries[i],
        ) == entry_field(#[trigger] entries[j])
}

/// The record holds a field under a name that no claim has.
pub open spec fn holds_unknown(entries: Seq<EntryView>) -> bool {
    exists|i: int| 0 <= i < entries.len() && entry_field(#[trigger] entries[i]) is None
}

/// Every payload in the record decodes.
pub open spec fn payloads_decode(entries: Seq<EntryView>) -> bool {
    forall|i: int| 0 <= i < entries.len() ==> payload_decodes(#[trigger] entries[i])
}

/// The structure of a claim record: the point once, the value once, and
/// nothing else.
pub open spec fn has_claim_structure(entries: Seq<EntryView>) -> bool {
    &&& holds_field(entries, FieldName::Point)
    &&& holds_field(entries, FieldName::Value)
    &&& !repeats_field(entries)
    &&& !holds_unknown(entries)
}

proof fn lemma_holds_field_step(entries: Seq<EntryView>, field: FieldName)
    requires
        entries.len() > 0,
    ensures
        holds_field(entries, field) <==> holds_field(entries.drop_last(), field) || entry_field(
            entries.last(),
        ) == Some(field),
{
    let shorter = entries.drop_last();
    if holds_field(entries, field) {
        let i = choose|i: int|
            0 <= i < entries.len() && entry_field(#[trigger] entries[i]) == Some(field);
        if i < shorter.len() {
            assert(shorter[i] == entries[i]);
        }
    }
    if holds_field(shorter, field) {
        let i = choose|i: int|
            0 <= i < shorter.len() && entry_field(#[trigger] shorter[i]) == Some(field);
        assert(entries[i] == shorter[i]);
    }
    if entry_field(entries.last()) == Some(field) {
        assert(entries[entries.len() - 1] == entries.last());
    }
}

proof fn lemma_holds_unknown_step(entries: Seq<EntryView>)
    requires
        entries.len() > 0,
    ensures
        holds_unknown(entries) <==> holds_unknown(entries.drop_last()) || entry_field(
            entries.last(),
        ) is None,
{
    let shorter = entries.drop_last();
    if holds_unknown(entries) {
        let i = choose|i: int| 0 <= i < entries.len() && entry_field(#[trigger] entries[i]) is None;
        if i < shorter.len() {
            assert(shorter[i] == entries[i]);
        }
    }
    if holds_unknown(shorter) {
        let i = choose|i: int| 0 <= i < shorter.len() && entry_field(#[trigger] shorter[i]) is None;
        assert(entries[i] == shorter[i]);
    }
    if entry_field(entries.last()) is None {
        assert(entries[entries.len() - 1] == entries.last());
    }
}

proof fn lemma_repeats_field_step(entries: Seq<EntryView>)
    requires
        entries.len() > 0,
    ensures
        repeats_field(entries) <==> repeats_field(entries.drop_last()) || (entry_field(
            entries.last(),
        ) matches Some(field) && holds_field(entries.drop_last(), field)),
{
    let shorter = entries.drop_last();
    let last = entries.last();
    if repeats_field(entries) {
        let (i, j) = choose|i: int, j: int|
            0 <= i < j < entries.len() && entry_field(#[trigger] entries[i]) is Some
                && entry_field(entries[i]) == entry_field(#[trigger] entries[j]);
        assert(shorter[i] == entries[i]);
        if j < shorter.len() {
            assert(shorter[j] == entries[j]);
        } else {
            assert(entries[j] == last);
            assert(holds_field(shorter, entry_field(last)->Some_0));
        }
    }
    if repeats_field(shorter) {
        let (i, j) = choose|i: int, j: int|
            0 <= i < j < shorter.len() && entry_field(#[trigger] shorter[i]) is Some
                && entry_field(shorter[i]) == entry_field(#[trigger] shorter[j]);
        assert(entries[i] == shorter[i]);
        assert(entries[j] == shorter[j]);
    }
    if let Some(field) = entry_field(last) {
        if holds_field(shorter, field) {
            let i = choose|i: int|
                0 <= i < shorter.len() && entry_field(#[trigger] shorter[i]) == Some(field);
            assert(entries[i] == shorter[i]);
            assert(entries[entries.len() - 1] == last);
        }
    }
}

proof fn lemma_payloads_decode_step(entries: Seq<EntryView>)
    requires
        entries.len() > 0,
    ensures
        payloads_decode(entries) <==> payloads_decode(entries.drop_last()) && payload_decodes(
            entries.last(),
        ),
{
    let shorter = entries.drop_last();
    if payloads_decode(entries) {
        assert forall|i: int| 0 <= i < shorter.len() implies payload_decodes(
            #[trigger] shorter[i],
        ) by {
            assert(shorter[i] == entries[i]);
        }
        assert(entries[entries.len() - 1] == entries.last());
    }
    if payloads_decode(shorter) && payload_decodes(entries.last()) {
        assert forall|i: int| 0 <= i < entries.len() implies payload_decodes(
            #[trigger] entries[i],
        ) by {
            if i < shorter.len() {
                assert(shorter[i] == entries[i]);
            }
        }
    }
}

/// Reading the fields of a record goes through exactly when no field is
/// repeated, none is unknown and every payload decodes; the fields then seen
/// are those that the record holds. Where every payload decodes, a fault is
/// one of the record's structure.
pub proof fn lemma_visit_entries_decides(entries: Seq<EntryView>)
    ensures
        visit_entries(entries) is Ok <==> !repeats_field(entries) && !holds_unknown(entries)
            && payloads_decode(entries),
        visit_entries(entries) matches Ok(state) ==> (state.point is Some <==> holds_field(
            entries,
            FieldName::Point,
        )) && (state.value is Some <==> holds_field(entries, FieldName::Value)),
        visit_entries(entries) matches Err(e) ==> payloads_decode(entries)
            ==> e.is_malformed_document(),
    decreases entries.len(),
{
    if entries.len() > 0 {
        lemma_visit_entries_decides(entries.drop_last());
        lemma_holds_field_step(entries, FieldName::Point);
        lemma_holds_field_step(entries, FieldName::Value);
        lemma_holds_unknown_step(entries);
        lemma_repeats_field_step(entries);
        lemma_payloads_decode_step(entries);
    }
}

/// A record decodes to a claim exactly when it has the structure of a claim
/// record and every payload in it decodes. So a record that misses the
/// point or the value, holds either twice, or holds a field that no claim
/// has, is refused: this holds for each field by itself.
pub proof fn lemma_decode_claim_strict(entries: Seq<EntryView>)
    ensures
        decode_claim(entries) is Ok <==> has_claim_structure(entries) && payloads_decode(entries),
{
    lemma_visit_entries_decides(entries);
}

/// The entry at `i` is a fault of the record's structure: its name is
/// unknown, or its field was written before.
pub open spec fn structural_fault_at(entries: Seq<EntryView>, i: int) -> bool {
    match entry_field(entries[i]) {
        None => true,
        Some(field) => holds_field(entries.take(i), field),
    }
}

/// Reading has met no fault of the record's structure up to the entry at
/// `j`, that entry included.
pub open spec fn read_without_fault(entries: Seq<EntryView>, j: int) -> bool {
    forall|i: int| 0 <= i <= j ==> !#[trigger] structural_fault_at(entries, i)
}

/// Reading meets a payload that does not decode before it meets any fault
/// of the record's structure.
pub open spec fn payload_fault_first(entries: Seq<EntryView>) -> bool {
    exists|j: int|
        0 <= j < entries.len() && #[trigger] read_without_fault(entries, j) && !payload_decodes(
            entries[j],
        )
}

proof fn lemma_structural_fault_step(entries: Seq<EntryView>, i: int)
    requires
        0 <= i < entries.len() - 1,
    ensures
        structural_fault_at(entries, i) == structural_fault_at(entries.drop_last(), i),
{
    assert(entries.drop_last()[i] == entries[i]);
    assert(entries.drop_last().take(i) =~= entries.take(i));
}

proof fn lemma_read_without_fault_step(entries: Seq<EntryView>, j: int)
    requires
        0 <= j < entries.len() - 1,
    ensures
        read_without_fault(entries, j) == read_without_fault(entries.drop_last(), j),
{
    let shorter = entries.drop_last();
    if read_without_fault(entries, j) {
        assert forall|i: int| 0 <= i <= j implies !#[trigger] structural_fault_at(shorter, i) by {
            lemma_structural_fault_step(entries, i);
        }
    }
    if read_without_fault(shorter, j) {
        assert forall|i: int| 0 <= i <= j implies !#[trigger] structural_fault_at(entries, i) by {
            lemma_structural_fault_step(entries, i);
        }
    }
}

proof fn lemma_payload_fault_first_step(entries: Seq<EntryView>)
    requires
        entries.len() > 0,
    ensures
        payload_fault_first(entries) <==> payload_fault_first(entries.drop_last()) || (
        read_without_fault(entries, entries.len() - 1) && !payload_decodes(entries.last())),
{
    let shorter = entries.drop_last();
    let last = entries.len() - 1;
    if payload_fault_first(entries) {
        let j = choose|j: int|
            0 <= j < entries.len() && #[trigger] read_without_fault(entries, j)
                && !payload_decodes(entries[j]);
        if j < last {
            lemma_read_without_fault_step(entries, j);
            assert(shorter[j] == entries[j]);
        }
    }
    if payload_fault_first(shorter) {
        let j = choose|j: int|
            0 <= j < shorter.len() && #[trigger] read_without_fault(shorter, j)
                && !payload_decodes(shorter[j]);
        lemma_read_without_fault_step(entries, j);
        assert(shorter[j] == entries[j]);
    }
}

/// Reading the fields of a record ends in an invalid encoding exactly when
/// a payload that does not decode is met before any fault of the record's
/// structure; it ends in a fault of the structure only where the record has
/// one, and goes through only where it has none.
pub proof fn lemma_first_fault_decides(entries: Seq<EntryView>)
    ensures
        visit_entries(entries) == Err::<VisitorView, DecodeFault>(DecodeFault::InvalidEncoding)
            <==> payload_fault_first(entries),
        visit_entries(entries) matches Err(e) && e.is_malformed_document() ==> exists|i: int|
            0 <= i < entries.len() && #[trigger] structural_fault_at(entries, i),
        visit_entries(entries) is Ok ==> forall|i: int|
            0 <= i < entries.len() ==> !#[trigger] structural_fault_at(entries, i),
    decreases entries.len(),
{
    if entries.len() > 0 {
        let shorter = entries.drop_last();
        let last = entries.len() - 1;
        lemma_first_fault_decides(shorter);
        lemma_visit_entries_decides(shorter);
        lemma_payload_fault_first_step(entries);
        assert(entries.take(last) =~= shorter);
        assert(entries[last] == entries.last());
        match visit_entries(shorter) {
            Ok(state) => {
                assert forall|i: int| 0 <= i < last implies !#[trigger] structural_fault_at(
                    entries,
                    i,
                ) by {
                    lemma_structural_fault_step(entries, i);
                }
                if !structural_fault_at(entries, last) {
                    assert(read_without_fault(entries, last));
                }
            },
            Err(e) => {
                if e.is_malformed_document() {
                    let i = choose|i: int|
                        0 <= i < shorter.len() && #[trigger] structural_fault_at(shorter, i);
                    lemma_structural_fault_step(entries, i);
                    assert(!read_without_fault(entries, last));
                }
            },
        }
    }
}

/// A record without the structure of a claim record is refused as a
/// malformed document, unless a payload that does not decode is met first.
pub proof fn lemma_malformed_document_refused(entries: Seq<EntryView>)
    requires
        !has_claim_structure(entries),
        !payload_fault_first(entries),
    ensures
        decode_claim(entries) matches Err(e) && e.is_malformed_document(),
{
    lemma_visit_entries_decides(entries);
    lemma_first_fault_decides(entries);
}

/// A record is refused as an invalid encoding exactly when reading it meets
/// a payload that does not decode before any fault of its structure.
pub proof fn lemma_invalid_encoding_refused(entries: Seq<EntryView>)
    ensures
        decode_claim(entries) == Err::<ClaimView, DecodeFault>(DecodeFault::InvalidEncoding)
            <==> payload_fault_first(entries),
{
    lemma_first_fault_decides(entries);
}

/// A list of records decodes exactly when each record decodes; the claims
/// are then as many as the records and each is the claim of the record at
/// its position. A list that is refused is refused with the fault of its
/// first record that does not decode.
pub proof fn lemma_decode_claims_strict(records: Seq<Seq<EntryView>>)
    ensures
        decode_claims(records) is Ok <==> (forall|i: int|
            0 <= i < records.len() ==> decode_claim(#[trigger] records[i]) is Ok),
        decode_claims(records) matches Ok(claims) ==> claims.len() == records.len() && (forall|
            i: int,
        |
            0 <= i < records.len() ==> decode_claim(#[trigger] records[i]) == Ok::<
                ClaimView,
                DecodeFault,
            >(claims[i])),
        decode_claims(records) matches Err(e) ==> (exists|i: int|
            0 <= i < records.len() && decode_claim(#[trigger] records[i]) == Err::<
                ClaimView,
                DecodeFault,
            >(e) && (forall|j: int| 0 <= j < i ==> decode_claim(#[trigger] records[j]) is Ok)),
    decreases records.len(),
{
    if records.len() > 0 {
        let shorter = records.drop_last();
        let last = records.len() - 1;
        lemma_decode_claims_strict(shorter);
        assert forall|i: int| 0 <= i < shorter.len() implies shorter[i] == records[i] by {}
        match decode_claims(shorter) {
            Ok(claims) => {
                assert forall|j: int| 0 <= j < last implies decode_claim(
                    #[trigger] records[j],
                ) is Ok by {
                    assert(shorter[j] == records[j]);
                }
                match decode_claim(records.last()) {
                    Ok(claim) => {
                        let all = claims.push(claim);
                        assert forall|i: int| 0 <= i < records.len() implies decode_claim(
                            #[trigger] records[i],
                        ) == Ok::<ClaimView, DecodeFault>(all[i]) by {
                            if i < last {
                                assert(shorter[i] == records[i]);
                            }
                        }
                    },
                    Err(e) => {
                        assert(decode_claim(records[last]) == Err::<ClaimView, DecodeFault>(e));
                    },
                }
            },
            Err(e) => {
                let i = choose|i: int|
                    0 <= i < shorter.len() && decode_claim(#[trigger] shorter[i]) == Err::<
                        ClaimView,
                        DecodeFault,
                    >(e) && (forall|j: int|
                        0 <= j < i ==> decode_claim(#[trigger] shorter[j]) is Ok);
                assert(records[i] == shorter[i]);
                assert forall|j: int| 0 <= j < i implies decode_claim(
                    #[trigger] records[j],
                ) is Ok by {
                    assert(shorter[j] == records[j]);
                }
            },
        }
    }
}

/// The order in which the two fields of a record are written does not
/// matter: the record decodes to the same claim, or is refused with the same
/// fault, either way.
pub proof fn lemma_field_order_is_free(items: Seq<Seq<u8>>, bytes: Seq<u8>)
    ensures
        decode_claim(seq![EntryView::Point(items), EntryView::Value(bytes)]) == decode_claim(
            seq![EntryView::Value(bytes), EntryView::Point(items)],
        ),
{
    let point_first = seq![EntryView::Point(items), EntryView::Value(bytes)];
    let value_first = seq![EntryView::Value(bytes), EntryView::Point(items)];
    assert(point_first.take(0) =~= Seq::<EntryView>::empty());
    assert(value_first.take(0) =~= Seq::<EntryView>::empty());
    assert(point_first.take(2) =~= point_first);
    assert(value_first.take(2) =~= value_first);
    lemma_visit_prefix(point_first, 0);
    lemma_visit_prefix(point_first, 1);
    lemma_visit_prefix(value_first, 0);
    lemma_visit_prefix(value_first, 1);
}

} // verus!
