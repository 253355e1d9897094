//! The portable form of field elements and evaluation claims, and the strict
//! decoder that reads it back.
//!
//! A field element travels as its 32 canonical bytes, a sequence of elements
//! as a sequence of such byte strings, and a claim as a record of tagged
//! fields: `point` and `value`. Decoding refuses every byte string that is
//! not canonical and every record that misses, repeats or adds a field.

use crate::claim::{claims_view, values_of, ClaimView, EvalClaim};
use crate::field::{is_canonical, le_value, FieldElement};
use vstd::prelude::*;
use vstd::slice::slice_to_vec;

verus! {

/// The fields of a claim record.
#[derive(Clone, Copy, Debug, PartialEq, Eq, Structural)]
pub enum FieldName {
    Point,
    Value,
}

/// The names of the fields of a claim record, in the order in which they
/// are written.
pub const FIELDS: [&'static str; 2] = ["point", "value"];

/// The field that a name written in a record refers to, if any.
pub open spec fn field_named(name: Seq<char>) -> Option<FieldName> {
    if name == "point"@ {
        Some(FieldName::Point)
    } else if name == "value"@ {
        Some(FieldName::Value)
    } else {
        None
    }
}

impl FieldName {
    /// The name under which the field is written in a record.
    pub open spec fn label(self) -> Seq<char> {
        match self {
            FieldName::Point => "point"@,
            FieldName::Value => "value"@,
        }
    }

    /// The name under which the field is written in a record.
    pub fn name(self) -> (name: &'static str)
        ensures
            name@ == self.label(),
    {
        match self {
            FieldName::Point => FIELDS[0],
            FieldName::Value => FIELDS[1],
        }
    }

    /// The field that `name` refers to; `None` for every other name.
    pub fn parse(name: &str) -> (field: Option<FieldName>)
        ensures
            field == field_named(name@),
    {
        let written = name.to_owned();
        if written == "point".to_owned() {
            Some(FieldName::Point)
        } else if written == "value".to_owned() {
            Some(FieldName::Value)
        } else {
            None
        }
    }
}

/// Each field is found again under its own name.
pub proof fn lemma_label_names_field(field: FieldName)
    ensures
        field_named(field.label()) == Some(field),
{
    reveal_strlit("point");
    reveal_strlit("value");
    assert("point"@[0] != "value"@[0]);
}

/// Why a byte string or a record was refused.
#[derive(Debug, PartialEq, Eq)]
pub enum DecodeError {
    /// A byte string is not the canonical encoding of a field element: it
    /// has the wrong width or denotes an integer that is not below the
    /// modulus.
    InvalidEncoding,
    /// A record ended without the field.
    MissingField(FieldName),
    /// A record holds the field twice.
    DuplicateField(FieldName),
    /// A record holds a field under a name that no claim has.
    UnknownField(String),
}

/// A decoding error, with the unknown name as a sequence of characters.
pub enum DecodeFault {
    InvalidEncoding,
    MissingField(FieldName),
    DuplicateField(FieldName),
    UnknownField(Seq<char>),
}

impl DecodeFault {
    /// The faults of a record's structure, as opposed to those of a byte
    /// string.
    pub open spec fn is_malformed_document(self) -> bool {
        !(self is InvalidEncoding)
    }
}

impl View for DecodeError {
    type V = DecodeFault;

    open spec fn view(&self) -> DecodeFault {
        match *self {
            DecodeError::InvalidEncoding => DecodeFault::InvalidEncoding,
            DecodeError::MissingField(field) => DecodeFault::MissingField(field),
            DecodeError::DuplicateField(field) => DecodeFault::DuplicateField(field),
            DecodeError::UnknownField(name) => DecodeFault::UnknownField(name@),
        }
    }
}

impl DecodeError {
    /// Whether the error is about the structure of a record: a missing, a
    /// repeated or an unknown field.
    pub fn is_malformed_document(&self) -> (malformed: bool)
        ensures
            malformed == self@.is_malformed_document(),
    {
        match self {
            DecodeError::InvalidEncoding => false,
            _ => true,
        }
    }
}

/// The field element that a byte string encodes: its little-endian value, if
/// the string is canonical.
pub open spec fn decode_scalar(bytes: Seq<u8>) -> Result<nat, DecodeFault> {
    if is_canonical(bytes) {
        Ok(le_value(bytes))
    } else {
        Err(DecodeFault::InvalidEncoding)
    }
}

/// The byte strings that a sequence of byte vectors holds.
pub open spec fn byte_strings(items: Seq<Vec<u8>>) -> Seq<Seq<u8>> {
    items.map_values(|bytes: Vec<u8>| bytes@)
}

/// The encodings of a sequence of field elements, in order.
pub open spec fn encode_sequence(elements: Seq<FieldElement>) -> Seq<Seq<u8>> {
    elements.map_values(|f: FieldElement| f.repr())
}

/// The field elements that a sequence of byte strings encodes, element by
/// element and in order, if every string is canonical.
pub open spec fn decode_sequence(items: Seq<Seq<u8>>) -> Result<Seq<nat>, DecodeFault> {
    if forall|i: int| 0 <= i < items.len() ==> is_canonical(#[trigger] items[i]) {
        Ok(items.map_values(|bytes: Seq<u8>| le_value(bytes)))
    } else {
        Err(DecodeFault::InvalidEncoding)
    }
}

/// Encodes a field element as its 32 canonical bytes.
pub fn serialize_fr(fr: &FieldElement) -> (bytes: Vec<u8>)
    ensures
        bytes@ == fr.repr(),
        decode_scalar(bytes@) == Ok::<nat, DecodeFault>(fr@),
{
    let repr = fr.to_repr();
    slice_to_vec(repr.as_slice())
}

/// Decodes a field element. The bytes are refused when they are not 32 or
/// denote an integer that is not below the modulus.
pub fn deserialize_fr(bytes: &[u8]) -> (result: Result<FieldElement, DecodeError>)
    ensures
        match result {
            Ok(fr) => decode_scalar(bytes@) == Ok::<nat, DecodeFault>(fr@) && fr.repr() == bytes@,
            Err(e) => decode_scalar(bytes@) == Err::<nat, DecodeFault>(e@),
        },
{
    if bytes.len() != 32 {
        return Err(DecodeError::InvalidEncoding);
    }
    let mut repr: [u8; 32] = [0u8; 32];
    let mut i: usize = 0;
    while i < 32
        invariant
            i <= 32,
            bytes@.len() == 32,
            forall|j: int| 0 <= j < i ==> repr[j] == bytes[j],
        decreases 32 - i,
    {
        repr[i] = bytes[i];
        i = i + 1;
    }
    assert(repr@ =~= bytes@);
    match FieldElement::from_repr(repr) {
        Some(fr) => Ok(fr),
        None => Err(DecodeError::InvalidEncoding),
    }
}

/// Encodes a sequence of field elements, element by element and in order.
pub fn serialize_fr_vec(fr_vec: &Vec<FieldElement>) -> (items: Vec<Vec<u8>>)
    ensures
        byte_strings(items@) == encode_sequence(fr_vec@),
        decode_sequence(byte_strings(items@)) == Ok::<Seq<nat>, DecodeFault>(values_of(fr_vec@)),
{
    let mut items: Vec<Vec<u8>> = Vec::new();
    let mut i: usize = 0;
    while i < fr_vec.len()
        invariant
            i <= fr_vec.len(),
            items.len() == i,
            forall|j: int| 0 <= j < i ==> (#[trigger] items[j])@ == fr_vec[j].repr(),
            forall|j: int| 0 <= j < i ==> decode_scalar((#[trigger] items[j])@) == Ok::<nat, DecodeFault>(fr_vec[j]@),
        decreases fr_vec.len() - i,
    {
        let bytes = serialize_fr(&fr_vec[i]);
        items.push(bytes);
        i = i + 1;
    }
    assert(byte_strings(items@) =~= encode_sequence(fr_vec@));
    proof {
        let strings = byte_strings(items@);
        assert forall|j: int| 0 <= j < strings.len() implies is_canonical(#[trigger] strings[j]) by {
            assert(decode_scalar(items[j]@) is Ok);
        }
        assert(strings.map_values(|bytes: Seq<u8>| le_value(bytes)) =~= values_of(fr_vec@)) by {
            assert forall|j: int| 0 <= j < strings.len() implies le_value(strings[j])
                == fr_vec[j]@ by {
                assert(decode_scalar(items[j]@) == Ok::<nat, DecodeFault>(fr_vec[j]@));
            }
        }
    }
    items
}

/// Decodes a sequence of field elements: as many as there are byte strings,
/// in their order. One string that is not canonical refuses the whole.
pub fn deserialize_fr_vec(items: &Vec<Vec<u8>>) -> (result: Result<Vec<FieldElement>, DecodeError>)
    ensures
        match result {
            Ok(fr_vec) => decode_sequence(byte_strings(items@)) == Ok::<Seq<nat>, DecodeFault>(
                values_of(fr_vec@),
            ) && encode_sequence(fr_vec@) == byte_strings(items@),
            Err(e) => decode_sequence(byte_strings(items@)) == Err::<Seq<nat>, DecodeFault>(e@),
        },
{
    let ghost strings = byte_strings(items@);
    let mut fr_vec: Vec<FieldElement> = Vec::new();
    let mut i: usize = 0;
    while i < items.len()
        invariant
            i <= items.len(),
            strings == byte_strings(items@),
            fr_vec.len() == i,
            forall|j: int| 0 <= j < i ==> is_canonical(#[trigger] strings[j]),
            forall|j: int| 0 <= j < i ==> (#[trigger] fr_vec[j]).repr() == strings[j],
        decreases items.len() - i,
    {
        match deserialize_fr(items[i].as_slice()) {
            Ok(fr) => {
                fr_vec.push(fr);
            },
            Err(e) => {
                assert(!is_canonical(strings[i as int]));
                return Err(e);
            },
        }
        i = i + 1;
    }
    assert(encode_sequence(fr_vec@) =~= strings);
    assert(strings.map_values(|bytes: Seq<u8>| le_value(bytes)) =~= values_of(fr_vec@));
    Ok(fr_vec)
}

/// One field of a claim record as it was written: a point with its byte
/// strings, a value with its bytes, or a field under a name that no claim
/// has.
#[derive(Debug, PartialEq, Eq)]
pub enum Entry {
    Point(Vec<Vec<u8>>),
    Value(Vec<u8>),
    Unknown(String),
}

/// A field of a claim record, over byte strings.
pub enum EntryView {
    Point(Seq<Seq<u8>>),
    Value(Seq<u8>),
    Unknown(Seq<char>),
}

impl View for Entry {
    type V = EntryView;

    open spec fn view(&self) -> EntryView {
        match *self {
            Entry::Point(items) => EntryView::Point(byte_strings(items@)),
            Entry::Value(bytes) => EntryView::Value(bytes@),
            Entry::Unknown(name) => EntryView::Unknown(name@),
        }
    }
}

/// The fields that a record holds, in the order in which they were written.
pub open spec fn record_view(entries: Seq<Entry>) -> Seq<EntryView> {
    entries.map_values(|entry: Entry| entry@)
}

/// What has been read of a record so far: the point and the value, each once
/// it was seen.
pub struct VisitorView {
    pub point: Option<Seq<nat>>,
    pub value: Option<nat>,
}

/// Nothing read yet.
pub open spec fn nothing_seen() -> VisitorView {
    VisitorView { point: None, value: None }
}

/// What reading one more field does to the state: a repeated field is
/// refused before its payload is looked at, then the payload is decoded.
pub open spec fn visit_entry(state: VisitorView, entry: EntryView) -> Result<
    VisitorView,
    DecodeFault,
> {
    match entry {
        EntryView::Point(items) => if state.point is Some {
            Err(DecodeFault::DuplicateField(FieldName::Point))
        } else {
            match decode_sequence(items) {
                Ok(point) => Ok(VisitorView { point: Some(point), value: state.value }),
                Err(e) => Err(e),
            }
        },
        EntryView::Value(bytes) => if state.value is Some {
            Err(DecodeFault::DuplicateField(FieldName::Value))
        } else {
            match decode_scalar(bytes) {
                Ok(value) => Ok(VisitorView { point: state.point, value: Some(value) }),
                Err(e) => Err(e),
            }
        },
        EntryView::Unknown(name) => Err(DecodeFault::UnknownField(name)),
    }
}

/// The state after reading the fields in order, or the first fault met.
pub open spec fn visit_entries(entries: Seq<EntryView>) -> Result<VisitorView, DecodeFault>
    decreases entries.len(),
{
    if entries.len() == 0 {
        Ok(nothing_seen())
    } else {
        match visit_entries(entries.drop_last()) {
            Ok(state) => visit_entry(state, entries.last()),
            Err(e) => Err(e),
        }
    }
}

/// The claim that the fields read make up: both must have been seen, and the
/// point is asked for first.
pub open spec fn conclude(state: VisitorView) -> Result<ClaimView, DecodeFault> {
    match state.point {
        None => Err(DecodeFault::MissingField(FieldName::Point)),
        Some(point) => match state.value {
            None => Err(DecodeFault::MissingField(FieldName::Value)),
            Some(value) => Ok(ClaimView { point, value }),
        },
    }
}

/// The claim that a record encodes, or the first fault that reading it in
/// order meets.
pub open spec fn decode_claim(entries: Seq<EntryView>) -> Result<ClaimView, DecodeFault> {
    match visit_entries(entries) {
        Ok(state) => conclude(state),
        Err(e) => Err(e),
    }
}

/// The record that encodes a claim: its point, then its value.
pub open spec fn encode_claim(claim: EvalClaim) -> Seq<EntryView> {
    seq![
        EntryView::Point(encode_sequence(claim.coordinates())),
        EntryView::Value(claim.claimed().repr()),
    ]
}

/// Reads the fields of one claim record, one at a time, and refuses what no
/// claim record may hold.
pub struct ClaimVisitor {
    point: Option<Vec<FieldElement>>,
    value: Option<FieldElement>,
}

impl View for ClaimVisitor {
    type V = VisitorView;

    closed spec fn view(&self) -> VisitorView {
        VisitorView {
            point: match self.point {
                Some(point) => Some(values_of(point@)),
                None => None,
            },
            value: match self.value {
                Some(value) => Some(value@),
                None => None,
            },
        }
    }
}

impl ClaimVisitor {
    /// A visitor that has read nothing.
    pub fn new() -> (visitor: ClaimVisitor)
        ensures
            visitor@ == nothing_seen(),
    {
        ClaimVisitor { point: None, value: None }
    }

    /// Reads the field `point`. On a fault the visitor is left as it was.
    pub fn visit_point(&mut self, items: &Vec<Vec<u8>>) -> (result: Result<(), DecodeError>)
        ensures
            match result {
                Ok(()) => visit_entry(old(self)@, EntryView::Point(byte_strings(items@)))
                    == Ok::<VisitorView, DecodeFault>(final(self)@),
                Err(e) => visit_entry(old(self)@, EntryView::Point(byte_strings(items@)))
                    == Err::<VisitorView, DecodeFault>(e@) && final(self)@ == old(self)@,
            },
    {
        if self.point.is_some() {
            return Err(DecodeError::DuplicateField(FieldName::Point));
        }
        match deserialize_fr_vec(items) {
            Ok(point) => {
                self.point = Some(point);
                Ok(())
            },
            Err(e) => Err(e),
        }
    }

    /// Reads the field `value`. On a fault the visitor is left as it was.
    pub fn visit_value(&mut self, bytes: &[u8]) -> (result: Result<(), DecodeError>)
        ensures
            match result {
                Ok(()) => visit_entry(old(self)@, EntryView::Value(bytes@)) == Ok::<
                    VisitorView,
                    DecodeFault,
                >(final(self)@),
                Err(e) => visit_entry(old(self)@, EntryView::Value(bytes@)) == Err::<
                    VisitorView,
                    DecodeFault,
                >(e@) && final(self)@ == old(self)@,
            },
    {
        if self.value.is_some() {
            return Err(DecodeError::DuplicateField(FieldName::Value));
        }
        match deserialize_fr(bytes) {
            Ok(value) => {
                self.value = Some(value);
                Ok(())
            },
            Err(e) => Err(e),
        }
    }

    /// Reads one field as it was written.
    pub fn visit(&mut self, entry: &Entry) -> (result: Result<(), DecodeError>)
        ensures
            match result {
                Ok(()) => visit_entry(old(self)@, entry@) == Ok::<VisitorView, DecodeFault>(
                    final(self)@,
                ),
                Err(e) => visit_entry(old(self)@, entry@) == Err::<VisitorView, DecodeFault>(e@)
                    && final(self)@ == old(self)@,
            },
    {
        match entry {
            Entry::Point(items) => self.visit_point(items),
            Entry::Value(bytes) => self.visit_value(bytes.as_slice()),
            Entry::Unknown(name) => Err(DecodeError::UnknownField(name.clone())),
        }
    }

    /// Ends the record: the claim, if both fields were read.
    pub fn finish(self) -> (result: Result<EvalClaim, DecodeError>)
        ensures
            match result {
                Ok(claim) => conclude(self@) == Ok::<ClaimView, DecodeFault>(claim@),
                Err(e) => conclude(self@) == Err::<ClaimView, DecodeFault>(e@),
            },
    {
        match self.point {
            None => Err(DecodeError::MissingField(FieldName::Point)),
            Some(point) => match self.value {
                None => Err(DecodeError::MissingField(FieldName::Value)),
                Some(value) => Ok(EvalClaim::new(point, value)),
            },
        }
    }
}

/// Encodes a claim as a record of two fields: `point`, then `value`.
pub fn serialize_eval_claim(eval_claim: &EvalClaim) -> (entries: Vec<Entry>)
    ensures
        record_view(entries@) == encode_claim(*eval_claim),
        decode_claim(record_view(entries@)) == Ok::<ClaimView, DecodeFault>(eval_claim@),
{
    let point = slice_to_vec(eval_claim.point());
    let value = eval_claim.value();
    let mut entries: Vec<Entry> = Vec::new();
    entries.push(Entry::Point(serialize_fr_vec(&point)));
    entries.push(Entry::Value(serialize_fr(&value)));
    proof {
        assert(record_view(entries@) =~= encode_claim(*eval_claim));
        lemma_decode_encoded(record_view(entries@), eval_claim@);
    }
    entries
}

/// A record of a point and a value that decode, and nothing else, decodes
/// to the claim of that point and that value.
pub proof fn lemma_decode_encoded(entries: Seq<EntryView>, claim: ClaimView)
    requires
        entries.len() == 2,
        entries[0] matches EntryView::Point(items) && decode_sequence(items) == Ok::<
            Seq<nat>,
            DecodeFault,
        >(claim.point),
        entries[1] matches EntryView::Value(bytes) && decode_scalar(bytes) == Ok::<
            nat,
            DecodeFault,
        >(claim.value),
    ensures
        decode_claim(entries) == Ok::<ClaimView, DecodeFault>(claim),
{
    assert(entries.take(0) =~= Seq::<EntryView>::empty());
    assert(entries.take(2) =~= entries);
    lemma_visit_prefix(entries, 0);
    lemma_visit_prefix(entries, 1);
}

/// Decodes a claim from the fields of its record, read in order. The first
/// fault met refuses the record: an unknown field, a repeated field, a
/// payload that does not decode, and at the end a field that is missing.
pub fn deserialize_eval_claim(entries: &Vec<Entry>) -> (result: Result<EvalClaim, DecodeError>)
    ensures
        match result {
            Ok(claim) => decode_claim(record_view(entries@)) == Ok::<ClaimView, DecodeFault>(
                claim@,
            ),
            Err(e) => decode_claim(record_view(entries@)) == Err::<ClaimView, DecodeFault>(e@),
        },
{
    let ghost record = record_view(entries@);
    let mut visitor = ClaimVisitor::new();
    let mut i: usize = 0;
    assert(record.take(0) =~= Seq::<EntryView>::empty());
    while i < entries.len()
        invariant
            i <= entries.len(),
            record == record_view(entries@),
            visit_entries(record.take(i as int)) == Ok::<VisitorView, DecodeFault>(visitor@),
        decreases entries.len() - i,
    {
        let step = visitor.visit(&entries[i]);
        proof {
            lemma_visit_prefix(record, i as int);
        }
        match step {
            Ok(()) => {},
            Err(e) => {
                proof {
                    lemma_fault_stays(record, i as int + 1, record.len() as int);
                    assert(record.take(record.len() as int) =~= record);
                }
                return Err(e);
            },
        }
        i = i + 1;
    }
    assert(record.take(i as int) =~= record);
    visitor.finish()
}

/// Reading one field more continues from where the shorter prefix ended.
pub proof fn lemma_visit_prefix(entries: Seq<EntryView>, i: int)
    requires
        0 <= i < entries.len(),
    ensures
        visit_entries(entries.take(i + 1)) == match visit_entries(entries.take(i)) {
            Ok(state) => visit_entry(state, entries[i]),
            Err(e) => Err(e),
        },
{
    assert(entries.take(i + 1).drop_last() =~= entries.take(i));
    assert(entries.take(i + 1).last() == entries[i]);
}

/// A fault met in a prefix of a record is the fault of every longer prefix.
pub proof fn lemma_fault_stays(entries: Seq<EntryView>, i: int, j: int)
    requires
        0 <= i <= j <= entries.len(),
        visit_entries(entries.take(i)) is Err,
    ensures
        visit_entries(entries.take(j)) == visit_entries(entries.take(i)),
    decreases j - i,
{
    if i < j {
        lemma_fault_stays(entries, i, j - 1);
        lemma_visit_prefix(entries, j - 1);
    }
}

/// The records that a sequence of entry vectors holds.
pub open spec fn records_view(records: Seq<Vec<Entry>>) -> Seq<Seq<EntryView>> {
    records.map_values(|record: Vec<Entry>| record_view(record@))
}

/// The records that encode a list of claims, one for each claim and in
/// order.
pub open spec fn encode_claims(claims: Seq<EvalClaim>) -> Seq<Seq<EntryView>> {
    claims.map_values(|claim: EvalClaim| encode_claim(claim))
}

/// The claims that a list of records encodes, one for each record and in
/// order, or the fault of the first record that does not decode.
pub open spec fn decode_claims(records: Seq<Seq<EntryView>>) -> Result<Seq<ClaimView>, DecodeFault>
    decreases records.len(),
{
    if records.len() == 0 {
        Ok(Seq::empty())
    } else {
        match decode_claims(records.drop_last()) {
            Ok(claims) => match decode_claim(records.last()) {
                Ok(claim) => Ok(claims.push(claim)),
                Err(e) => Err(e),
            },
            Err(e) => Err(e),
        }
    }
}

/// Decoding one record more continues from where the shorter list ended.
pub proof fn lemma_decode_claims_prefix(records: Seq<Seq<EntryView>>, i: int)
    requires
        0 <= i < records.len(),
    ensures
        decode_claims(records.take(i + 1)) == match decode_claims(records.take(i)) {
            Ok(claims) => match decode_claim(records[i]) {
                Ok(claim) => Ok(claims.push(claim)),
                Err(e) => Err(e),
            },
            Err(e) => Err(e),
        },
{
    assert(records.take(i + 1).drop_last() =~= records.take(i));
    assert(records.take(i + 1).last() == records[i]);
}

/// The fault of a prefix of a list of records is the fault of every longer
/// prefix.
pub proof fn lemma_decode_claims_fault_stays(records: Seq<Seq<EntryView>>, i: int, j: int)
    requires
        0 <= i <= j <= records.len(),
        decode_claims(records.take(i)) is Err,
    ensures
        decode_claims(records.take(j)) == decode_claims(records.take(i)),
    decreases j - i,
{
    if i < j {
        lemma_decode_claims_fault_stays(records, i, j - 1);
        lemma_decode_claims_prefix(records, j - 1);
    }
}

/// Encodes a list of claims: one record for each claim, in order.
pub fn serialize_eval_claims(eval_claims: &Vec<EvalClaim>) -> (records: Vec<Vec<Entry>>)
    ensures
        records_view(records@) == encode_claims(eval_claims@),
        decode_claims(records_view(records@)) == Ok::<Seq<ClaimView>, DecodeFault>(
            claims_view(eval_claims@),
        ),
{
    let mut records: Vec<Vec<Entry>> = Vec::new();
    let mut i: usize = 0;
    assert(records_view(records@).take(0) =~= Seq::<Seq<EntryView>>::empty());
    assert(claims_view(eval_claims@).take(0) =~= Seq::<ClaimView>::empty());
    while i < eval_claims.len()
        invariant
            i <= eval_claims.len(),
            records.len() == i,
            forall|j: int|
                0 <= j < i ==> record_view((#[trigger] records[j])@) == encode_claim(
                    eval_claims[j],
                ),
            forall|j: int|
                0 <= j < i ==> decode_claim(record_view((#[trigger] records[j])@)) == Ok::<
                    ClaimView,
                    DecodeFault,
                >(eval_claims[j]@),
        decreases eval_claims.len() - i,
    {
        let record = serialize_eval_claim(&eval_claims[i]);
        records.push(record);
        i = i + 1;
    }
    proof {
        assert(records_view(records@) =~= encode_claims(eval_claims@));
        lemma_decode_each(records_view(records@), claims_view(eval_claims@), records.len() as int);
        assert(records_view(records@).take(records.len() as int) =~= records_view(records@));
        assert(claims_view(eval_claims@).take(records.len() as int) =~= claims_view(
            eval_claims@,
        ));
    }
    records
}

/// Records that decode one by one decode as a list, to the list of their
/// claims.
pub proof fn lemma_decode_each(records: Seq<Seq<EntryView>>, claims: Seq<ClaimView>, n: int)
    requires
        0 <= n <= records.len(),
        claims.len() == records.len(),
        forall|j: int|
            0 <= j < n ==> decode_claim(#[trigger] records[j]) == Ok::<ClaimView, DecodeFault>(
                claims[j],
            ),
    ensures
        decode_claims(records.take(n)) == Ok::<Seq<ClaimView>, DecodeFault>(claims.take(n)),
    decreases n,
{
    if n == 0 {
        assert(records.take(0) =~= Seq::<Seq<EntryView>>::empty());
        assert(claims.take(0) =~= Seq::<ClaimView>::empty());
    } else {
        lemma_decode_each(records, claims, n - 1);
        lemma_decode_claims_prefix(records, n - 1);
        assert(claims.take(n - 1).push(claims[n - 1]) =~= claims.take(n));
    }
}

/// Decodes a list of claims: as many as there are records, in their order.
/// The first record that does not decode refuses the list, with its fault.
pub fn deserialize_eval_claims(records: &Vec<Vec<Entry>>) -> (result: Result<
    Vec<EvalClaim>,
    DecodeError,
>)
    ensures
        match result {
            Ok(claims) => decode_claims(records_view(records@)) == Ok::<
                Seq<ClaimView>,
                DecodeFault,
            >(claims_view(claims@)),
            Err(e) => decode_claims(records_view(records@)) == Err::<Seq<ClaimView>, DecodeFault>(
                e@,
            ),
        },
{
    let ghost all = records_view(records@);
    let mut eval_claims: Vec<EvalClaim> = Vec::new();
    let mut i: usize = 0;
    assert(all.take(0) =~= Seq::<Seq<EntryView>>::empty());
    assert(claims_view(eval_claims@) =~= Seq::<ClaimView>::empty());
    while i < records.len()
        invariant
            i <= records.len(),
            all == records_view(records@),
            decode_claims(all.take(i as int)) == Ok::<Seq<ClaimView>, DecodeFault>(
                claims_view(eval_claims@),
            ),
        decreases records.len() - i,
    {
        let ghost before = claims_view(eval_claims@);
        proof {
            lemma_decode_claims_prefix(all, i as int);
        }
        match deserialize_eval_claim(&records[i]) {
            Ok(claim) => {
                eval_claims.push(claim);
                assert(claims_view(eval_claims@) =~= before.push(claim@));
            },
            Err(e) => {
                proof {
                    lemma_decode_claims_fault_stays(all, i as int + 1, all.len() as int);
                    assert(all.take(all.len() as int) =~= all);
                }
                return Err(e);
            },
        }
        i = i + 1;
    }
    assert(all.take(i as int) =~= all);
    Ok(eval_claims)
}

/// A field element in its portable form.
#[derive(Debug)]
pub struct SerializationFr(pub FieldElement);

impl SerializationFr {
    /// The 32 canonical bytes of the element.
    pub fn serialize(&self) -> (bytes: Vec<u8>)
        ensures
            bytes@ == self.0.repr(),
            decode_scalar(bytes@) == Ok::<nat, DecodeFault>(self.0@),
    {
        serialize_fr(&self.0)
    }

    /// The element that the bytes encode, if they are canonical.
    pub fn deserialize(bytes: &[u8]) -> (result: Result<SerializationFr, DecodeError>)
        ensures
            match result {
                Ok(wrapper) => decode_scalar(bytes@) == Ok::<nat, DecodeFault>(wrapper.0@),
                Err(e) => decode_scalar(bytes@) == Err::<nat, DecodeFault>(e@),
            },
    {
        match deserialize_fr(bytes) {
            Ok(fr) => Ok(SerializationFr(fr)),
            Err(e) => Err(e),
        }
    }
}

/// A sequence of field elements in its portable form.
#[derive(Debug)]
pub struct SerializationFrVec(pub Vec<FieldElement>);

impl SerializationFrVec {
    /// The encodings of the elements, in order.
    pub fn serialize(&self) -> (items: Vec<Vec<u8>>)
        ensures
            byte_strings(items@) == encode_sequence(self.0@),
            decode_sequence(byte_strings(items@)) == Ok::<Seq<nat>, DecodeFault>(
                values_of(self.0@),
            ),
    {
        serialize_fr_vec(&self.0)
    }

    /// The elements that the byte strings encode, if all are canonical.
    pub fn deserialize(items: &Vec<Vec<u8>>) -> (result: Result<SerializationFrVec, DecodeError>)
        ensures
            match result {
                Ok(wrapper) => decode_sequence(byte_strings(items@)) == Ok::<
                    Seq<nat>,
                    DecodeFault,
                >(values_of(wrapper.0@)),
                Err(e) => decode_sequence(byte_strings(items@)) == Err::<Seq<nat>, DecodeFault>(
                    e@,
                ),
            },
    {
        match deserialize_fr_vec(items) {
            Ok(fr_vec) => Ok(SerializationFrVec(fr_vec)),
            Err(e) => Err(e),
        }
    }
}

/// A claim in its portable form.
#[derive(Debug)]
pub struct SerializationEvalClaim(pub EvalClaim);

impl SerializationEvalClaim {
    /// The record of the claim: `point`, then `value`.
    pub fn serialize(&self) -> (entries: Vec<Entry>)
        ensures
            record_view(entries@) == encode_claim(self.0),
            decode_claim(record_view(entries@)) == Ok::<ClaimView, DecodeFault>(self.0@),
    {
        serialize_eval_claim(&self.0)
    }

    /// The claim that the record encodes, or the first fault met in it.
    pub fn deserialize(entries: &Vec<Entry>) -> (result: Result<
        SerializationEvalClaim,
        DecodeError,
    >)
        ensures
            match result {
                Ok(wrapper) => decode_claim(record_view(entries@)) == Ok::<
                    ClaimView,
                    DecodeFault,
                >(wrapper.0@),
                Err(e) => decode_claim(record_view(entries@)) == Err::<ClaimView, DecodeFault>(
                    e@,
                ),
            },
    {
        match deserialize_eval_claim(entries) {
            Ok(claim) => Ok(SerializationEvalClaim(claim)),
            Err(e) => Err(e),
        }
    }
}

/// A list of claims in its portable form.
#[derive(Debug)]
pub struct SerializationEvalClaims(pub Vec<EvalClaim>);

impl SerializationEvalClaims {
    /// The records of the claims, in order.
    pub fn serialize(&self) -> (records: Vec<Vec<Entry>>)
        ensures
            records_view(records@) == encode_claims(self.0@),
            decode_claims(records_view(records@)) == Ok::<Seq<ClaimView>, DecodeFault>(
                claims_view(self.0@),
            ),
    {
        serialize_eval_claims(&self.0)
    }

    /// The claims that the records encode, or the fault of the first record
    /// that does not decode.
    pub fn deserialize(records: &Vec<Vec<Entry>>) -> (result: Result<
        SerializationEvalClaims,
        DecodeError,
    >)
        ensures
            match result {
                Ok(wrapper) => decode_claims(records_view(records@)) == Ok::<
                    Seq<ClaimView>,
                    DecodeFault,
                >(claims_view(wrapper.0@)),
                Err(e) => decode_claims(records_view(records@)) == Err::<
                    Seq<ClaimView>,
                    DecodeFault,
                >(e@),
            },
    {
        match deserialize_eval_claims(records) {
            Ok(claims) => Ok(SerializationEvalClaims(claims)),
            Err(e) => Err(e),
        }
    }
}

} // verus!
