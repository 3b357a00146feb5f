//! Records: one row of the input, as an ordered list of text fields.
//!
//! A record is a `csv::StringRecord`, so that rows read by the `csv` reader
//! and rows produced by the table parser are the same type. The verifier does
//! not look inside one; what it knows of a record is the list of its fields,
//! `record_fields`, and what the items below say its methods do to that list.

use vstd::prelude::*;

verus! {

#[verifier::external_type_specification]
#[verifier::external_body]
pub struct ExStringRecord(csv::StringRecord);

/// The fields of a record, first to last.
pub uninterp spec fn record_fields(record: csv::StringRecord) -> Seq<Seq<char>>;

/// The fields of each record of a list, in order.
pub open spec fn fields_of_all(records: Seq<csv::StringRecord>) -> Seq<Seq<Seq<char>>> {
    records.map_values(|record: csv::StringRecord| record_fields(record))
}

/// `csv::StringRecord::new` returns a record without fields.
pub assume_specification[ csv::StringRecord::new ]() -> (record: csv::StringRecord)
    ensures
        record_fields(record) == Seq::<Seq<char>>::empty(),
;

/// `csv::StringRecord::push_field` adds `field` behind the fields that the
/// record has and leaves those as they are.
pub assume_specification[ csv::StringRecord::push_field ](
    record: &mut csv::StringRecord,
    field: &str,
)
    ensures
        record_fields(*final(record)) == record_fields(*old(record)).push(field@),
;

/// `csv::StringRecord::clear` leaves the record without fields.
pub assume_specification[ csv::StringRecord::clear ](record: &mut csv::StringRecord)
    ensures
        record_fields(*final(record)) == Seq::<Seq<char>>::empty(),
;

/// `csv::StringRecord::len` returns the number of fields.
pub assume_specification[ csv::StringRecord::len ](record: &csv::StringRecord) -> (count: usize)
    ensures
        count == record_fields(*record).len(),
;

/// `csv::StringRecord::get` returns the field at index `i`, or `None` where
/// the record has no such field.
pub assume_specification<'a>[ csv::StringRecord::get ](
    record: &'a csv::StringRecord,
    i: usize,
) -> (field: Option<&'a str>)
    ensures
        i < record_fields(*record).len() ==> field is Some && field.unwrap()@ == record_fields(
            *record,
        )[i as int],
        i >= record_fields(*record).len() ==> field is None,
;

/// The `Clone` impl of `csv::StringRecord` returns a record with the same
/// fields.
pub assume_specification[ <csv::StringRecord as Clone>::clone ](
    record: &csv::StringRecord,
) -> (copy: csv::StringRecord)
    ensures
        record_fields(copy) == record_fields(*record),
;

/// The field at index `i` of a record that has one there.
pub fn field_at<'a>(record: &'a csv::StringRecord, i: usize) -> (text: &'a str)
    requires
        i < record_fields(*record).len(),
    ensures
        text@ == record_fields(*record)[i as int],
{
    match record.get(i) {
        Some(text) => text,
        None => "",
    }
}

} // verus!
