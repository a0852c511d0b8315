use vstd::prelude::*;
use vstd::utf8::encode_utf8;

use crate::decimal::{parse_unsigned, parse_unsigned_spec};
use crate::error::{ErrorKind, RBMError};

verus! {

/// The records of a headerless csv text, each a sequence of fields, or `None`
/// when the text is not valid csv.
pub uninterp spec fn csv_records_of(text: Seq<char>) -> Option<Seq<Seq<Seq<char>>>>;

/// The characters of each field of each record.
pub open spec fn records_view(rs: Seq<Vec<String>>) -> Seq<Seq<Seq<char>>> {
    Seq::new(rs.len(), |i: int| Seq::new(rs[i]@.len(), |j: int| rs[i]@[j]@))
}

/// A csv field read as a byte value.
pub open spec fn field_byte(f: Seq<char>) -> Option<nat> {
    parse_unsigned_spec(encode_utf8(f), 255)
}

/// Every field of every record is a byte value.
pub open spec fn all_fields_bytes(rs: Seq<Seq<Seq<char>>>) -> bool {
    forall|i: int, j: int|
        0 <= i < rs.len() && 0 <= j < rs[i].len() ==> (#[trigger] field_byte(rs[i][j])) is Some
}

/// The input vectors that an input file holds: one per csv record, one byte
/// value per field; `None` when the text is not csv or a field is no byte value.
pub open spec fn input_values(text: Seq<char>) -> Option<Seq<Seq<u8>>> {
    match csv_records_of(text) {
        None => None,
        Some(rs) => if all_fields_bytes(rs) {
            Some(
                Seq::new(
                    rs.len(),
                    |i: int| Seq::new(rs[i].len(), |j: int| field_byte(rs[i][j])->0 as u8),
                ),
            )
        } else {
            None
        },
    }
}

/// Relies on csv::Reader::from_string, has_headers(false) and records: the
/// records of the text as strings, in order, or a failure where a record is
/// not valid csv.
#[verifier::external_body]
fn csv_records(text: &str) -> (r: Option<Vec<Vec<String>>>)
    ensures
        match r {
            Some(rs) => csv_records_of(text@) == Some(records_view(rs@)),
            None => csv_records_of(text@) is None,
        },
{
    let mut rdr = csv::Reader::from_string(text).has_headers(false);
    rdr.records().collect::<Result<Vec<Vec<String>>, csv::Error>>().ok()
}

/// Reads one csv record's fields as byte values.
fn record_bytes(record: &Vec<String>) -> (r: Option<Vec<u8>>)
    ensures
        match r {
            Some(v) => v@.len() == record@.len() && forall|j: int|
                0 <= j < record@.len() ==> field_byte(#[trigger] record@[j]@) == Some(
                    v@[j] as nat,
                ),
            None => exists|j: int|
                0 <= j < record@.len() && (#[trigger] field_byte(record@[j]@)) is None,
        },
{
    let mut out: Vec<u8> = Vec::new();
    let mut j: usize = 0;
    while j < record.len()
        invariant
            j <= record@.len(),
            out@.len() == j,
            forall|k: int|
                0 <= k < j ==> field_byte(#[trigger] record@[k]@) == Some(out@[k] as nat),
        decreases record@.len() - j,
    {
        let b = record[j].as_str().as_bytes();
        match parse_unsigned(b, 0, b.len(), 255) {
            Some(x) => {
                assert(b@.subrange(0, b@.len() as int) =~= b@);
                out.push(x as u8);
            },
            None => {
                assert(b@.subrange(0, b@.len() as int) =~= b@);
                assert(field_byte(record@[j as int]@) is None);
                return None;
            },
        }
        j = j + 1;
    }
    Some(out)
}

/// Parses the contents of an input file: headerless csv whose fields are byte
/// values, one input vector per record.
pub fn inputs_from_file(contents: &str) -> (r: Result<Vec<Vec<u8>>, RBMError>)
    ensures
        match r {
            Ok(v) => input_values(contents@) == Some(
                Seq::new(v@.len(), |i: int| v@[i]@),
            ),
            Err(e) => input_values(contents@) is None && e.0 == ErrorKind::MalformedInputs,
        },
{
    let records = match csv_records(contents) {
        Some(rs) => rs,
        None => {
            return Err(RBMError(ErrorKind::MalformedInputs));
        },
    };
    let ghost rs = records_view(records@);
    let mut out: Vec<Vec<u8>> = Vec::new();
    let mut i: usize = 0;
    while i < records.len()
        invariant
            i <= records@.len(),
            rs == records_view(records@),
            csv_records_of(contents@) == Some(rs),
            out@.len() == i,
            forall|k: int|
                0 <= k < i ==> (#[trigger] out@[k])@ == Seq::new(
                    rs[k].len(),
                    |j: int| field_byte(rs[k][j])->0 as u8,
                ),
            forall|k: int, j: int|
                0 <= k < i && 0 <= j < rs[k].len() ==> (#[trigger] field_byte(rs[k][j])) is Some,
        decreases records@.len() - i,
    {
        match record_bytes(&records[i]) {
            Some(v) => {
                assert(v@ =~= Seq::new(
                    rs[i as int].len(),
                    |j: int| field_byte(rs[i as int][j])->0 as u8,
                ));
                out.push(v);
            },
            None => {
                let ghost j = choose|j: int|
                    0 <= j < records@[i as int]@.len() && (#[trigger] field_byte(
                        records@[i as int]@[j]@,
                    )) is None;
                assert(field_byte(rs[i as int][j]) is None);
                return Err(RBMError(ErrorKind::MalformedInputs));
            },
        }
        i = i + 1;
    }
    assert(Seq::new(out@.len(), |k: int| out@[k]@) =~= Seq::new(
        rs.len(),
        |k: int| Seq::new(rs[k].len(), |j: int| field_byte(rs[k][j])->0 as u8),
    ));
    Ok(out)
}

} // verus!
