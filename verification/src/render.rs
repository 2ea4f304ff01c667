//! CSV rendering of the assembled records: the verified part lays out the
//! header and one row per record; the byte encoding of a single row is done
//! by the csv crate behind a trusted wrapper.

use crate::schema::CsvRecord;
use vstd::prelude::*;

verus! {

/// The header row of the CSV document.
pub open spec fn header_row() -> Seq<Seq<char>> {
    seq![
        seq!['N', 'a', 'm', 'e'],
        seq!['V', 'e', 'r', 's', 'i', 'o', 'n'],
        seq!['T', 'y', 'p', 'e'],
        seq!['L', 'i', 'c', 'e', 'n', 's', 'e', 's'],
    ]
}

/// The cells of one record, in column order.
pub open spec fn record_row(r: CsvRecord) -> Seq<Seq<char>> {
    seq![r.name@, r.version@, r.artifact_type@, r.licenses@]
}

/// The rows of one record each, in record order.
pub open spec fn record_rows(records: Seq<CsvRecord>) -> Seq<Seq<Seq<char>>> {
    records.map_values(|r: CsvRecord| record_row(r))
}

/// All rows of the rendered document: the header, then one row per record.
pub open spec fn csv_rows(records: Seq<CsvRecord>) -> Seq<Seq<Seq<char>>> {
    seq![header_row()] + record_rows(records)
}

/// How the csv crate encodes one record: fields comma-separated, quoted
/// where CSV requires it, terminated with a newline. The encoding is a
/// function of the fields alone; it is named rather than spelled out.
pub uninterp spec fn csv_row_encoding(row: Seq<Seq<char>>) -> Seq<u8>;

/// Relies on csv::Writer::write_record: one record encoded with standard
/// CSV quoting and a trailing record terminator, from the fields alone.
#[verifier::external_body]
fn encode_csv_row(row: &Vec<String>) -> (r: Vec<u8>)
    ensures
        r@ == csv_row_encoding(row.deep_view()),
{
    let mut wtr = csv::Writer::from_writer(Vec::new());
    let _ = wtr.write_record(row);
    wtr.into_inner().unwrap_or_default()
}

/// The whole document: each row's encoding, in order.
pub open spec fn csv_doc_encoding(rows: Seq<Seq<Seq<char>>>) -> Seq<u8>
    decreases rows.len(),
{
    if rows.len() == 0 {
        Seq::empty()
    } else {
        csv_row_encoding(rows[0]) + csv_doc_encoding(rows.subrange(1, rows.len() as int))
    }
}

pub proof fn lemma_csv_doc_push(rows: Seq<Seq<Seq<char>>>, row: Seq<Seq<char>>)
    ensures
        csv_doc_encoding(rows.push(row)) == csv_doc_encoding(rows) + csv_row_encoding(row),
    decreases rows.len(),
{
    if rows.len() == 0 {
        assert(rows.push(row)[0] == row);
        assert(rows.push(row).subrange(1, 1) =~= Seq::<Seq<Seq<char>>>::empty());
        assert(csv_doc_encoding(Seq::<Seq<Seq<char>>>::empty()) == Seq::<u8>::empty());
        assert(csv_row_encoding(row) + Seq::<u8>::empty() =~= csv_row_encoding(row));
        assert(Seq::<u8>::empty() + csv_row_encoding(row) =~= csv_row_encoding(row));
    } else {
        let rest = rows.subrange(1, rows.len() as int);
        lemma_csv_doc_push(rest, row);
        assert(rows.push(row).subrange(1, rows.len() as int + 1) =~= rest.push(row));
        assert(rows.push(row)[0] == rows[0]);
        assert(csv_row_encoding(rows[0]) + (csv_doc_encoding(rest) + csv_row_encoding(row)) =~= (
        csv_row_encoding(rows[0]) + csv_doc_encoding(rest)) + csv_row_encoding(row));
    }
}

/// Encode the assembled records as a CSV document: the header row first,
/// then one encoded row per record, in input order.
pub fn write_csv(records: &Vec<CsvRecord>) -> (r: Vec<u8>)
    ensures
        r@ == csv_doc_encoding(csv_rows(records@)),
{
    let mut header: Vec<String> = Vec::new();
    header.push(String::from_str("Name"));
    header.push(String::from_str("Version"));
    header.push(String::from_str("Type"));
    header.push(String::from_str("Licenses"));
    proof {
        reveal_strlit("Name");
        reveal_strlit("Version");
        reveal_strlit("Type");
        reveal_strlit("Licenses");
        assert(header.deep_view() =~~= header_row());
    }
    let mut out = encode_csv_row(&header);
    proof {
        assert(seq![header_row()].subrange(1, 1) =~= Seq::<Seq<Seq<char>>>::empty());
        assert(seq![header_row()][0] == header_row());
        assert(csv_doc_encoding(Seq::<Seq<Seq<char>>>::empty()) == Seq::<u8>::empty());
        assert(csv_row_encoding(header_row()) + Seq::<u8>::empty() =~= csv_row_encoding(
            header_row(),
        ));
        assert(record_rows(records@.subrange(0, 0)) =~= Seq::<Seq<Seq<char>>>::empty());
        assert(seq![header_row()] + record_rows(records@.subrange(0, 0)) =~= seq![header_row()]);
    }
    let mut i: usize = 0;
    while i < records.len()
        invariant
            0 <= i <= records@.len(),
            out@ == csv_doc_encoding(
                seq![header_row()] + record_rows(records@.subrange(0, i as int)),
            ),
        decreases records@.len() - i,
    {
        let rec = &records[i];
        let mut row: Vec<String> = Vec::new();
        row.push(rec.name.clone());
        row.push(rec.version.clone());
        row.push(rec.artifact_type.clone());
        row.push(rec.licenses.clone());
        proof {
            assert(row.deep_view() =~~= record_row(records@[i as int]));
        }
        let mut enc = encode_csv_row(&row);
        out.append(&mut enc);
        proof {
            let prev = seq![header_row()] + record_rows(records@.subrange(0, i as int));
            lemma_csv_doc_push(prev, record_row(records@[i as int]));
            assert(prev.push(record_row(records@[i as int])) =~= seq![header_row()] + record_rows(
                records@.subrange(0, i + 1),
            ));
        }
        i = i + 1;
    }
    proof {
        assert(records@.subrange(0, records@.len() as int) =~= records@);
    }
    out
}

} // verus!
