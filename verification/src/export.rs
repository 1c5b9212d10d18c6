//! CSV export of token records.
use vstd::prelude::*;
use vstd::utf8::{decode_utf8, encode_utf8, encode_utf8_decode_utf8, encode_utf8_valid_utf8, valid_utf8};

use crate::csv_format::{csv_read_all, csv_text, lemma_csv_reads_back, readable_record};
use crate::record::TokenRecord;
use crate::text::{push_signed_decimal, signed_decimal, string_of, texts};

verus! {

/// A `csv::Writer` writing into memory.
#[verifier::external_body]
pub struct CsvBuffer {
    writer: csv::Writer<Vec<u8>>,
}

/// The records (each a sequence of field texts) written so far to a CSV
/// writer.
pub uninterp spec fn csv_records(w: CsvBuffer) -> Seq<Seq<Seq<char>>>;

/// Calls `csv::Writer::from_writer` on an empty buffer: a writer with
/// nothing written.
#[verifier::external_body]
fn csv_writer() -> (w: CsvBuffer)
    ensures
        csv_records(w) == Seq::<Seq<Seq<char>>>::empty(),
{
    CsvBuffer { writer: csv::Writer::from_writer(Vec::new()) }
}

/// Calls `csv::Writer::write_record` with a record of as many fields as the
/// first record written (or the first record): the writer then accepts it
/// (it refuses only a record of another length, and its writes go to
/// memory), and the record is appended to what was written.
#[verifier::external_body]
fn csv_write_record(w: &mut CsvBuffer, fields: &Vec<String>) -> (r: Result<(), String>)
    requires
        csv_records(*old(w)).len() == 0 || csv_records(*old(w))[0].len() == fields@.len(),
    ensures
        r is Ok,
        csv_records(*final(w)) == csv_records(*old(w)).push(texts(fields@)),
{
    match w.writer.write_record(fields.iter()) {
        Ok(()) => Ok(()),
        Err(e) => Err(e.to_string()),
    }
}

/// Calls `csv::Writer::into_inner`: the bytes written, which are the UTF-8
/// encoding of the CSV text (`csv_text`) of the records written.  The
/// writer copies each field's bytes, adding `,` between fields and `\n`
/// after each record, and quotes (doubling the quotes inside) exactly the
/// fields that hold `,`, `"`, `\r` or `\n`; a record with no fields or
/// one empty field is written `""`.  Flushing into a `Vec<u8>` does not
/// fail, so it succeeds.
#[verifier::external_body]
fn csv_into_bytes(w: CsvBuffer) -> (r: Result<Vec<u8>, String>)
    ensures
        r is Ok,
        r matches Ok(b) ==> b@ == encode_utf8(csv_text(csv_records(w))),
{
    match w.writer.into_inner() {
        Ok(bytes) => Ok(bytes),
        Err(e) => Err(e.to_string()),
    }
}

/// Calls `String::from_utf8`: it succeeds exactly on valid UTF-8, and the
/// string holds the characters that the bytes encode.
#[verifier::external_body]
fn string_from_utf8(bytes: Vec<u8>) -> (r: Result<String, String>)
    ensures
        r is Ok <==> valid_utf8(bytes@),
        r matches Ok(s) ==> s@ == decode_utf8(bytes@),
{
    match String::from_utf8(bytes) {
        Ok(s) => Ok(s),
        Err(e) => Err(e.to_string()),
    }
}

/// The column names of an export, in order.
pub open spec fn export_header() -> Seq<Seq<char>> {
    seq![
        "source"@,
        "session_id"@,
        "agent_type"@,
        "agent_id"@,
        "timestamp"@,
        "model"@,
        "input_tokens"@,
        "output_tokens"@,
        "cache_read_tokens"@,
        "cache_creation_tokens"@,
        "project_path"@,
        "message_id"@,
        "cost_estimate"@,
    ]
}

/// The text of an optional string, empty where there is none.
pub open spec fn text_or_empty(o: Option<String>) -> Seq<char> {
    match o {
        Some(s) => s@,
        None => Seq::empty(),
    }
}

/// The fields of a record's export line; the time and the cost are given
/// as texts.
pub open spec fn export_fields(r: TokenRecord, timestamp_text: Seq<char>, cost_text: Seq<char>) -> Seq<
    Seq<char>,
> {
    seq![
        r.source@,
        r.session_id@,
        r.agent_type@,
        text_or_empty(r.agent_id),
        timestamp_text,
        text_or_empty(r.model),
        signed_decimal(r.input_tokens as int),
        signed_decimal(r.output_tokens as int),
        signed_decimal(r.cache_read_tokens as int),
        signed_decimal(r.cache_creation_tokens as int),
        text_or_empty(r.project_path),
        text_or_empty(r.message_id),
        cost_text,
    ]
}

fn or_empty(o: &Option<String>) -> (r: String)
    ensures
        r@ == text_or_empty(*o),
{
    match o {
        Some(s) => s.clone(),
        None => String::new(),
    }
}

fn int_text(n: i64) -> (r: String)
    ensures
        r@ == signed_decimal(n as int),
{
    let mut v: Vec<char> = Vec::new();
    push_signed_decimal(&mut v, n);
    assert(v@ =~= signed_decimal(n as int));
    string_of(&v)
}

/// The fields of the export line of `r`, whose time and cost the caller has
/// written as `timestamp_text` and `cost_text`.
pub fn export_row(r: &TokenRecord, timestamp_text: &str, cost_text: &str) -> (row: Vec<String>)
    ensures
        texts(row@) == export_fields(*r, timestamp_text@, cost_text@),
        row@.len() == 13,
        row@[0]@ == r.source@,
        row@[1]@ == r.session_id@,
        row@[2]@ == r.agent_type@,
        row@[3]@ == (match r.agent_id {
            Some(a) => a@,
            None => Seq::<char>::empty(),
        }),
        row@[4]@ == timestamp_text@,
        row@[5]@ == (match r.model {
            Some(m) => m@,
            None => Seq::<char>::empty(),
        }),
        row@[6]@ == signed_decimal(r.input_tokens as int),
        row@[7]@ == signed_decimal(r.output_tokens as int),
        row@[8]@ == signed_decimal(r.cache_read_tokens as int),
        row@[9]@ == signed_decimal(r.cache_creation_tokens as int),
        row@[10]@ == (match r.project_path {
            Some(p) => p@,
            None => Seq::<char>::empty(),
        }),
        row@[11]@ == (match r.message_id {
            Some(m) => m@,
            None => Seq::<char>::empty(),
        }),
        row@[12]@ == cost_text@,
{
    let mut row: Vec<String> = Vec::new();
    row.push(r.source.clone());
    row.push(r.session_id.clone());
    row.push(r.agent_type.clone());
    row.push(or_empty(&r.agent_id));
    row.push(timestamp_text.to_owned());
    row.push(or_empty(&r.model));
    row.push(int_text(r.input_tokens));
    row.push(int_text(r.output_tokens));
    row.push(int_text(r.cache_read_tokens));
    row.push(int_text(r.cache_creation_tokens));
    row.push(or_empty(&r.project_path));
    row.push(or_empty(&r.message_id));
    row.push(cost_text.to_owned());
    assert(texts(row@) =~= export_fields(*r, timestamp_text@, cost_text@));
    row
}

fn header_row() -> (row: Vec<String>)
    ensures
        texts(row@) == export_header(),
{
    let row: Vec<String> = vec![
        "source".to_owned(),
        "session_id".to_owned(),
        "agent_type".to_owned(),
        "agent_id".to_owned(),
        "timestamp".to_owned(),
        "model".to_owned(),
        "input_tokens".to_owned(),
        "output_tokens".to_owned(),
        "cache_read_tokens".to_owned(),
        "cache_creation_tokens".to_owned(),
        "project_path".to_owned(),
        "message_id".to_owned(),
        "cost_estimate".to_owned(),
    ];
    assert(texts(row@) =~= export_header());
    row
}

/// The CSV text of an export: the header line, then the lines `rows` (each
/// of the header's thirteen fields).  Writing always succeeds, since every
/// line has as many fields as the header.
pub fn export_csv(rows: &Vec<Vec<String>>) -> (r: Result<String, String>)
    requires
        forall|k: int| 0 <= k < rows@.len() ==> #[trigger] rows@[k]@.len() == 13,
    ensures
        r is Ok,
        r matches Ok(s) ==> s@ == csv_text(seq![export_header()] + rows@.map_values(|row: Vec<String>| texts(row@))),
{
    let ghost all = seq![export_header()] + rows@.map_values(|row: Vec<String>| texts(row@));
    let mut w = csv_writer();
    let header = header_row();
    match csv_write_record(&mut w, &header) {
        Ok(()) => {},
        Err(e) => {
            return Err(e);
        },
    }
    assert(csv_records(w) =~= all.take(1));
    let mut i: usize = 0;
    while i < rows.len()
        invariant
            i <= rows@.len(),
            all == seq![export_header()] + rows@.map_values(|row: Vec<String>| texts(row@)),
            forall|k: int| 0 <= k < rows@.len() ==> #[trigger] rows@[k]@.len() == 13,
            csv_records(w) == all.take(i + 1),
        decreases rows.len() - i,
    {
        assert(csv_records(w)[0] == export_header());
        assert(export_header().len() == 13);
        match csv_write_record(&mut w, &rows[i]) {
            Ok(()) => {},
            Err(e) => {
                return Err(e);
            },
        }
        assert(all.take(i + 2) =~= all.take(i + 1).push(texts(rows@[i as int]@)));
        i = i + 1;
    }
    assert(all.take(rows@.len() + 1 as int) =~= all);
    let bytes = match csv_into_bytes(w) {
        Ok(b) => b,
        Err(e) => {
            return Err(e);
        },
    };
    proof {
        encode_utf8_valid_utf8(csv_text(all));
        encode_utf8_decode_utf8(csv_text(all));
    }
    string_from_utf8(bytes)
}

/// Each field of a record's export line is the field of the record that
/// the header names in the same column (the column `agent_id` holds the
/// agent id, `message_id` the message id, `timestamp` the time, and so
/// on, an absent value written empty), and no two columns share a name.
pub proof fn lemma_export_columns(r: TokenRecord, timestamp_text: Seq<char>, cost_text: Seq<char>)
    ensures
        export_fields(r, timestamp_text, cost_text).len() == export_header().len(),
        export_header().len() == 13,
        forall|j: int, k: int| 0 <= j < k < 13 ==> export_header()[j] != export_header()[k],
        export_header()[0] == "source"@,
        export_fields(r, timestamp_text, cost_text)[0] == r.source@,
        export_header()[1] == "session_id"@,
        export_fields(r, timestamp_text, cost_text)[1] == r.session_id@,
        export_header()[2] == "agent_type"@,
        export_fields(r, timestamp_text, cost_text)[2] == r.agent_type@,
        export_header()[3] == "agent_id"@,
        export_fields(r, timestamp_text, cost_text)[3] == (match r.agent_id {
            Some(a) => a@,
            None => Seq::<char>::empty(),
        }),
        export_header()[4] == "timestamp"@,
        export_fields(r, timestamp_text, cost_text)[4] == timestamp_text,
        export_header()[5] == "model"@,
        export_fields(r, timestamp_text, cost_text)[5] == (match r.model {
            Some(m) => m@,
            None => Seq::<char>::empty(),
        }),
        export_header()[6] == "input_tokens"@,
        export_fields(r, timestamp_text, cost_text)[6] == signed_decimal(r.input_tokens as int),
        export_header()[7] == "output_tokens"@,
        export_fields(r, timestamp_text, cost_text)[7] == signed_decimal(r.output_tokens as int),
        export_header()[8] == "cache_read_tokens"@,
        export_fields(r, timestamp_text, cost_text)[8] == signed_decimal(r.cache_read_tokens as int),
        export_header()[9] == "cache_creation_tokens"@,
        export_fields(r, timestamp_text, cost_text)[9] == signed_decimal(
            r.cache_creation_tokens as int,
        ),
        export_header()[10] == "project_path"@,
        export_fields(r, timestamp_text, cost_text)[10] == (match r.project_path {
            Some(p) => p@,
            None => Seq::<char>::empty(),
        }),
        export_header()[11] == "message_id"@,
        export_fields(r, timestamp_text, cost_text)[11] == (match r.message_id {
            Some(m) => m@,
            None => Seq::<char>::empty(),
        }),
        export_header()[12] == "cost_estimate"@,
        export_fields(r, timestamp_text, cost_text)[12] == cost_text,
{
    reveal_strlit("source");
    reveal_strlit("session_id");
    reveal_strlit("agent_type");
    reveal_strlit("agent_id");
    reveal_strlit("timestamp");
    reveal_strlit("model");
    reveal_strlit("input_tokens");
    reveal_strlit("output_tokens");
    reveal_strlit("cache_read_tokens");
    reveal_strlit("cache_creation_tokens");
    reveal_strlit("project_path");
    reveal_strlit("message_id");
    reveal_strlit("cost_estimate");
    let h = export_header();
    assert forall|j: int, k: int| 0 <= j < k < 13 implies h[j] != h[k] by {
        assert(h[j].len() != h[k].len() || h[j][0] != h[k][0]);
    }
}

/// An export reads back: reading its CSV text gives the header and then
/// each line's fields as they were, whatever the fields hold (delimiters,
/// quotes and line ends included).
pub proof fn lemma_export_reads_back(rows: Seq<Seq<Seq<char>>>)
    requires
        forall|k: int| 0 <= k < rows.len() ==> #[trigger] rows[k].len() == 13,
    ensures
        csv_read_all(csv_text(seq![export_header()] + rows)) == seq![export_header()] + rows,
{
    let all = seq![export_header()] + rows;
    assert forall|k: int| 0 <= k < all.len() implies readable_record(#[trigger] all[k]) by {
        if k == 0 {
            assert(all[0] == export_header());
        } else {
            assert(all[k] == rows[k - 1]);
        }
    }
    lemma_csv_reads_back(all);
}

} // verus!
