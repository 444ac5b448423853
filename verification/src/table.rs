//! The index as a table of comma-separated values: one row for each record,
//! no header row.

use vstd::prelude::*;
use vstd::utf8::encode_utf8;

use crate::path::{copy_bytes, SamplePath};
use crate::record::{record_views, Record, RecordView};

verus! {

/// The byte `,`, which parts the fields of a row.
pub const COMMA: u8 = 44;

/// The byte `"`, which encloses a quoted field.
pub const QUOTE: u8 = 34;

/// The line feed, which ends a row.
pub const LF: u8 = 10;

/// The carriage return, which a reader takes for the end of a row too.
pub const CR: u8 = 13;

/// Whether the byte would be misread if it stood in a field as it is.
pub open spec fn is_special(byte: u8) -> bool {
    byte == COMMA || byte == QUOTE || byte == LF || byte == CR
}

/// Whether the field must be quoted: it holds a comma, a quote or a line
/// break.
pub open spec fn needs_quotes(field: Seq<u8>) -> bool {
    exists|i: int| 0 <= i < field.len() && is_special(#[trigger] field[i])
}

/// The byte as it stands inside quotes: a quote is written twice.
pub open spec fn escaped(byte: u8) -> Seq<u8> {
    if byte == QUOTE {
        seq![QUOTE, QUOTE]
    } else {
        seq![byte]
    }
}

/// The field as it stands in a row: as it is, or, where it must be quoted,
/// between two quotes and with each quote of its own written twice.
pub open spec fn encode_field(field: Seq<u8>) -> Seq<u8> {
    if needs_quotes(field) {
        seq![QUOTE] + field.flat_map(|byte: u8| escaped(byte)) + seq![QUOTE]
    } else {
        field
    }
}

/// The five fields of a record, in the order of the table's columns, each as
/// UTF-8.
pub open spec fn record_fields(record: RecordView) -> Seq<Seq<u8>> {
    seq![
        encode_utf8(record.relative_path),
        encode_utf8(record.name),
        encode_utf8(record.line),
        encode_utf8(record.pronunciation),
        encode_utf8(record.category),
    ]
}

/// The row of a record: its five fields with a comma between them and a line
/// feed at the end.
pub open spec fn row_of(record: RecordView) -> Seq<u8> {
    let fields = record_fields(record);
    encode_field(fields[0]) + seq![COMMA] + encode_field(fields[1]) + seq![COMMA] + encode_field(
        fields[2],
    ) + seq![COMMA] + encode_field(fields[3]) + seq![COMMA] + encode_field(fields[4]) + seq![LF]
}

/// The table of the records: their rows, one after the other.
pub open spec fn table_of(records: Seq<RecordView>) -> Seq<u8> {
    records.flat_map(|record: RecordView| row_of(record))
}

/// The name of the table's file in a pack whose directory is called
/// `directory`: that name with `.csv` behind it.
pub open spec fn table_name(directory: Seq<u8>) -> Seq<u8> {
    directory + encode_utf8(".csv"@)
}

/// Appends `bytes` to `out`.
pub fn append_bytes(out: &mut Vec<u8>, bytes: &[u8])
    ensures
        final(out)@ == old(out)@ + bytes@,
{
    let mut i: usize = 0;
    while i < bytes.len()
        invariant
            i <= bytes.len(),
            out@ == old(out)@ + bytes@.take(i as int),
        decreases bytes.len() - i,
    {
        out.push(bytes[i]);
        i += 1;
    }
}

/// Whether the field must be quoted.
pub fn field_needs_quotes(field: &[u8]) -> (needed: bool)
    ensures
        needed == needs_quotes(field@),
{
    let mut i: usize = 0;
    while i < field.len()
        invariant
            i <= field.len(),
            forall|k: int| 0 <= k < i ==> !is_special(#[trigger] field@[k]),
        decreases field.len() - i,
    {
        let byte = field[i];
        if byte == COMMA || byte == QUOTE || byte == LF || byte == CR {
            return true;
        }
        i += 1;
    }
    false
}

/// Appends the field to `out` as it stands in a row.
pub fn write_field(out: &mut Vec<u8>, field: &[u8])
    ensures
        final(out)@ == old(out)@ + encode_field(field@),
{
    if !field_needs_quotes(field) {
        append_bytes(out, field);
        return;
    }
    let ghost inside = |byte: u8| escaped(byte);
    out.push(QUOTE);
    let mut i: usize = 0;
    while i < field.len()
        invariant
            i <= field.len(),
            inside == |byte: u8| escaped(byte),
            out@ == old(out)@ + seq![QUOTE] + field@.take(i as int).flat_map(inside),
        decreases field.len() - i,
    {
        let byte = field[i];
        proof {
            field@.lemma_flat_map_take_append(inside, i as int);
        }
        if byte == QUOTE {
            out.push(QUOTE);
        }
        out.push(byte);
        i += 1;
    }
    assert(field@.take(field.len() as int) == field@);
    out.push(QUOTE);
}

/// Appends the row of the record to `out`.
pub fn write_row(out: &mut Vec<u8>, record: &Record)
    ensures
        final(out)@ == old(out)@ + row_of(record@),
{
    write_field(out, record.relative_path.as_str().as_bytes());
    out.push(COMMA);
    write_field(out, record.name.as_str().as_bytes());
    out.push(COMMA);
    write_field(out, record.line.as_str().as_bytes());
    out.push(COMMA);
    write_field(out, record.pronunciation.as_str().as_bytes());
    out.push(COMMA);
    write_field(out, record.category.as_str().as_bytes());
    out.push(LF);
}

/// The table of the records, as the bytes of its file.
pub fn table_bytes(records: &Vec<Record>) -> (table: Vec<u8>)
    ensures
        table@ == table_of(record_views(records@)),
{
    let ghost all = record_views(records@);
    let ghost row = |record: RecordView| row_of(record);
    let mut table: Vec<u8> = Vec::new();
    let mut i: usize = 0;
    while i < records.len()
        invariant
            i <= records.len(),
            all == record_views(records@),
            row == |record: RecordView| row_of(record),
            table@ == all.take(i as int).flat_map(row),
        decreases records.len() - i,
    {
        proof {
            all.lemma_flat_map_take_append(row, i as int);
        }
        write_row(&mut table, &records[i]);
        i += 1;
    }
    assert(all.take(records.len() as int) == all);
    table
}

/// Where the table of the pack at `root` is kept: in the pack's directory,
/// under the directory's own name with `.csv` behind it. A root without
/// segments has no name to give, and so no such place.
pub fn table_path(root: &SamplePath) -> (path: Option<SamplePath>)
    ensures
        match path {
            Some(p) => root@.len() > 0 && p@ == root@.push(table_name(root@.last())),
            None => root@.len() == 0,
        },
{
    match root.file_name() {
        None => None,
        Some(directory) => {
            let mut name = copy_bytes(directory);
            append_bytes(&mut name, ".csv".as_bytes());
            Some(root.join(name))
        },
    }
}

} // verus!
