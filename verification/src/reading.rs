//! How a table is read back as comma-separated values, and the proof that
//! reading a written table gives back the records that went into it.

use vstd::prelude::*;
use vstd::utf8::{decode_utf8, encode_utf8, encode_utf8_decode_utf8, encode_utf8_valid_utf8};

use crate::record::{is_text, RecordView};
use crate::table::{
    encode_field, escaped, is_special, needs_quotes, record_fields, row_of, table_of, COMMA, CR,
    LF, QUOTE,
};

verus! {

/// Whether the byte ends a row.
pub open spec fn ends_row(byte: u8) -> bool {
    byte == LF || byte == CR
}

/// Whether the byte ends a field that is not quoted.
pub open spec fn ends_field(byte: u8) -> bool {
    byte == COMMA || ends_row(byte)
}

/// Reads a field that is not quoted: all bytes up to the next comma or line
/// break. Gives the field and what follows it.
pub open spec fn read_plain(input: Seq<u8>) -> (Seq<u8>, Seq<u8>)
    decreases input.len(),
{
    if input.len() == 0 || ends_field(input[0]) {
        (Seq::empty(), input)
    } else {
        let (field, rest) = read_plain(input.skip(1));
        (seq![input[0]] + field, rest)
    }
}

/// Reads a quoted field from behind its opening quote: all bytes up to the
/// closing quote, where two quotes in a row stand for one quote of the
/// field. Gives the field and what follows the closing quote, or nothing
/// where no quote closes the field.
pub open spec fn read_quoted(input: Seq<u8>) -> Option<(Seq<u8>, Seq<u8>)>
    decreases input.len(),
{
    if input.len() == 0 {
        None
    } else if input[0] != QUOTE {
        match read_quoted(input.skip(1)) {
            Some((field, rest)) => Some((seq![input[0]] + field, rest)),
            None => None,
        }
    } else if input.len() > 1 && input[1] == QUOTE {
        match read_quoted(input.skip(2)) {
            Some((field, rest)) => Some((seq![QUOTE] + field, rest)),
            None => None,
        }
    } else {
        Some((Seq::empty(), input.skip(1)))
    }
}

/// Reads one field, quoted if it opens with a quote. After a closing quote
/// the field must be over: anything but a comma, a line break or the end of
/// the input is refused.
pub open spec fn read_field(input: Seq<u8>) -> Option<(Seq<u8>, Seq<u8>)> {
    if input.len() > 0 && input[0] == QUOTE {
        match read_quoted(input.skip(1)) {
            Some((field, rest)) => if rest.len() == 0 || ends_field(rest[0]) {
                Some((field, rest))
            } else {
                None
            },
            None => None,
        }
    } else {
        Some(read_plain(input))
    }
}

/// Reads one row: fields with a comma between them, up to a line break,
/// which is taken off, or to the end of the input.
pub open spec fn read_row(input: Seq<u8>) -> Option<(Seq<Seq<u8>>, Seq<u8>)>
    decreases input.len(),
    via read_row_ends
{
    match read_field(input) {
        None => None,
        Some((field, rest)) => if rest.len() == 0 {
            Some((seq![field], rest))
        } else if ends_row(rest[0]) {
            Some((seq![field], rest.skip(1)))
        } else {
            match read_row(rest.skip(1)) {
                Some((fields, after)) => Some((seq![field] + fields, after)),
                None => None,
            }
        },
    }
}

/// Reads all rows of a table. Blank lines are passed over.
pub open spec fn read_rows(input: Seq<u8>) -> Option<Seq<Seq<Seq<u8>>>>
    decreases input.len(),
    via read_rows_ends
{
    if input.len() == 0 {
        Some(Seq::empty())
    } else if ends_row(input[0]) {
        read_rows(input.skip(1))
    } else {
        match read_row(input) {
            Some((fields, rest)) => match read_rows(rest) {
                Some(rows) => Some(seq![fields] + rows),
                None => None,
            },
            None => None,
        }
    }
}

/// The record that a row of five fields of valid text stands for.
pub open spec fn record_from_fields(fields: Seq<Seq<u8>>) -> Option<RecordView> {
    if fields.len() == 5 && is_text(fields) {
        Some(
            RecordView {
                relative_path: decode_utf8(fields[0]),
                name: decode_utf8(fields[1]),
                line: decode_utf8(fields[2]),
                pronunciation: decode_utf8(fields[3]),
                category: decode_utf8(fields[4]),
            },
        )
    } else {
        None
    }
}

/// Reads a table back: its rows, each of which must stand for a record.
pub open spec fn read_table(input: Seq<u8>) -> Option<Seq<RecordView>> {
    match read_rows(input) {
        Some(rows) => if forall|i: int|
            0 <= i < rows.len() ==> record_from_fields(#[trigger] rows[i]) is Some {
            Some(rows.map_values(|fields: Seq<Seq<u8>>| record_from_fields(fields).unwrap()))
        } else {
            None
        },
        None => None,
    }
}

/// What follows a field that is not quoted is a tail of the input, and it is
/// empty or opens with the byte that ended the field.
pub proof fn lemma_plain_rest(input: Seq<u8>)
    ensures
        read_plain(input).1.len() <= input.len(),
        read_plain(input).1.len() == 0 || ends_field(read_plain(input).1[0]),
        input.len() > 0 && !ends_field(input[0]) ==> read_plain(input).1.len() < input.len(),
    decreases input.len(),
{
    if !(input.len() == 0 || ends_field(input[0])) {
        lemma_plain_rest(input.skip(1));
    }
}

/// What follows a quoted field is shorter than what was read.
pub proof fn lemma_quoted_rest(input: Seq<u8>)
    ensures
        read_quoted(input) matches Some((_, rest)) ==> rest.len() < input.len(),
    decreases input.len(),
{
    if input.len() == 0 {
    } else if input[0] != QUOTE {
        lemma_quoted_rest(input.skip(1));
    } else if input.len() > 1 && input[1] == QUOTE {
        lemma_quoted_rest(input.skip(2));
    }
}

/// What follows a field is a tail of the input, and it is empty or opens
/// with a comma or a line break.
pub proof fn lemma_field_rest(input: Seq<u8>)
    ensures
        read_field(input) matches Some((_, rest)) ==> {
            &&& rest.len() <= input.len()
            &&& rest.len() == 0 || ends_field(rest[0])
            &&& input.len() > 0 && !ends_field(input[0]) ==> rest.len() < input.len()
        },
{
    if input.len() > 0 && input[0] == QUOTE {
        lemma_quoted_rest(input.skip(1));
    } else {
        lemma_plain_rest(input);
    }
}

#[via_fn]
proof fn read_row_ends(input: Seq<u8>) {
    lemma_field_rest(input);
}

/// A row takes at least one byte off an input that is not empty.
pub proof fn lemma_row_rest(input: Seq<u8>)
    ensures
        read_row(input) matches Some((_, rest)) ==> rest.len() <= input.len() && (input.len() > 0
            ==> rest.len() < input.len()),
    decreases input.len(),
{
    lemma_field_rest(input);
    match read_field(input) {
        None => {},
        Some((field, rest)) => {
            if rest.len() > 0 && !ends_row(rest[0]) {
                lemma_row_rest(rest.skip(1));
            }
        },
    }
}

#[via_fn]
proof fn read_rows_ends(input: Seq<u8>) {
    lemma_row_rest(input);
}

/// The bytes of a field inside quotes: those of its first byte, then those of
/// the bytes that follow.
proof fn lemma_escaped_first(field: Seq<u8>)
    requires
        field.len() > 0,
    ensures
        field.flat_map(|byte: u8| escaped(byte)) == escaped(field[0]) + field.skip(1).flat_map(
            |byte: u8| escaped(byte),
        ),
{
    let inside = |byte: u8| escaped(byte);
    assert(field.map_values(inside).drop_first() =~= field.skip(1).map_values(inside));
}

/// A field that needs no quotes is read back as it was written.
pub proof fn lemma_read_plain_back(field: Seq<u8>, tail: Seq<u8>)
    requires
        !needs_quotes(field),
        tail.len() == 0 || ends_field(tail[0]),
    ensures
        read_plain(field + tail) == (field, tail),
    decreases field.len(),
{
    if field.len() > 0 {
        let rest = field.skip(1);
        assert(!needs_quotes(rest)) by {
            assert forall|i: int| 0 <= i < rest.len() implies !is_special(#[trigger] rest[i]) by {
                assert(rest[i] == field[i + 1]);
            }
        }
        lemma_read_plain_back(rest, tail);
        assert((field + tail).skip(1) == rest + tail);
    }
}

/// A quoted field is read back from behind its opening quote as it was
/// before the quotes were put around it.
pub proof fn lemma_read_quoted_back(field: Seq<u8>, tail: Seq<u8>)
    requires
        tail.len() == 0 || tail[0] != QUOTE,
    ensures
        read_quoted(field.flat_map(|byte: u8| escaped(byte)) + seq![QUOTE] + tail) == Some(
            (field, tail),
        ),
    decreases field.len(),
{
    let inside = |byte: u8| escaped(byte);
    let input = field.flat_map(inside) + seq![QUOTE] + tail;
    if field.len() > 0 {
        let rest = field.skip(1);
        let rest_input = rest.flat_map(inside) + seq![QUOTE] + tail;
        lemma_escaped_first(field);
        lemma_read_quoted_back(rest, tail);
        if field[0] == QUOTE {
            assert(input.skip(2) == rest_input);
        } else {
            assert(input.skip(1) == rest_input);
        }
    }
}

/// A field is read back as it was written, whether it was quoted or not.
pub proof fn lemma_read_field_back(field: Seq<u8>, tail: Seq<u8>)
    requires
        tail.len() == 0 || ends_field(tail[0]),
    ensures
        read_field(encode_field(field) + tail) == Some((field, tail)),
{
    let input = encode_field(field) + tail;
    if needs_quotes(field) {
        lemma_read_quoted_back(field, tail);
        assert(input.skip(1) == field.flat_map(|byte: u8| escaped(byte)) + seq![QUOTE] + tail);
    } else {
        lemma_read_plain_back(field, tail);
    }
}

/// The last field of a row is read back, and the line feed behind it ends
/// the row.
pub proof fn lemma_read_row_end(field: Seq<u8>, tail: Seq<u8>)
    ensures
        read_row(encode_field(field) + seq![LF] + tail) == Some((seq![field], tail)),
{
    let rest = seq![LF] + tail;
    lemma_read_field_back(field, rest);
    assert(encode_field(field) + seq![LF] + tail == encode_field(field) + rest);
}

/// A field with a comma behind it is read back, and the row goes on with
/// what follows the comma.
pub proof fn lemma_read_row_more(field: Seq<u8>, more: Seq<u8>)
    ensures
        read_row(encode_field(field) + seq![COMMA] + more) == match read_row(more) {
            Some((fields, after)) => Some((seq![field] + fields, after)),
            None => None,
        },
{
    let rest = seq![COMMA] + more;
    lemma_read_field_back(field, rest);
    assert(encode_field(field) + seq![COMMA] + more == encode_field(field) + rest);
    assert(rest.skip(1) == more);
}

/// Five parts with a separator between them and an end behind them are the
/// same bytes however the pieces are grouped.
proof fn lemma_grouping(
    parts: Seq<Seq<u8>>,
    between: Seq<u8>,
    end: Seq<u8>,
    tail: Seq<u8>,
)
    requires
        parts.len() == 5,
    ensures
        parts[0] + between + parts[1] + between + parts[2] + between + parts[3] + between
            + parts[4] + end + tail == parts[0] + (between + (parts[1] + (between + (parts[2] + (
            between + (parts[3] + (between + (parts[4] + (end + tail))))))))),
{
    assert(parts[0] + between + parts[1] + between + parts[2] + between + parts[3] + between
        + parts[4] + end + tail =~= parts[0] + (between + (parts[1] + (between + (parts[2] + (
        between + (parts[3] + (between + (parts[4] + (end + tail))))))))));
}

/// The row of a record is read back as the record's five fields.
pub proof fn lemma_read_row_back(record: RecordView, tail: Seq<u8>)
    ensures
        read_row(row_of(record) + tail) == Some((record_fields(record), tail)),
{
    let fields = record_fields(record);
    let parts = fields.map_values(|field: Seq<u8>| encode_field(field));
    let from4 = parts[4] + (seq![LF] + tail);
    let from3 = parts[3] + (seq![COMMA] + from4);
    let from2 = parts[2] + (seq![COMMA] + from3);
    let from1 = parts[1] + (seq![COMMA] + from2);
    let from0 = parts[0] + (seq![COMMA] + from1);
    assert(row_of(record) + tail == from0) by {
        lemma_grouping(parts, seq![COMMA], seq![LF], tail);
    }
    let read4 = Some((seq![fields[4]], tail));
    assert(read_row(from4) == read4) by {
        lemma_read_row_end(fields[4], tail);
        assert(from4 == encode_field(fields[4]) + seq![LF] + tail);
    }
    let read3 = Some((seq![fields[3]] + seq![fields[4]], tail));
    assert(read_row(from3) == read3) by {
        lemma_read_row_more(fields[3], from4);
        assert(from3 == encode_field(fields[3]) + seq![COMMA] + from4);
    }
    let read2 = Some((seq![fields[2]] + (seq![fields[3]] + seq![fields[4]]), tail));
    assert(read_row(from2) == read2) by {
        lemma_read_row_more(fields[2], from3);
        assert(from2 == encode_field(fields[2]) + seq![COMMA] + from3);
    }
    let read1 = Some(
        (seq![fields[1]] + (seq![fields[2]] + (seq![fields[3]] + seq![fields[4]])), tail),
    );
    assert(read_row(from1) == read1) by {
        lemma_read_row_more(fields[1], from2);
        assert(from1 == encode_field(fields[1]) + seq![COMMA] + from2);
    }
    assert(read_row(from0) == Some(
        (
            seq![fields[0]] + (seq![fields[1]] + (seq![fields[2]] + (seq![fields[3]] + seq![
                fields[4],
            ]))),
            tail,
        ),
    )) by {
        lemma_read_row_more(fields[0], from1);
        assert(from0 == encode_field(fields[0]) + seq![COMMA] + from1);
    }
    assert(seq![fields[0]] + (seq![fields[1]] + (seq![fields[2]] + (seq![fields[3]] + seq![
        fields[4],
    ]))) =~= fields);
}

/// A row never opens with a line break, so it is not taken for a blank line.
pub proof fn lemma_row_opening(record: RecordView)
    ensures
        row_of(record).len() > 0,
        !ends_row(row_of(record)[0]),
{
}

/// The fields of a record stand for that record.
pub proof fn lemma_fields_of_record(record: RecordView)
    ensures
        record_from_fields(record_fields(record)) == Some(record),
{
    broadcast use {encode_utf8_valid_utf8, encode_utf8_decode_utf8};

}

/// The rows of a written table are read back as the fields of its records.
pub proof fn lemma_read_rows_back(records: Seq<RecordView>)
    ensures
        read_rows(table_of(records)) == Some(
            records.map_values(|record: RecordView| record_fields(record)),
        ),
    decreases records.len(),
{
    let row = |record: RecordView| row_of(record);
    let fields = |record: RecordView| record_fields(record);
    if records.len() > 0 {
        let others = records.skip(1);
        assert(records.map_values(row).drop_first() =~= others.map_values(row));
        lemma_row_opening(records[0]);
        lemma_read_row_back(records[0], table_of(others));
        lemma_read_rows_back(others);
        assert(seq![record_fields(records[0])] + others.map_values(fields) =~= records.map_values(
            fields,
        ));
    }
}

/// Writing records as a table and reading the table back gives the same
/// records, in the same order and with every field as it was: whatever a
/// field holds, the quotes put around it are undone by the reader.
pub proof fn lemma_table_reads_back(records: Seq<RecordView>)
    ensures
        read_table(table_of(records)) == Some(records),
{
    let fields = |record: RecordView| record_fields(record);
    let rows = records.map_values(fields);
    lemma_read_rows_back(records);
    assert forall|i: int| 0 <= i < rows.len() implies record_from_fields(#[trigger] rows[i])
        == Some(records[i]) by {
        lemma_fields_of_record(records[i]);
    }
    assert(rows.map_values(|fields: Seq<Seq<u8>>| record_from_fields(fields).unwrap())
        =~= records);
}

} // verus!
