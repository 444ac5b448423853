use talker_pack::builder::parse;
use talker_pack::path::SamplePath;
use talker_pack::record::Record;
use talker_pack::table::{append_bytes, field_needs_quotes, table_bytes, table_path, write_field, write_row};

fn path(segments: &[&str]) -> SamplePath {
    SamplePath::new(segments.iter().map(|s| s.as_bytes().to_vec()).collect())
}

fn record(fields: [&str; 5]) -> Record {
    Record {
        relative_path: fields[0].to_string(),
        name: fields[1].to_string(),
        line: fields[2].to_string(),
        pronunciation: fields[3].to_string(),
        category: fields[4].to_string(),
    }
}

fn awkward_records() -> Vec<Record> {
    vec![
        record(["a/b/c.wav", "c", "c", "", "a/b"]),
        record(["with,comma.wav", "with,comma", "with,comma", "", ""]),
        record(["say \"hi\".wav", "say \"hi\"", "say \"hi\"", "", "quotes/\"\""]),
        record(["two\nlines.wav", "two\nlines", "two\nlines", "", "line\r\nbreaks"]),
        record(["", "", "", "", ""]),
        record(["\"", ",", "\n", "\r", " "]),
        record(["喜び/鶴巻マキ.wav", "鶴巻マキ", "鶴巻マキ", "ツルマキマキ", "喜び"]),
        record([" padded ", "\ttab", "#hash", "semi;colon", "'single'"]),
    ]
}

fn written_by_csv(records: &[Record]) -> Vec<u8> {
    let mut writer = csv::WriterBuilder::new().has_headers(false).from_writer(Vec::new());
    for r in records {
        writer
            .write_record([&r.relative_path, &r.name, &r.line, &r.pronunciation, &r.category])
            .unwrap();
    }
    writer.into_inner().unwrap()
}

fn read_by_csv(table: &[u8]) -> Vec<Record> {
    let mut reader = csv::ReaderBuilder::new().has_headers(false).from_reader(table);
    let mut records = Vec::new();
    for row in reader.records() {
        let row = row.unwrap();
        assert_eq!(row.len(), 5);
        records.push(record([&row[0], &row[1], &row[2], &row[3], &row[4]]));
    }
    records
}

#[test]
fn plain_records_are_written_as_they_are() {
    let records = vec![
        record(["a/b/c.wav", "c", "c", "", "a/b"]),
        record(["d.wav", "d", "d", "", ""]),
    ];
    assert_eq!(table_bytes(&records), b"a/b/c.wav,c,c,,a/b\nd.wav,d,d,,\n".to_vec());
}

#[test]
fn no_records_give_an_empty_table() {
    assert_eq!(table_bytes(&Vec::new()), Vec::<u8>::new());
}

#[test]
fn table_has_no_header_row() {
    let table = table_bytes(&vec![record(["x.wav", "x", "x", "", ""])]);
    assert_eq!(table, b"x.wav,x,x,,\n".to_vec());
    assert_eq!(table.iter().filter(|b| **b == b'\n').count(), 1);
}

#[test]
fn field_with_a_comma_is_quoted() {
    let records = vec![record(["a,b.wav", "a,b", "a,b", "", ""])];
    assert_eq!(table_bytes(&records), b"\"a,b.wav\",\"a,b\",\"a,b\",,\n".to_vec());
}

#[test]
fn quotes_in_a_field_are_doubled() {
    let records = vec![record(["say \"hi\".wav", "say \"hi\"", "x", "", ""])];
    assert_eq!(
        table_bytes(&records),
        b"\"say \"\"hi\"\".wav\",\"say \"\"hi\"\"\",x,,\n".to_vec()
    );
}

#[test]
fn field_with_a_line_break_is_quoted() {
    let records = vec![record(["a\nb", "c\rd", "e\r\nf", "", ""])];
    assert_eq!(table_bytes(&records), b"\"a\nb\",\"c\rd\",\"e\r\nf\",,\n".to_vec());
}

#[test]
fn other_bytes_need_no_quotes() {
    assert!(!field_needs_quotes(b"plain text; with 'marks' #and\ttabs"));
    assert!(!field_needs_quotes(b""));
    assert!(!field_needs_quotes(" 鶴巻マキ ".as_bytes()));
    assert!(field_needs_quotes(b"a,b"));
    assert!(field_needs_quotes(b"\""));
    assert!(field_needs_quotes(b"line\n"));
    assert!(field_needs_quotes(b"\rline"));
}

#[test]
fn field_is_appended_to_what_is_there() {
    let mut out = b"x,".to_vec();
    write_field(&mut out, b"plain");
    assert_eq!(out, b"x,plain".to_vec());
    write_field(&mut out, b"\"");
    assert_eq!(out, b"x,plain\"\"\"\"".to_vec());
    write_field(&mut out, b"");
    assert_eq!(out, b"x,plain\"\"\"\"".to_vec());
}

#[test]
fn row_is_appended_to_what_is_there() {
    let mut out = b"before\n".to_vec();
    write_row(&mut out, &record(["p", "n", "l", "r", "c"]));
    assert_eq!(out, b"before\np,n,l,r,c\n".to_vec());
}

#[test]
fn bytes_are_appended() {
    let mut out = b"ab".to_vec();
    append_bytes(&mut out, b"cd");
    append_bytes(&mut out, b"");
    assert_eq!(out, b"abcd".to_vec());
}

#[test]
fn table_is_what_the_csv_crate_writes() {
    let records = awkward_records();
    assert_eq!(table_bytes(&records), written_by_csv(&records));
    for r in &records {
        let one = vec![r.clone()];
        assert_eq!(table_bytes(&one), written_by_csv(&one));
    }
}

#[test]
fn table_read_back_gives_the_records() {
    let records = awkward_records();
    let table = table_bytes(&records);
    assert_eq!(read_by_csv(&table), records);
}

#[test]
fn table_read_back_keeps_count_and_order() {
    let mut records = Vec::new();
    for i in 0..50 {
        let name = format!("sample {}, take \"{}\"", i, i * 7);
        let file = format!("dir{}/{}.wav", i % 3, name);
        let category = format!("dir{}", i % 3);
        records.push(record([&file, &name, &name, "", &category]));
    }
    let back = read_by_csv(&table_bytes(&records));
    assert_eq!(back.len(), 50);
    assert_eq!(back, records);
}

#[test]
fn table_is_valid_utf8() {
    let table = table_bytes(&awkward_records());
    assert!(String::from_utf8(table).is_ok());
}

#[test]
fn same_listing_gives_the_same_table_twice() {
    let root = path(&["pack"]);
    let files = vec![
        path(&["pack", "joy", "laugh, loud.wav"]),
        path(&["pack", "hello.wav"]),
        path(&["pack", "joy", "deep", "say \"yes\".wav"]),
    ];
    let first = table_bytes(&parse(&root, &files).unwrap());
    let second = table_bytes(&parse(&root, &files).unwrap());
    assert_eq!(first, second);
    assert_eq!(
        first,
        b"\"joy/laugh, loud.wav\",\"laugh, loud\",\"laugh, loud\",,joy\nhello.wav,hello,hello,,\n\"joy/deep/say \"\"yes\"\".wav\",\"say \"\"yes\"\"\",\"say \"\"yes\"\"\",,joy/deep\n"
            .to_vec()
    );
}

#[test]
fn table_lies_in_the_pack_under_the_packs_name() {
    assert_eq!(table_path(&path(&["foo", "bar"])), Some(path(&["foo", "bar", "bar.csv"])));
    assert_eq!(table_path(&path(&["maki"])), Some(path(&["maki", "maki.csv"])));
}

#[test]
fn table_name_keeps_dots_of_the_packs_name() {
    assert_eq!(table_path(&path(&["packs", "v1.2"])), Some(path(&["packs", "v1.2", "v1.2.csv"])));
}

#[test]
fn pack_without_a_name_has_no_table_path() {
    assert_eq!(table_path(&path(&[])), None);
}
