use csv_formats::deserializer::Value;
use csv_formats::engine::DataBlock;
use csv_formats::error::{ErrorCode, ErrorKind};
use csv_formats::format::{CsvInputFormat, FormatFactory};
use csv_formats::plans::ReclusterTablePlan;
use csv_formats::result_cache::ResultCacheWriter;
use csv_formats::schema::{DataField, DataSchema, DataType, FormatSettings};
use csv_formats::state::CsvInputState;
use csv_formats::text::{push_decimal, verbose_string};

fn schema(cols: &[(&str, DataType)]) -> DataSchema {
    DataSchema {
        fields: cols
            .iter()
            .map(|(n, t)| DataField { name: n.as_bytes().to_vec(), data_type: *t })
            .collect(),
    }
}

fn settings(field: &[u8], record: &[u8]) -> FormatSettings {
    FormatSettings {
        field_delimiter: field.to_vec(),
        record_delimiter: record.to_vec(),
        null_bytes: b"NULL".to_vec(),
        csv_null_bytes: b"\\N".to_vec(),
    }
}

fn format_with(
    cols: &[(&str, DataType)],
    skip_rows: usize,
    min_rows: usize,
    record: &[u8],
) -> CsvInputFormat {
    CsvInputFormat::try_create(
        "Csv",
        schema(cols),
        settings(b",", record),
        skip_rows,
        min_rows,
        10 * 1024 * 1024,
    )
    .unwrap()
}

fn format(cols: &[(&str, DataType)]) -> CsvInputFormat {
    format_with(cols, 0, 8192, b"\n")
}

fn parse_whole(fmt: &CsvInputFormat, input: &[u8]) -> Result<Vec<DataBlock>, ErrorCode> {
    let mut state = fmt.create_state();
    let n = fmt.read_buf(input, &mut state);
    assert_eq!(n, input.len());
    fmt.deserialize_data(&mut state)
}

fn ints(vs: &[i64]) -> Vec<Value> {
    vs.iter().map(|v| Value::Int64(*v)).collect()
}

fn strings(vs: &[&str]) -> Vec<Value> {
    vs.iter().map(|v| Value::String(v.as_bytes().to_vec())).collect()
}

fn message(e: &ErrorCode) -> String {
    String::from_utf8(e.message.clone()).unwrap()
}

#[test]
fn quoted_field_keeps_delimiter() {
    let fmt = format(&[("s", DataType::String), ("n", DataType::Int64)]);
    let blocks = parse_whole(&fmt, b"\"a,b\",1\n").unwrap();
    assert_eq!(blocks.len(), 1);
    assert_eq!(blocks[0].columns, vec![strings(&["a,b"]), ints(&[1])]);
}

#[test]
fn quoted_field_split_across_buffers() {
    let fmt = format(&[("s", DataType::String)]);
    let mut state = fmt.create_state();
    assert_eq!(fmt.read_buf(b"\"a", &mut state), 2);
    assert_eq!(state.quotes, b'"');
    assert_eq!(state.accepted_rows, 0);
    assert_eq!(fmt.read_buf(b"b\"\n", &mut state), 3);
    assert_eq!(state.quotes, 0);
    assert_eq!(state.accepted_rows, 1);
    assert_eq!(state.memory, b"\"ab\"\n".to_vec());
    let blocks = fmt.deserialize_data(&mut state).unwrap();
    assert_eq!(blocks[0].columns, vec![strings(&["ab"])]);
}

#[test]
fn any_quote_byte_closes_a_quoted_span() {
    let fmt = format(&[("s", DataType::String)]);
    let mut state = fmt.create_state();
    assert_eq!(fmt.read_buf(b"'a\"\n", &mut state), 4);
    assert_eq!(state.quotes, 0);
    assert_eq!(state.accepted_rows, 1);
}

#[test]
fn crlf_split_between_buffers_is_one_terminator() {
    let fmt = format(&[("n", DataType::Int64)]);
    let mut state = fmt.create_state();
    assert_eq!(fmt.read_buf(b"1\r", &mut state), 2);
    assert_eq!(state.ignore_if_first, Some(b'\n'));
    assert_eq!(state.accepted_rows, 1);
    assert_eq!(fmt.read_buf(b"\n2\r\n", &mut state), 4);
    assert_eq!(state.ignore_if_first, None);
    assert_eq!(state.accepted_rows, 2);
    assert_eq!(state.memory, b"1\r\n2\r\n".to_vec());
    let blocks = fmt.deserialize_data(&mut state).unwrap();
    assert_eq!(blocks[0].columns, vec![ints(&[1, 2])]);
}

#[test]
fn crlf_in_one_buffer_is_one_terminator() {
    let fmt = format(&[("n", DataType::Int64)]);
    let mut state = fmt.create_state();
    assert_eq!(fmt.read_buf(b"1\r\n2\n", &mut state), 5);
    assert_eq!(state.accepted_rows, 2);
    assert_eq!(state.ignore_if_first, Some(b'\r'));
}

#[test]
fn empty_field_takes_default() {
    let fmt = format(&[("a", DataType::Int64), ("b", DataType::Int64), ("c", DataType::Int64)]);
    let blocks = parse_whole(&fmt, b"1,,3\n").unwrap();
    assert_eq!(blocks[0].columns, vec![ints(&[1]), ints(&[0]), ints(&[3])]);
}

#[test]
fn header_rows_are_skipped() {
    let fmt = format_with(&[("a", DataType::Int64), ("b", DataType::Int64)], 2, 8192, b"\n");
    let input: &[u8] = b"a,b\nInt64,Int64\n1,2\n3,4\n";
    let mut state = fmt.create_state();
    let start = fmt.skip_header(input, &mut state);
    assert_eq!(start, 16);
    let mut data = fmt.create_state();
    assert_eq!(fmt.read_buf(&input[start..], &mut data), input.len() - 16);
    let blocks = fmt.deserialize_data(&mut data).unwrap();
    assert_eq!(blocks[0].columns, vec![ints(&[1, 3]), ints(&[2, 4])]);
}

#[test]
fn skip_header_without_enough_rows_gives_zero() {
    let fmt = format_with(&[("a", DataType::Int64)], 2, 8192, b"\n");
    let mut state = fmt.create_state();
    assert_eq!(fmt.skip_header(b"a\n", &mut state), 0);
    assert_eq!(state.accepted_rows, 1);
    let plain = format(&[("a", DataType::Int64)]);
    let mut other = plain.create_state();
    assert_eq!(plain.skip_header(b"a\nb\n", &mut other), 0);
    assert_eq!(other.accepted_rows, 0);
}

#[test]
fn threshold_requests_flush_and_flush_resets_counters() {
    let fmt = format_with(&[("n", DataType::Int64)], 0, 2, b"\n");
    let mut state = fmt.create_state();
    let mut flushed: Vec<Vec<Value>> = Vec::new();
    let mut flushes_after_row: Vec<usize> = Vec::new();
    for i in 0..5 {
        let row = format!("{}\n", i);
        assert_eq!(fmt.read_buf(row.as_bytes(), &mut state), 2);
        assert!(state.accepted_rows <= 2);
        if !state.need_more_data {
            flushes_after_row.push(i);
            let blocks = fmt.deserialize_data(&mut state).unwrap();
            flushed.push(blocks[0].columns[0].clone());
            assert_eq!(state.accepted_rows, 0);
            assert_eq!(state.accepted_bytes, 0);
            assert!(state.memory.is_empty());
        }
    }
    assert_eq!(flushes_after_row, vec![1, 3]);
    assert_eq!(flushed, vec![ints(&[0, 1]), ints(&[2, 3])]);
    assert_eq!(state.accepted_rows, 1);
}

#[test]
fn threshold_stops_scan_inside_buffer() {
    let fmt = format_with(&[("n", DataType::Int64)], 0, 2, b"\n");
    let mut state = fmt.create_state();
    assert_eq!(fmt.read_buf(b"1\n2\n3\n", &mut state), 4);
    assert!(!state.need_more_data);
    assert_eq!(state.memory, b"1\n2\n".to_vec());
}

#[test]
fn malformed_row_reports_its_index() {
    let fmt = format(&[("a", DataType::Int64), ("b", DataType::Int64)]);
    let err = parse_whole(&fmt, b"1,2\n3,4x\n5,6\n").unwrap_err();
    assert_eq!(err.kind, ErrorKind::MalformedRow { row: 1 });
    assert!(message(&err).starts_with("Parse csv error at line 1\n"));
    assert!(message(&err).ends_with("\tError: There is no line feed. \"x\" found instead.\n"));
}

#[test]
fn last_row_may_lack_terminator() {
    let fmt = format(&[("a", DataType::Int64), ("b", DataType::Int64)]);
    let blocks = parse_whole(&fmt, b"1,2\n3,4").unwrap();
    assert_eq!(blocks[0].columns, vec![ints(&[1, 3]), ints(&[2, 4])]);
}

#[test]
fn diagnostic_names_column_and_text() {
    let fmt = format(&[("a", DataType::Int64), ("b", DataType::Int64)]);
    let err = parse_whole(&fmt, b"1,abc\n").unwrap_err();
    assert_eq!(err.kind, ErrorKind::FieldParse);
    assert_eq!(
        message(&err),
        "Cannot parse the field\n\
         \tColumn: 0, Name: a, Type: Int64, Parsed text: \"1\"\n\
         \tColumn: 1, Name: b, Type: Int64\tError: text \"abc\\n\" is not like Int64\n"
    );
}

#[test]
fn diagnostic_missing_delimiter() {
    let fmt = format(&[("a", DataType::Int64), ("b", DataType::Int64)]);
    let err = parse_whole(&fmt, b"1 2\n").unwrap_err();
    assert_eq!(err.kind, ErrorKind::MalformedRow { row: 0 });
    assert_eq!(
        message(&err),
        "Parse csv error at line 0\n\
         \tColumn: 0, Name: a, Type: Int64, Parsed text: \"1\"\n\
         \tError: There is no delimiter (\",\"). \"2\" found instead.\n"
    );
}

#[test]
fn diagnostic_line_feed_instead_of_delimiter() {
    let fmt = format(&[("a", DataType::Int64), ("b", DataType::String)]);
    let err = parse_whole(&fmt, b"x,y\n7\n").unwrap_err();
    assert_eq!(err.kind, ErrorKind::FieldParse);
    let err = parse_whole(&fmt, b"7\n").unwrap_err();
    assert_eq!(err.kind, ErrorKind::MalformedRow { row: 0 });
    assert_eq!(
        message(&err),
        "Parse csv error at line 0\n\
         \tColumn: 0, Name: a, Type: Int64, Parsed text: \"7\"\n\
         \tError: Line feed found where delimiter (\",\") is expected.\n"
    );
}

#[test]
fn diagnostic_reports_empty_fields() {
    let fmt = format(&[("a", DataType::Int64), ("b", DataType::UInt64)]);
    let err = parse_whole(&fmt, b",-1\n").unwrap_err();
    assert_eq!(err.kind, ErrorKind::FieldParse);
    assert_eq!(
        message(&err),
        "Cannot parse the field\n\
         \tColumn: 0, Name: a, Type: Int64, Empty field\n\
         \tColumn: 1, Name: b, Type: UInt64, Parsed text: \"-1\"\n\tERROR\n"
    );
}

#[test]
fn integer_bounds() {
    let fmt = format(&[("a", DataType::Int64), ("b", DataType::UInt64)]);
    let blocks = parse_whole(&fmt, b"-9223372036854775808,18446744073709551615\n'+7',\"0\"\n").unwrap();
    assert_eq!(blocks[0].columns[0], ints(&[i64::MIN, 7]));
    assert_eq!(blocks[0].columns[1], vec![Value::UInt64(u64::MAX), Value::UInt64(0)]);
    let err = parse_whole(&fmt, b"9223372036854775808,1\n").unwrap_err();
    assert_eq!(err.kind, ErrorKind::FieldParse);
    let err = parse_whole(&fmt, b"1,18446744073709551616\n").unwrap_err();
    assert_eq!(err.kind, ErrorKind::FieldParse);
    let err = parse_whole(&fmt, b"'1,2\n").unwrap_err();
    assert_eq!(err.kind, ErrorKind::FieldParse);
}

#[test]
fn strings_and_white_space() {
    let fmt = format(&[("a", DataType::String), ("b", DataType::Int64), ("c", DataType::String)]);
    let blocks = parse_whole(&fmt, b"x y ,  5 , 'q'\n").unwrap();
    assert_eq!(blocks[0].columns, vec![strings(&["x y "]), ints(&[5]), strings(&["q"])]);
}

#[test]
fn unterminated_quote_is_field_error() {
    let fmt = format(&[("a", DataType::String)]);
    let err = parse_whole(&fmt, b"\"abc").unwrap_err();
    assert_eq!(err.kind, ErrorKind::FieldParse);
}

#[test]
fn custom_record_delimiter() {
    let fmt = format_with(&[("a", DataType::Int64), ("b", DataType::String)], 0, 8192, b"|");
    assert_eq!(fmt.record_delimiter, Some(b'|'));
    let mut state = fmt.create_state();
    assert_eq!(fmt.read_buf(b"1,x|2,y|", &mut state), 8);
    assert_eq!(state.accepted_rows, 2);
    let blocks = fmt.deserialize_data(&mut state).unwrap();
    assert_eq!(blocks[0].columns, vec![ints(&[1, 2]), strings(&["x", "y"])]);
    let err = parse_whole(&fmt, b"1,x\n2,y|").unwrap_err();
    assert_eq!(err.kind, ErrorKind::MalformedRow { row: 0 });
}

#[test]
fn try_create_picks_delimiters() {
    let s = schema(&[("a", DataType::Int64)]);
    let fmt = CsvInputFormat::try_create("Csv", s.clone(), settings(b"", b""), 0, 1, 2).unwrap();
    assert_eq!(fmt.field_delimiter, b',');
    assert_eq!(fmt.record_delimiter, None);
    assert_eq!(fmt.settings.null_bytes, b"\\N".to_vec());
    let fmt = CsvInputFormat::try_create("Csv", s.clone(), settings(b";x", b"\r\n"), 1, 1, 2).unwrap();
    assert_eq!(fmt.field_delimiter, b';');
    assert_eq!(fmt.record_delimiter, None);
    assert_eq!(fmt.skip_rows, 1);
    let fmt = CsvInputFormat::try_create("Csv", s, settings(b"\t", b"#"), 0, 1, 2).unwrap();
    assert_eq!(fmt.field_delimiter, b'\t');
    assert_eq!(fmt.record_delimiter, Some(b'#'));
}

#[test]
fn register_adds_three_variants() {
    let mut factory = FormatFactory::new();
    CsvInputFormat::register(&mut factory);
    assert_eq!(
        factory.inputs,
        vec![
            ("Csv".to_string(), 0, 8192, 10 * 1024 * 1024),
            ("CsvWithNames".to_string(), 1, 8192, 10 * 1024 * 1024),
            ("CsvWithNamesAndTypes".to_string(), 2, 8192, 10 * 1024 * 1024)
        ]
    );
    let fmt = factory
        .create_input(2, schema(&[("a", DataType::Int64)]), settings(b";", b"\n"))
        .unwrap();
    assert_eq!(fmt.skip_rows, 2);
    assert_eq!(fmt.min_accepted_rows, 8192);
    assert_eq!(fmt.min_accepted_bytes, 10 * 1024 * 1024);
    assert_eq!(fmt.field_delimiter, b';');
}

#[test]
fn supports_parallel_and_fresh_state() {
    let fmt = format(&[("a", DataType::Int64)]);
    assert!(fmt.support_parallel());
    let s: CsvInputState = fmt.create_state();
    assert_eq!(s.quotes, 0);
    assert!(s.memory.is_empty());
    assert_eq!(s.accepted_rows, 0);
    assert_eq!(s.accepted_bytes, 0);
    assert!(!s.need_more_data);
    assert_eq!(s.ignore_if_first, None);
}

#[test]
fn verbose_rendering_escapes() {
    let mut out = Vec::new();
    verbose_string(b"a\t\x01\"\\\xff", &mut out);
    assert_eq!(String::from_utf8(out).unwrap(), "\"a\\t\\x01\\\"\\\\\\xff\"");
    let mut out = Vec::new();
    push_decimal(&mut out, 40213);
    assert_eq!(out, b"40213".to_vec());
}

#[test]
fn any_chunking_gives_the_same_rows() {
    let fmt = format(&[("s", DataType::String), ("n", DataType::Int64)]);
    let input: &[u8] = b"\"a,\nb\",1\r\nc,2\n'd',3\r\n";
    let whole = parse_whole(&fmt, input).unwrap();
    for cut in 0..=input.len() {
        for cut2 in cut..=input.len() {
            let mut state = fmt.create_state();
            let mut blocks = Vec::new();
            for piece in [&input[..cut], &input[cut..cut2], &input[cut2..]] {
                let mut at = 0;
                while at < piece.len() {
                    at += fmt.read_buf(&piece[at..], &mut state);
                    if !state.need_more_data {
                        blocks.extend(fmt.deserialize_data(&mut state).unwrap());
                    }
                }
            }
            blocks.extend(fmt.deserialize_data(&mut state).unwrap());
            let mut cols = vec![Vec::new(), Vec::new()];
            for b in &blocks {
                for c in 0..2 {
                    cols[c].extend(b.columns[c].clone());
                }
            }
            assert_eq!(cols, whole[0].columns, "cuts {} {}", cut, cut2);
        }
    }
}

#[test]
fn recluster_plan_has_empty_schema() {
    let plan = ReclusterTablePlan {
        tenant: "t".to_string(),
        catalog: "default".to_string(),
        database: "db".to_string(),
        table: "tb".to_string(),
        is_final: false,
    };
    assert_eq!(plan.schema().num_fields(), 0);
}

#[test]
fn diagnostic_for_consumed_text() {
    let fmt = format(&[("a", DataType::Int64), ("s", DataType::String)]);
    let err = parse_whole(&fmt, b"99999999999999999999,x\n").unwrap_err();
    assert_eq!(err.kind, ErrorKind::FieldParse);
    assert_eq!(
        message(&err),
        "Cannot parse the field\n\
         \tColumn: 0, Name: a, Type: Int64, Parsed text: \"99999999999999999999\"\n\tERROR\n"
    );
    let err = parse_whole(&fmt, b"1,'open\n").unwrap_err();
    assert_eq!(
        message(&err),
        "Cannot parse the field\n\
         \tColumn: 0, Name: a, Type: Int64, Parsed text: \"1\"\n\
         \tColumn: 1, Name: s, Type: String, Parsed text: \"\"\n\tERROR\n"
    );
}

#[test]
fn blocks_count_their_rows() {
    let fmt = format(&[("a", DataType::Int64)]);
    let blocks = parse_whole(&fmt, b"1\n2\n3\n").unwrap();
    assert_eq!(blocks[0].num_rows, 3);
    let empty = format(&[]);
    let blocks = parse_whole(&empty, b"\n\n").unwrap();
    assert_eq!(blocks[0].num_rows, 2);
    assert!(blocks[0].columns.is_empty());
    let blocks = parse_whole(&fmt, b"").unwrap();
    assert_eq!(blocks[0].num_rows, 0);
}

#[test]
fn result_cache_counts_rows_and_bytes() {
    let mut w = ResultCacheWriter::create("cache/q1".to_string(), 100);
    assert!(!w.over_limit());
    w.append_block(DataBlock { num_rows: 3, columns: vec![ints(&[1, 2, 3])] }, 60);
    assert_eq!(w.current_bytes(), 60);
    assert_eq!(w.num_rows(), 3);
    assert!(!w.over_limit());
    w.append_block(DataBlock { num_rows: 2, columns: vec![ints(&[4, 5])] }, 41);
    assert_eq!(w.current_bytes(), 101);
    assert_eq!(w.num_rows(), 5);
    assert!(w.over_limit());
    assert_eq!(w.blocks.len(), 2);
}
