use record_counter::counting::{count_bytes, CsvError, RecordCounter};

#[test]
fn empty_input_counts_zero() {
    assert_eq!(count_bytes(b""), Ok(0));
}

#[test]
fn single_blank_line_counts_one_empty_record() {
    // The convention adopted here: a blank line is one empty record.
    assert_eq!(count_bytes(b"\n"), Ok(1));
}

#[test]
fn every_record_counts_no_header_skipped() {
    // The first record is ordinary data, so all three rows are counted.
    assert_eq!(count_bytes(b"a,b\n1,2\n3,4\n"), Ok(3));
}

#[test]
fn quoted_comma_stays_inside_its_field() {
    assert_eq!(count_bytes(b"a,\"b,c\"\n1,2\n"), Ok(2));
}

#[test]
fn quoted_newline_stays_inside_its_record() {
    assert_eq!(count_bytes(b"\"a\nb\",c\n"), Ok(1));
}

#[test]
fn doubled_quote_is_a_literal_quote() {
    assert_eq!(count_bytes(b"\"a\"\"b\"\n"), Ok(1));
}

#[test]
fn missing_final_newline_still_counts_the_last_record() {
    assert_eq!(count_bytes(b"a,b"), Ok(1));
}

#[test]
fn trailing_blank_line_is_an_extra_empty_record() {
    assert_eq!(count_bytes(b"1,2\n\n"), Ok(2));
}

#[test]
fn carriage_returns_ride_along_with_line_feeds() {
    // CRLF line endings terminate records through their line feed.
    assert_eq!(count_bytes(b"a,b\r\n1,2\r\n"), Ok(2));
}

#[test]
fn unterminated_quote_is_an_error() {
    assert_eq!(count_bytes(b"a,\"unterminated\n"), Err(CsvError::UnterminatedQuote));
}

#[test]
fn unterminated_quote_after_good_records_is_still_an_error() {
    assert_eq!(
        count_bytes(b"a,b\n1,2\n3,4\n\"oops\n"),
        Err(CsvError::UnterminatedQuote)
    );
}

#[test]
fn counting_twice_gives_the_same_count() {
    let data = b"a,b\n1,2\n3,4\n";
    let first = count_bytes(data);
    let second = count_bytes(data);
    assert_eq!(first, second);
    assert_eq!(first, Ok(3));
}

#[test]
fn chunked_feeding_matches_whole_input() {
    let data = b"a,\"b,c\"\n1,2\n";
    let mut rc = RecordCounter::new();
    rc.push_chunk(&data[..5]);
    rc.push_chunk(&data[5..]);
    assert_eq!(rc.finish(), count_bytes(data));
    assert_eq!(rc.finish(), Ok(2));
}

#[test]
fn byte_by_byte_feeding_matches_whole_input() {
    let data = b"x\n\"y,z\"\n";
    let mut rc = RecordCounter::new();
    for &b in data.iter() {
        rc.push(b);
    }
    assert_eq!(rc.finish(), Ok(2));
    assert_eq!(rc.finish(), count_bytes(data));
}

#[test]
fn fresh_counter_finishes_at_zero() {
    let rc = RecordCounter::new();
    assert_eq!(rc.finish(), Ok(0));
}

#[test]
fn quote_inside_unquoted_field_is_ordinary_content() {
    // A quote that does not open a field is literal content.
    assert_eq!(count_bytes(b"a\"b,c\n"), Ok(1));
}

#[test]
fn parse_error_message_names_the_quote() {
    let e = count_bytes(b"\"open").unwrap_err();
    assert_eq!(e.message(), "unterminated quoted field");
}
