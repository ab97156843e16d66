use ypbank_converter::comparer::compare_with_warnings;
use ypbank_converter::converter::{convert, convert_fits, read_warnings, write_transactions, ConvertError};
use ypbank_converter::formats::{bin_format, csv_format, txt_format};
use ypbank_converter::{Format, ReadError, StatusType, Transaction, TransactionType, Warning};

fn complete(id: u64, description: &str) -> Transaction {
    let mut t = Transaction::new();
    t.tx_id = Some(id);
    t.tx_type = Some(TransactionType::TRANSFER);
    t.from_user_id = Some(1);
    t.to_user_id = Some(2);
    t.amount = Some(300);
    t.timestamp = Some(1633036860000);
    t.status = Some(StatusType::PENDING);
    t.description = Some(description.to_string());
    t
}

fn s(x: &str) -> String {
    x.to_string()
}

#[test]
fn csv_warnings_in_order() {
    let input = b"HEADER\n1,deposit,1,2,3,4,success,d\n\n5,foo,1,2,3,4,bad,x\n1,2,3\n";
    assert_eq!(
        csv_format::read_warnings(input),
        vec![
            Warning::UnknownType { value: s("foo"), record: 2 },
            Warning::UnknownStatus { value: s("bad"), record: 2 },
            Warning::ShortRecord { fields: 3, record: 3 },
        ]
    );
}

#[test]
fn csv_warnings_stop_at_a_line_that_is_not_utf8() {
    let input = b"HEADER\n1,2\n\xff\n1,2\n";
    assert_eq!(csv_format::read_warnings(input), vec![Warning::ShortRecord { fields: 2, record: 1 }]);
    assert_eq!(csv_format::from_read(input), Err(ReadError::InvalidFormat));
    assert_eq!(csv_format::read_warnings(b"only a header"), vec![]);
}

#[test]
fn txt_warnings_in_order() {
    let input = b"TX_ID: 1\nTX_TYPE: foo\nCOLOR: red\nno colon here\n\nTX_ID: 2\nSTATUS: meh\nAMOUNT: 5\n";
    assert_eq!(
        txt_format::read_warnings(input),
        vec![
            Warning::UnknownType { value: s(" foo"), record: 1 },
            Warning::UnknownKey { record: 1 },
            Warning::UnknownStatus { value: s(" meh"), record: 2 },
        ]
    );
}

#[test]
fn txt_record_number_moves_only_after_a_transaction_with_an_id() {
    let input = b"AMOUNT: 1\n\nTX_TYPE: x\n";
    assert_eq!(txt_format::read_warnings(input), vec![Warning::UnknownType { value: s(" x"), record: 1 }]);
}

#[test]
fn bin_warnings_in_order() {
    let mut bytes = write_transactions(Format::Bin, vec![complete(1, "a"), complete(2, "b")]);
    let second = bytes.len() / 2;
    bytes[16] = 7;
    bytes[second + 49] = 9;
    assert_eq!(
        bin_format::read_warnings(&bytes),
        vec![
            Warning::UnknownTypeByte { byte: 7, record: 1 },
            Warning::UnknownStatusByte { byte: 9, record: 2 },
        ]
    );
    let read = bin_format::from_read(&bytes).unwrap();
    assert_eq!(read[0].tx_type, None);
    assert_eq!(read[1].status, None);
}

#[test]
fn bin_warnings_of_a_record_cut_short() {
    let mut bytes = write_transactions(Format::Bin, vec![complete(1, "a")]);
    bytes[16] = 200;
    bytes.truncate(30);
    assert_eq!(bin_format::read_warnings(&bytes), vec![Warning::UnknownTypeByte { byte: 200, record: 1 }]);
    assert_eq!(bin_format::from_read(&bytes), Err(ReadError::UnexpectedEof));
}

#[test]
fn read_warnings_by_format() {
    assert_eq!(read_warnings(Format::Text, b"X: 1\n"), vec![Warning::UnknownKey { record: 1 }]);
    assert_eq!(read_warnings(Format::Csv, b"h\n1\n"), vec![Warning::ShortRecord { fields: 1, record: 1 }]);
    assert_eq!(read_warnings(Format::Bin, b""), vec![]);
}

#[test]
fn convert_between_formats() {
    let csv = write_transactions(Format::Csv, vec![complete(7, "it's fine")]);
    assert!(convert_fits(&csv, "csv", "bin"));
    let c = convert(&csv, "csv", "text");
    let text = write_transactions(Format::Text, vec![complete(7, "it's fine")]);
    assert_eq!(c.result, Ok((Format::Text, text)));
    assert_eq!(c.warnings, vec![]);
    assert_eq!(c.skipped, 0);
}

#[test]
fn convert_errors_in_order() {
    assert_eq!(convert(b"\xff", "xml", "nope").result, Err(ConvertError::UnsupportedInputFormat));
    assert_eq!(convert(b"\xff", "text", "nope").result, Err(ConvertError::Unreadable(ReadError::InvalidFormat)));
    assert_eq!(convert(b"", "csv", "nope").result, Err(ConvertError::UnsupportedOutputFormat));
}

#[test]
fn convert_counts_transactions_left_out_of_csv() {
    let mut t = Transaction::new();
    t.tx_id = Some(5);
    let text = write_transactions(Format::Text, vec![t, complete(6, "x")]);
    let c = convert(&text, "text", "csv");
    assert_eq!(c.skipped, 1);
    assert_eq!(c.result, Ok((Format::Csv, write_transactions(Format::Csv, vec![complete(6, "x")]))));
    let c = convert(&text, "text", "bin");
    assert_eq!(c.skipped, 0);
}

#[test]
fn convert_reports_warnings() {
    let c = convert(b"h\n1,2\n", "csv", "text");
    assert_eq!(c.warnings, vec![Warning::ShortRecord { fields: 2, record: 1 }]);
    assert_eq!(c.result, Ok((Format::Text, vec![])));
}

#[test]
fn compare_reports_warnings_of_both_sources() {
    let c = compare_with_warnings(b"h\n1\n", "csv", b"X: 1\n", "text");
    assert_eq!(c.result, Ok(true));
    assert_eq!(c.warnings, vec![Warning::ShortRecord { fields: 1, record: 1 }, Warning::UnknownKey { record: 1 }]);
    let c = compare_with_warnings(b"\xff", "text", b"X: 1\n", "text");
    assert_eq!(c.warnings, vec![]);
    assert!(c.result.is_err());
}

#[test]
fn single_quotes_are_written_as_they_are() {
    let t = complete(1, "it's");
    let csv = write_transactions(Format::Csv, vec![t.clone()]);
    let line = String::from_utf8(csv.clone()).unwrap();
    assert!(line.contains("\"it's\""));
    assert_eq!(format!("{:?}", "it's"), "\"it's\"");
    let back = csv_format::from_read(&csv).unwrap();
    assert_eq!(back, vec![t.clone()]);
    let text = write_transactions(Format::Text, vec![t.clone()]);
    assert_eq!(txt_format::from_read(&text).unwrap(), vec![t]);
}
