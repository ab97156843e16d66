use ypbank_converter::comparer::CompareError;
use ypbank_converter::converter::{read_transactions, records_fit, write_transactions};
use ypbank_converter::formats::txt_format;
use ypbank_converter::transaction::transactions_eq;
use ypbank_converter::{compare, parse_u64, Format, ReadError, StatusType, Transaction, TransactionType};

fn transaction(id: u64, ty: TransactionType, from: u64, to: u64, amount: u64, ts: u64, status: StatusType, description: &str) -> Transaction {
    let mut t = Transaction::new();
    t.tx_id = Some(id);
    t.tx_type = Some(ty);
    t.from_user_id = Some(from);
    t.to_user_id = Some(to);
    t.amount = Some(amount);
    t.timestamp = Some(ts);
    t.status = Some(status);
    t.description = Some(description.to_string());
    t
}

#[test]
fn test_comparer() {
    let transaction1 = transaction(100, TransactionType::DEPOSIT, 1, 2, 1000, 1633036860000, StatusType::SUCCESS, "Test transaction 1");
    let transaction2 = transaction(200, TransactionType::WITHDRAWAL, 10, 20, 2000, 1633036920000, StatusType::FAILURE, "Test transaction 2");
    let transaction3 = transaction(100, TransactionType::DEPOSIT, 1, 2, 1000, 1633036860000, StatusType::SUCCESS, "Test transaction 1");

    let file1 = write_transactions(Format::Csv, vec![transaction1]);
    let file2 = write_transactions(Format::Text, vec![transaction2]);
    let file3 = write_transactions(Format::Bin, vec![transaction3]);

    let result = compare(&file1, "csv", &file2, "text");
    assert!(result.is_ok());
    assert_eq!(result, Ok(false));

    let result = compare(&file2, "text", &file3, "bin");
    assert!(result.is_ok());
    assert_eq!(result, Ok(false));

    let result = compare(&file1, "csv", &file3, "bin");
    assert!(result.is_ok());
    assert_eq!(result, Ok(true));
}

#[test]
fn test_converter() {
    let transaction1 = transaction(100, TransactionType::DEPOSIT, 1, 2, 1000, 1633036860000, StatusType::SUCCESS, "Test transaction 1");
    let text = txt_format::write_to(vec![transaction1]);

    let read = read_transactions(Format::Text, &text).unwrap();
    let csv = write_transactions(Format::Csv, read);
    assert_eq!(compare(&text, "text", &csv, "csv"), Ok(true));

    let read = read_transactions(Format::Csv, &csv).unwrap();
    assert!(records_fit(&read));
    let bin = write_transactions(Format::Bin, read);
    assert_eq!(compare(&csv, "csv", &bin, "bin"), Ok(true));

    let read = read_transactions(Format::Bin, &bin).unwrap();
    let text2 = write_transactions(Format::Text, read);
    assert_eq!(compare(&bin, "bin", &text2, "text"), Ok(true));
    assert_eq!(text, text2);
}

#[test]
fn format_names_and_extensions() {
    assert_eq!(Format::from_name("csv"), Some(Format::Csv));
    assert_eq!(Format::from_name("text"), Some(Format::Text));
    assert_eq!(Format::from_name("bin"), Some(Format::Bin));
    assert_eq!(Format::from_name("txt"), None);
    assert_eq!(Format::from_name("CSV"), None);
    assert_eq!(Format::Csv.extension(), "csv");
    assert_eq!(Format::Text.extension(), "txt");
    assert_eq!(Format::Bin.extension(), "bin");
}

#[test]
fn compare_errors() {
    assert_eq!(compare(b"", "xml", b"", "csv"), Err(CompareError::UnsupportedFirstFormat));
    assert_eq!(compare(b"", "csv", b"", "json"), Err(CompareError::UnsupportedSecondFormat));
    assert_eq!(compare(b"\xff", "text", b"", "csv"), Err(CompareError::FirstUnreadable(ReadError::InvalidFormat)));
    assert_eq!(compare(b"", "csv", b"YPBX", "bin"), Err(CompareError::SecondUnreadable(ReadError::InvalidFormat)));
    assert_eq!(compare(b"", "csv", b"", "bin"), Ok(true));
}

#[test]
fn parse_u64_cases() {
    assert_eq!(parse_u64(" 42 "), Some(42));
    assert_eq!(parse_u64("+7"), Some(7));
    assert_eq!(parse_u64("+"), None);
    assert_eq!(parse_u64("-1"), None);
    assert_eq!(parse_u64(""), None);
    assert_eq!(parse_u64("18446744073709551615"), Some(u64::MAX));
    assert_eq!(parse_u64("18446744073709551616"), None);
    assert_eq!(parse_u64("99999999999999999999x"), None);
    assert_eq!(parse_u64("1 2"), None);
    assert_eq!(parse_u64("\u{2009}12\u{85}"), Some(12));
    assert_eq!(parse_u64("007"), Some(7));
}

#[test]
fn transaction_new_and_complete() {
    let t = Transaction::new();
    assert!(!t.is_complete());
    assert_eq!(t.tx_id, None);
    assert_eq!(t.description, None);
    let c = transaction(1, TransactionType::DEPOSIT, 1, 1, 1, 1, StatusType::SUCCESS, "");
    assert!(c.is_complete());
    let mut d = c.clone();
    d.status = None;
    assert!(!d.is_complete());
}

#[test]
fn transactions_equality() {
    let a = vec![transaction(1, TransactionType::DEPOSIT, 1, 1, 1, 1, StatusType::SUCCESS, "x")];
    let mut b = a.clone();
    assert!(transactions_eq(&a, &b));
    b[0].description = Some("y".to_string());
    assert!(!transactions_eq(&a, &b));
    assert!(!transactions_eq(&a, &vec![]));
}

#[test]
fn convert_incomplete_to_csv_differs() {
    let mut t = Transaction::new();
    t.tx_id = Some(5);
    let text = write_transactions(Format::Text, vec![t]);
    let read = read_transactions(Format::Text, &text).unwrap();
    assert_eq!(read.len(), 1);
    let csv = write_transactions(Format::Csv, read);
    assert_eq!(compare(&text, "text", &csv, "csv"), Ok(false));
}
