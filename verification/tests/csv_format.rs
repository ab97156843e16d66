use ypbank_converter::formats::csv_format::{from_read, write_to};
use ypbank_converter::{ReadError, StatusType, Transaction, TransactionType};

#[test]
fn csv_format_test_from_read() {
    let input =
    "TX_ID,TX_TYPE,FROM_USER_ID,TO_USER_ID,AMOUNT,TIMESTAMP,STATUS,DESCRIPTION
    1000000000000000,DEPOSIT,0,9223372036854775807,100,1633036860000,FAILURE,\"Record number 1\"
    1000000000000001,TRANSFER,9223372036854775807,9223372036854775807,200,1633036920000,PENDING,\"Record number 2\"



    1000000000000002,WITHDRAWAL,599094029349995112,0,300,1633036980000,TEST,\"Record number 3\"";

    let vec_transaction = from_read(input.as_bytes()).unwrap();

    assert_eq!(vec_transaction.len(), 3);

    assert_eq!(vec_transaction[0].tx_id, Some(1000000000000000));
    assert_eq!(vec_transaction[0].tx_type, Some(TransactionType::DEPOSIT));
    assert_eq!(vec_transaction[0].from_user_id, Some(0));
    assert_eq!(vec_transaction[0].to_user_id, Some(9223372036854775807));
    assert_eq!(vec_transaction[0].amount, Some(100));
    assert_eq!(vec_transaction[0].timestamp, Some(1633036860000));
    assert_eq!(vec_transaction[0].status, Some(StatusType::FAILURE));
    assert_eq!(vec_transaction[0].description, Some("Record number 1".to_string()));

    assert_eq!(vec_transaction[1].tx_id, Some(1000000000000001));
    assert_eq!(vec_transaction[1].tx_type, Some(TransactionType::TRANSFER));
    assert_eq!(vec_transaction[1].from_user_id, Some(9223372036854775807));
    assert_eq!(vec_transaction[1].to_user_id, Some(9223372036854775807));
    assert_eq!(vec_transaction[1].amount, Some(200));
    assert_eq!(vec_transaction[1].timestamp, Some(1633036920000));
    assert_eq!(vec_transaction[1].status, Some(StatusType::PENDING));
    assert_eq!(vec_transaction[1].description, Some("Record number 2".to_string()));

    assert_eq!(vec_transaction[2].tx_id, Some(1000000000000002));
    assert_eq!(vec_transaction[2].tx_type, Some(TransactionType::WITHDRAWAL));
    assert_eq!(vec_transaction[2].from_user_id, Some(599094029349995112));
    assert_eq!(vec_transaction[2].to_user_id, Some(0));
    assert_eq!(vec_transaction[2].amount, Some(300));
    assert_eq!(vec_transaction[2].timestamp, Some(1633036980000));
    assert_eq!(vec_transaction[2].status, None);
    assert_eq!(vec_transaction[2].description, Some("Record number 3".to_string()));
}

#[test]
fn csv_format_test_write_to() {
    let mut transaction1 = Transaction::new();
    transaction1.tx_id = Some(100);
    transaction1.tx_type = Some(TransactionType::DEPOSIT);
    transaction1.from_user_id = Some(1);
    transaction1.to_user_id = Some(2);
    transaction1.amount = Some(1000);
    transaction1.timestamp = Some(1633036860000);
    transaction1.status = Some(StatusType::SUCCESS);
    transaction1.description = Some("Test transaction 1".to_string());

    let mut transaction2 = Transaction::new();
    transaction2.tx_id = Some(200);
    transaction2.tx_type = Some(TransactionType::WITHDRAWAL);
    transaction2.from_user_id = Some(10);
    transaction2.to_user_id = Some(0);
    transaction2.amount = Some(200);
    transaction2.timestamp = Some(163303698012312);
    transaction2.status = Some(StatusType::FAILURE);
    transaction2.description = Some("Test transaction 2".to_string());

    let buffer = write_to(vec![transaction1, transaction2]);

    let output = String::from_utf8(buffer).unwrap();

    assert!(output.contains("100"));
    assert!(output.contains("DEPOSIT"));
    assert!(output.contains("1"));
    assert!(output.contains("2"));
    assert!(output.contains("1000"));
    assert!(output.contains("1633036860000"));
    assert!(output.contains("SUCCESS"));
    assert!(output.contains("\"Test transaction 1\""));

    assert!(output.contains("200"));
    assert!(output.contains("WITHDRAWAL"));
    assert!(output.contains("10"));
    assert!(output.contains("0"));
    assert!(output.contains("200"));
    assert!(output.contains("163303698012312"));
    assert!(output.contains("FAILURE"));
    assert!(output.contains("\"Test transaction 2\""));
}

#[test]
fn test_from_read_with_bad_record() {
    let input =
    "TX_ID,TX_TYPE,FROM_USER_ID,TO_USER_ID,AMOUNT,TIMESTAMP,STATUS,DESCRIPTION
    1000000000000000,DEPOSIT,0,9223372036854775807,100,1633036860000,FAILURE,\"Record number 1\"
    1000000000000001,TRANSFER,9223372036854775807,200,1633036920000,PENDING,\"Record number 2\"



    1000000000000002,WITHDRAWAL,599094029349995112,0,300,1633036980000,TEST,\"Record number 3\"";

    let vec_transaction = from_read(input.as_bytes()).unwrap();

    assert_eq!(vec_transaction.len(), 2);
}

#[test]
fn test_write_to_bad_record() {
    let mut transaction1 = Transaction::new();
    transaction1.tx_id = Some(100);
    transaction1.tx_type = Some(TransactionType::DEPOSIT);
    transaction1.from_user_id = None;
    transaction1.to_user_id = Some(2);
    transaction1.amount = Some(1000);
    transaction1.timestamp = Some(1633036860000);
    transaction1.status = Some(StatusType::SUCCESS);
    transaction1.description = Some("Test transaction 1".to_string());

    let buffer = write_to(vec![transaction1]);

    let output = String::from_utf8(buffer).unwrap();

    let vec_result = from_read(output.as_bytes()).unwrap();

    assert!(vec_result.is_empty());
}

fn complete(id: u64, description: &str) -> Transaction {
    Transaction {
        tx_id: Some(id),
        tx_type: Some(TransactionType::TRANSFER),
        from_user_id: Some(7),
        to_user_id: Some(8),
        amount: Some(u64::MAX),
        timestamp: Some(0),
        status: Some(StatusType::PENDING),
        description: Some(description.to_string()),
    }
}

#[test]
fn csv_write_exact_text() {
    let out = write_to(vec![complete(5, "a b")]);
    assert_eq!(
        String::from_utf8(out).unwrap(),
        "TX_ID,TX_TYPE,FROM_USER_ID,TO_USER_ID,AMOUNT,TIMESTAMP,STATUS,DESCRIPTION\n\
         5,TRANSFER,7,8,18446744073709551615,0,PENDING,\"a b\"\n"
    );
}

#[test]
fn csv_write_then_read_gives_complete_records() {
    let v = vec![complete(1, "one"), Transaction::new(), complete(2, "")];
    let back = from_read(&write_to(v.clone())).unwrap();
    assert_eq!(back, vec![complete(1, "one"), complete(2, "")]);
}

#[test]
fn csv_empty_and_header_only() {
    assert_eq!(from_read(b"").unwrap(), vec![]);
    assert_eq!(from_read(b"no newline at all").unwrap(), vec![]);
    assert_eq!(from_read(b"\xff\xfe header is not checked\n").unwrap(), vec![]);
}

#[test]
fn csv_invalid_utf8_after_header() {
    assert_eq!(from_read(b"header\n1,DEPOSIT,\xff\n"), Err(ReadError::InvalidFormat));
}

#[test]
fn csv_fields_are_trimmed_and_case_insensitive() {
    let input = "h\r\n +42 , wIthDrawal ,x,18446744073709551616,\t7\t, 1 ,sUcCeSs, \"quoted\" ,extra\r\n";
    let v = from_read(input.as_bytes()).unwrap();
    assert_eq!(v.len(), 1);
    assert_eq!(v[0].tx_id, Some(42));
    assert_eq!(v[0].tx_type, Some(TransactionType::WITHDRAWAL));
    assert_eq!(v[0].from_user_id, None);
    assert_eq!(v[0].to_user_id, None);
    assert_eq!(v[0].amount, Some(7));
    assert_eq!(v[0].timestamp, Some(1));
    assert_eq!(v[0].status, Some(StatusType::SUCCESS));
    assert_eq!(v[0].description, Some("quoted".to_string()));
}

#[test]
fn csv_unicode_white_space_is_trimmed() {
    let input = "h\n\u{a0}5\u{3000},deposit,1,2,3,4,pending,\u{2003}d\u{2003}\n";
    let v = from_read(input.as_bytes()).unwrap();
    assert_eq!(v[0].tx_id, Some(5));
    assert_eq!(v[0].description, Some("d".to_string()));
}
