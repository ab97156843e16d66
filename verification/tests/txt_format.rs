use ypbank_converter::formats::txt_format::{from_read, write_to};
use ypbank_converter::{ReadError, StatusType, Transaction, TransactionType};

#[test]
fn txt_format_test_from_read() {
    let input = "TX_ID: 1
                TX_TYPE: DEPOSIT
                FROM_USER_ID: 0
                TO_USER_ID: 9223372036854775807
                AMOUNT: 100
                TIMESTAMP: 1633036860000
                STATUS: FAILURE
                DESCRIPTION: \"Record number 1\"
                
                TX_ID: 2
                TX_TYPE: WITHDRAWAL
                FROM_USER_ID: 599094029349995112
                TO_USER_ID: 0
                AMOUNT: 300
                TIMESTAMP: 1633036980000
                STATUS: SUCCESS
                DESCRIPTION: \"Record number 3\"








                TX_ID: 10
                TX_TYPE: nonetype
                FROM_USER_ID: dmitry
                TO_USER_ID: alex
                AMOUNT: not
                TIMESTAMP: today
                STATUS: well done
                DESCRIPTION: 1000



                TX_ID: too_bad_transaction
                TX_TYPE: nonetype
                FROM_USER_ID: dmitry
                DESCRIPTION: 1000
    ";

    let vec_transaction = from_read(input.as_bytes()).unwrap();

    assert_eq!(vec_transaction.len(), 3);

    assert_eq!(vec_transaction[0].tx_id, Some(1));
    assert_eq!(vec_transaction[0].tx_type, Some(TransactionType::DEPOSIT));
    assert_eq!(vec_transaction[0].from_user_id, Some(0));
    assert_eq!(vec_transaction[0].to_user_id, Some(9223372036854775807));
    assert_eq!(vec_transaction[0].amount, Some(100));
    assert_eq!(vec_transaction[0].timestamp, Some(1633036860000));
    assert_eq!(vec_transaction[0].status, Some(StatusType::FAILURE));
    assert_eq!(vec_transaction[0].description, Some("Record number 1".to_string()));

    assert_eq!(vec_transaction[1].tx_id, Some(2));
    assert_eq!(vec_transaction[1].tx_type, Some(TransactionType::WITHDRAWAL));
    assert_eq!(vec_transaction[1].from_user_id, Some(599094029349995112));
    assert_eq!(vec_transaction[1].to_user_id, Some(0));
    assert_eq!(vec_transaction[1].amount, Some(300));
    assert_eq!(vec_transaction[1].timestamp, Some(1633036980000));
    assert_eq!(vec_transaction[1].status, Some(StatusType::SUCCESS));
    assert_eq!(vec_transaction[1].description, Some("Record number 3".to_string()));

    assert_eq!(vec_transaction[2].tx_id, Some(10));
    assert_eq!(vec_transaction[2].tx_type, None);
    assert_eq!(vec_transaction[2].from_user_id, None);
    assert_eq!(vec_transaction[2].to_user_id, None);
    assert_eq!(vec_transaction[2].amount, None);
    assert_eq!(vec_transaction[2].timestamp, None);
    assert_eq!(vec_transaction[2].status, None);
    assert_eq!(vec_transaction[2].description, Some(1000.to_string()));
}

#[test]
fn txt_format_test_write_to() {
    let mut transaction1 = Transaction::new();
    transaction1.tx_id = Some(100);
    transaction1.tx_type = Some(TransactionType::DEPOSIT);
    transaction1.from_user_id = Some(1);
    transaction1.to_user_id = Some(2);
    transaction1.amount = Some(1000);
    transaction1.timestamp = Some(1633036860000);
    transaction1.status = Some(StatusType::SUCCESS);
    transaction1.description = Some("Test transaction 1".to_string());

    let mut transaction2 = Transaction::new();
    transaction2.tx_id = Some(200);
    transaction2.tx_type = Some(TransactionType::WITHDRAWAL);
    transaction2.from_user_id = Some(10);
    transaction2.to_user_id = Some(0);
    transaction2.amount = Some(200);
    transaction2.timestamp = Some(163303698012312);
    transaction2.status = Some(StatusType::FAILURE);
    transaction2.description = Some("Test transaction 2".to_string());

    let buffer = write_to(vec![transaction1, transaction2]);

    let output = String::from_utf8(buffer).unwrap();

    assert!(output.contains("TX_ID: 100"));
    assert!(output.contains("TX_TYPE: DEPOSIT"));
    assert!(output.contains("FROM_USER_ID: 1"));
    assert!(output.contains("TO_USER_ID: 2"));
    assert!(output.contains("AMOUNT: 1000"));
    assert!(output.contains("TIMESTAMP: 1633036860000"));
    assert!(output.contains("STATUS: SUCCESS"));
    assert!(output.contains("DESCRIPTION: \"Test transaction 1\""));

    assert!(output.contains("TX_ID: 200"));
    assert!(output.contains("TX_TYPE: WITHDRAWAL"));
    assert!(output.contains("FROM_USER_ID: 10"));
    assert!(output.contains("TO_USER_ID: 0"));
    assert!(output.contains("AMOUNT: 200"));
    assert!(output.contains("TIMESTAMP: 163303698012312"));
    assert!(output.contains("STATUS: FAILURE"));
    assert!(output.contains("DESCRIPTION: \"Test transaction 2\""));
}

#[test]
fn txt_write_exact_text() {
    let mut t = Transaction::new();
    t.tx_id = Some(3);
    t.status = Some(StatusType::PENDING);
    t.description = Some("x: y".to_string());
    let out = String::from_utf8(write_to(vec![t])).unwrap();
    assert_eq!(out, "TX_ID: 3\nSTATUS: PENDING\nDESCRIPTION: \"x: y\"\n\n");
}

#[test]
fn txt_write_then_read_gives_back_records_with_an_id() {
    let mut a = Transaction::new();
    a.tx_id = Some(1);
    a.amount = Some(5);
    a.description = Some("first, with a comma".to_string());
    let mut b = Transaction::new();
    b.tx_id = Some(18446744073709551615);
    b.tx_type = Some(TransactionType::TRANSFER);
    b.status = Some(StatusType::FAILURE);
    let v = vec![a, b];
    assert_eq!(from_read(&write_to(v.clone())).unwrap(), v);
}

#[test]
fn txt_record_without_id_carries_its_fields_over() {
    let input = "AMOUNT: 9\n\nTX_ID: 4\n";
    let v = from_read(input.as_bytes()).unwrap();
    assert_eq!(v.len(), 1);
    assert_eq!(v[0].tx_id, Some(4));
    assert_eq!(v[0].amount, Some(9));
}

#[test]
fn txt_unknown_keys_and_lines_without_colon_are_ignored() {
    let input = "TX_ID: 4\nCOLOR: red\njust words\n tx_id : 6 \n";
    let v = from_read(input.as_bytes()).unwrap();
    assert_eq!(v.len(), 1);
    assert_eq!(v[0].tx_id, Some(6));
}

#[test]
fn txt_invalid_utf8() {
    assert_eq!(from_read(b"TX_ID: 1\n\xc3\x28\n"), Err(ReadError::InvalidFormat));
}

#[test]
fn txt_empty_source() {
    assert_eq!(from_read(b"").unwrap(), vec![]);
}
