use ypbank_converter::formats::bin_format::{from_read, write_to};
use ypbank_converter::{ReadError, StatusType, Transaction, TransactionType};

#[test]
fn test_write_read() {
    let mut transaction1 = Transaction::new();
    transaction1.tx_id = Some(1000000000000000);
    transaction1.tx_type = Some(TransactionType::DEPOSIT);
    transaction1.from_user_id = Some(0);
    transaction1.to_user_id = Some(9223372036854775807);
    transaction1.amount = Some(100);
    transaction1.timestamp = Some(1633036860000);
    transaction1.status = Some(StatusType::FAILURE);
    transaction1.description = Some("Record number 1".to_string());

    let mut transaction2 = Transaction::new();
    transaction2.tx_id = Some(1000000000000001);
    transaction2.tx_type = Some(TransactionType::TRANSFER);
    transaction2.from_user_id = Some(9223372036854775807);
    transaction2.to_user_id = Some(9223372036854775807);
    transaction2.amount = Some(200);
    transaction2.timestamp = Some(1633036920000);
    transaction2.status = Some(StatusType::PENDING);
    transaction2.description = Some("Record number 2".to_string());

    let vec_transaction = vec![transaction1.clone(), transaction2.clone()];

    let bytes = write_to(vec_transaction);

    let vec_transaction_result = from_read(&bytes).unwrap();

    assert_eq!(vec_transaction_result[0], transaction1);
    assert_eq!(vec_transaction_result[1], transaction2);
}

fn sample() -> Transaction {
    Transaction {
        tx_id: Some(0x0102030405060708),
        tx_type: Some(TransactionType::WITHDRAWAL),
        from_user_id: Some(1),
        to_user_id: Some(2),
        amount: Some(u64::MAX),
        timestamp: Some(3),
        status: Some(StatusType::FAILURE),
        description: Some("ab".to_string()),
    }
}

#[test]
fn bin_record_layout() {
    let bytes = write_to(vec![sample()]);
    let mut expected = vec![0x59, 0x50, 0x42, 0x4E, 0, 0, 0, 48];
    expected.extend_from_slice(&[1, 2, 3, 4, 5, 6, 7, 8]);
    expected.push(2);
    expected.extend_from_slice(&[0, 0, 0, 0, 0, 0, 0, 1]);
    expected.extend_from_slice(&[0, 0, 0, 0, 0, 0, 0, 2]);
    expected.extend_from_slice(&[0xff; 8]);
    expected.extend_from_slice(&[0, 0, 0, 0, 0, 0, 0, 3]);
    expected.push(1);
    expected.extend_from_slice(&[0, 0, 0, 2]);
    expected.extend_from_slice(b"ab");
    assert_eq!(bytes, expected);
}

#[test]
fn bin_absent_fields_read_back_as_defaults() {
    let bytes = write_to(vec![Transaction::new()]);
    assert_eq!(bytes.len(), 54);
    let back = from_read(&bytes).unwrap();
    assert_eq!(
        back,
        vec![Transaction {
            tx_id: Some(0),
            tx_type: Some(TransactionType::DEPOSIT),
            from_user_id: Some(0),
            to_user_id: Some(0),
            amount: Some(0),
            timestamp: Some(0),
            status: Some(StatusType::SUCCESS),
            description: None,
        }]
    );
}

#[test]
fn bin_description_is_cleaned() {
    let mut t = sample();
    t.description = Some("  \"quoted\"  ".to_string());
    let back = from_read(&write_to(vec![t])).unwrap();
    assert_eq!(back[0].description, Some("quoted".to_string()));
}

#[test]
fn bin_errors() {
    let bytes = write_to(vec![sample()]);
    assert_eq!(from_read(&bytes[..3]).unwrap(), vec![]);
    let mut wrong = bytes.clone();
    wrong[0] = b'X';
    assert_eq!(from_read(&wrong), Err(ReadError::InvalidFormat));
    assert_eq!(from_read(&bytes[..20]), Err(ReadError::UnexpectedEof));
    assert_eq!(from_read(&bytes[..55]), Err(ReadError::UnexpectedEof));
    let mut bad_text = bytes.clone();
    bad_text[54] = 0xff;
    assert_eq!(from_read(&bad_text), Err(ReadError::InvalidDescription));
    let mut trailing = bytes.clone();
    trailing.extend_from_slice(&[0x59, 0x50, 0x42]);
    assert_eq!(from_read(&trailing).unwrap().len(), 1);
}

#[test]
fn bin_unknown_type_and_status_bytes() {
    let mut bytes = write_to(vec![sample()]);
    bytes[16] = 9;
    bytes[49] = 7;
    let back = from_read(&bytes).unwrap();
    assert_eq!(back[0].tx_type, None);
    assert_eq!(back[0].status, None);
}
