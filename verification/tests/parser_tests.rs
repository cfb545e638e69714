use bank_parser::bank::operations::{BalanceOp, Operation, Status};
use bank_parser::parser::errors::{IoErrorKind, ParseFileError};
use bank_parser::parser::from::csv::{parse_from_csv, CsvRecord};
use bank_parser::parser::from::txt::parse_from_txt;
use bank_parser::parser::from::bin::{body_panics, parse_body, parse_from_bin};
use bank_parser::parser::from::{FileContents, FromFile, ParseFromFileError};
use bank_parser::parser::to::bin::parse_to_bin;
use bank_parser::parser::to::csv::parse_to_csv;
use bank_parser::parser::to::txt::parse_to_txt;
use bank_parser::parser::to::ToFile;
use bank_parser::parser::{FileType, OperationName};

fn sample() -> Vec<OperationName> {
    vec![OperationName(
        Operation::load(
            1000000000000000,
            1633036860000,
            BalanceOp::Deposit(100),
            Status::FAILURE,
            Some("\"Record number 1".to_string()),
        ),
        "9223372036854775807".to_string(),
    )]
}

fn sample_quoted() -> Vec<OperationName> {
    vec![OperationName(
        Operation::load(
            1000000000000000,
            1633036860000,
            BalanceOp::Deposit(100),
            Status::FAILURE,
            Some("\"Record number 1\"".to_string()),
        ),
        "9223372036854775807".to_string(),
    )]
}

#[test]
fn bin_test_parse_to_bin_success() {
    let answer: Vec<u8> = vec![
        89, 80, 66, 78, 0, 0, 0, 63, 0, 3, 141, 126, 164, 198, 128, 0, 0, 0, 0, 0, 0, 0, 0, 0, 0,
        127, 255, 255, 255, 255, 255, 255, 255, 0, 0, 0, 0, 0, 0, 0, 100, 0, 0, 1, 124, 56, 148,
        250, 96, 1, 0, 0, 0, 17, 34, 82, 101, 99, 111, 114, 100, 32, 110, 117, 109, 98, 101, 114,
        32, 49,
    ];
    let operations = sample();
    let (bytes, res) = parse_to_bin(&operations);
    assert!(res.is_ok());
    assert_eq!(bytes, answer);
}

#[test]
fn csv_test_parse_to_bin_success() {
    let answer = "TX_ID,TX_TYPE,FROM_USER_ID,TO_USER_ID,AMOUNT,TIMESTAMP,STATUS,DESCRIPTION
1000000000000000,DEPOSIT,0,9223372036854775807,100,1633036860000,FAILURE,\"Record number 1\"
";
    let operations = sample_quoted();
    let csv = parse_to_csv(&operations);
    assert_eq!(csv, answer);
}

#[test]
fn txt_test_parse_to_bin_success() {
    let answer = "# Record 1 (DEPOSIT)
TX_ID: 1000000000000000
TX_TYPE: DEPOSIT
FROM_USER_ID: 0
TO_USER_ID: 9223372036854775807
AMOUNT: 100
TIMESTAMP: 1633036860000
STATUS: FAILURE
DESCRIPTION: \"Record number 1\"

";
    let operations = sample_quoted();
    let txt = parse_to_txt(&operations);
    assert_eq!(txt, answer);
}

fn op(id: u64, tx: BalanceOp, status: Status, desc: &str, name: &str) -> OperationName {
    OperationName(
        Operation::load(id, 1700000000 + id, tx, status, Some(desc.to_string())),
        name.to_string(),
    )
}

#[test]
fn txt_round_trip_deposits_and_withdrawals() {
    let ops = vec![
        op(1, BalanceOp::Deposit(10), Status::SUCCESS, "first: paid", "42"),
        op(2, BalanceOp::Withdraw(7), Status::PENDING, "", "0"),
        op(3, BalanceOp::Withdraw(18446744073709551615), Status::FAILURE, "x y", "alice"),
    ];
    let text = parse_to_txt(&ops);
    let back = parse_from_txt(text.as_bytes()).unwrap();
    assert_eq!(back, ops);
}

#[test]
fn txt_round_trip_skips_outgoing_and_closings() {
    let ops = vec![
        op(1, BalanceOp::Close, Status::SUCCESS, "closed", "5"),
        op(2, BalanceOp::Transfer("7".to_string(), 3, false), Status::SUCCESS, "out", "5"),
        op(3, BalanceOp::Transfer("7".to_string(), 4, true), Status::SUCCESS, "in", "5"),
    ];
    let text = parse_to_txt(&ops);
    assert!(text.starts_with("# Record 3 (TRANSFER)\n"));
    let back = parse_from_txt(text.as_bytes()).unwrap();
    // An incoming transfer is read back as belonging to its sender.
    assert_eq!(back, vec![op(3, BalanceOp::Transfer("7".to_string(), 4, true), Status::SUCCESS, "in", "7")]);
}

#[test]
fn txt_reading_rejects_bad_blocks() {
    assert_eq!(
        parse_from_txt(&[0xff, 0xfe]),
        Err(ParseFileError::IoError(IoErrorKind::InvalidData))
    );
    // A single malformed last block is left out.
    assert_eq!(parse_from_txt(b"garbage"), Ok(vec![]));
    let text = "# Record 1 (DEPOSIT)
TX_ID: 1
TX_TYPE: DEPOSIT
FROM_USER_ID: 0
TO_USER_ID: 5
AMOUNT: ten
TIMESTAMP: 3
STATUS: SUCCESS
DESCRIPTION: d

# Record 2 (DEPOSIT)
";
    assert_eq!(
        parse_from_txt(text.as_bytes()),
        Err(ParseFileError::ParseError("Неверный формат amount"))
    );
    let bad_status = "# Record 1 (DEPOSIT)
TX_ID: 1
TX_TYPE: DEPOSIT
FROM_USER_ID: 0
TO_USER_ID: 5
AMOUNT: 2
TIMESTAMP: 3
STATUS: DONE
DESCRIPTION: d

x";
    assert_eq!(
        parse_from_txt(bad_status.as_bytes()),
        Err(ParseFileError::ParseError("Неверный формат status"))
    );
}

#[test]
fn bin_writer_output_is_refused_by_the_reader() {
    // The writer counts one byte more than it writes, so the reader runs out
    // of input inside the record.
    let (bytes, res) = parse_to_bin(&sample());
    assert!(res.is_ok());
    assert_eq!(
        parse_from_bin(&bytes),
        Err(ParseFileError::IoError(IoErrorKind::UnexpectedEof))
    );
}

#[test]
fn bin_reads_a_well_formed_record() {
    let desc = b"\"hello\"";
    let mut body: Vec<u8> = Vec::new();
    body.extend_from_slice(&5u64.to_be_bytes());
    body.push(2);
    body.extend_from_slice(&77u64.to_be_bytes());
    body.extend_from_slice(&0u64.to_be_bytes());
    body.extend_from_slice(&(-30i64).to_be_bytes());
    body.extend_from_slice(&99u64.to_be_bytes());
    body.push(0);
    body.extend_from_slice(&(desc.len() as u32).to_be_bytes());
    body.extend_from_slice(desc);
    let mut data = b"YPBN".to_vec();
    data.extend_from_slice(&(body.len() as u32).to_be_bytes());
    data.extend_from_slice(&body);
    let ops = parse_from_bin(&data).unwrap();
    assert_eq!(
        ops,
        vec![OperationName(
            Operation::load(5, 99, BalanceOp::Withdraw(30), Status::SUCCESS, Some("hello".to_string())),
            "77".to_string()
        )]
    );
    assert_eq!(
        parse_from_bin(b"XXXX0000"),
        Err(ParseFileError::SerializeError("магический символ"))
    );
}

fn body_of(t: u8, status: u8, desc: &[u8]) -> Vec<u8> {
    let mut body: Vec<u8> = Vec::new();
    body.extend_from_slice(&9u64.to_be_bytes());
    body.push(t);
    body.extend_from_slice(&3u64.to_be_bytes());
    body.extend_from_slice(&4u64.to_be_bytes());
    body.extend_from_slice(&12i64.to_be_bytes());
    body.extend_from_slice(&55u64.to_be_bytes());
    body.push(status);
    body.extend_from_slice(&(desc.len() as u32).to_be_bytes());
    body.extend_from_slice(desc);
    body
}

#[test]
fn body_reading_ignores_bytes_after_the_description() {
    let mut body = body_of(1, 2, b"x");
    body.extend_from_slice(b"trailing");
    assert!(!body_panics(&body));
    assert_eq!(
        parse_body(&body),
        Ok(OperationName(
            Operation::load(9, 55, BalanceOp::Transfer("3".to_string(), 12, true), Status::PENDING, Some("x".to_string())),
            "4".to_string()
        ))
    );
}

#[test]
fn bin_reads_records_one_after_another() {
    let first = body_of(0, 0, b"one");
    let second = body_of(2, 1, b"\"two\"");
    let mut data = Vec::new();
    for body in [&first, &second] {
        data.extend_from_slice(b"YPBN");
        data.extend_from_slice(&(body.len() as u32).to_be_bytes());
        data.extend_from_slice(body);
    }
    data.extend_from_slice(&[1, 2, 3]);
    let ops = parse_from_bin(&data).unwrap();
    assert_eq!(
        ops,
        vec![
            OperationName(
                Operation::load(9, 55, BalanceOp::Deposit(12), Status::SUCCESS, Some("one".to_string())),
                "4".to_string()
            ),
            OperationName(
                Operation::load(9, 55, BalanceOp::Withdraw(12), Status::FAILURE, Some("two".to_string())),
                "3".to_string()
            ),
        ]
    );
    assert_eq!(
        FromFile::operations(&FileContents::Bytes(data.clone()), FileType::BIN),
        parse_from_bin(&data)
    );
    assert_eq!(parse_from_bin(&[]), Ok(vec![]));
}

#[test]
fn body_reading_refuses_unknown_codes_early() {
    let mut short = vec![0u8; 9];
    short[8] = 3;
    assert!(!body_panics(&short));
    assert_eq!(parse_body(&short), Err(ParseFileError::SerializeError("Неверный тип операции")));
    let mut status = vec![0u8; 42];
    status[41] = 7;
    assert!(!body_panics(&status));
    assert_eq!(parse_body(&status), Err(ParseFileError::SerializeError("Неверный статус операции")));
    assert!(body_panics(&[0u8; 8]));
    assert!(body_panics(&[0u8; 41]));
    assert!(body_panics(&[0u8; 45]));
    let mut cut = body_of(0, 0, b"abc");
    cut.pop();
    assert!(body_panics(&cut));
    assert!(body_panics(&body_of(0, 0, &[0xff])));
}

#[test]
fn bin_writer_needs_numeric_users() {
    let ops = vec![op(1, BalanceOp::Deposit(1), Status::SUCCESS, "d", "bob")];
    let (bytes, res) = parse_to_bin(&ops);
    assert_eq!(res, Err(ParseFileError::ParseError("Пользователь должен иметь ID")));
    assert_eq!(bytes, b"YPBN".to_vec());
}

#[test]
fn bin_writer_skips_outgoing_transfers_and_closings() {
    let skipped = vec![
        op(1, BalanceOp::Transfer("7".to_string(), 5, false), Status::SUCCESS, "out", "8"),
        op(2, BalanceOp::Close, Status::SUCCESS, "close", "8"),
    ];
    let (bytes, res) = parse_to_bin(&skipped);
    assert_eq!(res, Ok(()));
    assert!(bytes.is_empty());
    let mut mixed = skipped.clone();
    mixed.extend(sample());
    let (with_skips, res) = parse_to_bin(&mixed);
    assert_eq!(res, Ok(()));
    assert_eq!(with_skips, parse_to_bin(&sample()).0);
}

fn record(tx_type: &str, from: u64, to: u64, status: &str) -> CsvRecord {
    CsvRecord {
        tx_id: 9,
        tx_type: tx_type.to_string(),
        from_user_id: from,
        to_user_id: to,
        amount: 12,
        timestamp: 34,
        status: status.to_string(),
        description: "d".to_string(),
    }
}

#[test]
fn csv_records_are_read() {
    let rs = vec![
        Some(record("DEPOSIT", 0, 8, "SUCCESS")),
        Some(record("TRANSFER", 3, 8, "PENDING")),
    ];
    let ops = parse_from_csv(&rs).unwrap();
    assert_eq!(ops[0], OperationName(
        Operation::load(9, 34, BalanceOp::Deposit(12), Status::SUCCESS, Some("d".to_string())),
        "8".to_string()
    ));
    assert_eq!(ops[1], OperationName(
        Operation::load(9, 34, BalanceOp::Transfer("3".to_string(), 12, true), Status::PENDING, Some("d".to_string())),
        "3".to_string()
    ));
    assert_eq!(
        parse_from_csv(&[Some(record("LOAN", 0, 8, "SUCCESS"))]),
        Err(ParseFromFileError::ParseError("Неверный тип операции"))
    );
    assert_eq!(
        parse_from_csv(&[Some(record("DEPOSIT", 0, 8, "OK"))]),
        Err(ParseFromFileError::ParseError("Неверный статус операции"))
    );
    assert_eq!(
        parse_from_csv(&[None]),
        Err(ParseFromFileError::ParseError("Неверный формат строки"))
    );
}

#[test]
fn file_dispatch_by_type() {
    let ops = vec![op(1, BalanceOp::Deposit(3), Status::SUCCESS, "d", "4")];
    let (txt, res) = ToFile::operations(&ops, FileType::TXT);
    assert!(res.is_ok());
    assert_eq!(txt, parse_to_txt(&ops).into_bytes());
    let back = FromFile::operations(&FileContents::Bytes(txt), FileType::TXT).unwrap();
    assert_eq!(back, ops);
    let (csv, res) = ToFile::operations(&ops, FileType::CSV);
    assert!(res.is_ok());
    assert_eq!(csv, parse_to_csv(&ops).into_bytes());
    let read = FromFile::operations(&FileContents::Records(vec![None]), FileType::CSV);
    assert_eq!(read, Err(ParseFileError::ParseError("Неверный формат строки")));
}
