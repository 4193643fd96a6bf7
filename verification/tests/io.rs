use nesse_bank::account::AccountId;
use nesse_bank::io::IntParseError;
use nesse_bank::io::ParseError;
use nesse_bank::io::csv_reader;
use nesse_bank::money::MoneyParseError;
use nesse_bank::tx::TxId;
use nesse_bank::tx::incoming::IncomingTx;
use nesse_bank::tx::incoming::IncomingTxError;

fn collect_ok(input: &[u8]) -> Vec<Option<IncomingTx>> {
    let mut it = csv_reader(input).unwrap();
    let mut records = Vec::new();
    while let Some(r) = it.next() {
        records.push(r.ok());
    }
    records
}

#[test]
fn read_sample_input_with_newline() {
    let input = r#"type, client, tx, amount
            deposit, 1, 1, 1.0
            deposit, 2, 2, 2.0
            deposit, 1, 3, 2.0
            withdrawal, 1, 4, 1.5
            withdrawal, 2, 5, 3.0
            "#
    .as_bytes();

    let records = collect_ok(input);

    assert_eq!(
        records,
        vec![
            Some(IncomingTx::deposit(TxId(1), AccountId(1), "1.0").unwrap()),
            Some(IncomingTx::deposit(TxId(2), AccountId(2), "2.0").unwrap()),
            Some(IncomingTx::deposit(TxId(3), AccountId(1), "2.0").unwrap()),
            Some(IncomingTx::withdrawal(TxId(4), AccountId(1), "1.5").unwrap()),
            Some(IncomingTx::withdrawal(TxId(5), AccountId(2), "3.0").unwrap()),
        ]
    );
}

#[test]
fn read_sample_input_without_newline() {
    let input = r#"type, client, tx, amount
            deposit, 1, 1, 1.0
            deposit, 2, 2, 2.0
            deposit, 1, 3, 2.0
            withdrawal, 1, 4, 1.5
            withdrawal, 2, 5, 3.0"#
        .as_bytes();

    let records = collect_ok(input);

    assert_eq!(
        records,
        vec![
            Some(IncomingTx::deposit(TxId(1), AccountId(1), "1.0").unwrap()),
            Some(IncomingTx::deposit(TxId(2), AccountId(2), "2.0").unwrap()),
            Some(IncomingTx::deposit(TxId(3), AccountId(1), "2.0").unwrap()),
            Some(IncomingTx::withdrawal(TxId(4), AccountId(1), "1.5").unwrap()),
            Some(IncomingTx::withdrawal(TxId(5), AccountId(2), "3.0").unwrap()),
        ]
    );
}

fn first_error(input: &[u8]) -> ParseError {
    let mut it = csv_reader(input).unwrap();
    while let Some(r) = it.next() {
        if let Err(e) = r {
            return e;
        }
    }
    panic!("no parse error in input");
}

#[test]
fn rejects_unknown_transaction_type() {
    let e = first_error(b"type, client, tx, amount\nteleport, 1, 1, 2.0\n");
    assert!(matches!(e, ParseError::UnknownTransactionType(s) if s == "teleport"));
}

#[test]
fn rejects_unparsable_client() {
    let e = first_error(b"type, client, tx, amount\ndeposit, x, 1, 2.0\n");
    assert!(matches!(e, ParseError::IntField(IntParseError::InvalidDigit)));
}

#[test]
fn rejects_client_out_of_range() {
    let e = first_error(b"type, client, tx, amount\ndeposit, 65536, 1, 2.0\n");
    assert!(matches!(e, ParseError::IntField(IntParseError::Overflow)));
}

#[test]
fn rejects_missing_amount() {
    let e = first_error(b"type, client, tx, amount\ndeposit, 1, 1\n");
    assert!(matches!(e, ParseError::MissingField("amount")));
}

#[test]
fn rejects_negative_amount() {
    let e = first_error(b"type, client, tx, amount\nwithdrawal, 1, 1, -2.0\n");
    assert!(matches!(
        e,
        ParseError::IncomingTransaction(IncomingTxError::NegativeAmount)
    ));
}

#[test]
fn rejects_malformed_amount() {
    let e = first_error(b"type, client, tx, amount\ndeposit, 1, 1, 1.2.3\n");
    assert!(matches!(
        e,
        ParseError::IncomingTransaction(IncomingTxError::ParseAmount(
            MoneyParseError::InvalidCharacter
        ))
    ));
}

#[test]
fn blank_record_mid_stream_is_skipped() {
    let records = collect_ok(b"type, client, tx, amount
deposit, 1, 1, 5
   
deposit, 1, 2, 2
");
    assert_eq!(
        records,
        vec![
            Some(IncomingTx::deposit(TxId(1), AccountId(1), "5").unwrap()),
            Some(IncomingTx::deposit(TxId(2), AccountId(1), "2").unwrap()),
        ]
    );
}

#[test]
fn dispute_lifecycle_events_need_no_amount() {
    let records = collect_ok(b"type, client, tx, amount\ndispute, 1, 1\nresolve, 1, 1\nchargeback, 1, 1\n");
    assert_eq!(
        records,
        vec![
            Some(IncomingTx::dispute(TxId(1), AccountId(1))),
            Some(IncomingTx::resolve(TxId(1), AccountId(1))),
            Some(IncomingTx::chargeback(TxId(1), AccountId(1))),
        ]
    );
}
