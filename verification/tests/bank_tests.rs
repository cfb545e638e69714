use bank_parser::bank::operations::{BalanceOp, Operation, OperationError, Status};
use bank_parser::bank::transfer::Transfer;
use bank_parser::bank::Balance;
use bank_parser::bank_system::{Balance as SimpleBalance, Command, Deposit};

#[test]
fn amounts_and_forms() {
    assert_eq!(BalanceOp::Deposit(5).get_amount(), 5);
    assert_eq!(BalanceOp::Withdraw(6).get_amount(), 6);
    assert_eq!(BalanceOp::Transfer("a".to_string(), 7, true).get_amount(), 7);
    assert_eq!(BalanceOp::Transfer("a".to_string(), 7, false).get_amount(), -7);
    assert_eq!(BalanceOp::Close.get_amount(), 0);
    assert_eq!(BalanceOp::Deposit(5).to_display_string(), "Deposit(5)");
    assert_eq!(
        BalanceOp::Transfer("bob".to_string(), 3, false).to_display_string(),
        "Transfer(bob, 3, false)"
    );
    assert_eq!(BalanceOp::Withdraw(12).to_debug_string(), "W12");
    assert_eq!(BalanceOp::Transfer("bob".to_string(), 3, true).to_debug_string(), "T(bob,3,true)");
    assert_eq!(BalanceOp::Transfer("bob".to_string(), 3, true).into_string(), "T(bob:3:true)");
    assert_eq!(BalanceOp::Close.into_string(), "C");
}

#[test]
fn text_round_trip_of_operations() {
    for op in [BalanceOp::Deposit(0), BalanceOp::Withdraw(18446744073709551615), BalanceOp::Close] {
        let text = op.clone().into_string();
        assert_eq!(BalanceOp::try_from(text).unwrap(), op);
    }
    // The flag of a transfer is never accepted.
    assert!(matches!(
        BalanceOp::try_from("T(bob:3:true)".to_string()),
        Err(OperationError::ParseError(t)) if t == "T(bob:3:true)"
    ));
}

#[test]
fn operation_text_errors() {
    assert!(matches!(BalanceOp::try_from("X5".to_string()), Err(OperationError::InvalidOperation(t)) if t == "X5"));
    assert!(matches!(BalanceOp::try_from("D".to_string()), Err(OperationError::ParseError(t)) if t == "D"));
    assert!(matches!(BalanceOp::try_from("".to_string()), Err(OperationError::ParseError(t)) if t.is_empty()));
    assert!(matches!(BalanceOp::try_from("T(bob:x:1)".to_string()), Err(OperationError::ParseError(t)) if t == "x"));
    assert!(matches!(BalanceOp::try_from("T(bob)".to_string()), Err(OperationError::ParseError(t)) if t == "T(bob)"));
    assert!(matches!(BalanceOp::try_from("D+7".to_string()), Ok(BalanceOp::Deposit(7))));
}

#[test]
fn operations_are_built_pending() {
    let d = Operation::deposit(3, 40).unwrap();
    assert_eq!(d.id(), 3);
    assert_eq!(d.tx_type, BalanceOp::Deposit(40));
    assert_eq!(d.status, Status::PENDING);
    assert_eq!(d.description, "Record number #3");
    assert!(d.timestamp() > 1_600_000_000);
    let t = Operation::transfer(4, "x".to_string(), 1, true).unwrap();
    assert_eq!(t.tx_type, BalanceOp::Transfer("x".to_string(), 1, true));
    assert_eq!(Operation::withdraw(5, 2).unwrap().tx_type, BalanceOp::Withdraw(2));
    assert_eq!(Operation::close(6).unwrap().tx_type, BalanceOp::Close);
    let mut l = Operation::load(9, 10, BalanceOp::Close, Status::SUCCESS, None);
    assert_eq!(l.description, "Record number #9");
    l.set_status(Status::FAILURE);
    assert_eq!(l, Operation::load(9, 10, BalanceOp::Close, Status::FAILURE, None));
    let n = Operation::new(1, BalanceOp::Deposit(1), Some("own".to_string())).unwrap();
    assert_eq!(n.description, "own");
}

#[test]
fn balances() {
    let b = Balance::new(-5, vec![Operation::load(1, 2, BalanceOp::Deposit(3), Status::SUCCESS, None)]);
    assert_eq!(b.get_value(), -5);
    assert_eq!(b.get_history().len(), 1);
    assert_eq!(b.to_display_string(), "-5,[D3]");
    assert_eq!(Balance::default().to_display_string(), "0,[]");
    assert_eq!(Balance::from_i64(7).get_value(), 7);
    assert_eq!(Balance::from_i32(-2).get_value(), -2);
    assert_eq!(Balance::from_i128(9).get_value(), 9);
}

#[test]
fn transfers_are_outgoing_operations() {
    let t = Transfer::new("a".to_string(), "b".to_string(), 9);
    assert_eq!(BalanceOp::from(t), BalanceOp::Transfer("a".to_string(), 9, false));
}

#[test]
fn simple_bank_values() {
    assert_eq!(SimpleBalance(4).get(), 4);
    assert_eq!(SimpleBalance::from(-3).get(), -3);
    assert_eq!(i64::from(SimpleBalance(5)), 5);
    assert_eq!(SimpleBalance(-12).to_display_string(), "-12");
    assert_eq!(SimpleBalance(i64::MIN).to_display_string(), "-9223372036854775808");
    let d = Deposit::new("acc".to_string(), 5);
    assert_eq!(d.account, "acc");
    assert_eq!(d.amount, 5);
    assert!(matches!(Command::deposit("a".to_string(), SimpleBalance(2)), Command::Deposit(..)));
}
