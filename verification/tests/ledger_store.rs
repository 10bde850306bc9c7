use finance_ledger::ledger::{adjust_balance, Account, Ledger, LedgerError, Transaction};
use finance_ledger::model::Kind;

fn bank(initial: Option<i64>) -> Ledger {
    let mut ledger = Ledger::new();
    ledger.create_account("Bank", initial).unwrap();
    ledger
}

fn row(id: u64, account: &str, amount: i64) -> Transaction {
    Transaction {
        id,
        account_name: account.to_string(),
        amount,
        date: "2024-03-01".to_string(),
        description: None,
    }
}

fn sum(ledger: &Ledger, kind: Kind, name: &str) -> i64 {
    ledger
        .list_transactions(kind)
        .iter()
        .filter(|t| t.account_name == name)
        .map(|t| t.amount)
        .sum()
}

#[test]
fn new_ledger_is_empty() {
    let ledger = Ledger::new();
    assert!(ledger.list_accounts().is_empty());
    assert!(ledger.list_transactions(Kind::Income).is_empty());
    assert!(ledger.list_transactions(Kind::Expense).is_empty());
    assert!(!ledger.has_account("Bank"));
    assert_eq!(ledger.balance("Bank"), None);
    assert!(ledger.can_create());
}

#[test]
fn create_account_defaults_to_zero() {
    let mut ledger = Ledger::new();
    let account = ledger.create_account("Cash", None).unwrap();
    assert_eq!(account, Account { id: 1, name: "Cash".to_string(), balance: 0 });
    assert_eq!(ledger.balance("Cash"), Some(0));
    assert_eq!(ledger.list_accounts(), vec![account]);
}

#[test]
fn create_account_takes_the_opening_balance() {
    let mut ledger = Ledger::new();
    let first = ledger.create_account("Bank", Some(100)).unwrap();
    let second = ledger.create_account("Debt", Some(-250)).unwrap();
    assert_eq!(first, Account { id: 1, name: "Bank".to_string(), balance: 100 });
    assert_eq!(second, Account { id: 2, name: "Debt".to_string(), balance: -250 });
    assert_eq!(ledger.balance("Bank"), Some(100));
    assert_eq!(ledger.balance("Debt"), Some(-250));
    assert_eq!(ledger.list_accounts(), vec![first, second]);
}

#[test]
fn duplicate_name_is_refused() {
    let mut ledger = bank(Some(100));
    assert_eq!(ledger.create_account("Bank", Some(7)), Err(LedgerError::DuplicateName));
    assert_eq!(ledger.list_accounts().len(), 1);
    assert_eq!(ledger.balance("Bank"), Some(100));
}

#[test]
fn expense_income_then_delete_expense() {
    let mut ledger = bank(Some(100));
    let expense = ledger.post_transaction(Kind::Expense, "Bank", 10, "2024-03-01", None).unwrap();
    assert_eq!(ledger.balance("Bank"), Some(90));
    ledger.post_transaction(Kind::Income, "Bank", 50, "2024-03-02", Some("salary")).unwrap();
    assert_eq!(ledger.balance("Bank"), Some(140));
    assert_eq!(ledger.delete_transaction(Kind::Expense, expense.id), Ok(()));
    assert_eq!(ledger.balance("Bank"), Some(150));
    assert!(ledger.list_transactions(Kind::Expense).is_empty());
    assert_eq!(ledger.list_transactions(Kind::Income).len(), 1);
}

#[test]
fn delete_of_unknown_expense_is_not_found() {
    let mut ledger = bank(None);
    assert_eq!(ledger.delete_transaction(Kind::Expense, 42), Err(LedgerError::NotFound));
    assert_eq!(ledger.balance("Bank"), Some(0));
    assert!(ledger.list_transactions(Kind::Expense).is_empty());
}

#[test]
fn delete_looks_at_the_rows_of_its_kind_only() {
    let mut ledger = bank(None);
    let income = ledger.post_transaction(Kind::Income, "Bank", 5, "2024-03-01", None).unwrap();
    assert!(ledger.has_transaction(Kind::Income, income.id));
    assert!(!ledger.has_transaction(Kind::Expense, income.id));
    assert_eq!(ledger.delete_transaction(Kind::Expense, income.id), Err(LedgerError::NotFound));
    assert_eq!(ledger.balance("Bank"), Some(5));
    assert_eq!(ledger.delete_transaction(Kind::Income, income.id), Ok(()));
    assert_eq!(ledger.balance("Bank"), Some(0));
}

#[test]
fn posted_row_holds_what_was_given() {
    let mut ledger = bank(None);
    let first = ledger.post_transaction(Kind::Income, "Bank", 12, "2024-01-31", Some("gift")).unwrap();
    assert_eq!(
        first,
        Transaction {
            id: 1,
            account_name: "Bank".to_string(),
            amount: 12,
            date: "2024-01-31".to_string(),
            description: Some("gift".to_string()),
        }
    );
    let second = ledger.post_transaction(Kind::Income, "Bank", 0, "2024-02-01", None).unwrap();
    assert_eq!(second.id, 2);
    assert_eq!(second.description, None);
    let expense = ledger.post_transaction(Kind::Expense, "Bank", 3, "2024-02-02", None).unwrap();
    assert_eq!(expense.id, 1);
    assert_eq!(ledger.list_transactions(Kind::Income), vec![first, second]);
    assert_eq!(ledger.list_transactions(Kind::Expense), vec![expense]);
    assert_eq!(ledger.balance("Bank"), Some(9));
}

#[test]
fn unknown_account_is_refused_and_nothing_changes() {
    let mut ledger = bank(Some(100));
    let result = ledger.post_transaction(Kind::Expense, "Savings", 10, "2024-03-01", None);
    assert_eq!(result, Err(LedgerError::UnknownAccount));
    assert!(ledger.list_transactions(Kind::Expense).is_empty());
    assert!(ledger.list_transactions(Kind::Income).is_empty());
    assert_eq!(ledger.balance("Bank"), Some(100));
    let next = ledger.post_transaction(Kind::Expense, "Bank", 1, "2024-03-01", None).unwrap();
    assert_eq!(next.id, 1);
}

#[test]
fn negative_amount_is_refused() {
    let mut ledger = bank(Some(100));
    let result = ledger.post_transaction(Kind::Income, "Bank", -1, "2024-03-01", None);
    assert_eq!(result, Err(LedgerError::InvalidAmount));
    let result = ledger.post_transaction(Kind::Expense, "Nobody", -1, "2024-03-01", None);
    assert_eq!(result, Err(LedgerError::InvalidAmount));
    assert!(ledger.list_transactions(Kind::Income).is_empty());
    assert_eq!(ledger.balance("Bank"), Some(100));
}

#[test]
fn balance_is_incomes_minus_expenses() {
    let mut ledger = Ledger::new();
    ledger.create_account("Bank", None).unwrap();
    ledger.create_account("Cash", None).unwrap();
    let a = ledger.post_transaction(Kind::Income, "Bank", 500, "d1", None).unwrap();
    ledger.post_transaction(Kind::Expense, "Bank", 120, "d2", None).unwrap();
    let c = ledger.post_transaction(Kind::Expense, "Cash", 30, "d3", None).unwrap();
    ledger.post_transaction(Kind::Income, "Cash", 45, "d4", None).unwrap();
    ledger.post_transaction(Kind::Income, "Bank", 1, "d5", None).unwrap();
    for name in ["Bank", "Cash"] {
        let expected = sum(&ledger, Kind::Income, name) - sum(&ledger, Kind::Expense, name);
        assert_eq!(ledger.balance(name), Some(expected));
    }
    assert_eq!(ledger.balance("Bank"), Some(381));
    assert_eq!(ledger.balance("Cash"), Some(15));
    ledger.delete_transaction(Kind::Income, a.id).unwrap();
    ledger.delete_transaction(Kind::Expense, c.id).unwrap();
    for name in ["Bank", "Cash"] {
        let expected = sum(&ledger, Kind::Income, name) - sum(&ledger, Kind::Expense, name);
        assert_eq!(ledger.balance(name), Some(expected));
    }
    assert_eq!(ledger.balance("Bank"), Some(-119));
    assert_eq!(ledger.balance("Cash"), Some(45));
}

#[test]
fn post_then_delete_restores_the_balance() {
    for kind in [Kind::Income, Kind::Expense] {
        let mut ledger = bank(Some(77));
        ledger.post_transaction(Kind::Income, "Bank", 3, "d0", None).unwrap();
        let accounts = ledger.list_accounts();
        let incomes = ledger.list_transactions(Kind::Income);
        let posted = ledger.post_transaction(kind, "Bank", 19, "d1", Some("x")).unwrap();
        assert_ne!(ledger.balance("Bank"), Some(80));
        ledger.delete_transaction(kind, posted.id).unwrap();
        assert_eq!(ledger.balance("Bank"), Some(80));
        assert_eq!(ledger.list_accounts(), accounts);
        assert_eq!(ledger.list_transactions(Kind::Income), incomes);
        assert!(ledger.list_transactions(Kind::Expense).is_empty());
    }
}

#[test]
fn ids_are_not_given_out_again() {
    let mut ledger = bank(None);
    let first = ledger.post_transaction(Kind::Income, "Bank", 1, "d", None).unwrap();
    ledger.delete_transaction(Kind::Income, first.id).unwrap();
    let second = ledger.post_transaction(Kind::Income, "Bank", 1, "d", None).unwrap();
    assert_eq!(first.id, 1);
    assert_eq!(second.id, 2);
}

#[test]
fn delete_account_cascades() {
    let mut ledger = Ledger::new();
    let bank = ledger.create_account("Bank", Some(10)).unwrap();
    ledger.create_account("Cash", None).unwrap();
    ledger.post_transaction(Kind::Income, "Bank", 5, "d1", None).unwrap();
    let kept_income = ledger.post_transaction(Kind::Income, "Cash", 6, "d2", None).unwrap();
    ledger.post_transaction(Kind::Expense, "Bank", 7, "d3", None).unwrap();
    let kept_expense = ledger.post_transaction(Kind::Expense, "Cash", 2, "d4", None).unwrap();
    ledger.post_transaction(Kind::Expense, "Bank", 1, "d5", None).unwrap();
    assert_eq!(ledger.delete_account(bank.id), Ok(()));
    assert!(!ledger.has_account("Bank"));
    assert_eq!(ledger.balance("Bank"), None);
    assert_eq!(ledger.list_transactions(Kind::Income), vec![kept_income]);
    assert_eq!(ledger.list_transactions(Kind::Expense), vec![kept_expense]);
    assert_eq!(ledger.balance("Cash"), Some(4));
    assert_eq!(
        ledger.list_accounts(),
        vec![Account { id: 2, name: "Cash".to_string(), balance: 4 }]
    );
}

#[test]
fn account_of_a_deleted_name_starts_afresh() {
    let mut ledger = bank(Some(10));
    ledger.post_transaction(Kind::Income, "Bank", 5, "d1", None).unwrap();
    ledger.delete_account(1).unwrap();
    let again = ledger.create_account("Bank", None).unwrap();
    assert_eq!(again.id, 2);
    assert_eq!(ledger.balance("Bank"), Some(0));
    assert!(ledger.list_transactions(Kind::Income).is_empty());
}

#[test]
fn delete_of_unknown_account_is_not_found() {
    let mut ledger = bank(Some(10));
    ledger.post_transaction(Kind::Income, "Bank", 5, "d1", None).unwrap();
    assert_eq!(ledger.delete_account(9), Err(LedgerError::NotFound));
    assert_eq!(ledger.list_accounts().len(), 1);
    assert_eq!(ledger.list_transactions(Kind::Income).len(), 1);
    assert_eq!(ledger.balance("Bank"), Some(15));
}

#[test]
fn schema_setup_twice_keeps_every_row() {
    let fresh = Ledger::ensure_schema(None);
    assert!(fresh.list_accounts().is_empty());
    let mut ledger = Ledger::ensure_schema(Some(fresh));
    assert!(ledger.list_accounts().is_empty());
    ledger.create_account("Bank", Some(100)).unwrap();
    ledger.post_transaction(Kind::Expense, "Bank", 10, "d", None).unwrap();
    let accounts = ledger.list_accounts();
    let expenses = ledger.list_transactions(Kind::Expense);
    let once = Ledger::ensure_schema(Some(ledger));
    let twice = Ledger::ensure_schema(Some(once));
    assert_eq!(twice.list_accounts(), accounts);
    assert_eq!(twice.list_transactions(Kind::Expense), expenses);
    assert!(twice.list_transactions(Kind::Income).is_empty());
    assert_eq!(twice.balance("Bank"), Some(90));
}

#[test]
fn can_post_tells_when_the_balance_would_not_fit() {
    let mut ledger = bank(Some(i64::MAX - 5));
    assert!(ledger.can_post(Kind::Income, "Bank", 5));
    assert!(!ledger.can_post(Kind::Income, "Bank", 6));
    assert!(ledger.can_post(Kind::Expense, "Bank", i64::MAX));
    assert!(ledger.can_post(Kind::Income, "Nobody", i64::MAX));
    assert!(ledger.can_post(Kind::Income, "Bank", -1));
    ledger.post_transaction(Kind::Income, "Bank", 5, "d", None).unwrap();
    assert_eq!(ledger.balance("Bank"), Some(i64::MAX));
    ledger.create_account("Low", Some(i64::MIN + 1)).unwrap();
    assert!(ledger.can_post(Kind::Expense, "Low", 1));
    assert!(!ledger.can_post(Kind::Expense, "Low", 2));
}

#[test]
fn can_delete_tells_when_the_reversal_would_not_fit() {
    let mut ledger = bank(Some(i64::MAX - 5));
    let expense = ledger.post_transaction(Kind::Expense, "Bank", 10, "d", None).unwrap();
    ledger.post_transaction(Kind::Income, "Bank", 10, "d", None).unwrap();
    assert_eq!(ledger.balance("Bank"), Some(i64::MAX - 5));
    assert!(!ledger.can_delete_transaction(Kind::Expense, expense.id));
    assert!(ledger.can_delete_transaction(Kind::Income, 1));
    assert!(ledger.can_delete_transaction(Kind::Expense, 99));
}

#[test]
fn restore_takes_rows_as_they_were_persisted() {
    let accounts = vec![
        Account { id: 2, name: "Bank".to_string(), balance: 140 },
        Account { id: 5, name: "Cash".to_string(), balance: -3 },
    ];
    let expenses = vec![row(1, "Bank", 10), row(4, "Cash", 3)];
    let incomes = vec![row(3, "Bank", 50)];
    let mut ledger =
        Ledger::restore(accounts.clone(), expenses.clone(), incomes.clone()).ok().unwrap();
    assert_eq!(ledger.list_accounts(), accounts);
    assert_eq!(ledger.list_transactions(Kind::Expense), expenses);
    assert_eq!(ledger.list_transactions(Kind::Income), incomes);
    assert_eq!(ledger.balance("Bank"), Some(140));
    ledger.delete_transaction(Kind::Expense, 1).unwrap();
    assert_eq!(ledger.balance("Bank"), Some(150));
    assert_eq!(ledger.create_account("Wallet", None).unwrap().id, 6);
    assert_eq!(ledger.post_transaction(Kind::Expense, "Cash", 1, "d", None).unwrap().id, 5);
    assert_eq!(ledger.post_transaction(Kind::Income, "Cash", 1, "d", None).unwrap().id, 4);
}

#[test]
fn restore_of_nothing_is_the_empty_ledger() {
    let mut ledger = Ledger::restore(vec![], vec![], vec![]).ok().unwrap();
    assert!(ledger.list_accounts().is_empty());
    assert_eq!(ledger.create_account("Bank", None).unwrap().id, 1);
}

#[test]
fn restore_refuses_rows_that_make_no_ledger() {
    let one = |id: u64, name: &str| Account { id, name: name.to_string(), balance: 0 };
    let refused = Ledger::restore(vec![one(1, "A"), one(2, "A")], vec![], vec![]);
    assert!(matches!(refused, Err(LedgerError::StorageUnavailable)));
    assert!(Ledger::restore(vec![one(1, "A"), one(2, "A")], vec![], vec![]).is_err());
    assert!(Ledger::restore(vec![one(2, "A"), one(1, "B")], vec![], vec![]).is_err());
    assert!(Ledger::restore(vec![one(1, "A"), one(1, "B")], vec![], vec![]).is_err());
    assert!(Ledger::restore(vec![one(0, "A")], vec![], vec![]).is_err());
    assert!(Ledger::restore(vec![one(1, "")], vec![], vec![]).is_err());
    assert!(Ledger::restore(vec![one(u64::MAX, "A")], vec![], vec![]).is_err());
    assert!(Ledger::restore(vec![one(1, "A")], vec![row(1, "B", 1)], vec![]).is_err());
    assert!(Ledger::restore(vec![one(1, "A")], vec![], vec![row(1, "A", -1)]).is_err());
    assert!(Ledger::restore(vec![one(1, "A")], vec![], vec![row(2, "A", 1), row(2, "A", 1)])
        .is_err());
    assert!(Ledger::restore(vec![one(1, "A")], vec![row(0, "A", 1)], vec![]).is_err());
    assert!(Ledger::restore(vec![one(1, "A")], vec![row(1, "A", 1)], vec![row(1, "A", 1)])
        .is_ok());
}

#[test]
fn adjustment_moves_the_named_balance_only() {
    let mut accounts = vec![
        Account { id: 1, name: "Bank".to_string(), balance: 100 },
        Account { id: 2, name: "Cash".to_string(), balance: 7 },
    ];
    assert_eq!(adjust_balance(&mut accounts, "Bank", -10), Ok(()));
    assert_eq!(adjust_balance(&mut accounts, "Cash", 3), Ok(()));
    assert_eq!(
        accounts,
        vec![
            Account { id: 1, name: "Bank".to_string(), balance: 90 },
            Account { id: 2, name: "Cash".to_string(), balance: 10 },
        ]
    );
}

#[test]
fn adjustment_of_a_missing_account_is_a_violation() {
    let mut accounts = vec![Account { id: 1, name: "Bank".to_string(), balance: 100 }];
    assert_eq!(
        adjust_balance(&mut accounts, "Savings", 5),
        Err(LedgerError::ConsistencyViolation)
    );
    assert_eq!(accounts, vec![Account { id: 1, name: "Bank".to_string(), balance: 100 }]);
}
