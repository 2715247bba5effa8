use rent_wallet::{AccountId, BalanceEntry, LedgerError, Notification, RentWallet};

fn id(name: &str) -> AccountId {
    AccountId::new(name.as_bytes().to_vec())
}

fn initialized(admin: &AccountId) -> RentWallet {
    let mut wallet = RentWallet::new();
    wallet.init(admin.clone()).unwrap();
    wallet
}

#[test]
fn walkthrough_credit_debit_pause_unpause() {
    let a = id("GA");
    let u = id("GU");
    let mut wallet = initialized(&a);
    wallet.credit(&a, u.clone(), 100).unwrap();
    assert_eq!(wallet.balance(&u), 100);
    wallet.debit(&a, u.clone(), 30).unwrap();
    assert_eq!(wallet.balance(&u), 70);
    assert_eq!(wallet.debit(&a, u.clone(), 100).err(), Some(LedgerError::InsufficientBalance));
    assert_eq!(wallet.balance(&u), 70);
    wallet.pause(&a).unwrap();
    assert_eq!(wallet.credit(&a, u.clone(), 1).err(), Some(LedgerError::ContractPaused));
    assert_eq!(wallet.balance(&u), 70);
    wallet.unpause(&a).unwrap();
    wallet.credit(&a, u.clone(), 1).unwrap();
    assert_eq!(wallet.balance(&u), 71);
}

#[test]
fn account_never_credited_reads_zero() {
    let a = id("GA");
    let u = id("GU");
    let v = id("GV");
    let mut wallet = initialized(&a);
    wallet.credit(&a, u.clone(), 40).unwrap();
    wallet.debit(&a, u.clone(), 15).unwrap();
    assert_eq!(wallet.debit(&a, v.clone(), 1).err(), Some(LedgerError::InsufficientBalance));
    assert_eq!(wallet.balance(&v), 0);
    assert_eq!(wallet.balance(&u), 25);
}

#[test]
fn balance_before_init_reads_zero() {
    let wallet = RentWallet::new();
    assert_eq!(wallet.balance(&id("GU")), 0);
    assert!(!wallet.is_paused());
    assert!(wallet.admin().is_none());
}

#[test]
fn balance_is_credits_minus_debits() {
    let a = id("GA");
    let u = id("GU");
    let v = id("GV");
    let mut wallet = initialized(&a);
    let moves: [(bool, i128); 6] = [(true, 10), (true, 25), (false, 5), (true, 100), (false, 60), (false, 70)];
    let mut expected: i128 = 0;
    for (is_credit, amount) in moves {
        if is_credit {
            wallet.credit(&a, u.clone(), amount).unwrap();
            expected += amount;
        } else {
            wallet.debit(&a, u.clone(), amount).unwrap();
            expected -= amount;
        }
        wallet.credit(&a, v.clone(), 1).unwrap();
        assert_eq!(wallet.balance(&u), expected);
        assert!(wallet.balance(&u) >= 0);
    }
    assert_eq!(wallet.balance(&u), 0);
    assert_eq!(wallet.balance(&v), 6);
}

#[test]
fn debit_insufficient_exactly_when_amount_exceeds_balance() {
    let a = id("GA");
    let u = id("GU");
    let mut wallet = initialized(&a);
    wallet.credit(&a, u.clone(), 20).unwrap();
    assert_eq!(wallet.debit(&a, u.clone(), 21).err(), Some(LedgerError::InsufficientBalance));
    assert_eq!(wallet.balance(&u), 20);
    wallet.debit(&a, u.clone(), 20).unwrap();
    assert_eq!(wallet.balance(&u), 0);
}

#[test]
fn invalid_amount_for_zero_and_negative() {
    let a = id("GA");
    let u = id("GU");
    let mut wallet = initialized(&a);
    for amount in [0i128, -1, i128::MIN] {
        assert_eq!(wallet.credit(&a, u.clone(), amount).err(), Some(LedgerError::InvalidAmount));
        assert_eq!(wallet.debit(&a, u.clone(), amount).err(), Some(LedgerError::InvalidAmount));
    }
    assert_eq!(wallet.balance(&u), 0);
}

#[test]
fn check_order_admin_before_pause_before_amount() {
    let a = id("GA");
    let x = id("GX");
    let u = id("GU");
    let mut wallet = initialized(&a);
    wallet.pause(&a).unwrap();
    assert_eq!(wallet.credit(&x, u.clone(), 0).err(), Some(LedgerError::Unauthorized));
    assert_eq!(wallet.credit(&a, u.clone(), 0).err(), Some(LedgerError::ContractPaused));
    assert_eq!(wallet.debit(&a, u.clone(), -5).err(), Some(LedgerError::ContractPaused));
}

#[test]
fn paused_ledger_still_administers() {
    let a = id("GA");
    let b = id("GB");
    let u = id("GU");
    let mut wallet = initialized(&a);
    wallet.credit(&a, u.clone(), 9).unwrap();
    wallet.pause(&a).unwrap();
    wallet.pause(&a).unwrap();
    assert!(wallet.is_paused());
    wallet.set_admin(&a, b.clone()).unwrap();
    assert_eq!(wallet.debit(&b, u.clone(), 1).err(), Some(LedgerError::ContractPaused));
    assert_eq!(wallet.balance(&u), 9);
    wallet.unpause(&b).unwrap();
    wallet.unpause(&b).unwrap();
    assert!(!wallet.is_paused());
    wallet.debit(&b, u.clone(), 1).unwrap();
    assert_eq!(wallet.balance(&u), 8);
}

#[test]
fn init_refused_with_another_admin() {
    let a = id("GA");
    let b = id("GB");
    let u = id("GU");
    let mut wallet = initialized(&a);
    wallet.credit(&a, u.clone(), 3).unwrap();
    assert_eq!(wallet.init(b.clone()).err(), Some(LedgerError::AlreadyInitialized));
    assert!(wallet.admin() == Some(&a));
    assert_eq!(wallet.balance(&u), 3);
}

#[test]
fn admin_operations_before_init_are_refused() {
    let a = id("GA");
    let u = id("GU");
    let mut wallet = RentWallet::new();
    assert_eq!(wallet.credit(&a, u.clone(), 1).err(), Some(LedgerError::NotInitialized));
    assert_eq!(wallet.debit(&a, u.clone(), 1).err(), Some(LedgerError::NotInitialized));
    assert_eq!(wallet.set_admin(&a, u.clone()).err(), Some(LedgerError::NotInitialized));
    assert_eq!(wallet.pause(&a).err(), Some(LedgerError::NotInitialized));
    assert_eq!(wallet.unpause(&a).err(), Some(LedgerError::NotInitialized));
    assert!(!wallet.is_paused());
}

#[test]
fn stranger_is_refused_everything() {
    let a = id("GA");
    let x = id("GX");
    let u = id("GU");
    let mut wallet = initialized(&a);
    assert_eq!(wallet.credit(&x, u.clone(), 1).err(), Some(LedgerError::Unauthorized));
    assert_eq!(wallet.debit(&x, u.clone(), 1).err(), Some(LedgerError::Unauthorized));
    assert_eq!(wallet.set_admin(&x, x.clone()).err(), Some(LedgerError::Unauthorized));
    assert_eq!(wallet.pause(&x).err(), Some(LedgerError::Unauthorized));
    assert_eq!(wallet.unpause(&x).err(), Some(LedgerError::Unauthorized));
    assert!(wallet.admin() == Some(&a));
}

#[test]
fn set_admin_moves_authority() {
    let a = id("GA");
    let b = id("GB");
    let u = id("GU");
    let mut wallet = initialized(&a);
    wallet.set_admin(&a, b.clone()).unwrap();
    assert_eq!(wallet.credit(&a, u.clone(), 5).err(), Some(LedgerError::Unauthorized));
    assert_eq!(wallet.pause(&a).err(), Some(LedgerError::Unauthorized));
    wallet.credit(&b, u.clone(), 5).unwrap();
    wallet.pause(&b).unwrap();
    assert_eq!(wallet.balance(&u), 5);
}

#[test]
fn set_admin_to_itself_keeps_authority() {
    let a = id("GA");
    let mut wallet = initialized(&a);
    wallet.set_admin(&a, a.clone()).unwrap();
    wallet.pause(&a).unwrap();
    assert!(wallet.is_paused());
}

#[test]
fn credit_overflow_is_refused() {
    let a = id("GA");
    let u = id("GU");
    let mut wallet = initialized(&a);
    wallet.credit(&a, u.clone(), i128::MAX - 1).unwrap();
    assert_eq!(wallet.credit(&a, u.clone(), 2).err(), Some(LedgerError::Overflow));
    assert_eq!(wallet.balance(&u), i128::MAX - 1);
    wallet.credit(&a, u.clone(), 1).unwrap();
    assert_eq!(wallet.balance(&u), i128::MAX);
    assert_eq!(wallet.credit(&a, u.clone(), 1).err(), Some(LedgerError::Overflow));
}

#[test]
fn notifications_carry_amount_and_new_balance() {
    let a = id("GA");
    let b = id("GB");
    let u = id("GU");
    let mut wallet = RentWallet::new();
    match wallet.init(a.clone()).unwrap() {
        Notification::Init { admin } => assert!(admin == a),
        other => panic!("unexpected {:?}", other),
    }
    match wallet.credit(&a, u.clone(), 60).unwrap() {
        Notification::Credit { user, amount, new_balance } => {
            assert!(user == u);
            assert_eq!(amount, 60);
            assert_eq!(new_balance, 60);
        }
        other => panic!("unexpected {:?}", other),
    }
    match wallet.debit(&a, u.clone(), 45).unwrap() {
        Notification::Debit { user, amount, new_balance } => {
            assert!(user == u);
            assert_eq!(amount, 45);
            assert_eq!(new_balance, 15);
        }
        other => panic!("unexpected {:?}", other),
    }
    assert!(matches!(wallet.pause(&a).unwrap(), Notification::Pause));
    assert!(matches!(wallet.unpause(&a).unwrap(), Notification::Unpause));
    match wallet.set_admin(&a, b.clone()).unwrap() {
        Notification::SetAdmin { new_admin } => assert!(new_admin == b),
        other => panic!("unexpected {:?}", other),
    }
}

#[test]
fn restore_accepts_a_valid_table() {
    let a = id("GA");
    let u = id("GU");
    let v = id("GV");
    let entries = vec![
        BalanceEntry { account: u.clone(), amount: 12 },
        BalanceEntry { account: v.clone(), amount: 0 },
    ];
    let mut wallet = RentWallet::restore(Some(a.clone()), entries, true).unwrap();
    assert_eq!(wallet.balance(&u), 12);
    assert_eq!(wallet.balance(&v), 0);
    assert_eq!(wallet.balance(&id("GW")), 0);
    assert!(wallet.is_paused());
    wallet.unpause(&a).unwrap();
    wallet.debit(&a, u.clone(), 2).unwrap();
    assert_eq!(wallet.balance(&u), 10);
}

#[test]
fn restore_refuses_duplicates_and_negatives() {
    let u = id("GU");
    let v = id("GV");
    let twice = vec![
        BalanceEntry { account: u.clone(), amount: 1 },
        BalanceEntry { account: v.clone(), amount: 2 },
        BalanceEntry { account: u.clone(), amount: 3 },
    ];
    assert!(RentWallet::restore(None, twice, false).is_none());
    let negative = vec![BalanceEntry { account: u.clone(), amount: -1 }];
    assert!(RentWallet::restore(None, negative, false).is_none());
    assert!(RentWallet::restore(None, Vec::new(), false).is_some());
}

#[test]
fn account_ids_compare_by_bytes() {
    let u = id("GU");
    assert!(u == id("GU"));
    assert!(u != id("GV"));
    assert!(u != id("GUU"));
    assert!(id("") == id(""));
    let copy = u.duplicate();
    assert!(copy == u);
    assert_eq!(copy.key(), &b"GU".to_vec());
}
