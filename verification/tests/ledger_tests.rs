use mint_ledger::error::TodoError;
use mint_ledger::ledger::freeze_account;
use mint_ledger::ledger::mint_to;
use mint_ledger::ledger::HolderAccount;
use mint_ledger::ledger::Ledger;
use mint_ledger::registry::CustodianOption;
use mint_ledger::registry::Mint;
use mint_ledger::registry::Registry;
use mint_ledger::Identity;

const MINT_KEY: u64 = 3;

fn mint_with(supply: u64, mint_authority: Option<Identity>, freeze_authority: Option<Identity>) -> Mint {
    Mint {
        supply,
        mint_authority,
        freeze_authority,
        decimal_places: 0,
        is_mutable: false,
        custodian_option: CustodianOption::Absent,
        reserve: None,
    }
}

fn account_with(owner: Identity, balance: u64, frozen: bool) -> HolderAccount {
    HolderAccount { owner, mint_ref: MINT_KEY, balance, frozen }
}

#[test]
fn mint_to_raises_supply_and_balance_together() {
    let a = Identity { id: 1 };
    let h = Identity { id: 2 };
    let mut m = mint_with(5, Some(a), None);
    let mut acc = account_with(h, 7, false);
    assert_eq!(mint_to(&mut m, MINT_KEY, &mut acc, a, 100), Ok(()));
    assert_eq!(m.supply, 105);
    assert_eq!(acc.balance, 107);
    assert_eq!(acc.owner, h);
    assert!(!acc.frozen);
}

#[test]
fn supply_equals_sum_of_minted_amounts() {
    let a = Identity { id: 1 };
    let h = Identity { id: 2 };
    let mut m = mint_with(0, Some(a), None);
    let mut acc = account_with(h, 0, false);
    for amount in [30, 20, 50] {
        assert_eq!(mint_to(&mut m, MINT_KEY, &mut acc, a, amount), Ok(()));
    }
    assert_eq!(m.supply, 100);
    assert_eq!(acc.balance, 100);
}

#[test]
fn mint_to_rejects_wrong_caller_and_changes_nothing() {
    let a = Identity { id: 1 };
    let h = Identity { id: 2 };
    let mut m = mint_with(5, Some(a), None);
    let mut acc = account_with(h, 7, false);
    for id in [0, 2, 9, u64::MAX] {
        let r = mint_to(&mut m, MINT_KEY, &mut acc, Identity { id }, 10);
        assert_eq!(r, Err(TodoError::Unauthorized));
        assert_eq!(m.supply, 5);
        assert_eq!(acc.balance, 7);
    }
}

#[test]
fn mint_to_rejects_cross_mint_account() {
    let a = Identity { id: 1 };
    let h = Identity { id: 2 };
    let mut m = mint_with(5, Some(a), None);
    let mut acc = HolderAccount { owner: h, mint_ref: 77, balance: 7, frozen: false };
    let r = mint_to(&mut m, MINT_KEY, &mut acc, a, 10);
    assert_eq!(r, Err(TodoError::NotAllowed));
    assert_eq!(m.supply, 5);
    assert_eq!(acc.balance, 7);
}

#[test]
fn frozen_account_rejects_minting_even_for_the_authority() {
    let a = Identity { id: 1 };
    let h = Identity { id: 2 };
    let mut m = mint_with(5, Some(a), Some(a));
    let mut acc = account_with(h, 7, true);
    // correct authority
    assert_eq!(mint_to(&mut m, MINT_KEY, &mut acc, a, 10), Err(TodoError::FrozenAccount));
    // wrong caller: the freeze check still comes first
    assert_eq!(
        mint_to(&mut m, MINT_KEY, &mut acc, Identity { id: 9 }, 10),
        Err(TodoError::FrozenAccount)
    );
    assert_eq!(m.supply, 5);
    assert_eq!(acc.balance, 7);
}

#[test]
fn balance_overflow_fails_whole_operation_without_orphaned_supply() {
    let a = Identity { id: 1 };
    let h = Identity { id: 2 };
    let mut m = mint_with(5, Some(a), None);
    let mut acc = account_with(h, u64::MAX - 1, false);
    let r = mint_to(&mut m, MINT_KEY, &mut acc, a, 10);
    assert_eq!(r, Err(TodoError::MathOverflow));
    assert_eq!(m.supply, 5);
    assert_eq!(acc.balance, u64::MAX - 1);
}

#[test]
fn balance_reaching_exact_max_succeeds() {
    let a = Identity { id: 1 };
    let h = Identity { id: 2 };
    let mut m = mint_with(5, Some(a), None);
    let mut acc = account_with(h, u64::MAX - 10, false);
    assert_eq!(mint_to(&mut m, MINT_KEY, &mut acc, a, 10), Ok(()));
    assert_eq!(m.supply, 15);
    assert_eq!(acc.balance, u64::MAX);
}

#[test]
fn freeze_requires_the_freeze_authority() {
    let f = Identity { id: 4 };
    let h = Identity { id: 2 };
    let m = mint_with(5, None, Some(f));
    let mut acc = account_with(h, 7, false);
    assert_eq!(freeze_account(&m, MINT_KEY, &mut acc, h), Err(TodoError::Unauthorized));
    assert!(!acc.frozen);
    assert_eq!(freeze_account(&m, MINT_KEY, &mut acc, f), Ok(()));
    assert!(acc.frozen);
    assert_eq!(acc.balance, 7);
}

#[test]
fn freeze_fails_when_no_freeze_authority_exists() {
    let h = Identity { id: 2 };
    let m = mint_with(5, None, None);
    let mut acc = account_with(h, 7, false);
    for id in [0, 2, 9] {
        assert_eq!(
            freeze_account(&m, MINT_KEY, &mut acc, Identity { id }),
            Err(TodoError::Unauthorized)
        );
        assert!(!acc.frozen);
    }
}

#[test]
fn freeze_rejects_cross_mint_account() {
    let f = Identity { id: 4 };
    let h = Identity { id: 2 };
    let m = mint_with(5, None, Some(f));
    let mut acc = HolderAccount { owner: h, mint_ref: 77, balance: 7, frozen: false };
    assert_eq!(freeze_account(&m, MINT_KEY, &mut acc, f), Err(TodoError::NotAllowed));
    assert!(!acc.frozen);
}

#[test]
fn create_holder_account_initializes_record() {
    let a = Identity { id: 1 };
    let h = Identity { id: 2 };
    let mut reg = Registry::new();
    assert_eq!(reg.create_mint(MINT_KEY, a, 0, Some(a), None, false), Ok(()));
    let mut led = Ledger::new();
    assert_eq!(led.create_holder_account(&reg, 9, h, MINT_KEY), Ok(()));
    assert_eq!(led.accounts.len(), 1);
    assert_eq!(led.accounts[0].key, 9);
    let acc = led.accounts[0].value;
    assert_eq!(acc.owner, h);
    assert_eq!(acc.mint_ref, MINT_KEY);
    assert_eq!(acc.balance, 0);
    assert!(!acc.frozen);
}

#[test]
fn create_holder_account_requires_existing_mint() {
    let h = Identity { id: 2 };
    let reg = Registry::new();
    let mut led = Ledger::new();
    let r = led.create_holder_account(&reg, 9, h, MINT_KEY);
    assert_eq!(r, Err(TodoError::MintNotFound));
    assert_eq!(led.accounts.len(), 0);
}

#[test]
fn create_holder_account_twice_for_same_pair_fails() {
    let a = Identity { id: 1 };
    let h = Identity { id: 2 };
    let mut reg = Registry::new();
    assert_eq!(reg.create_mint(MINT_KEY, a, 0, Some(a), None, false), Ok(()));
    let mut led = Ledger::new();
    assert_eq!(led.create_holder_account(&reg, 9, h, MINT_KEY), Ok(()));
    // same key
    assert_eq!(
        led.create_holder_account(&reg, 9, Identity { id: 8 }, MINT_KEY),
        Err(TodoError::AlreadyInitialized)
    );
    // fresh key, same (owner, mint) pair
    assert_eq!(
        led.create_holder_account(&reg, 10, h, MINT_KEY),
        Err(TodoError::AlreadyInitialized)
    );
    // the first call's record is unaffected
    assert_eq!(led.accounts.len(), 1);
    assert_eq!(led.accounts[0].value.owner, h);
}

#[test]
fn same_owner_may_hold_accounts_under_distinct_mints() {
    let a = Identity { id: 1 };
    let h = Identity { id: 2 };
    let mut reg = Registry::new();
    assert_eq!(reg.create_mint(MINT_KEY, a, 0, Some(a), None, false), Ok(()));
    assert_eq!(reg.create_mint(50, a, 0, Some(a), None, false), Ok(()));
    let mut led = Ledger::new();
    assert_eq!(led.create_holder_account(&reg, 9, h, MINT_KEY), Ok(()));
    assert_eq!(led.create_holder_account(&reg, 10, h, 50), Ok(()));
    assert_eq!(led.accounts.len(), 2);
}

#[test]
fn mint_to_keys_reports_unresolved_keys() {
    let a = Identity { id: 1 };
    let mut reg = Registry::new();
    let mut led = Ledger::new();
    let r = led.mint_to_keys(&mut reg, MINT_KEY, 9, a, 1);
    assert_eq!(r, Err(TodoError::MintNotFound));
    assert_eq!(reg.create_mint(MINT_KEY, a, 0, Some(a), None, false), Ok(()));
    let r = led.mint_to_keys(&mut reg, MINT_KEY, 9, a, 1);
    assert_eq!(r, Err(TodoError::NotAllowed));
    assert_eq!(reg.mint_record(MINT_KEY).unwrap().supply, 0);
    assert_eq!(reg.mint_record(77), None);
    assert_eq!(led.holder_account(9), None);
}

#[test]
fn end_to_end_mint_scenario() {
    let a = Identity { id: 1 };
    let h = Identity { id: 2 };
    let mut reg = Registry::new();
    assert_eq!(reg.create_mint(MINT_KEY, a, 0, Some(a), None, false), Ok(()));
    let mut led = Ledger::new();
    assert_eq!(led.create_holder_account(&reg, 9, h, MINT_KEY), Ok(()));
    assert_eq!(led.mint_to_keys(&mut reg, MINT_KEY, 9, a, 100), Ok(()));
    assert_eq!(reg.mint_record(MINT_KEY).unwrap().supply, 100);
    assert_eq!(led.holder_account(9).unwrap().balance, 100);
}

#[test]
fn mint_to_keys_leaves_other_records_alone() {
    let a = Identity { id: 1 };
    let b = Identity { id: 3 };
    let h = Identity { id: 2 };
    let mut reg = Registry::new();
    assert_eq!(reg.create_mint(MINT_KEY, a, 0, Some(a), None, false), Ok(()));
    assert_eq!(reg.create_mint(50, b, 0, Some(b), None, false), Ok(()));
    let mut led = Ledger::new();
    assert_eq!(led.create_holder_account(&reg, 9, h, MINT_KEY), Ok(()));
    assert_eq!(led.create_holder_account(&reg, 10, h, 50), Ok(()));
    assert_eq!(led.mint_to_keys(&mut reg, MINT_KEY, 9, a, 100), Ok(()));
    assert_eq!(reg.mint_record(50).unwrap().supply, 0);
    assert_eq!(led.holder_account(10).unwrap().balance, 0);
    assert_eq!(reg.mint_record(MINT_KEY).unwrap().supply, 100);
}

#[test]
fn frozen_stored_account_rejects_mint_to_keys() {
    let a = Identity { id: 1 };
    let f = Identity { id: 4 };
    let h = Identity { id: 2 };
    let mut reg = Registry::new();
    assert_eq!(reg.create_mint(MINT_KEY, a, 0, Some(a), Some(f), false), Ok(()));
    let mut led = Ledger::new();
    assert_eq!(led.create_holder_account(&reg, 9, h, MINT_KEY), Ok(()));
    let mint = reg.mint_record(MINT_KEY).unwrap();
    let mut acc = led.holder_account(9).unwrap();
    assert_eq!(freeze_account(&mint, MINT_KEY, &mut acc, f), Ok(()));
    led.accounts[0].value = acc;
    let r = led.mint_to_keys(&mut reg, MINT_KEY, 9, a, 10);
    assert_eq!(r, Err(TodoError::FrozenAccount));
    assert_eq!(reg.mint_record(MINT_KEY).unwrap().supply, 0);
    assert_eq!(led.holder_account(9).unwrap().balance, 0);
}
